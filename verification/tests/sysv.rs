use linc::native::sysv::{merge_class, return_convention, EightbyteClass, Eightbytes};
use linc::native::{ReturnConvention, ValuePassing};

#[test]
fn integer_dominates_sse_in_one_eightbyte() {
    assert_eq!(merge_class(EightbyteClass::Sse, EightbyteClass::Integer), EightbyteClass::Integer);
}

#[test]
fn two_populated_eightbytes_split_registers() {
    let mut classes = Eightbytes::new();
    classes.merge_range(0, 64, EightbyteClass::Integer).unwrap();
    classes.merge_range(64, 64, EightbyteClass::Sse).unwrap();
    assert_eq!(classes.passing(128).unwrap(), ValuePassing::SplitRegisters);
}

#[test]
fn values_larger_than_two_eightbytes_are_indirect() {
    let mut classes = Eightbytes::new();
    classes.merge_range(0, 192, EightbyteClass::Integer).unwrap();
    assert_eq!(classes.passing(192).unwrap(), ValuePassing::Indirect);
}

#[test]
fn merge_is_commutative_on_concrete_classes() {
    let all = [EightbyteClass::NoClass, EightbyteClass::Integer, EightbyteClass::Sse];
    for a in all {
        for b in all {
            assert_eq!(merge_class(a, b), merge_class(b, a));
        }
        assert_eq!(merge_class(a, a), a);
        assert_eq!(merge_class(EightbyteClass::NoClass, a), a);
    }
}

#[test]
fn return_conventions_follow_passing() {
    assert_eq!(return_convention(ValuePassing::Direct), ReturnConvention::Direct);
    assert_eq!(return_convention(ValuePassing::SplitRegisters), ReturnConvention::RegisterPair);
    assert_eq!(return_convention(ValuePassing::Indirect), ReturnConvention::IndirectSret);
}
