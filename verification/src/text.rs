//! Text and native-string checks shared by the contract constructors.
use vstd::prelude::*;

use crate::bytes::bytes_equal;
use crate::contract::identity::text_bytes;
use vstd::string::StringExecFns;

verus! {

broadcast use vstd::string::axiom_spec_iter, vstd::string::next_postcondition;

/// An owned copy of `value`.
pub fn owned_text(value: &str) -> (out: String)
    ensures
        out@ == value@,
{
    String::from_str(value)
}

/// Whether `value` contains the character `target`.
pub fn text_contains(value: &str, target: char) -> (out: bool)
    ensures
        out <==> value@.contains(target),
{
    let ghost chars = value@;
    let mut found = false;
    for c in it: value.chars()
        invariant
            chars == value@,
            it.seq() == chars,
            found <==> exists|j: int| 0 <= j < it.index() && chars[j] == target,
    {
        if c == target {
            found = true;
        }
    }
    proof {
        if found {
            let j = choose|j: int| 0 <= j < chars.len() && chars[j] == target;
            assert(chars[j] == target);
            assert(chars.contains(target));
        }
    }
    found
}

/// Whether two strings hold the same characters.
pub fn str_eq(a: &str, b: &str) -> (out: bool)
    ensures
        out <==> a@ == b@,
{
    let ab = text_bytes(a);
    let bb = text_bytes(b);
    let same = bytes_equal(ab.as_slice(), bb.as_slice());
    proof {
        vstd::utf8::encode_utf8_decode_utf8(a@);
        vstd::utf8::encode_utf8_decode_utf8(b@);
    }
    same
}

} // verus!
