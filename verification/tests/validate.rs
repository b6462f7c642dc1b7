use linc::symbols::{ArtifactFormat, SymbolBinding, SymbolEntry, SymbolInventory, SymbolVisibility};
use linc::validate::{validate, BindingItem, BindingPackage, MatchStatus};

fn make_inventory(funcs: &[&str], data: &[&str]) -> SymbolInventory {
    let mut symbols = Vec::new();
    for name in funcs {
        symbols.push(SymbolEntry {
            name: name.to_string(),
            visibility: SymbolVisibility::Default,
            is_function: true,
            binding: SymbolBinding::Global,
            size: None,
            section: None,
        });
    }
    for name in data {
        symbols.push(SymbolEntry {
            name: name.to_string(),
            visibility: SymbolVisibility::Default,
            is_function: false,
            binding: SymbolBinding::Global,
            size: None,
            section: None,
        });
    }
    SymbolInventory { artifact_path: "test.o".into(), format: ArtifactFormat::ElfObject, symbols }
}

fn make_package(func_names: &[&str]) -> BindingPackage {
    BindingPackage { items: func_names.iter().map(|name| BindingItem::Function { name: name.to_string() }).collect() }
}

#[test]
fn all_functions_matched() {
    let inv = make_inventory(&["foo", "bar"], &[]);
    let pkg = make_package(&["foo", "bar"]);
    let report = validate(&pkg, &inv);
    assert!(report.all_matched());
    assert_eq!(report.matched().len(), 2);
    assert_eq!(report.missing().len(), 0);
}

#[test]
fn some_functions_missing() {
    let inv = make_inventory(&["foo"], &[]);
    let pkg = make_package(&["foo", "bar", "baz"]);
    let report = validate(&pkg, &inv);
    assert!(!report.all_matched());
    assert_eq!(report.matched().len(), 1);
    assert_eq!(report.missing().len(), 2);
}

#[test]
fn symbol_exists_but_not_function() {
    let inv = make_inventory(&[], &["data_sym"]);
    let pkg = make_package(&["data_sym"]);
    let report = validate(&pkg, &inv);
    assert!(!report.all_matched());
    assert_eq!(report.matches[0].status, MatchStatus::NotAFunction);
}

#[test]
fn empty_package() {
    let inv = make_inventory(&["foo"], &[]);
    let pkg = make_package(&[]);
    let report = validate(&pkg, &inv);
    assert!(report.all_matched());
    assert_eq!(report.matches.len(), 0);
}

#[test]
fn non_function_items_ignored() {
    let inv = make_inventory(&["foo"], &[]);
    let mut pkg = make_package(&["foo"]);
    pkg.items.push(BindingItem::TypeAlias { name: "my_type".into() });
    let report = validate(&pkg, &inv);
    assert_eq!(report.matches.len(), 1);
    assert!(report.all_matched());
}

#[test]
fn the_first_symbol_of_a_name_decides() {
    let mut inv = make_inventory(&[], &["dup"]);
    inv.symbols.push(SymbolEntry {
        name: "dup".into(),
        visibility: SymbolVisibility::Default,
        is_function: true,
        binding: SymbolBinding::Global,
        size: None,
        section: None,
    });
    let report = validate(&make_package(&["dup", "nothing"]), &inv);
    assert_eq!(report.matches[0].status, MatchStatus::NotAFunction);
    assert_eq!(report.matches[1].status, MatchStatus::Missing);
    assert_eq!(report.missing()[0].name, "nothing");
}
