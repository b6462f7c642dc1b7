use linc::symbols::{elf_symbol_flags, ArtifactFormat, SymbolBinding, SymbolEntry, SymbolInventory, SymbolVisibility};

fn entry(name: &str, is_function: bool) -> SymbolEntry {
    SymbolEntry {
        name: name.into(),
        visibility: SymbolVisibility::Default,
        is_function,
        binding: SymbolBinding::Global,
        size: None,
        section: None,
    }
}

#[test]
fn symbol_inventory_has_symbol() {
    let inv = SymbolInventory {
        artifact_path: "test.o".into(),
        format: ArtifactFormat::ElfObject,
        symbols: vec![entry("foo", true), entry("bar", false)],
    };
    assert!(inv.has_symbol("foo"));
    assert!(inv.has_symbol("bar"));
    assert!(!inv.has_symbol("baz"));
}

#[test]
fn symbol_inventory_function_names() {
    let inv = SymbolInventory {
        artifact_path: "test.o".into(),
        format: ArtifactFormat::ElfObject,
        symbols: vec![entry("func1", true), entry("data1", false), entry("func2", true)],
    };
    let funcs = inv.function_names();
    assert_eq!(funcs, vec!["func1", "func2"]);
}

#[test]
fn elf_flags_decode_binding_and_visibility() {
    assert_eq!(elf_symbol_flags(0x12, 0), (SymbolVisibility::Default, SymbolBinding::Global));
    assert_eq!(elf_symbol_flags(0x22, 2), (SymbolVisibility::Hidden, SymbolBinding::Weak));
    assert_eq!(elf_symbol_flags(0x02, 3), (SymbolVisibility::Protected, SymbolBinding::Local));
    assert_eq!(elf_symbol_flags(0xa0, 0xfd), (SymbolVisibility::Internal, SymbolBinding::Unknown));
}

fn elf64_relocatable_header() -> Vec<u8> {
    let mut header = vec![0x7f, b'E', b'L', b'F', 2, 1, 1, 0];
    header.extend_from_slice(&[0; 8]);
    header.extend_from_slice(&1u16.to_le_bytes()); // e_type: relocatable
    header.extend_from_slice(&62u16.to_le_bytes()); // e_machine: x86-64
    header.extend_from_slice(&1u32.to_le_bytes()); // e_version
    header.extend_from_slice(&0u64.to_le_bytes()); // e_entry
    header.extend_from_slice(&0u64.to_le_bytes()); // e_phoff
    header.extend_from_slice(&0u64.to_le_bytes()); // e_shoff
    header.extend_from_slice(&0u32.to_le_bytes()); // e_flags
    header.extend_from_slice(&64u16.to_le_bytes()); // e_ehsize
    header.extend_from_slice(&0u16.to_le_bytes()); // e_phentsize
    header.extend_from_slice(&0u16.to_le_bytes()); // e_phnum
    header.extend_from_slice(&64u16.to_le_bytes()); // e_shentsize
    header.extend_from_slice(&0u16.to_le_bytes()); // e_shnum
    header.extend_from_slice(&0u16.to_le_bytes()); // e_shstrndx
    header
}

fn archive_with(name: &str, data: &[u8]) -> Vec<u8> {
    let mut archive = b"!<arch>\n".to_vec();
    let mut header = format!("{:<16}{:<12}{:<6}{:<6}{:<8}{:<10}`\n", name, 0, 0, 0, 644, data.len()).into_bytes();
    assert_eq!(header.len(), 60);
    archive.append(&mut header);
    archive.extend_from_slice(data);
    if data.len() % 2 == 1 {
        archive.push(b'\n');
    }
    archive
}

#[test]
fn unparsable_bytes_are_refused_with_the_artifact_path() {
    let result = linc::symbols::inspect_bytes(b"not an object file", "junk.bin".to_owned());
    let message = result.expect_err("garbage is not an object");
    assert!(message.starts_with("failed to parse junk.bin: "), "{message}");
}

#[test]
fn a_bare_elf_object_has_no_symbols() {
    let inventory = linc::symbols::inspect_bytes(&elf64_relocatable_header(), "empty.o".to_owned()).expect("ELF header");
    assert_eq!(inventory.artifact_path, "empty.o");
    assert_eq!(inventory.format, ArtifactFormat::ElfObject);
    assert!(inventory.symbols.is_empty());
}

#[test]
fn archives_pass_over_members_that_are_not_objects() {
    let empty = linc::symbols::inspect_bytes(b"!<arch>\n", "libempty.a".to_owned()).expect("empty archive");
    assert_eq!(empty.format, ArtifactFormat::ElfStaticLibrary);
    assert!(empty.symbols.is_empty());
    let junk = linc::symbols::inspect_bytes(&archive_with("junk.txt/", b"hello"), "libjunk.a".to_owned()).expect("archive");
    assert_eq!(junk.format, ArtifactFormat::ElfStaticLibrary);
    assert!(junk.symbols.is_empty());
    let object = linc::symbols::inspect_bytes(&archive_with("empty.o/", &elf64_relocatable_header()), "libone.a".to_owned())
        .expect("archive with an object");
    assert_eq!(object.artifact_path, "libone.a");
    assert!(object.symbols.is_empty());
}
