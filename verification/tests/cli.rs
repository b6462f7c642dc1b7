use linc::cli::{
    parse_command, parse_define, parse_flavor, parse_scan_args, parse_scan_preprocessed_args, required_value, usage,
    Command, HeaderFlavor, PreprocessedArgs, ScanArgs, ScanOption,
};

fn args(values: &[&str]) -> Vec<String> {
    values.iter().map(|v| v.to_string()).collect()
}

#[test]
fn defines_split_at_the_first_equals() {
    assert_eq!(parse_define("A=1"), ("A".to_string(), Some("1".to_string())));
    assert_eq!(parse_define("A=B=C"), ("A".to_string(), Some("B=C".to_string())));
    assert_eq!(parse_define("A"), ("A".to_string(), None));
    assert_eq!(parse_define("=x"), (String::new(), Some("x".to_string())));
}

#[test]
fn flag_values_must_be_present() {
    let a = args(&["--header", "x.h"]);
    assert_eq!(required_value(&a, 1, "--header"), Ok("x.h"));
    assert_eq!(required_value(&a, 2, "--header"), Err("missing value for --header".to_string()));
}

#[test]
fn flavors_accept_short_and_c11_names() {
    assert_eq!(parse_flavor("gnu"), Some(HeaderFlavor::GnuC11));
    assert_eq!(parse_flavor("clang-c11"), Some(HeaderFlavor::ClangC11));
    assert_eq!(parse_flavor("std"), Some(HeaderFlavor::StdC11));
    assert_eq!(parse_flavor("msvc"), None);
}

#[test]
fn scan_options_keep_their_order() {
    let parsed = parse_scan_args(&args(&[
        "--header", "a.h", "--define", "N=1", "--no-origin-filter", "--flavor", "clang", "--link-lib", "z",
    ]))
    .unwrap();
    assert_eq!(
        parsed,
        ScanArgs::Options(vec![
            ScanOption::Header("a.h".into()),
            ScanOption::Define { name: "N".into(), value: Some("1".into()) },
            ScanOption::NoOriginFilter,
            ScanOption::Flavor(HeaderFlavor::ClangC11),
            ScanOption::LinkLib("z".into()),
        ])
    );
    assert_eq!(parse_scan_args(&args(&["--header", "a.h", "-h"])), Ok(ScanArgs::Help));
    assert_eq!(parse_scan_args(&args(&["--bogus"])), Err("unknown scan option '--bogus'".to_string()));
    assert_eq!(parse_scan_args(&args(&["--compiler"])), Err("missing value for --compiler".to_string()));
    assert_eq!(parse_scan_args(&args(&["--flavor", "k&r"])), Err("unsupported header flavor 'k&r'".to_string()));
}

#[test]
fn preprocessed_scans_need_a_file() {
    assert_eq!(
        parse_scan_preprocessed_args(&args(&["--file", "a.i", "--flavor", "std", "--file", "b.i"])),
        Ok(PreprocessedArgs::Run { file: "b.i".into(), source_path: None, flavor: HeaderFlavor::StdC11 })
    );
    assert_eq!(
        parse_scan_preprocessed_args(&args(&["--source-path", "x.h"])),
        Err("scan-preprocessed requires --file".to_string())
    );
    assert_eq!(
        parse_scan_preprocessed_args(&args(&["--flavor", "x"])),
        Err("unsupported preprocessed flavor 'x'".to_string())
    );
}

#[test]
fn commands_are_named_first() {
    assert_eq!(parse_command(&[]), Err(usage()));
    assert_eq!(parse_command(&args(&["help"])), Ok(Command::Help));
    assert_eq!(parse_command(&args(&["scan"])), Ok(Command::Scan(ScanArgs::Options(vec![]))));
    assert_eq!(
        parse_command(&args(&["frobnicate"])),
        Err(format!("unknown command 'frobnicate'\n\n{}", usage()))
    );
    assert!(usage().starts_with("Usage:\n  bic scan --header <path> [options]"));
    assert!(usage().ends_with("  --flavor <gnu|clang|std>"));
}
