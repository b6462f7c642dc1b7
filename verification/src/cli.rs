//! Command-line parsing for the header scanner: commands, options and their
//! values, as plain data for the program to act on.
use vstd::prelude::*;
use vstd::string::StringExecFns;

use crate::text::str_eq;

verus! {

/// The C dialect a scan assumes.
#[derive(Debug, Clone, Copy, PartialEq, Eq, Structural)]
pub enum HeaderFlavor {
    GnuC11,
    ClangC11,
    StdC11,
}

/// `gnu`, `clang` and `std`, alone or with `-c11`.
pub open spec fn flavor_spec(value: Seq<char>) -> Option<HeaderFlavor> {
    if value == "gnu"@ || value == "gnu-c11"@ {
        Some(HeaderFlavor::GnuC11)
    } else if value == "clang"@ || value == "clang-c11"@ {
        Some(HeaderFlavor::ClangC11)
    } else if value == "std"@ || value == "std-c11"@ {
        Some(HeaderFlavor::StdC11)
    } else {
        None
    }
}

/// Each flavor name with the `-c11` suffix names the same flavor as the
/// short name, and the three short names name three different flavors.
pub proof fn lemma_flavor_aliases()
    ensures
        flavor_spec("gnu"@ + "-c11"@) == flavor_spec("gnu"@),
        flavor_spec("clang"@ + "-c11"@) == flavor_spec("clang"@),
        flavor_spec("std"@ + "-c11"@) == flavor_spec("std"@),
        flavor_spec("gnu"@) == Some(HeaderFlavor::GnuC11),
        flavor_spec("clang"@) == Some(HeaderFlavor::ClangC11),
        flavor_spec("std"@) == Some(HeaderFlavor::StdC11),
{
    reveal_strlit("gnu");
    reveal_strlit("gnu-c11");
    reveal_strlit("clang");
    reveal_strlit("clang-c11");
    reveal_strlit("std");
    reveal_strlit("std-c11");
    reveal_strlit("-c11");
    assert("gnu"@ + "-c11"@ =~= "gnu-c11"@);
    assert("clang"@ + "-c11"@ =~= "clang-c11"@);
    assert("std"@ + "-c11"@ =~= "std-c11"@);
    assert("std"@ != "gnu"@ && "std"@ != "gnu-c11"@ && "std"@ != "clang"@ && "std"@ != "clang-c11"@) by {
        assert("std"@[0] != "gnu"@[0]);
        assert("std"@.len() != "gnu-c11"@.len());
        assert("std"@[0] != "clang"@[0]);
        assert("std"@.len() != "clang-c11"@.len());
    }
    assert("std-c11"@ != "gnu"@ && "std-c11"@ != "gnu-c11"@ && "std-c11"@ != "clang"@ && "std-c11"@ != "clang-c11"@) by {
        assert("std-c11"@.len() != "gnu"@.len());
        assert("std-c11"@[0] != "gnu-c11"@[0]);
        assert("std-c11"@.len() != "clang"@.len());
        assert("std-c11"@.len() != "clang-c11"@.len());
    }
    assert("clang"@ != "gnu"@ && "clang"@ != "gnu-c11"@) by {
        assert("clang"@.len() != "gnu"@.len());
        assert("clang"@.len() != "gnu-c11"@.len());
    }
    assert("clang-c11"@ != "gnu"@ && "clang-c11"@ != "gnu-c11"@) by {
        assert("clang-c11"@.len() != "gnu"@.len());
        assert("clang-c11"@.len() != "gnu-c11"@.len());
    }
}

/// Only the six documented names name a flavor.
pub proof fn lemma_flavor_names(value: Seq<char>)
    ensures
        flavor_spec(value) is Some ==> value == "gnu"@ || value == "gnu-c11"@ || value == "clang"@ || value == "clang-c11"@
            || value == "std"@ || value == "std-c11"@,
{
}

pub fn parse_flavor(value: &str) -> (out: Option<HeaderFlavor>)
    ensures
        out == flavor_spec(value@),
{
    if str_eq(value, "gnu") || str_eq(value, "gnu-c11") {
        Some(HeaderFlavor::GnuC11)
    } else if str_eq(value, "clang") || str_eq(value, "clang-c11") {
        Some(HeaderFlavor::ClangC11)
    } else if str_eq(value, "std") || str_eq(value, "std-c11") {
        Some(HeaderFlavor::StdC11)
    } else {
        None
    }
}

/// The argument at `index`, which must follow the flag `flag`.
pub fn required_value<'a>(args: &'a [String], index: usize, flag: &str) -> (res: Result<&'a str, String>)
    ensures
        index < args@.len() ==> (res matches Ok(v) && v@ == args@[index as int]@),
        index >= args@.len() ==> (res matches Err(e) && e@ == "missing value for "@ + flag@),
{
    if index < args.len() {
        Ok(args[index].as_str())
    } else {
        Err("missing value for ".to_owned().concat(flag))
    }
}

/// The first index of `c` in `s`, if any.
pub open spec fn first_index_of(s: Seq<char>, c: char) -> Option<int> {
    if exists|i: int| 0 <= i < s.len() && s[i] == c && forall|j: int| 0 <= j < i ==> s[j] != c {
        Some(choose|i: int| 0 <= i < s.len() && s[i] == c && forall|j: int| 0 <= j < i ==> s[j] != c)
    } else {
        None
    }
}

/// `NAME=VALUE` splits at the first `=`; a define without `=` has no value.
pub open spec fn define_spec(define: Seq<char>) -> (Seq<char>, Option<Seq<char>>) {
    match first_index_of(define, '=') {
        Some(i) => (define.take(i), Some(define.skip(i + 1))),
        None => (define, None),
    }
}

/// A define splits at its first `=`: the name never holds `=`, and name,
/// `=` and value put back together give the define; without `=` the whole
/// define is the name.
pub proof fn lemma_define_split(define: Seq<char>)
    ensures
        !define_spec(define).0.contains('='),
        match define_spec(define).1 {
            Some(v) => define_spec(define).0 + seq!['='] + v == define,
            None => define_spec(define).0 == define && !define.contains('='),
        },
{
    match first_index_of(define, '=') {
        Some(i) => {
            assert(0 <= i < define.len() && define[i] == '=' && forall|j: int| 0 <= j < i ==> define[j] != '=');
            assert(define.take(i) + seq!['='] + define.skip(i + 1) =~= define);
            assert forall|k: int| 0 <= k < define.take(i).len() implies define.take(i)[k] != '=' by {
                assert(define.take(i)[k] == define[k]);
            }
        },
        None => {
            assert forall|k: int| 0 <= k < define.len() implies define[k] != '=' by {
                if define[k] == '=' {
                    assert(exists|m: int| 0 <= m <= k && define[m] == '=' && forall|j: int| 0 <= j < m ==> define[j] != '=') by {
                        lemma_first_equals(define, k);
                    }
                    assert(exists|i: int| 0 <= i < define.len() && define[i] == '=' && forall|j: int| 0 <= j < i ==> define[j] != '=');
                }
            }
        },
    }
}

/// Where `s[k]` is `=`, some position up to `k` holds the first `=`.
proof fn lemma_first_equals(s: Seq<char>, k: int)
    requires
        0 <= k < s.len(),
        s[k] == '=',
    ensures
        exists|m: int| 0 <= m <= k && s[m] == '=' && forall|j: int| 0 <= j < m ==> s[j] != '=',
    decreases k,
{
    if exists|j: int| 0 <= j < k && s[j] == '=' {
        let j = choose|j: int| 0 <= j < k && s[j] == '=';
        lemma_first_equals(s, j);
    } else {
        assert(forall|j: int| 0 <= j < k ==> s[j] != '=');
    }
}

/// Splits `NAME=VALUE` at its first `=`.
pub fn parse_define(define: &str) -> (out: (String, Option<String>))
    ensures
        out.0@ == define_spec(define@).0,
        match define_spec(define@).1 {
            Some(v) => out.1 matches Some(o) && o@ == v,
            None => out.1 is None,
        },
{
    let n = define.unicode_len();
    let mut i: usize = 0;
    while i < n
        invariant
            i <= n,
            n == define@.len(),
            forall|j: int| 0 <= j < i ==> define@[j] != '=',
        decreases n - i,
    {
        if define.get_char(i) == '=' {
            proof {
                let s = define@;
                assert(0 <= i < s.len() && s[i as int] == '=' && forall|j: int| 0 <= j < i ==> s[j] != '=');
                let k = choose|k: int| 0 <= k < s.len() && s[k] == '=' && forall|j: int| 0 <= j < k ==> s[j] != '=';
                if k < i {
                    assert(s[k] != '=');
                } else if i < k {
                    assert(s[i as int] != '=');
                }
            }
            let name = define.substring_char(0, i).to_owned();
            let value = define.substring_char(i + 1, n).to_owned();
            proof {
                assert(define@.skip(i + 1) =~= define@.subrange(i + 1, n as int));
            }
            return (name, Some(value));
        }
        i = i + 1;
    }
    proof {
        assert forall|k: int| !(0 <= k < define@.len() && define@[k] == '=' && forall|j: int| 0 <= j < k ==> define@[j] != '=') by {}
    }
    (define.to_owned(), None)
}

/// The help text.
pub fn usage() -> (out: String)
    ensures
        out@ == usage_text(),
        out@ == "Usage:\n  bic scan --header <path> [options]\n  bic scan-preprocessed --file <path> [options]\n\nscan options:\n  --header <path>\n  --include-dir <path>\n  --library-dir <path>\n  --define NAME[=VALUE]\n  --link-lib <name>\n  --link-static-lib <name>\n  --link-shared-lib <name>\n  --compiler <cmd>\n  --flavor <gnu|clang|std>\n  --no-origin-filter\n\nscan-preprocessed options:\n  --file <path>\n  --source-path <path>\n  --flavor <gnu|clang|std>"@,
{
    "Usage:\n  bic scan --header <path> [options]\n  bic scan-preprocessed --file <path> [options]\n\nscan options:\n  --header <path>\n  --include-dir <path>\n  --library-dir <path>\n  --define NAME[=VALUE]\n  --link-lib <name>\n  --link-static-lib <name>\n  --link-shared-lib <name>\n  --compiler <cmd>\n  --flavor <gnu|clang|std>\n  --no-origin-filter\n\nscan-preprocessed options:\n  --file <path>\n  --source-path <path>\n  --flavor <gnu|clang|std>".to_owned()
}

// ---------------------------------------------------------------------------
// `scan` options
// ---------------------------------------------------------------------------

/// One `scan` option, in the order given.
#[derive(Debug, Clone, PartialEq, Eq)]
pub enum ScanOption {
    Header(String),
    IncludeDir(String),
    LibraryDir(String),
    Define { name: String, value: Option<String> },
    LinkLib(String),
    LinkStaticLib(String),
    LinkSharedLib(String),
    Compiler(String),
    Flavor(HeaderFlavor),
    NoOriginFilter,
}

/// A `scan` option with its text as character sequences.
pub enum ScanOptionView {
    Header(Seq<char>),
    IncludeDir(Seq<char>),
    LibraryDir(Seq<char>),
    Define { name: Seq<char>, value: Option<Seq<char>> },
    LinkLib(Seq<char>),
    LinkStaticLib(Seq<char>),
    LinkSharedLib(Seq<char>),
    Compiler(Seq<char>),
    Flavor(HeaderFlavor),
    NoOriginFilter,
}

pub open spec fn option_view(o: ScanOption) -> ScanOptionView {
    match o {
        ScanOption::Header(v) => ScanOptionView::Header(v@),
        ScanOption::IncludeDir(v) => ScanOptionView::IncludeDir(v@),
        ScanOption::LibraryDir(v) => ScanOptionView::LibraryDir(v@),
        ScanOption::Define { name, value } => ScanOptionView::Define {
            name: name@,
            value: match value {
                Some(v) => Some(v@),
                None => None,
            },
        },
        ScanOption::LinkLib(v) => ScanOptionView::LinkLib(v@),
        ScanOption::LinkStaticLib(v) => ScanOptionView::LinkStaticLib(v@),
        ScanOption::LinkSharedLib(v) => ScanOptionView::LinkSharedLib(v@),
        ScanOption::Compiler(v) => ScanOptionView::Compiler(v@),
        ScanOption::Flavor(f) => ScanOptionView::Flavor(f),
        ScanOption::NoOriginFilter => ScanOptionView::NoOriginFilter,
    }
}

/// The option a value-taking flag makes of `value`, or why the value is refused.
pub open spec fn valued_option(flag: Seq<char>, value: Seq<char>) -> Result<ScanOptionView, Seq<char>> {
    if flag == "--header"@ {
        Ok(ScanOptionView::Header(value))
    } else if flag == "--include-dir"@ {
        Ok(ScanOptionView::IncludeDir(value))
    } else if flag == "--library-dir"@ {
        Ok(ScanOptionView::LibraryDir(value))
    } else if flag == "--define"@ {
        Ok(ScanOptionView::Define { name: define_spec(value).0, value: define_spec(value).1 })
    } else if flag == "--link-lib"@ {
        Ok(ScanOptionView::LinkLib(value))
    } else if flag == "--link-static-lib"@ {
        Ok(ScanOptionView::LinkStaticLib(value))
    } else if flag == "--link-shared-lib"@ {
        Ok(ScanOptionView::LinkSharedLib(value))
    } else if flag == "--compiler"@ {
        Ok(ScanOptionView::Compiler(value))
    } else {
        match flavor_spec(value) {
            Some(f) => Ok(ScanOptionView::Flavor(f)),
            None => Err("unsupported header flavor '"@ + value + "'"@),
        }
    }
}

pub open spec fn is_valued_flag(flag: Seq<char>) -> bool {
    flag == "--header"@ || flag == "--include-dir"@ || flag == "--library-dir"@ || flag == "--define"@ || flag
        == "--link-lib"@ || flag == "--link-static-lib"@ || flag == "--link-shared-lib"@ || flag == "--compiler"@
        || flag == "--flavor"@
}

/// The `scan` options from index `i` on: `Ok(None)` asks for help.
pub open spec fn scan_from(args: Seq<Seq<char>>, i: int) -> Result<Option<Seq<ScanOptionView>>, Seq<char>>
    decreases args.len() - i,
{
    if i < 0 || i >= args.len() {
        Ok(Some(Seq::empty()))
    } else {
        let flag = args[i];
        if is_valued_flag(flag) {
            if i + 1 >= args.len() {
                Err("missing value for "@ + flag)
            } else {
                match valued_option(flag, args[i + 1]) {
                    Err(e) => Err(e),
                    Ok(o) => prepend(o, scan_from(args, i + 2)),
                }
            }
        } else if flag == "--no-origin-filter"@ {
            prepend(ScanOptionView::NoOriginFilter, scan_from(args, i + 1))
        } else if flag == "--help"@ || flag == "-h"@ {
            Ok(None)
        } else {
            Err("unknown scan option '"@ + flag + "'"@)
        }
    }
}

pub open spec fn prepend(o: ScanOptionView, rest: Result<Option<Seq<ScanOptionView>>, Seq<char>>) -> Result<
    Option<Seq<ScanOptionView>>,
    Seq<char>,
> {
    match rest {
        Ok(Some(os)) => Ok(Some(seq![o] + os)),
        other => other,
    }
}

/// `acc` followed by what `rest` yields.
pub open spec fn after(acc: Seq<ScanOptionView>, rest: Result<Option<Seq<ScanOptionView>>, Seq<char>>) -> Result<
    Option<Seq<ScanOptionView>>,
    Seq<char>,
> {
    match rest {
        Ok(Some(os)) => Ok(Some(acc + os)),
        other => other,
    }
}

pub open spec fn args_view(args: Seq<String>) -> Seq<Seq<char>> {
    args.map_values(|a: String| a@)
}

fn valued(flag: &str, value: &str) -> (res: Result<ScanOption, String>)
    requires
        is_valued_flag(flag@),
    ensures
        match valued_option(flag@, value@) {
            Ok(o) => res matches Ok(r) && option_view(r) == o,
            Err(e) => res matches Err(r) && r@ == e,
        },
{
    if str_eq(flag, "--header") {
        Ok(ScanOption::Header(value.to_owned()))
    } else if str_eq(flag, "--include-dir") {
        Ok(ScanOption::IncludeDir(value.to_owned()))
    } else if str_eq(flag, "--library-dir") {
        Ok(ScanOption::LibraryDir(value.to_owned()))
    } else if str_eq(flag, "--define") {
        let (name, value) = parse_define(value);
        Ok(ScanOption::Define { name, value })
    } else if str_eq(flag, "--link-lib") {
        Ok(ScanOption::LinkLib(value.to_owned()))
    } else if str_eq(flag, "--link-static-lib") {
        Ok(ScanOption::LinkStaticLib(value.to_owned()))
    } else if str_eq(flag, "--link-shared-lib") {
        Ok(ScanOption::LinkSharedLib(value.to_owned()))
    } else if str_eq(flag, "--compiler") {
        Ok(ScanOption::Compiler(value.to_owned()))
    } else {
        match parse_flavor(value) {
            Some(f) => Ok(ScanOption::Flavor(f)),
            None => Err("unsupported header flavor '".to_owned().concat(value).concat("'")),
        }
    }
}

fn valued_flag(flag: &str) -> (out: bool)
    ensures
        out == is_valued_flag(flag@),
{
    str_eq(flag, "--header") || str_eq(flag, "--include-dir") || str_eq(flag, "--library-dir") || str_eq(
        flag,
        "--define",
    ) || str_eq(flag, "--link-lib") || str_eq(flag, "--link-static-lib") || str_eq(flag, "--link-shared-lib")
        || str_eq(flag, "--compiler") || str_eq(flag, "--flavor")
}

/// What the arguments of `scan` ask for.
#[derive(Debug, Clone, PartialEq, Eq)]
pub enum ScanArgs {
    Help,
    Options(Vec<ScanOption>),
}

/// Parses the arguments of `scan` into its options, in order.
pub fn parse_scan_args(args: &[String]) -> (res: Result<ScanArgs, String>)
    ensures
        match scan_from(args_view(args@), 0) {
            Ok(None) => res matches Ok(ScanArgs::Help),
            Ok(Some(os)) => res matches Ok(ScanArgs::Options(v)) && v@.map_values(|o: ScanOption| option_view(o))
                == os,
            Err(e) => res matches Err(r) && r@ == e,
        },
{
    let ghost view = args_view(args@);
    let mut options: Vec<ScanOption> = Vec::new();
    let mut i: usize = 0;
    assert(options@.map_values(|o: ScanOption| option_view(o)) =~= Seq::<ScanOptionView>::empty());
    while i < args.len()
        invariant
            i <= args@.len(),
            view == args_view(args@),
            scan_from(view, 0) == after(options@.map_values(|o: ScanOption| option_view(o)), scan_from(view, i as int)),
        decreases args@.len() - i,
    {
        let ghost acc = options@.map_values(|o: ScanOption| option_view(o));
        let flag = args[i].as_str();
        assert(flag@ == view[i as int]);
        if valued_flag(flag) {
            if i + 1 >= args.len() {
                return Err("missing value for ".to_owned().concat(flag));
            }
            let value = args[i + 1].as_str();
            assert(value@ == view[i + 1]);
            let option = valued(flag, value)?;
            options.push(option);
            proof {
                assert(options@.map_values(|o: ScanOption| option_view(o)) =~= acc.push(option_view(option)));
                let rest = scan_from(view, i + 2);
                match rest {
                    Ok(Some(os)) => {
                        assert(acc + (seq![option_view(option)] + os) =~= acc.push(option_view(option)) + os);
                    },
                    _ => {},
                }
            }
            i = i + 2;
        } else if str_eq(flag, "--no-origin-filter") {
            options.push(ScanOption::NoOriginFilter);
            proof {
                assert(options@.map_values(|o: ScanOption| option_view(o)) =~= acc.push(ScanOptionView::NoOriginFilter));
                let rest = scan_from(view, i + 1);
                match rest {
                    Ok(Some(os)) => {
                        assert(acc + (seq![ScanOptionView::NoOriginFilter] + os) =~= acc.push(
                            ScanOptionView::NoOriginFilter,
                        ) + os);
                    },
                    _ => {},
                }
            }
            i = i + 1;
        } else if str_eq(flag, "--help") || str_eq(flag, "-h") {
            return Ok(ScanArgs::Help);
        } else {
            return Err("unknown scan option '".to_owned().concat(flag).concat("'"));
        }
    }
    proof {
        assert(options@.map_values(|o: ScanOption| option_view(o)) + Seq::<ScanOptionView>::empty() =~= options@.map_values(
            |o: ScanOption| option_view(o),
        ));
    }
    Ok(ScanArgs::Options(options))
}

// ---------------------------------------------------------------------------
// `scan-preprocessed` options and commands
// ---------------------------------------------------------------------------

/// What the arguments of `scan-preprocessed` ask for.
#[derive(Debug, Clone, PartialEq, Eq)]
pub enum PreprocessedArgs {
    Help,
    Run { file: String, source_path: Option<String>, flavor: HeaderFlavor },
}

pub open spec fn opt_view(o: Option<String>) -> Option<Seq<char>> {
    match o {
        Some(s) => Some(s@),
        None => None,
    }
}

/// The `scan-preprocessed` outcome from index `i` on, given the file, source
/// path and flavor chosen so far; later flags override earlier ones.
pub open spec fn preprocessed_from(
    args: Seq<Seq<char>>,
    i: int,
    file: Option<Seq<char>>,
    source_path: Option<Seq<char>>,
    flavor: HeaderFlavor,
) -> Result<Option<(Seq<char>, Option<Seq<char>>, HeaderFlavor)>, Seq<char>>
    decreases args.len() - i,
{
    if i < 0 || i >= args.len() {
        match file {
            Some(f) => Ok(Some((f, source_path, flavor))),
            None => Err("scan-preprocessed requires --file"@),
        }
    } else {
        let flag = args[i];
        if flag == "--file"@ || flag == "--source-path"@ || flag == "--flavor"@ {
            if i + 1 >= args.len() {
                Err("missing value for "@ + flag)
            } else if flag == "--file"@ {
                preprocessed_from(args, i + 2, Some(args[i + 1]), source_path, flavor)
            } else if flag == "--source-path"@ {
                preprocessed_from(args, i + 2, file, Some(args[i + 1]), flavor)
            } else {
                match flavor_spec(args[i + 1]) {
                    Some(f) => preprocessed_from(args, i + 2, file, source_path, f),
                    None => Err("unsupported preprocessed flavor '"@ + args[i + 1] + "'"@),
                }
            }
        } else if flag == "--help"@ || flag == "-h"@ {
            Ok(None)
        } else {
            Err("unknown scan-preprocessed option '"@ + flag + "'"@)
        }
    }
}

/// Parses the arguments of `scan-preprocessed`.
pub fn parse_scan_preprocessed_args(args: &[String]) -> (res: Result<PreprocessedArgs, String>)
    ensures
        match preprocessed_from(args_view(args@), 0, None, None, HeaderFlavor::GnuC11) {
            Ok(None) => res matches Ok(PreprocessedArgs::Help),
            Ok(Some((f, p, fl))) => res matches Ok(PreprocessedArgs::Run { file, source_path, flavor }) && file@ == f
                && opt_view(source_path) == p && flavor == fl,
            Err(e) => res matches Err(r) && r@ == e,
        },
{
    let ghost view = args_view(args@);
    let mut file: Option<String> = None;
    let mut source_path: Option<String> = None;
    let mut flavor = HeaderFlavor::GnuC11;
    let mut i: usize = 0;
    while i < args.len()
        invariant
            i <= args@.len(),
            view == args_view(args@),
            preprocessed_from(view, 0, None, None, HeaderFlavor::GnuC11) == preprocessed_from(
                view,
                i as int,
                opt_view(file),
                opt_view(source_path),
                flavor,
            ),
        decreases args@.len() - i,
    {
        let flag = args[i].as_str();
        assert(flag@ == view[i as int]);
        if str_eq(flag, "--file") || str_eq(flag, "--source-path") || str_eq(flag, "--flavor") {
            let value = required_value(args, i + 1, flag)?;
            assert(value@ == view[i + 1]);
            if str_eq(flag, "--file") {
                file = Some(value.to_owned());
            } else if str_eq(flag, "--source-path") {
                source_path = Some(value.to_owned());
            } else {
                match parse_flavor(value) {
                    Some(f) => {
                        flavor = f;
                    },
                    None => {
                        return Err("unsupported preprocessed flavor '".to_owned().concat(value).concat("'"));
                    },
                }
            }
            i = i + 2;
        } else if str_eq(flag, "--help") || str_eq(flag, "-h") {
            return Ok(PreprocessedArgs::Help);
        } else {
            return Err("unknown scan-preprocessed option '".to_owned().concat(flag).concat("'"));
        }
    }
    match file {
        Some(file) => Ok(PreprocessedArgs::Run { file, source_path, flavor }),
        None => Err("scan-preprocessed requires --file".to_owned()),
    }
}

/// The command the program's arguments name.
#[derive(Debug, Clone, PartialEq, Eq)]
pub enum Command {
    Scan(ScanArgs),
    ScanPreprocessed(PreprocessedArgs),
    Help,
}

/// Parses the program's arguments (without the program name).
pub fn parse_command(args: &[String]) -> (res: Result<Command, String>)
    ensures
        args@.len() == 0 ==> (res matches Err(e) && e@ == usage_text()),
        args@.len() > 0 && args@[0]@ == "scan"@ ==> match scan_from(args_view(args@), 1) {
            Ok(None) => res matches Ok(Command::Scan(ScanArgs::Help)),
            Ok(Some(os)) => res matches Ok(Command::Scan(ScanArgs::Options(v))) && v@.map_values(
                |o: ScanOption| option_view(o),
            ) == os,
            Err(e) => res matches Err(r) && r@ == e,
        },
        args@.len() > 0 && args@[0]@ == "scan-preprocessed"@ ==> match preprocessed_from(
            args_view(args@),
            1,
            None,
            None,
            HeaderFlavor::GnuC11,
        ) {
            Ok(None) => res matches Ok(Command::ScanPreprocessed(PreprocessedArgs::Help)),
            Ok(Some((f, p, fl))) => res matches Ok(
                Command::ScanPreprocessed(PreprocessedArgs::Run { file, source_path, flavor }),
            ) && file@ == f && opt_view(source_path) == p && flavor == fl,
            Err(e) => res matches Err(r) && r@ == e,
        },
        args@.len() > 0 && (args@[0]@ == "--help"@ || args@[0]@ == "-h"@ || args@[0]@ == "help"@) ==> res matches Ok(
            Command::Help,
        ),
        args@.len() > 0 && args@[0]@ != "scan"@ && args@[0]@ != "scan-preprocessed"@ && args@[0]@ != "--help"@
            && args@[0]@ != "-h"@ && args@[0]@ != "help"@ ==> (res matches Err(e) && e@ == "unknown command '"@
            + args@[0]@ + "'\n\n"@ + usage_text()),
{
    if args.len() == 0 {
        return Err(usage());
    }
    let command = args[0].as_str();
    let rest = vstd::slice::slice_subrange(args, 1, args.len());
    proof {
        reveal_strlit("scan");
        reveal_strlit("scan-preprocessed");
        reveal_strlit("--help");
        reveal_strlit("-h");
        reveal_strlit("help");
        assert("scan"@.len() == 4);
        assert("scan-preprocessed"@.len() == 17);
        assert("--help"@.len() == 6);
        assert("-h"@.len() == 2);
        assert("help"@[0] == 'h');
        assert("scan"@[0] == 's');
        assert(args_view(rest@) =~= args_view(args@).skip(1));
        lemma_scan_from_shift(args_view(args@), 1);
        lemma_preprocessed_from_shift(args_view(args@), 1, None, None, HeaderFlavor::GnuC11);
    }
    if str_eq(command, "scan") {
        Ok(Command::Scan(parse_scan_args(rest)?))
    } else if str_eq(command, "scan-preprocessed") {
        Ok(Command::ScanPreprocessed(parse_scan_preprocessed_args(rest)?))
    } else if str_eq(command, "--help") || str_eq(command, "-h") || str_eq(command, "help") {
        Ok(Command::Help)
    } else {
        Err("unknown command '".to_owned().concat(command).concat("'\n\n").concat(usage().as_str()))
    }
}

pub open spec fn usage_text() -> Seq<char> {
    "Usage:\n  bic scan --header <path> [options]\n  bic scan-preprocessed --file <path> [options]\n\nscan options:\n  --header <path>\n  --include-dir <path>\n  --library-dir <path>\n  --define NAME[=VALUE]\n  --link-lib <name>\n  --link-static-lib <name>\n  --link-shared-lib <name>\n  --compiler <cmd>\n  --flavor <gnu|clang|std>\n  --no-origin-filter\n\nscan-preprocessed options:\n  --file <path>\n  --source-path <path>\n  --flavor <gnu|clang|std>"@
}

/// Parsing from index `k` of `args` is parsing from `k - d` of `args` without
/// its first `d` arguments.
proof fn lemma_scan_from_shift(args: Seq<Seq<char>>, d: int)
    requires
        0 <= d <= args.len(),
    ensures
        forall|k: int| d <= k ==> #[trigger] scan_from(args, k) == scan_from(args.skip(d), k - d),
{
    assert forall|k: int| d <= k implies #[trigger] scan_from(args, k) == scan_from(args.skip(d), k - d) by {
        lemma_scan_from_shift_at(args, d, k);
    }
}

proof fn lemma_scan_from_shift_at(args: Seq<Seq<char>>, d: int, k: int)
    requires
        0 <= d <= args.len(),
        d <= k,
    ensures
        scan_from(args, k) == scan_from(args.skip(d), k - d),
    decreases args.len() - k,
{
    if k < args.len() {
        lemma_scan_from_shift_at(args, d, k + 1);
        if k + 2 <= args.len() {
            lemma_scan_from_shift_at(args, d, k + 2);
        }
    }
}

proof fn lemma_preprocessed_from_shift(
    args: Seq<Seq<char>>,
    d: int,
    file: Option<Seq<char>>,
    source_path: Option<Seq<char>>,
    flavor: HeaderFlavor,
)
    requires
        0 <= d <= args.len(),
    ensures
        preprocessed_from(args, d, file, source_path, flavor) == preprocessed_from(args.skip(d), 0, file, source_path, flavor),
{
    lemma_preprocessed_from_shift_at(args, d, d, file, source_path, flavor);
}

proof fn lemma_preprocessed_from_shift_at(
    args: Seq<Seq<char>>,
    d: int,
    k: int,
    file: Option<Seq<char>>,
    source_path: Option<Seq<char>>,
    flavor: HeaderFlavor,
)
    requires
        0 <= d <= args.len(),
        d <= k,
    ensures
        preprocessed_from(args, k, file, source_path, flavor) == preprocessed_from(args.skip(d), k - d, file, source_path, flavor),
    decreases args.len() - k,
{
    if k < args.len() && k + 1 < args.len() {
        lemma_preprocessed_from_shift_at(args, d, k + 2, Some(args[k + 1]), source_path, flavor);
        lemma_preprocessed_from_shift_at(args, d, k + 2, file, Some(args[k + 1]), flavor);
        lemma_preprocessed_from_shift_at(args, d, k + 2, file, source_path, HeaderFlavor::GnuC11);
        lemma_preprocessed_from_shift_at(args, d, k + 2, file, source_path, HeaderFlavor::ClangC11);
        lemma_preprocessed_from_shift_at(args, d, k + 2, file, source_path, HeaderFlavor::StdC11);
    }
}

} // verus!
