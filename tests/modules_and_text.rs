use sourcegen_cli::format::{rustfmt_output, Formatter};
use sourcegen_cli::model::SourcegenErrorKind;
use sourcegen_cli::mods::{unraw_name, ModResolver, ModuleCandidates};
use sourcegen_cli::packages::{contains_name, invalid_package_names, join_names, selects_package};
use sourcegen_cli::replacements::{region_less, Replacements};
use sourcegen_cli::splice::{render_expansions, splices_fit_check, Region, Splice};
use sourcegen_cli::tokens::{NewLine, PlainComment};

fn search(name: &str) -> ModuleCandidates {
    let r = ModResolver::new("src".to_string());
    r.module_candidates(&"src/lib.rs".to_string(), &name.to_string(), &vec![]).unwrap()
}

#[test]
fn flat_module_file_wins() {
    assert_eq!(search("one").resolve(true, true).unwrap(), "src/one.rs");
    assert_eq!(search("one").resolve(false, true).unwrap(), "src/one/mod.rs");
}

#[test]
fn module_without_file_fails() {
    match search("one").resolve(false, false) {
        Err(SourcegenErrorKind::CannotResolveModule(p, n)) => {
            assert_eq!(p, "src/one/mod.rs");
            assert_eq!(n, "one");
        }
        other => panic!("unexpected {:?}", other),
    }
}

#[test]
fn raw_module_names_are_unescaped() {
    assert_eq!(unraw_name(&"r#type".to_string()), "type");
    assert_eq!(unraw_name(&"r#r#x".to_string()), "x");
    assert_eq!(unraw_name(&"rx".to_string()), "rx");
    match search("r#match") {
        ModuleCandidates::Search { flat, nested, name } => {
            assert_eq!(flat, "src/match.rs");
            assert_eq!(nested, "src/match/mod.rs");
            assert_eq!(name, "match");
        }
        other => panic!("unexpected {:?}", other),
    }
}

#[test]
fn nested_resolvers_follow_the_file_layout() {
    let r = ModResolver::new("src".to_string());
    assert_eq!(r.push_module("six").push_module("seven").base, "src/six/seven");
    assert_eq!(ModResolver::for_file(&"src/lib.rs".to_string(), false).unwrap().base, "src");
    assert_eq!(ModResolver::for_file(&"src/two/mod.rs".to_string(), false).unwrap().base, "src/two");
    assert_eq!(ModResolver::for_file(&"src/one.rs".to_string(), false).unwrap().base, "src/one");
    assert_eq!(ModResolver::for_file(&"src/bin/tool.rs".to_string(), true).unwrap().base, "src/bin");
    assert!(ModResolver::for_file(&"/".to_string(), false).is_none());
}

fn splice(from: usize, to: usize, indent: usize, text: &str) -> Splice {
    Splice { region: Region { from, to, indent }, text: text.as_bytes().to_vec() }
}

#[test]
fn continuation_lines_are_indented() {
    let src = "mod m {\n    X\n}\n";
    let at = src.find('X').unwrap();
    let out = render_expansions(src.as_bytes(), &vec![splice(at, at + 1, 4, "a\nb {\n}\n")], false);
    assert_eq!(String::from_utf8(out).unwrap(), "mod m {\n    a\n    b {\n    }\n}\n");
}

#[test]
fn crlf_files_stay_crlf() {
    let src = "a\r\nX\r\nz\r\n";
    let at = src.find('X').unwrap();
    let out = render_expansions(src.as_bytes(), &vec![splice(at, at + 1, 2, "p\nq\r\nr\n")], false);
    assert_eq!(String::from_utf8(out).unwrap(), "a\r\np\r\n  q\r\n  r\r\nz\r\n");
}

#[test]
fn empty_block_removes_region() {
    let src = "keep DROP keep";
    let out = render_expansions(src.as_bytes(), &vec![splice(5, 10, 0, "")], false);
    assert_eq!(String::from_utf8(out).unwrap(), "keep keep");
}

#[test]
fn text_between_regions_is_copied() {
    let src = "0123456789";
    let out = render_expansions(src.as_bytes(), &vec![splice(1, 3, 0, "A"), splice(5, 6, 0, "B\n")], false);
    assert_eq!(String::from_utf8(out).unwrap(), "0A34B6789");
    let same = render_expansions(src.as_bytes(), &vec![], false);
    assert_eq!(same, src.as_bytes());
}

#[test]
fn whole_file_block_ends_with_line_ending() {
    let src = "head\r\nold";
    let out = render_expansions(src.as_bytes(), &vec![splice(6, 9, 0, "new\n")], true);
    assert_eq!(String::from_utf8(out).unwrap(), "head\r\nnew\r\n");
    let out = render_expansions(src.as_bytes(), &vec![splice(6, 9, 0, "new\n")], false);
    assert_eq!(String::from_utf8(out).unwrap(), "head\r\nnew");
}

#[test]
fn overlapping_regions_do_not_fit() {
    assert!(splices_fit_check(&vec![splice(0, 2, 0, ""), splice(2, 4, 0, "")], 4));
    assert!(!splices_fit_check(&vec![splice(0, 3, 0, ""), splice(2, 4, 0, "")], 4));
    assert!(!splices_fit_check(&vec![splice(3, 2, 0, "")], 4));
    assert!(!splices_fit_check(&vec![splice(0, 5, 0, "")], 4));
}

#[test]
fn replacements_stay_sorted_and_unique() {
    let mut r = Replacements::new();
    r.insert(Region { from: 10, to: 20, indent: 0 }, 1);
    r.insert(Region { from: 0, to: 5, indent: 4 }, 2);
    r.insert(Region { from: 10, to: 12, indent: 0 }, 3);
    r.insert(Region { from: 10, to: 20, indent: 0 }, 4);
    let froms: Vec<(usize, usize, usize)> = r.entries.iter().map(|(g, v)| (g.from, g.to, *v)).collect();
    assert_eq!(froms, vec![(0, 5, 2), (10, 12, 3), (10, 20, 4)]);
    assert!(region_less(&Region { from: 1, to: 9, indent: 0 }, &Region { from: 1, to: 9, indent: 1 }));
    assert!(!region_less(&Region { from: 2, to: 0, indent: 0 }, &Region { from: 1, to: 9, indent: 1 }));
}

#[test]
fn package_selection() {
    let none: Vec<String> = vec![];
    let deps = vec!["serde".to_string(), "sourcegen".to_string()];
    assert!(selects_package(&none, &"x".to_string(), true, &deps));
    assert!(!selects_package(&none, &"x".to_string(), false, &deps));
    assert!(!selects_package(&none, &"x".to_string(), true, &vec!["serde".to_string()]));
    let wanted = vec!["y".to_string()];
    assert!(!selects_package(&wanted, &"x".to_string(), true, &deps));
    assert!(selects_package(&wanted, &"y".to_string(), true, &deps));
}

#[test]
fn invalid_package_names_are_listed() {
    let requested = vec!["a".to_string(), "b".to_string(), "c".to_string()];
    let available = vec!["b".to_string(), "d".to_string()];
    let bad = invalid_package_names(&requested, &available);
    assert_eq!(bad, vec!["a".to_string(), "c".to_string()]);
    assert_eq!(join_names(&bad), "a, c");
    assert_eq!(join_names(&vec![]), "");
    assert!(contains_name(&available, &"d".to_string()));
}

#[test]
fn formatter_output_is_checked() {
    assert_eq!(rustfmt_output(true, "ok".to_string(), "".to_string()).unwrap(), "ok");
    match rustfmt_output(false, "".to_string(), "bad".to_string()) {
        Err(SourcegenErrorKind::RustFmtError(e)) => assert_eq!(e, "bad"),
        other => panic!("unexpected {:?}", other),
    }
    assert_eq!(Formatter::from_path("/bin/rustfmt".to_string()).rustfmt, "/bin/rustfmt");
}

#[test]
fn token_markers() {
    assert_eq!(PlainComment.marker(), "__SOURCEGEN_MAGIC_COMMENT__");
    assert_eq!(NewLine.marker(), "__SOURCEGEN_MAGIC_NEWLINE__");
}

#[test]
fn invalid_names_keep_request_order_and_repeats() {
    let requested = vec!["z".to_string(), "a".to_string(), "z".to_string()];
    let available = vec!["a".to_string()];
    let bad = invalid_package_names(&requested, &available);
    assert_eq!(bad, vec!["z".to_string(), "z".to_string()]);
    assert_eq!(join_names(&bad), "z, z");
}
