use std::cell::RefCell;

use sourcegen_cli::annotation::Invocation;
use sourcegen_cli::format::{formatter_input, ITEM_COMMENT};
use sourcegen_cli::model::{
    Attribute, Item, ItemKind, LineColumn, Lit, Meta, ModDecl, NestedMeta, SourceFile,
    SourcegenErrorKind, Span,
};
use sourcegen_cli::mods::ModResolver;
use sourcegen_cli::dispatch::Capability;
use sourcegen_cli::process::{handle_content, plan_source_file};
use sourcegen_cli::replacements::Replacements;
use sourcegen_cli::splice::{render_expansions, splices_fit_check, Region, Splice};

/// Line and column just after the first occurrence of `needle` at or after byte `from`.
fn pos_after(text: &str, needle: &str, from: usize) -> LineColumn {
    let at = text[from..].find(needle).expect("needle") + from + needle.len();
    let before = &text[..at];
    let line = before.matches('\n').count() + 1;
    let column = before.rsplit('\n').next().unwrap().chars().count();
    LineColumn { line, column }
}

fn pos_before(text: &str, needle: &str, from: usize) -> LineColumn {
    let at = text[from..].find(needle).expect("needle") + from;
    let before = &text[..at];
    let line = before.matches('\n').count() + 1;
    let column = before.rsplit('\n').next().unwrap().chars().count();
    LineColumn { line, column }
}

fn span(start: LineColumn, end: LineColumn) -> Span {
    Span { start, end }
}

/// `#[sourcegen::sourcegen(generator = "<name>", ...)]` at `attr_text` in `text`.
fn sourcegen_attr(text: &str, attr_text: &str, generator: &str) -> Attribute {
    let start = pos_before(text, attr_text, 0);
    let end = pos_after(text, attr_text, 0);
    let inner = span(start, end);
    Attribute {
        path: vec!["sourcegen".to_string(), "sourcegen".to_string()],
        span: inner,
        bracket_end: end,
        meta: Some(Meta::List {
            nested: vec![NestedMeta::NameValue {
                path: vec!["generator".to_string()],
                lit: Lit::Str { value: generator.to_string(), span: inner },
                span: inner,
            }],
            span: inner,
        }),
    }
}

fn generated_attr(text: &str, attr_text: &str) -> Attribute {
    let start = pos_before(text, attr_text, 0);
    let end = pos_after(text, attr_text, 0);
    Attribute {
        path: vec!["sourcegen".to_string(), "generated".to_string()],
        span: span(start, end),
        bracket_end: end,
        meta: Some(Meta::Path { span: span(start, end) }),
    }
}

fn item(id: usize, kind: ItemKind, attrs: Vec<Attribute>, end: LineColumn) -> Item {
    Item { id, kind, attrs: Some(attrs), end, module: None }
}

fn splice(region: Region, text: &str) -> Splice {
    Splice { region, text: text.as_bytes().to_vec() }
}

const ENUM_INPUT: &str = "use sourcegen;

/// The contents of the following enum will be replaced.
#[sourcegen::sourcegen(generator = \"generate-enum\", count = 3)]
pub enum TestEnum {
    Literal0,
}

pub struct Other;
";

const ENUM_EXPECTED: &str = "use sourcegen;

/// The contents of the following enum will be replaced.
#[sourcegen::sourcegen(generator = \"generate-enum\", count = 3)]
// Generated. All manual edits to the block annotated with #[sourcegen...] will be discarded.
/// This comment is generated
pub enum TestEnum {
    Literal0,
    Literal1,
    Literal2,
}

pub struct Other;
";

const ENUM_FORMATTED: &str = "// Generated. All manual edits to the block annotated with #[sourcegen...] will be discarded.
/// This comment is generated
pub enum TestEnum {
    Literal0,
    Literal1,
    Literal2,
}
";

fn enum_file(text: &str) -> SourceFile {
    let attr_text = "#[sourcegen::sourcegen(generator = \"generate-enum\", count = 3)]";
    let enum_end = pos_after(text, "}", text.find("pub enum").unwrap());
    SourceFile {
        attrs: vec![],
        items: vec![
            item(0, ItemKind::Other, vec![], pos_after(text, "use sourcegen;", 0)),
            item(1, ItemKind::Enum, vec![sourcegen_attr(text, attr_text, "generate-enum")], enum_end),
            item(2, ItemKind::Struct, vec![], pos_after(text, "pub struct Other;", 0)),
        ],
    }
}

fn run_walk(text: &str, file: &SourceFile) -> Result<Option<sourcegen_cli::process::Plan>, SourcegenErrorKind> {
    let generators = vec!["generate-enum".to_string()];
    let resolver = ModResolver::new("src".to_string());
    let calls = RefCell::new(Vec::new());
    let generate = |id: usize, c: Capability, _inv: &Invocation| -> Result<Option<usize>, ()> {
        calls.borrow_mut().push((id, c));
        Ok(Some(100 + id))
    };
    let is_file = |_p: &String| true;
    let process_module = |_p: &String, _m: &ModResolver| -> Result<(), SourcegenErrorKind> { Ok(()) };
    let path = "src/lib.rs".to_string();
    let r = plan_source_file(
        &path,
        text.as_bytes(),
        file,
        &generators,
        &resolver,
        &generate,
        &is_file,
        &process_module,
    );
    r
}

#[test]
fn enum_body_is_replaced_and_rest_kept() {
    let file = enum_file(ENUM_INPUT);
    let plan = run_walk(ENUM_INPUT, &file).unwrap().unwrap();
    assert!(!plan.whole_file);
    assert_eq!(plan.replacements.entries.len(), 1);
    let (region, key) = plan.replacements.entries[0];
    assert_eq!(key, 101);
    assert_eq!(&ENUM_INPUT[region.from..region.from + 8], "pub enum");
    assert_eq!(&ENUM_INPUT[region.to - 1..region.to], "}");
    assert_eq!(region.indent, 0);
    let splices = vec![splice(region, ENUM_FORMATTED)];
    assert!(splices_fit_check(&splices, ENUM_INPUT.len()));
    let out = render_expansions(ENUM_INPUT.as_bytes(), &splices, false);
    assert_eq!(String::from_utf8(out).unwrap(), ENUM_EXPECTED);
}

#[test]
fn second_run_changes_nothing() {
    let file = enum_file(ENUM_EXPECTED);
    let plan = run_walk(ENUM_EXPECTED, &file).unwrap().unwrap();
    let (region, _) = plan.replacements.entries[0];
    assert_eq!(
        &ENUM_EXPECTED[region.from..region.from + 14],
        "// Generated. "
    );
    let splices = vec![splice(region, ENUM_FORMATTED)];
    let out = render_expansions(ENUM_EXPECTED.as_bytes(), &splices, false);
    assert_eq!(String::from_utf8(out).unwrap(), ENUM_EXPECTED);
}

const IMPL_INPUT: &str = "#[sourcegen::sourcegen(generator = \"generate-impls\")]
pub struct TestStruct;
#[sourcegen::generated]
impl TestStruct {}
#[sourcegen::generated]
impl TestStruct {}
pub struct After;
";

#[test]
fn generated_companions_are_absorbed() {
    let attr_text = "#[sourcegen::sourcegen(generator = \"generate-impls\")]";
    let first_impl = IMPL_INPUT.find("impl TestStruct").unwrap();
    let second_impl = IMPL_INPUT[first_impl + 1..].find("impl TestStruct").unwrap() + first_impl + 1;
    let items = vec![
        item(0, ItemKind::Struct, vec![sourcegen_attr(IMPL_INPUT, attr_text, "generate-impls")], pos_after(IMPL_INPUT, "TestStruct;", 0)),
        item(1, ItemKind::Other, vec![generated_attr(IMPL_INPUT, "#[sourcegen::generated]")], pos_after(IMPL_INPUT, "{}", first_impl)),
        item(2, ItemKind::Other, vec![generated_attr(IMPL_INPUT, "#[sourcegen::generated]")], pos_after(IMPL_INPUT, "{}", second_impl)),
        item(3, ItemKind::Struct, vec![], pos_after(IMPL_INPUT, "After;", 0)),
    ];
    let generators = vec!["generate-impls".to_string()];
    let resolver = ModResolver::new("src".to_string());
    let seen = RefCell::new(Vec::new());
    let generate = |id: usize, _c: Capability, _inv: &Invocation| -> Result<Option<usize>, ()> {
        seen.borrow_mut().push(id);
        Ok(Some(7))
    };
    let is_file = |_p: &String| true;
    let process_module = |_p: &String, _m: &ModResolver| -> Result<(), SourcegenErrorKind> { Ok(()) };
    let mut reps = Replacements::new();
    let path = "src/lib.rs".to_string();
    handle_content(&path, IMPL_INPUT.as_bytes(), &items, &generators, &mut reps, &resolver, &generate, &is_file, &process_module).unwrap();
    // The companions are taken into the region, and never walked on their own.
    assert_eq!(*seen.borrow(), vec![0]);
    assert_eq!(reps.entries.len(), 1);
    let (region, _) = reps.entries[0];
    let end_of_second = IMPL_INPUT.find("pub struct After").unwrap() - 1;
    assert_eq!(region.to, end_of_second);
    let out = render_expansions(
        IMPL_INPUT.as_bytes(),
        &vec![splice(region, "pub struct TestStruct;\n#[sourcegen::generated]\nimpl TestStruct {}\n")],
        false,
    );
    let out = String::from_utf8(out).unwrap();
    assert_eq!(out.matches("impl TestStruct").count(), 1);
    assert!(out.ends_with("impl TestStruct {}\npub struct After;\n"));
}

#[test]
fn generated_marker_alone_is_an_error() {
    let text = "#[sourcegen::generated]\nimpl X {}\n";
    let items = vec![item(0, ItemKind::Other, vec![generated_attr(text, "#[sourcegen::generated]")], pos_after(text, "{}", 0))];
    let generators = vec!["g".to_string()];
    let resolver = ModResolver::new("src".to_string());
    let generate = |_id: usize, _c: Capability, _inv: &Invocation| -> Result<Option<usize>, ()> { Ok(None) };
    let is_file = |_p: &String| true;
    let process_module = |_p: &String, _m: &ModResolver| -> Result<(), SourcegenErrorKind> { Ok(()) };
    let mut reps = Replacements::new();
    let path = "src/lib.rs".to_string();
    let r = handle_content(&path, text.as_bytes(), &items, &generators, &mut reps, &resolver, &generate, &is_file, &process_module);
    assert!(matches!(r, Err(SourcegenErrorKind::MissingGeneratorAttribute(_))));
}

#[test]
fn generator_failure_is_reported_at_the_invocation() {
    let file = enum_file(ENUM_INPUT);
    let generators = vec!["generate-enum".to_string()];
    let resolver = ModResolver::new("src".to_string());
    let generate = |_id: usize, _c: Capability, _inv: &Invocation| -> Result<Option<usize>, ()> { Err(()) };
    let is_file = |_p: &String| true;
    let process_module = |_p: &String, _m: &ModResolver| -> Result<(), SourcegenErrorKind> { Ok(()) };
    let path = "src/lib.rs".to_string();
    let r = plan_source_file(&path, ENUM_INPUT.as_bytes(), &file, &generators, &resolver, &generate, &is_file, &process_module);
    match r {
        Err(SourcegenErrorKind::GeneratorError(loc)) => {
            assert_eq!(loc.path, "src/lib.rs");
            assert_eq!(loc.start.line, 4);
        }
        other => panic!("unexpected {:?}", other),
    }
}

const MODS_INPUT: &str = "pub mod one;
#[path = \"five_other.rs\"]
pub mod five;
mod six {
    mod seven {
        mod eight;
    }
}
";

fn mod_item(id: usize, name: &str, attrs: Vec<Attribute>, end: LineColumn, content: Option<Vec<Item>>) -> Item {
    Item {
        id,
        kind: ItemKind::Mod,
        attrs: Some(attrs),
        end,
        module: Some(ModDecl { ident: name.to_string(), content }),
    }
}

#[test]
fn module_files_are_resolved_and_processed() {
    let t = MODS_INPUT;
    let path_attr_span = span(pos_before(t, "#[path", 0), pos_after(t, "\"]", 0));
    let path_attr = Attribute {
        path: vec!["path".to_string()],
        span: path_attr_span,
        bracket_end: path_attr_span.end,
        meta: Some(Meta::NameValue {
            lit: Lit::Str { value: "five_other.rs".to_string(), span: path_attr_span },
            span: path_attr_span,
        }),
    };
    let eight = mod_item(4, "eight", vec![], pos_after(t, "mod eight;", 0), None);
    let seven = mod_item(3, "seven", vec![], pos_after(t, "    }", 0), Some(vec![eight]));
    let items = vec![
        mod_item(0, "one", vec![], pos_after(t, "pub mod one;", 0), None),
        mod_item(1, "five", vec![path_attr], pos_after(t, "pub mod five;", 0), None),
        mod_item(2, "six", vec![], pos_after(t, "}\n}", 0), Some(vec![seven])),
    ];
    let generators: Vec<String> = vec![];
    let resolver = ModResolver::new("src".to_string());
    let visited = RefCell::new(Vec::new());
    let generate = |_id: usize, _c: Capability, _inv: &Invocation| -> Result<Option<usize>, ()> { Ok(None) };
    let is_file = |p: &String| !p.ends_with("mod.rs");
    let process_module = |p: &String, m: &ModResolver| -> Result<(), SourcegenErrorKind> {
        visited.borrow_mut().push((p.clone(), m.base.clone()));
        Ok(())
    };
    let mut reps = Replacements::new();
    let path = "src/lib.rs".to_string();
    handle_content(&path, t.as_bytes(), &items, &generators, &mut reps, &resolver, &generate, &is_file, &process_module).unwrap();
    let visited = visited.borrow();
    assert_eq!(visited.len(), 3);
    assert_eq!(visited[0], ("src/one.rs".to_string(), "src/one".to_string()));
    assert_eq!(visited[1], ("src/five_other.rs".to_string(), "src/five_other".to_string()));
    assert_eq!(visited[2], ("src/six/seven/eight.rs".to_string(), "src/six/seven/eight".to_string()));
    assert!(reps.entries.is_empty());
}

#[test]
fn unresolved_module_stops_the_walk() {
    let t = "mod missing;\n";
    let items = vec![mod_item(0, "missing", vec![], pos_after(t, "mod missing;", 0), None)];
    let generators: Vec<String> = vec![];
    let resolver = ModResolver::new("src".to_string());
    let generate = |_id: usize, _c: Capability, _inv: &Invocation| -> Result<Option<usize>, ()> { Ok(None) };
    let is_file = |_p: &String| false;
    let process_module = |_p: &String, _m: &ModResolver| -> Result<(), SourcegenErrorKind> { Ok(()) };
    let mut reps = Replacements::new();
    let path = "src/lib.rs".to_string();
    let r = handle_content(&path, t.as_bytes(), &items, &generators, &mut reps, &resolver, &generate, &is_file, &process_module);
    match r {
        Err(SourcegenErrorKind::CannotResolveModule(p, name)) => {
            assert_eq!(p, "src/missing/mod.rs");
            assert_eq!(name, "missing");
        }
        other => panic!("unexpected {:?}", other),
    }
}

const FILE_INPUT: &str = "#![sourcegen::sourcegen(generator = \"generate-file\")]\n\nstruct Old;\n";

#[test]
fn whole_file_generation_replaces_the_rest() {
    let t = FILE_INPUT;
    let attr_text = "#![sourcegen::sourcegen(generator = \"generate-file\")]";
    let file = SourceFile {
        attrs: vec![sourcegen_attr(t, attr_text, "generate-file")],
        items: vec![item(0, ItemKind::Struct, vec![], pos_after(t, "struct Old;", 0))],
    };
    let generators = vec!["generate-file".to_string()];
    let resolver = ModResolver::new("src".to_string());
    let generate = |_id: usize, c: Capability, inv: &Invocation| -> Result<Option<usize>, ()> {
        assert_eq!(c, Capability::File);
        assert!(!inv.is_file);
        Ok(Some(5))
    };
    let is_file = |_p: &String| true;
    let process_module = |_p: &String, _m: &ModResolver| -> Result<(), SourcegenErrorKind> { Ok(()) };
    let path = "src/lib.rs".to_string();
    let plan = plan_source_file(&path, t.as_bytes(), &file, &generators, &resolver, &generate, &is_file, &process_module)
        .unwrap()
        .unwrap();
    assert!(plan.whole_file);
    let (region, key) = plan.replacements.entries[0];
    assert_eq!(key, 5);
    assert_eq!(region, Region { from: t.find("struct Old").unwrap(), to: t.len(), indent: 0 });
    let formatted = "// Generated. All manual edits below this line will be discarded.\nstruct Hello;\n";
    let out = render_expansions(t.as_bytes(), &vec![splice(region, formatted)], true);
    let out = String::from_utf8(out).unwrap();
    assert_eq!(
        out,
        "#![sourcegen::sourcegen(generator = \"generate-file\")]\n\n// Generated. All manual edits below this line will be discarded.\nstruct Hello;\n"
    );
    // Once more over the output: nothing changes.
    let again = render_expansions(
        out.as_bytes(),
        &vec![splice(Region { from: region.from, to: out.len(), indent: 0 }, formatted)],
        true,
    );
    assert_eq!(String::from_utf8(again).unwrap(), out);
}

#[test]
fn generator_leaving_file_alone_gives_no_plan() {
    let t = FILE_INPUT;
    let attr_text = "#![sourcegen::sourcegen(generator = \"generate-file\")]";
    let file = SourceFile {
        attrs: vec![sourcegen_attr(t, attr_text, "generate-file")],
        items: vec![],
    };
    let generators = vec!["generate-file".to_string()];
    let resolver = ModResolver::new("src".to_string());
    let generate = |_id: usize, _c: Capability, _inv: &Invocation| -> Result<Option<usize>, ()> { Ok(None) };
    let is_file = |_p: &String| true;
    let process_module = |_p: &String, _m: &ModResolver| -> Result<(), SourcegenErrorKind> { Ok(()) };
    let path = "src/lib.rs".to_string();
    let plan = plan_source_file(&path, t.as_bytes(), &file, &generators, &resolver, &generate, &is_file, &process_module).unwrap();
    assert!(plan.is_none());
}

#[test]
fn formatter_input_has_comment_and_line_ending() {
    let r = formatter_input(false, true, b"struct A;");
    let expected = format!("{}\r\nstruct A;", ITEM_COMMENT);
    assert_eq!(r, expected.as_bytes());
    let r = formatter_input(true, false, b"");
    assert_eq!(
        String::from_utf8(r).unwrap(),
        "// Generated. All manual edits below this line will be discarded.\n"
    );
}

const TWO_INPUT: &str = "#[sourcegen::sourcegen(generator = \"g\")]
struct A;
mod inner {
    #[sourcegen::sourcegen(generator = \"g\")]
    struct B;
}
";

#[test]
fn regions_are_ordered_and_disjoint() {
    let t = TWO_INPUT;
    let a_attr_end = pos_after(t, "\")]", 0);
    let mut a = sourcegen_attr(t, "#[sourcegen::sourcegen(generator = \"g\")]", "g");
    a.bracket_end = a_attr_end;
    let b_at = t.find("    #[sourcegen").unwrap();
    let b_start = pos_before(t, "#[sourcegen", b_at);
    let b_end = pos_after(t, "\")]", b_at);
    let mut b = sourcegen_attr(t, "#[sourcegen::sourcegen(generator = \"g\")]", "g");
    b.span = span(b_start, b_end);
    b.bracket_end = b_end;
    let inner_b = item(2, ItemKind::Struct, vec![b], pos_after(t, "struct B;", 0));
    let items = vec![
        item(0, ItemKind::Struct, vec![a], pos_after(t, "struct A;", 0)),
        Item {
            id: 1,
            kind: ItemKind::Mod,
            attrs: Some(vec![]),
            end: pos_after(t, "}", 0),
            module: Some(ModDecl { ident: "inner".to_string(), content: Some(vec![inner_b]) }),
        },
    ];
    let generators = vec!["g".to_string()];
    let resolver = ModResolver::new("src".to_string());
    let generate = |id: usize, _c: Capability, _inv: &Invocation| -> Result<Option<usize>, ()> { Ok(Some(id)) };
    let is_file = |_p: &String| true;
    let process_module = |_p: &String, _m: &ModResolver| -> Result<(), SourcegenErrorKind> { Ok(()) };
    let mut reps = Replacements::new();
    let path = "src/lib.rs".to_string();
    handle_content(&path, t.as_bytes(), &items, &generators, &mut reps, &resolver, &generate, &is_file, &process_module).unwrap();
    assert_eq!(reps.entries.len(), 2);
    let (r0, k0) = reps.entries[0];
    let (r1, k1) = reps.entries[1];
    assert_eq!((k0, k1), (0, 2));
    assert!(r0.to <= r1.from);
    assert_eq!(&t[r0.from..r0.to], "struct A;");
    assert_eq!(&t[r1.from..r1.to], "struct B;");
    assert_eq!(r1.indent, 4);
    let out = render_expansions(
        t.as_bytes(),
        &vec![splice(r0, "struct A {\n    x: u8,\n}\n"), splice(r1, "struct B {\n    y: u8,\n}\n")],
        false,
    );
    assert_eq!(
        String::from_utf8(out).unwrap(),
        "#[sourcegen::sourcegen(generator = \"g\")]\nstruct A {\n    x: u8,\n}\nmod inner {\n    #[sourcegen::sourcegen(generator = \"g\")]\n    struct B {\n        y: u8,\n    }\n}\n"
    );
}

const FIVE_OTHER: &str = "#[sourcegen(generator = \"generate-enum\", count = 3)]
pub enum Five {
    Literal0,
}
";

#[test]
fn path_override_module_is_regenerated() {
    let lib = "#[path = \"five_other.rs\"]\npub mod five;\n";
    let attr_span = span(pos_before(lib, "#[path", 0), pos_after(lib, "\"]", 0));
    let path_attr = Attribute {
        path: vec!["path".to_string()],
        span: attr_span,
        bracket_end: attr_span.end,
        meta: Some(Meta::NameValue {
            lit: Lit::Str { value: "five_other.rs".to_string(), span: attr_span },
            span: attr_span,
        }),
    };
    let lib_file = SourceFile {
        attrs: vec![],
        items: vec![Item {
            id: 0,
            kind: ItemKind::Mod,
            attrs: Some(vec![path_attr]),
            end: pos_after(lib, "pub mod five;", 0),
            module: Some(ModDecl { ident: "five".to_string(), content: None }),
        }],
    };
    let generators = vec!["generate-enum".to_string()];
    let resolver = ModResolver::new("src".to_string());
    let generate = |id: usize, _c: Capability, _inv: &Invocation| -> Result<Option<usize>, ()> { Ok(Some(id)) };
    let is_file = |_p: &String| false;
    let child_regions = RefCell::new(Vec::new());
    let process_module = |p: &String, m: &ModResolver| -> Result<(), SourcegenErrorKind> {
        assert_eq!(p, "src/five_other.rs");
        let attr_text = "#[sourcegen(generator = \"generate-enum\", count = 3)]";
        let mut attr = sourcegen_attr(FIVE_OTHER, attr_text, "generate-enum");
        attr.path = vec!["sourcegen".to_string()];
        let child = SourceFile {
            attrs: vec![],
            items: vec![item(0, ItemKind::Enum, vec![attr], pos_after(FIVE_OTHER, "}", 0))],
        };
        let plan = plan_source_file(p, FIVE_OTHER.as_bytes(), &child, &generators, m, &generate, &is_file, &|_: &String, _: &ModResolver| Ok(()))?;
        let plan = plan.unwrap();
        child_regions.borrow_mut().extend(plan.replacements.entries.iter().map(|(r, _)| *r));
        Ok(())
    };
    let path = "src/lib.rs".to_string();
    let plan = plan_source_file(&path, lib.as_bytes(), &lib_file, &generators, &resolver, &generate, &is_file, &process_module)
        .unwrap()
        .unwrap();
    assert!(plan.replacements.entries.is_empty());
    let regions = child_regions.borrow();
    assert_eq!(regions.len(), 1);
    assert_eq!(&FIVE_OTHER[regions[0].from..regions[0].to], "pub enum Five {\n    Literal0,\n}");
}

#[test]
fn record_expansion_moves_cursor_past_companions() {
    let attr_text = "#[sourcegen::sourcegen(generator = \"generate-impls\")]";
    let first_impl = IMPL_INPUT.find("impl TestStruct").unwrap();
    let items = vec![
        item(0, ItemKind::Struct, vec![sourcegen_attr(IMPL_INPUT, attr_text, "generate-impls")], pos_after(IMPL_INPUT, "TestStruct;", 0)),
        item(1, ItemKind::Other, vec![generated_attr(IMPL_INPUT, "#[sourcegen::generated]")], pos_after(IMPL_INPUT, "{}", first_impl)),
        item(2, ItemKind::Struct, vec![], pos_after(IMPL_INPUT, "After;", 0)),
    ];
    let mut reps = Replacements::new();
    let attr = sourcegen_attr(IMPL_INPUT, attr_text, "generate-impls");
    let next = sourcegen_cli::region::record_expansion(IMPL_INPUT.as_bytes(), &attr, &items, 0, 9, &mut reps);
    assert_eq!(next, Some(2));
    assert_eq!(sourcegen_cli::region::generated_run(&items, 1), 1);
    assert_eq!(sourcegen_cli::region::generated_run(&items, 2), 0);
    assert_eq!(reps.entries[0].1, 9);
    let mut zero = attr;
    zero.bracket_end = LineColumn { line: 0, column: 0 };
    let mut reps2 = Replacements::new();
    assert_eq!(sourcegen_cli::region::record_expansion(IMPL_INPUT.as_bytes(), &zero, &items, 0, 9, &mut reps2), None);
    assert!(reps2.entries.is_empty());
}

#[test]
fn module_left_alone_by_its_generator_is_still_walked() {
    let t = "#[sourcegen::sourcegen(generator = \"m\")]\nmod outer {\n    #[sourcegen::sourcegen(generator = \"g\")]\n    struct Inner;\n}\n";
    let outer_attr = sourcegen_attr(t, "#[sourcegen::sourcegen(generator = \"m\")]", "m");
    let inner_at = t.find("    #[sourcegen").unwrap();
    let mut inner_attr = sourcegen_attr(t, "#[sourcegen::sourcegen(generator = \"g\")]", "g");
    inner_attr.span = span(pos_before(t, "#[sourcegen", inner_at), pos_after(t, "\")]", inner_at));
    inner_attr.bracket_end = inner_attr.span.end;
    let inner = item(1, ItemKind::Struct, vec![inner_attr], pos_after(t, "struct Inner;", 0));
    let items = vec![Item {
        id: 0,
        kind: ItemKind::Mod,
        attrs: Some(vec![outer_attr]),
        end: pos_after(t, "}", 0),
        module: Some(ModDecl { ident: "outer".to_string(), content: Some(vec![inner]) }),
    }];
    let generators = vec!["m".to_string(), "g".to_string()];
    let resolver = ModResolver::new("src".to_string());
    let generate = |id: usize, c: Capability, _inv: &Invocation| -> Result<Option<usize>, ()> {
        if c == Capability::Mod { Ok(None) } else { Ok(Some(id)) }
    };
    let is_file = |_p: &String| true;
    let process_module = |_p: &String, _m: &ModResolver| -> Result<(), SourcegenErrorKind> { Ok(()) };
    let mut reps = Replacements::new();
    let path = "src/lib.rs".to_string();
    handle_content(&path, t.as_bytes(), &items, &generators, &mut reps, &resolver, &generate, &is_file, &process_module).unwrap();
    assert_eq!(reps.entries.len(), 1);
    let (region, key) = reps.entries[0];
    assert_eq!(key, 1);
    assert_eq!(&t[region.from..region.to], "struct Inner;");
}

#[test]
fn file_generator_failure_is_reported() {
    let t = FILE_INPUT;
    let attr_text = "#![sourcegen::sourcegen(generator = \"generate-file\")]";
    let file = SourceFile { attrs: vec![sourcegen_attr(t, attr_text, "generate-file")], items: vec![] };
    let generators = vec!["generate-file".to_string()];
    let resolver = ModResolver::new("src".to_string());
    let generate = |_id: usize, _c: Capability, _inv: &Invocation| -> Result<Option<usize>, ()> { Err(()) };
    let is_file = |_p: &String| true;
    let process_module = |_p: &String, _m: &ModResolver| -> Result<(), SourcegenErrorKind> { Ok(()) };
    let path = "src/lib.rs".to_string();
    let r = plan_source_file(&path, t.as_bytes(), &file, &generators, &resolver, &generate, &is_file, &process_module);
    assert!(matches!(r, Err(SourcegenErrorKind::GeneratorError(_))));
}
