use cobu::correlate::{correlate, DeadSet};
use cobu::decl::{AttrMeta, Decl, DeclKind, Ident, ImportShape, MetaToken, PathRef};
use cobu::diag::{check_spans_present, collect_dead_code_spans, split_lines, DiagRec, DiagSpanRec};
use cobu::errors::EngineError;
use cobu::pipeline::{remove_dead_code, remove_dead_code_inner, FixpointStep};
use cobu::prune::{remove_spans, select_dead_spans};
use cobu::span::ByteRange;

fn range_of(src: &str, what: &str) -> ByteRange {
    let start = src.find(what).expect("pattern present");
    ByteRange { start, end: start + what.len() }
}

fn nth_range_of(src: &str, what: &str, n: usize) -> ByteRange {
    let mut from = 0;
    let mut seen = 0;
    loop {
        let at = src[from..].find(what).expect("pattern present") + from;
        if seen == n {
            return ByteRange { start: at, end: at + what.len() };
        }
        seen += 1;
        from = at + 1;
    }
}

fn named(kind: &str, src: &str, name: &str, full: &str) -> Decl {
    let part_at = src.find(full).expect("declaration present");
    let in_part = full.find(name).expect("name inside declaration");
    let name_span = ByteRange { start: part_at + in_part, end: part_at + in_part + name.len() };
    let id = Ident { text: name.as_bytes().to_vec(), span: name_span };
    let kind = match kind {
        "struct" => DeclKind::StructDecl(id),
        "fn" => DeclKind::FnDecl(id),
        "trait" => DeclKind::TraitDecl(id),
        _ => panic!("unknown kind"),
    };
    Decl { kind, span: range_of(src, full) }
}

fn diag(code: &str, range: ByteRange, line: &str, hl_start: usize, hl_end: usize) -> DiagRec {
    DiagRec {
        message_type: b"diagnostic".to_vec(),
        code: Some(code.as_bytes().to_vec()),
        spans: vec![DiagSpanRec {
            range,
            line: line.as_bytes().to_vec(),
            hl_start,
            hl_end,
        }],
    }
}

fn run_pass(src: &str, decls: &Vec<Decl>, records: &Vec<DiagRec>) -> Result<Vec<u8>, EngineError> {
    assert!(cobu::decl::check_decls_wf(decls, src.len()));
    assert!(check_spans_present(records));
    remove_dead_code_inner(&src.as_bytes().to_vec(), decls, records)
}

#[test]
fn scenario_dead_struct_and_impl_removed() {
    let part_main = "fn main() {\n    let _a = Alive;\n}";
    let part_alive = "struct Alive;";
    let part_dead = "struct Dead;";
    let part_trait = "trait Greet {\n    fn hi(&self);\n}";
    let part_impl = "impl Greet for Dead {\n    fn hi(&self) {}\n}";
    let src = format!(
        "{}\n{}\n{}\n{}\n{}\n",
        part_main, part_alive, part_dead, part_trait, part_impl
    );
    let dead_name_span = {
        let in_part = part_dead.find("Dead").unwrap();
        let part_at = src.find(part_dead).unwrap();
        ByteRange { start: part_at + in_part, end: part_at + in_part + "Dead".len() }
    };
    let decls = vec![
        named("fn", &src, "main", part_main),
        named("struct", &src, "Alive", part_alive),
        Decl {
            kind: DeclKind::StructDecl(Ident { text: b"Dead".to_vec(), span: dead_name_span }),
            span: range_of(&src, part_dead),
        },
        named("trait", &src, "Greet", part_trait),
        Decl {
            kind: DeclKind::ImplDecl {
                self_path: Some(PathRef { segments: 1, last: b"Dead".to_vec() }),
                trait_path: Some(PathRef { segments: 1, last: b"Greet".to_vec() }),
            },
            span: range_of(&src, part_impl),
        },
    ];
    let records = vec![diag("dead_code", dead_name_span, part_dead, 8, 12)];
    let out = run_pass(&src, &decls, &records).expect("pass succeeds");
    let expected = format!("{}\n{}\n\n{}\n\n", part_main, part_alive, part_trait);
    assert_eq!(out, expected.as_bytes());
}

#[test]
fn scenario_import_used_only_by_test_module() {
    let part_use = "use mylib::add;";
    let part_lib = "mod mylib {\n    pub(crate) fn add(a: i32, b: i32) -> i32 { a + b }\n}";
    let part_tests = "#[cfg(test)]\nmod tests {\n    use super::add;\n}";
    let part_main = "fn main() {}";
    let src = format!("{}\n{}\n{}\n{}\n", part_use, part_lib, part_tests, part_main);

    // Pre-pass: the test-only module is removed.
    let test_attr = AttrMeta {
        outer: true,
        cfg_path: true,
        list_tokens: Some(vec![MetaToken::IdentTok(b"test".to_vec())]),
    };
    let decls1 = vec![Decl {
        kind: DeclKind::ModuleDecl(vec![test_attr]),
        span: range_of(&src, part_tests),
    }];
    assert!(cobu::decl::check_decls_wf(&decls1, src.len()));
    let stripped = cobu::teststrip::remove_tests(&src.as_bytes().to_vec(), &decls1);
    let expect1 = format!("{}\n{}\n\n{}\n", part_use, part_lib, part_main);
    assert_eq!(stripped, expect1.as_bytes());

    // The import is now genuinely unused: the fixpoint removes it.
    let src2 = expect1;
    let path_span = range_of(&src2, "mylib::add");
    let decls2 = vec![
        Decl {
            kind: DeclKind::ImportDecl(ImportShape::PathShape {
                node_spans: vec![path_span, range_of(&src2, "add")],
                terminal: b"add".to_vec(),
            }),
            span: range_of(&src2, part_use),
        },
        named("fn", &src2, "main", part_main),
    ];
    let records2 = vec![diag("unused_imports", path_span, part_use, 5, 15)];
    assert!(cobu::decl::check_decls_wf(&decls2, src2.len()));
    assert!(check_spans_present(&records2));
    let step = remove_dead_code(src2.as_bytes().to_vec(), &decls2, &records2).expect("ok");
    let expect2 = format!("\n{}\n\n{}\n", part_lib, part_main);
    match step {
        FixpointStep::Continue(out) => assert_eq!(out, expect2.as_bytes()),
        FixpointStep::Done(_) => panic!("the import must be pruned"),
    }
}

#[test]
fn scenario_two_iterations_needed() {
    let part_main = "fn main() {}";
    let part_helper = "fn helper() {}";
    let part_wrapper = "fn unused_wrapper() {\n    helper();\n}";
    let src = format!("{}\n{}\n{}\n", part_main, part_helper, part_wrapper);
    let decls = |text: &str| -> Vec<Decl> {
        let mut v = Vec::new();
        for (name, full) in [
            ("main", part_main),
            ("helper", part_helper),
            ("unused_wrapper", part_wrapper),
        ] {
            if text.contains(full) {
                v.push(named("fn", text, name, full));
            }
        }
        v
    };

    // Iteration one: only the wrapper is reported dead.
    let d1 = decls(&src);
    let wrapper_name = nth_range_of(&src, "unused_wrapper", 0);
    let r1 = vec![diag("dead_code", wrapper_name, "fn unused_wrapper() {", 4, 18)];
    assert!(cobu::decl::check_decls_wf(&d1, src.len()));
    let step1 = remove_dead_code(src.as_bytes().to_vec(), &d1, &r1).expect("ok");
    let src2 = match step1 {
        FixpointStep::Continue(out) => String::from_utf8(out).unwrap(),
        FixpointStep::Done(_) => panic!("iteration one must prune"),
    };
    // A single pass is insufficient: helper is still present.
    assert!(src2.contains(part_helper));
    assert!(!src2.contains("unused_wrapper"));

    // Iteration two: helper has become dead.
    let d2 = decls(&src2);
    let helper_name = {
        let at = src2.find("helper").unwrap();
        ByteRange { start: at, end: at + "helper".len() }
    };
    let r2 = vec![diag("dead_code", helper_name, part_helper, 4, 10)];
    assert!(cobu::decl::check_decls_wf(&d2, src2.len()));
    let step2 = remove_dead_code(src2.as_bytes().to_vec(), &d2, &r2).expect("ok");
    let src3 = match step2 {
        FixpointStep::Continue(out) => String::from_utf8(out).unwrap(),
        FixpointStep::Done(_) => panic!("iteration two must prune"),
    };
    assert!(!src3.contains("helper"));

    // Iteration three: nothing is dead; the fixpoint is reached.
    let d3 = decls(&src3);
    let step3 = remove_dead_code(src3.as_bytes().to_vec(), &d3, &vec![]).expect("ok");
    match step3 {
        FixpointStep::Done(out) => assert_eq!(out, src3.as_bytes()),
        FixpointStep::Continue(_) => panic!("must be a fixpoint"),
    }
}

#[test]
fn scenario_declaration_used_through_inlined_namespace() {
    let part_lib = "mod lib {\n    pub(crate) fn used() {}\n}";
    let part_main = "fn main() {\n    lib::used();\n}";
    let src = format!("{}\n{}\n", part_lib, part_main);
    let decls = vec![
        Decl { kind: DeclKind::ModuleDecl(vec![]), span: range_of(&src, part_lib) },
        named("fn", &src, "used", "pub(crate) fn used() {}"),
        named("fn", &src, "main", part_main),
    ];
    assert!(cobu::decl::check_decls_wf(&decls, src.len()));
    // The compiler reports nothing dead: the inlined declaration is retained.
    let step = remove_dead_code(src.as_bytes().to_vec(), &decls, &vec![]).expect("ok");
    match step {
        FixpointStep::Done(out) => assert_eq!(out, src.as_bytes()),
        FixpointStep::Continue(_) => panic!("nothing may be pruned"),
    }
}

#[test]
fn rerunning_on_fixpoint_output_changes_nothing() {
    let part_main = "fn main() {}";
    let part_dead = "fn gone() {}";
    let src = format!("{}\n{}\n", part_main, part_dead);
    let decls = vec![
        named("fn", &src, "main", part_main),
        named("fn", &src, "gone", part_dead),
    ];
    let gone_name = range_of(&src, "gone");
    let records = vec![diag("dead_code", gone_name, part_dead, 4, 8)];
    let step = remove_dead_code(src.as_bytes().to_vec(), &decls, &records).expect("ok");
    let out = match step {
        FixpointStep::Continue(out) => out,
        FixpointStep::Done(_) => panic!("one deletion expected"),
    };
    let out_str = String::from_utf8(out.clone()).unwrap();
    // The pruned text draws no diagnostics any more: the driver stops, and a
    // second run over the same text stops at once with identical bytes.
    let decls2 = vec![named("fn", &out_str, "main", part_main)];
    for _ in 0..2 {
        let step2 =
            remove_dead_code(out.clone(), &decls2, &vec![]).expect("ok");
        match step2 {
            FixpointStep::Done(again) => assert_eq!(again, out),
            FixpointStep::Continue(_) => panic!("fixpoint must be stable"),
        }
    }
}

#[test]
fn trip_wire_mismatch_is_fatal() {
    let src = "fn dead() {}\n".to_string();
    let decls = vec![named("fn", &src, "dead", "fn dead() {}")];
    let name = range_of(&src, "dead");
    // The highlighted text disagrees with the declaration's identifier.
    let records = vec![diag("dead_code", name, "fn daed() {}", 4, 8)];
    let err = run_pass(&src, &decls, &records).expect_err("trip-wire must fire");
    assert_eq!(err, EngineError::TripWire);
}

#[test]
fn multi_segment_impl_target_is_unsupported() {
    let src = "struct S;\nimpl other::T for S {}\nfn main() {}\n".to_string();
    let decls = vec![
        named("struct", &src, "S", "struct S;"),
        Decl {
            kind: DeclKind::ImplDecl {
                self_path: Some(PathRef { segments: 1, last: b"S".to_vec() }),
                trait_path: Some(PathRef { segments: 2, last: b"T".to_vec() }),
            },
            span: range_of(&src, "impl other::T for S {}"),
        },
        named("fn", &src, "main", "fn main() {}"),
    ];
    let err = run_pass(&src, &decls, &vec![]).expect_err("must refuse");
    assert_eq!(err, EngineError::Unsupported);
}

#[test]
fn grouped_import_is_unsupported() {
    let src = "use mylib::{a, b};\nfn main() {}\n".to_string();
    let decls = vec![
        Decl {
            kind: DeclKind::ImportDecl(ImportShape::OtherShape),
            span: range_of(&src, "use mylib::{a, b};"),
        },
        named("fn", &src, "main", "fn main() {}"),
    ];
    let err = run_pass(&src, &decls, &vec![]).expect_err("must refuse");
    assert_eq!(err, EngineError::Unsupported);
}

#[test]
fn correlate_requires_exact_span_equality() {
    let src = "fn abc() {}\nfn abcd() {}\n".to_string();
    let decls = vec![
        named("fn", &src, "abc", "fn abc() {}"),
        Decl {
            kind: DeclKind::FnDecl(Ident {
                text: b"abcd".to_vec(),
                span: nth_range_of(&src, "abcd", 0),
            }),
            span: range_of(&src, "fn abcd() {}"),
        },
    ];
    // A span overlapping but not equal to a name span matches nothing.
    let abc = range_of(&src, "abc");
    let off_by_one = ByteRange { start: abc.start, end: abc.end + 1 };
    let records = vec![diag("dead_code", off_by_one, "fn abc() {}", 4, 8)];
    let spans = collect_dead_code_spans(&records);
    let ds: DeadSet = correlate(&src.as_bytes().to_vec(), &decls, &spans).expect("no trip-wire");
    assert!(ds.fns.is_empty());
    assert!(ds.structs.is_empty());
}

#[test]
fn dead_set_is_deduplicated() {
    let src = "fn f() {}\nfn f() {}\n".to_string();
    let first = nth_range_of(&src, "f()", 0);
    let second = nth_range_of(&src, "f()", 1);
    let n1 = ByteRange { start: first.start, end: first.start + 1 };
    let n2 = ByteRange { start: second.start, end: second.start + 1 };
    let decls = vec![
        Decl {
            kind: DeclKind::FnDecl(Ident { text: b"f".to_vec(), span: n1 }),
            span: ByteRange { start: 0, end: 9 },
        },
        Decl {
            kind: DeclKind::FnDecl(Ident { text: b"f".to_vec(), span: n2 }),
            span: ByteRange { start: 10, end: 19 },
        },
    ];
    let records = vec![
        diag("dead_code", n1, "fn f() {}", 4, 5),
        diag("dead_code", n2, "fn f() {}", 4, 5),
    ];
    let spans = collect_dead_code_spans(&records);
    let ds = correlate(&src.as_bytes().to_vec(), &decls, &spans).expect("ok");
    assert_eq!(ds.fns.len(), 1);
    assert_eq!(ds.fns[0], b"f".to_vec());
    // Both declarations sharing the identity are selected for deletion.
    let sel = select_dead_spans(&decls, &ds).expect("supported");
    assert_eq!(sel.len(), 2);
}

#[test]
fn remove_spans_preserves_surrounding_bytes_exactly() {
    let src = b"abcdefghij".to_vec();
    let spans = vec![ByteRange { start: 2, end: 4 }, ByteRange { start: 7, end: 8 }];
    let out = remove_spans(&src, &spans);
    assert_eq!(out, b"abefgij".to_vec());
    // Overlapping spans delete the union; empty spans delete nothing.
    let overlapping = vec![
        ByteRange { start: 1, end: 5 },
        ByteRange { start: 3, end: 6 },
        ByteRange { start: 8, end: 8 },
    ];
    assert_eq!(remove_spans(&src, &overlapping), b"aghij".to_vec());
    assert_eq!(remove_spans(&src, &vec![]), src);
}

#[test]
fn split_lines_frames_the_stream() {
    let stream = b"first\nsecond\r\n\n\r\nthird".to_vec();
    let lines = split_lines(&stream);
    assert_eq!(
        lines,
        vec![b"first".to_vec(), b"second".to_vec(), b"third".to_vec()]
    );
    assert_eq!(split_lines(&b"".to_vec()), Vec::<Vec<u8>>::new());
    assert_eq!(split_lines(&b"\n\n".to_vec()), Vec::<Vec<u8>>::new());
}

#[test]
fn collect_keeps_only_the_two_codes() {
    let keep1 = diag("dead_code", ByteRange { start: 1, end: 2 }, "x", 1, 1);
    let keep2 = diag("unused_imports", ByteRange { start: 3, end: 4 }, "y", 1, 1);
    let wrong_code = diag("unused_variables", ByteRange { start: 5, end: 6 }, "z", 1, 1);
    let mut wrong_tag = diag("dead_code", ByteRange { start: 7, end: 8 }, "w", 1, 1);
    wrong_tag.message_type = b"artifact".to_vec();
    let no_code = DiagRec { message_type: b"diagnostic".to_vec(), code: None, spans: vec![] };
    let records = vec![keep1, wrong_code, keep2, wrong_tag, no_code];
    assert!(check_spans_present(&records));
    let spans = collect_dead_code_spans(&records);
    assert_eq!(spans.len(), 2);
    assert_eq!(spans[0].range, ByteRange { start: 1, end: 2 });
    assert_eq!(spans[1].range, ByteRange { start: 3, end: 4 });
}

#[test]
fn visibility_rewrite_touches_only_the_markers() {
    let src = "pub fn a() {}\nfn b() {}\npub struct C;\n".to_string();
    let spans = vec![nth_range_of(&src, "pub", 0), nth_range_of(&src, "pub", 1)];
    let out = cobu::visibility::replace_pub_with_pub_crate(&src.as_bytes().to_vec(), &spans);
    assert_eq!(
        out,
        b"pub(crate) fn a() {}\nfn b() {}\npub(crate) struct C;\n".to_vec()
    );
    // Without marker spans the rewrite is the identity.
    let same = cobu::visibility::replace_pub_with_pub_crate(&src.as_bytes().to_vec(), &vec![]);
    assert_eq!(same, src.as_bytes().to_vec());
}

#[test]
fn expand_libs_wraps_and_concatenates() {
    let libs = vec![
        (b"alpha".to_vec(), b"fn a() {}".to_vec()),
        (b"beta".to_vec(), b"fn b() {}".to_vec()),
    ];
    let src = b"fn main() {}".to_vec();
    let out = cobu::pipeline::expand_libs(&libs, &src);
    assert_eq!(
        out,
        b"mod alpha {\nfn a() {}\n}mod beta {\nfn b() {}\n}fn main() {}".to_vec()
    );
    let wrapped = cobu::pipeline::wrap_module(&b"m".to_vec(), &b"x".to_vec());
    assert_eq!(wrapped, b"mod m {\nx\n}".to_vec());
}

#[test]
fn visibility_rewrite_preserves_declaration_count() {
    let src = "pub fn a() {}\npub struct B;\npub trait C {}\nfn d() {}\n".to_string();
    let spans = vec![
        nth_range_of(&src, "pub", 0),
        nth_range_of(&src, "pub", 1),
        nth_range_of(&src, "pub", 2),
    ];
    let out = cobu::visibility::replace_pub_with_pub_crate(&src.as_bytes().to_vec(), &spans);
    let out_str = String::from_utf8(out).unwrap();
    assert_eq!(
        out_str,
        "pub(crate) fn a() {}\npub(crate) struct B;\npub(crate) trait C {}\nfn d() {}\n"
    );
    let before = syn::parse_file(&src).unwrap().items.len();
    let after = syn::parse_file(&out_str).unwrap().items.len();
    assert_eq!(before, 4);
    assert_eq!(after, before);
}

#[test]
fn empty_source_is_already_a_fixpoint() {
    let step = remove_dead_code(Vec::new(), &Vec::new(), &Vec::new()).expect("ok");
    match step {
        FixpointStep::Done(out) => assert!(out.is_empty()),
        FixpointStep::Continue(_) => panic!("nothing to prune"),
    }
    assert_eq!(remove_dead_code_inner(&Vec::new(), &Vec::new(), &Vec::new()), Ok(Vec::new()));
}

#[test]
fn import_identity_is_the_terminal_segment() {
    // Two imports share their leading segment; only `x` is reported unused.
    let part_x = "use util::x;";
    let part_y = "use util::y;";
    let part_main = "fn main() {}";
    let src = format!("{}\n{}\n{}\n", part_x, part_y, part_main);
    let import_decl = |full: &str, path: &str, name: &str| -> Decl {
        let path_at = src.find(path).unwrap();
        let name_at = path_at + path.rfind(name).unwrap();
        Decl {
            kind: DeclKind::ImportDecl(ImportShape::PathShape {
                node_spans: vec![
                    ByteRange { start: path_at, end: path_at + path.len() },
                    ByteRange { start: name_at, end: name_at + name.len() },
                ],
                terminal: name.as_bytes().to_vec(),
            }),
            span: range_of(&src, full),
        }
    };
    let decls = vec![
        import_decl(part_x, "util::x", "x"),
        import_decl(part_y, "util::y", "y"),
        named("fn", &src, "main", part_main),
    ];
    let x_path = range_of(&src, "util::x");
    let records = vec![diag("unused_imports", x_path, part_x, 5, 12)];
    let out = run_pass(&src, &decls, &records).expect("pass succeeds");
    // The import of `x` goes; the import of `y`, same leading segment, stays.
    let expected = format!("\n{}\n{}\n", part_y, part_main);
    assert_eq!(out, expected.as_bytes());
}
