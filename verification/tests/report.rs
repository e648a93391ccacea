use wasm_objdump::dump::Dump;
use wasm_objdump::names::NameTable;
use wasm_objdump::namespace::{is_whitespace, namespace_label, namespace_of, trim};
use wasm_objdump::printer::{Encoding, Line, Printer};
use wasm_objdump::render::{decimal_string, hex_string};
use wasm_objdump::sections::SectionKind;
use wasm_objdump::summary::{assign, rank, summarize, Bucket, Summary};
use wasm_objdump::{Error, FunctionInfo};

fn sized(byte_size: usize) -> FunctionInfo {
    FunctionInfo { id: 0, call_count: 0, byte_size }
}

fn bucket(label: &str, sizes: &[usize]) -> Bucket {
    Bucket { label: label.to_string(), members: sizes.iter().map(|s| sized(*s)).collect() }
}

fn labels(buckets: &[Bucket]) -> Vec<&str> {
    buckets.iter().map(|b| b.label.as_str()).collect()
}

fn named(names: &[&str]) -> NameTable {
    let mut table = NameTable::new();
    for (index, name) in names.iter().enumerate() {
        table.functions.insert(index as u32, name.to_string());
    }
    table
}

#[test]
fn namespace_is_the_first_segment_behind_white_space() {
    assert_eq!(namespace_of("void foo::bar(int)"), "foo");
    assert_eq!(namespace_of("int baz::qux::quux()"), "baz");
    assert_eq!(namespace_of("std::vector<int> my_ns-2::make()"), "my_ns-2");
    assert_eq!(namespace_of("void\tphysx::step()"), "physx");
    // without a separator the token is its own first segment
    assert_eq!(namespace_of("void main()"), "main");
}

#[test]
fn namespace_under_the_prefix_keeps_two_levels() {
    assert_eq!(namespace_of("void es::render::draw()"), "es::render");
    assert_eq!(namespace_of("bool es::ok()"), "es::ok");
    // the prefix must be the whole first segment
    assert_eq!(namespace_of("void esx::render::draw()"), "esx");
    assert_eq!(namespace_of("void des::render()"), "des");
}

#[test]
fn name_without_a_token_is_not_namespaced() {
    // no white space in front of the token
    assert_eq!(namespace_of("foo::bar"), "non_namespaced");
    assert_eq!(namespace_of("baz::qux"), "non_namespaced");
    assert_eq!(namespace_of(""), "non_namespaced");
    // a token needs two characters
    assert_eq!(namespace_of("void f"), "non_namespaced");
    // upper case is no part of a token
    assert_eq!(namespace_of("void Foo::bar()"), "non_namespaced");
    // the first match counts, not the first white space
    assert_eq!(namespace_of("A (B) cd::e"), "cd");
}

#[test]
fn label_is_cut_at_the_first_separator() {
    assert_eq!(namespace_label("foo::bar"), "foo");
    assert_eq!(namespace_label("foo"), "foo");
    assert_eq!(namespace_label("a:::b"), "a");
    assert_eq!(namespace_label("a:b::c"), "a:b");
    assert_eq!(namespace_label("::a"), "");
    assert_eq!(namespace_label("es::a::b"), "es::a::b");
    assert_eq!(namespace_label("es:"), "es:");
    assert_eq!(namespace_label("es::"), "es::");
    assert_eq!(namespace_label(""), "");
    assert_eq!(namespace_label("é::x"), "é");
}

#[test]
fn trim_removes_white_space_at_both_ends_only() {
    assert_eq!(trim("  a b \t\n"), "a b");
    assert_eq!(trim("\u{a0}\u{2003}x\u{3000}\u{85}"), "x");
    assert_eq!(trim(" \t "), "");
    assert_eq!(trim(""), "");
    assert_eq!(trim("x"), "x");
    // a zero-width space is no white space
    assert_eq!(trim("\u{200b}x"), "\u{200b}x");
}

#[test]
fn white_space_is_what_the_standard_library_says() {
    let mut code: u32 = 0;
    while code <= 0x10ffff {
        if let Some(c) = char::from_u32(code) {
            assert_eq!(is_whitespace(c), c.is_whitespace(), "U+{code:04X}");
        }
        code += 1;
    }
}

#[test]
fn functions_are_filed_under_their_labels() {
    let mut buckets = vec![bucket("non_namespaced", &[])];
    assign(&mut buckets, "a".to_string(), sized(1));
    assign(&mut buckets, "b".to_string(), sized(2));
    assign(&mut buckets, "a".to_string(), sized(3));
    assign(&mut buckets, "non_namespaced".to_string(), sized(4));
    assert_eq!(
        buckets,
        vec![bucket("non_namespaced", &[4]), bucket("a", &[1, 3]), bucket("b", &[2])]
    );
}

#[test]
fn larger_bucket_is_listed_first() {
    let ranked = rank(vec![bucket("small", &[50]), bucket("large", &[60, 40])]);
    assert_eq!(labels(&ranked), vec!["large", "small"]);
    assert_eq!(ranked[0].byte_size(), 100);
    assert_eq!(ranked[1].byte_size(), 50);
    let ranked = rank(vec![bucket("large", &[100]), bucket("small", &[50])]);
    assert_eq!(labels(&ranked), vec!["large", "small"]);
}

#[test]
fn buckets_of_equal_size_all_appear_once() {
    let ranked = rank(vec![
        bucket("a", &[10]),
        bucket("b", &[30]),
        bucket("c", &[5, 5]),
        bucket("d", &[]),
        bucket("e", &[30]),
        bucket("f", &[10]),
    ]);
    assert_eq!(labels(&ranked), vec!["b", "e", "a", "c", "f", "d"]);
    let members: usize = ranked.iter().map(|b| b.members.len()).sum();
    assert_eq!(members, 6);
    assert!(rank(Vec::new()).is_empty());
}

#[test]
fn bucket_size_is_the_sum_beyond_the_machine_word() {
    let b = bucket("x", &[usize::MAX, usize::MAX, 2]);
    assert_eq!(b.byte_size(), 2 * (usize::MAX as u128) + 2);
}

#[test]
fn summary_counts_called_functions_and_ranks_namespaces() {
    let functions = vec![
        FunctionInfo { id: 0, call_count: 2, byte_size: 10 },
        FunctionInfo { id: 1, call_count: 0, byte_size: 5 },
        FunctionInfo { id: 0, call_count: 1, byte_size: 30 },
        FunctionInfo { id: 2, call_count: 0, byte_size: 7 },
    ];
    let names = named(&["void a::f()", "main", "int b::g()", "void a::h()"]);
    let summary = summarize(&functions, &names).expect("a summary");
    assert_eq!(summary.called, 2);
    assert_eq!(summary.uncalled, 2);
    assert_eq!(
        summary.namespaces,
        vec![
            Bucket { label: "b".to_string(), members: vec![functions[2]] },
            Bucket { label: "a".to_string(), members: vec![functions[0], functions[3]] },
            Bucket { label: "non_namespaced".to_string(), members: vec![functions[1]] },
        ]
    );
}

#[test]
fn summary_without_functions_lists_the_sentinel_bucket() {
    let names = named(&["void a::f()"]);
    let summary = summarize(&Vec::new(), &names).expect("a summary");
    assert_eq!(summary.called, 0);
    assert_eq!(summary.uncalled, 0);
    assert_eq!(summary.namespaces, vec![bucket("non_namespaced", &[])]);
}

#[test]
fn summary_needs_a_name_for_every_function() {
    let functions = vec![sized(1), sized(2)];
    assert_eq!(summarize(&functions, &NameTable::new()), Err(Error::MissingNameData));
    assert_eq!(summarize(&Vec::new(), &NameTable::new()), Err(Error::MissingNameData));
    assert_eq!(summarize(&functions, &named(&["void a::f()"])), Err(Error::MissingNameData));
    let mut second_only = NameTable::new();
    second_only.functions.insert(1, "x".to_string());
    assert_eq!(summarize(&functions, &second_only), Err(Error::MissingNameData));
    // names of types do not count
    let mut types_only = NameTable::new();
    types_only.types.insert(0, "t".to_string());
    assert_eq!(summarize(&Vec::new(), &types_only), Err(Error::MissingNameData));
}

#[test]
fn printer_numbers_and_indents_nested_containers() {
    let mut printer = Printer::new();
    assert_eq!(printer.depth(), 1);
    assert_eq!(printer.header(), "  ");
    printer.section_raw(8, 20, 1, "component");
    printer.open_space();
    printer.start(Encoding::Component);
    assert_eq!(printer.depth(), 2);
    printer.start(Encoding::Module);
    assert_eq!(printer.depth(), 3);
    assert_eq!(printer.header(), "      ");
    printer.end();
    printer.start(Encoding::Module);
    printer.end();
    assert_eq!(printer.indices[1].modules, 2);
    printer.end();
    assert_eq!(printer.indices.len(), 1);
    assert_eq!(printer.indices[0].components, 1);
    assert_eq!(printer.indices[0].modules, 0);
    printer.open_space();
    printer.start(Encoding::Component);
    printer.end();
    assert_eq!(printer.indices[0].components, 2);
    printer.end();
    assert!(printer.indices.is_empty());
    assert_eq!(printer.depth(), 0);
    assert_eq!(printer.header(), "");
    // without an index space nothing is noted
    printer.start(Encoding::Module);
    printer.end();
    let section = |indent| Line::Section {
        indent,
        name: "component".to_string(),
        start: 8,
        end: 20,
        count: 1,
    };
    let start = |indent, encoding, index| Line::Start { indent, encoding, index };
    let end = |indent, encoding, index| Line::End { indent, encoding, index };
    assert_eq!(
        printer.output,
        vec![
            section(1),
            start(2, Encoding::Component, 0),
            start(3, Encoding::Module, 0),
            end(3, Encoding::Module, 0),
            start(3, Encoding::Module, 1),
            end(3, Encoding::Module, 1),
            end(2, Encoding::Component, 0),
            start(2, Encoding::Component, 0),
            end(2, Encoding::Component, 0),
        ]
    );
}

#[test]
fn counters_stop_at_their_largest_value() {
    let mut printer = Printer::new();
    printer.indices[0].modules = u32::MAX;
    printer.start(Encoding::Module);
    printer.end();
    assert_eq!(printer.indices[0].modules, u32::MAX);
}

#[test]
fn numbers_are_written_as_the_standard_library_writes_them() {
    for n in [0u128, 1, 9, 10, 11, 99, 100, 4096, 65535, u64::MAX as u128, u128::MAX] {
        assert_eq!(decimal_string(n), format!("{n}"));
    }
    for n in [0usize, 1, 9, 10, 15, 16, 17, 255, 256, 0xdead_beef, usize::MAX] {
        assert_eq!(hex_string(n), format!("{n:#x}"));
    }
}

#[test]
fn lines_are_laid_out_in_columns() {
    let line = Line::Section { indent: 1, name: "types".to_string(), start: 10, end: 14, count: 1 };
    assert_eq!(
        line.text(),
        "  types                                  |        0xa -        0xe |         4 bytes | 1 count"
    );
    let cases = [
        (0, "", 0, 0, 0),
        (2, "custom \"name\"", 0x1234, 0x12345678, 77),
        (3, "a name that is longer than the forty characters of its column", 1, 2, u32::MAX),
        (20, "deep", usize::MAX - 1, usize::MAX, 3),
        (1, "grüße", 0xffff_ffff_ffff, 0x1_0000_0000_0000, 9),
    ];
    for (indent, name, start, end, count) in cases {
        let line = Line::Section { indent, name: name.to_string(), start, end, count };
        let expected = format!(
            "{:40} | {:#10x} - {:#10x} | {:9} bytes | {} count",
            format!("{}{}", "  ".repeat(indent), name),
            start,
            end,
            end - start,
            count,
        );
        assert_eq!(line.text(), expected);
    }
    // a range that runs backwards has no bytes
    let backwards = Line::Section { indent: 0, name: "x".to_string(), start: 5, end: 3, count: 0 };
    assert!(backwards.text().contains("|         0 bytes |"));
}

#[test]
fn markers_name_the_container_and_its_number() {
    let text = |line: Line| line.text();
    assert_eq!(
        text(Line::Start { indent: 2, encoding: Encoding::Module, index: 0 }),
        "    ------ start module 0 -------------"
    );
    assert_eq!(
        text(Line::Start { indent: 1, encoding: Encoding::Component, index: 12 }),
        "  ------ start component 12 ----------"
    );
    assert_eq!(
        text(Line::End { indent: 0, encoding: Encoding::Module, index: 3 }),
        "------ end module 3 -------------"
    );
    assert_eq!(
        text(Line::End { indent: 3, encoding: Encoding::Component, index: u32::MAX }),
        "      ------ end component 4294967295 ----------"
    );
}

#[test]
fn dump_text_is_the_map_and_then_the_report() {
    let dump = Dump {
        lines: vec![Line::Start { indent: 0, encoding: Encoding::Module, index: 1 }],
        summary: Ok(Summary {
            called: 3,
            uncalled: 4,
            namespaces: vec![bucket("es::gfx", &[100, 20]), bucket("non_namespaced", &[])],
        }),
    };
    assert_eq!(
        dump.text(),
        vec![
            "------ start module 1 -------------",
            "Called funcs: 3, uncalled funcs: 4",
            "2 namespaces found",
            "'es::gfx' functions: 2 (120 bytes)",
            "'non_namespaced' functions: 0 (0 bytes)",
        ]
    );
    let failed = Dump {
        lines: vec![Line::End { indent: 0, encoding: Encoding::Module, index: 0 }],
        summary: Err(Error::StructuralDecode),
    };
    assert_eq!(failed.text(), vec!["------ end module 0 -------------"]);
}

#[test]
fn each_fault_has_its_sentence() {
    assert_eq!(
        Error::MissingNameData.message(),
        "Can only parse wasm files with custom 'name' section. Make sure the wasm has debug names in the file."
    );
    assert_eq!(Error::DuplicateName.message(), "name already in lookup");
    assert!(Error::StructuralDecode.message().starts_with("malformed input"));
}

#[test]
fn section_kinds_have_their_names() {
    assert_eq!(SectionKind::Types.name(), "types");
    assert_eq!(SectionKind::DataCount.name(), "data count");
    assert_eq!(SectionKind::CanonicalFunctions.name(), "canonical functions");
    assert_eq!(SectionKind::CoreInstances.name(), "core instances");
    assert!(SectionKind::Functions.is_indexed());
    assert!(SectionKind::Code.is_indexed());
    assert!(SectionKind::ComponentExports.is_indexed());
    for single in [
        SectionKind::Start,
        SectionKind::DataCount,
        SectionKind::Module,
        SectionKind::Component,
        SectionKind::ComponentStart,
    ] {
        assert!(!single.is_indexed());
    }
}
