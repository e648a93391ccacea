use wasm_objdump::printer::{Encoding, Line};
use wasm_objdump::sections::SectionKind;
use wasm_objdump::session::{Event, Session};
use wasm_objdump::stream::event_of;
use wasm_objdump::{replay, Error, FunctionInfo, Opts};

fn section(kind: SectionKind, start: usize, end: usize) -> Event {
    Event::Section { kind, start, end }
}

fn custom(name: &str, start: usize, end: usize) -> Event {
    Event::Custom { name: name.to_string(), start, end }
}

fn listed(indent: usize, name: &str, start: usize, end: usize, count: u32) -> Line {
    Line::Section { indent, name: name.to_string(), start, end, count }
}

/// Function section at 0..3, two bodies at 3..7 and 7..9, names at 9..18.
fn input() -> Vec<u8> {
    let mut bytes = vec![0x02, 0x05, 0x06];
    bytes.extend([0x00, 0x10, 0x01, 0x0b]);
    bytes.extend([0x00, 0x0b]);
    bytes.extend([0x01, 0x07, 0x02, 0x00, 0x01, b'f', 0x01, 0x01, b'g']);
    bytes
}

fn events() -> Vec<Event> {
    vec![
        Event::Other,
        section(SectionKind::Functions, 0, 3),
        section(SectionKind::Code, 1, 9),
        Event::CodeEntry { start: 3, end: 7 },
        Event::CodeEntry { start: 7, end: 9 },
        custom("name", 9, 18),
        Event::End,
    ]
}

#[test]
fn replay_of_a_module() {
    let dump = replay(&input(), &events());
    assert_eq!(
        dump.lines,
        vec![
            listed(1, "functions", 0, 3, 2),
            listed(1, "code", 1, 9, 5),
            listed(1, "custom \"name\"", 9, 18, 1),
        ]
    );
    let summary = dump.summary.expect("a summary");
    assert_eq!((summary.called, summary.uncalled), (1, 1));
    assert_eq!(summary.namespaces.len(), 1);
    assert_eq!(
        summary.namespaces[0].members,
        vec![
            FunctionInfo { id: 5, call_count: 0, byte_size: 4 },
            FunctionInfo { id: 6, call_count: 1, byte_size: 2 },
        ]
    );
}

#[test]
fn replay_of_nothing_has_no_names() {
    let dump = replay(&[], &Vec::new());
    assert!(dump.lines.is_empty());
    assert_eq!(dump.summary, Err(Error::MissingNameData));
}

#[test]
fn replay_stops_at_the_first_fault_and_keeps_the_lines() {
    let mut list = events();
    list.insert(3, Event::Malformed);
    let dump = replay(&input(), &list);
    assert_eq!(dump.summary, Err(Error::StructuralDecode));
    assert_eq!(dump.lines, vec![listed(1, "functions", 0, 3, 2), listed(1, "code", 1, 9, 5)]);

    // a code entry without a declared function
    let mut list = events();
    list.insert(5, Event::CodeEntry { start: 7, end: 9 });
    let dump = replay(&input(), &list);
    assert_eq!(dump.summary, Err(Error::StructuralDecode));
    assert_eq!(dump.lines.len(), 2);

    // the names once more
    let mut list = events();
    list.insert(6, custom("name", 9, 18));
    let dump = replay(&input(), &list);
    assert_eq!(dump.summary, Err(Error::DuplicateName));
    assert_eq!(dump.lines.len(), 3);
}

#[test]
fn a_range_outside_the_input_is_a_fault() {
    let bytes = input();
    for event in [
        section(SectionKind::Start, 0, 19),
        section(SectionKind::Types, 5, 4),
        section(SectionKind::Module, 20, 20),
        custom("other", 18, 19),
        custom("name", 2, 1),
        Event::CodeEntry { start: 3, end: 19 },
        Event::CodeEntry { start: usize::MAX, end: 0 },
    ] {
        let mut session = Session::new();
        assert_eq!(session.step(&bytes, &event), Err(Error::StructuralDecode), "{event:?}");
        assert!(session.printer.output.is_empty());
    }
    let mut session = Session::new();
    assert_eq!(session.step(&bytes, &section(SectionKind::Start, 18, 18)), Ok(()));
    assert_eq!(session.printer.output, vec![listed(1, "start", 18, 18, 1)]);
}

#[test]
fn an_indexed_section_reports_its_declared_length() {
    // 0xe5 0x8e 0x26 is 624485
    let bytes = [0xe5, 0x8e, 0x26, 0x00, 0x80];
    let mut session = Session::new();
    assert_eq!(session.step(&bytes, &section(SectionKind::Imports, 0, 4)), Ok(()));
    assert_eq!(session.step(&bytes, &section(SectionKind::DataCount, 0, 4)), Ok(()));
    assert_eq!(session.step(&bytes, &section(SectionKind::Globals, 3, 4)), Ok(()));
    assert_eq!(
        session.printer.output,
        vec![
            listed(1, "imports", 0, 4, 624485),
            listed(1, "data count", 0, 4, 1),
            listed(1, "globals", 3, 4, 0),
        ]
    );
    // a length that cannot be decoded
    assert_eq!(
        session.step(&bytes, &section(SectionKind::Exports, 4, 5)),
        Err(Error::StructuralDecode)
    );
    assert_eq!(
        session.step(&bytes, &section(SectionKind::Tables, 2, 2)),
        Err(Error::StructuralDecode)
    );
    assert_eq!(session.printer.output.len(), 3);
}

#[test]
fn only_the_section_called_name_is_read_for_names() {
    let bytes = input();
    let mut session = Session::new();
    assert_eq!(session.step(&bytes, &custom("names", 9, 18)), Ok(()));
    assert_eq!(session.step(&bytes, &custom("", 0, 3)), Ok(()));
    assert!(session.names.has_no_function_names());
    assert_eq!(session.step(&bytes, &custom("name", 9, 18)), Ok(()));
    assert_eq!(session.names.functions.len(), 2);
    // a name section that does not decode
    assert_eq!(session.step(&bytes, &custom("name", 0, 3)), Err(Error::StructuralDecode));
    assert_eq!(
        session.printer.output,
        vec![
            listed(1, "custom \"names\"", 9, 18, 1),
            listed(1, "custom \"\"", 0, 3, 1),
            listed(1, "custom \"name\"", 9, 18, 1),
        ]
    );
}

#[test]
fn custom_names_are_quoted_and_escaped() {
    let mut session = Session::new();
    assert_eq!(session.step(&[], &custom("a\"b\\c\n", 0, 0)), Ok(()));
    assert_eq!(session.step(&[], &custom(".debug_info", 0, 0)), Ok(()));
    assert_eq!(
        session.printer.output,
        vec![
            listed(1, "custom \"a\\\"b\\\\c\\n\"", 0, 0, 1),
            listed(1, "custom \".debug_info\"", 0, 0, 1),
        ]
    );
}

#[test]
fn containers_nest_and_are_numbered_per_scope() {
    let bytes = [0u8; 4];
    let list = vec![
        section(SectionKind::Module, 0, 1),
        Event::End,
        section(SectionKind::Component, 1, 4),
        section(SectionKind::Module, 2, 3),
        Event::End,
        section(SectionKind::Module, 3, 4),
        Event::End,
        Event::End,
        section(SectionKind::Module, 0, 0),
        Event::End,
        Event::End,
        Event::End,
        section(SectionKind::Start, 0, 0),
    ];
    let dump = replay(&bytes, &list);
    let start = |indent, encoding, index| Line::Start { indent, encoding, index };
    let end = |indent, encoding, index| Line::End { indent, encoding, index };
    assert_eq!(
        dump.lines,
        vec![
            listed(1, "module", 0, 1, 1),
            start(2, Encoding::Module, 0),
            end(2, Encoding::Module, 0),
            listed(1, "component", 1, 4, 1),
            start(2, Encoding::Component, 0),
            listed(2, "module", 2, 3, 1),
            start(3, Encoding::Module, 0),
            end(3, Encoding::Module, 0),
            listed(2, "module", 3, 4, 1),
            start(3, Encoding::Module, 1),
            end(3, Encoding::Module, 1),
            end(2, Encoding::Component, 0),
            listed(1, "module", 0, 0, 1),
            start(2, Encoding::Module, 1),
            end(2, Encoding::Module, 1),
            // the outermost container has ended: no more indentation
            listed(0, "start", 0, 0, 1),
        ]
    );
    assert_eq!(dump.summary, Err(Error::MissingNameData));
}

#[test]
fn run_on_a_cut_off_input_keeps_what_was_listed() {
    // header, a type section, and a function section that claims 9 bytes
    let mut bytes = vec![0x00, 0x61, 0x73, 0x6d, 0x01, 0x00, 0x00, 0x00];
    bytes.extend([0x01, 0x04, 0x01, 0x60, 0x00, 0x00]);
    bytes.extend([0x03, 0x09, 0x01, 0x00]);
    let dump = Opts { input: bytes }.run();
    assert_eq!(dump.summary, Err(Error::StructuralDecode));
    assert_eq!(dump.lines, vec![listed(1, "types", 10, 14, 1)]);
}

#[test]
fn run_on_what_is_no_binary_fails_at_once() {
    for bytes in [Vec::new(), b"(module)".to_vec(), vec![0x00, 0x61, 0x73, 0x6d, 0x02, 0, 0, 0]] {
        let dump = Opts { input: bytes }.run();
        assert_eq!(dump.summary, Err(Error::StructuralDecode));
        assert!(dump.lines.is_empty());
    }
}

#[test]
fn run_rejects_a_function_section_with_bytes_left_over() {
    let mut bytes = vec![0x00, 0x61, 0x73, 0x6d, 0x01, 0x00, 0x00, 0x00];
    bytes.extend([0x03, 0x03, 0x01, 0x00, 0x00]);
    let dump = Opts { input: bytes }.run();
    assert_eq!(dump.summary, Err(Error::StructuralDecode));
    assert!(dump.lines.is_empty());
}

#[test]
fn run_rejects_code_without_declared_functions() {
    let mut bytes = vec![0x00, 0x61, 0x73, 0x6d, 0x01, 0x00, 0x00, 0x00];
    bytes.extend([0x0a, 0x04, 0x01, 0x02, 0x00, 0x0b]);
    let dump = Opts { input: bytes }.run();
    assert_eq!(dump.summary, Err(Error::StructuralDecode));
    assert_eq!(dump.lines, vec![listed(1, "code", 10, 14, 1)]);
}

#[test]
fn run_reports_a_name_given_twice() {
    let mut bytes = vec![0x00, 0x61, 0x73, 0x6d, 0x01, 0x00, 0x00, 0x00];
    bytes.extend([0x00, 0x0e, 0x04, b'n', b'a', b'm', b'e']);
    bytes.extend([0x01, 0x07, 0x02, 0x00, 0x01, b'f', 0x00, 0x01, b'g']);
    let dump = Opts { input: bytes }.run();
    assert_eq!(dump.summary, Err(Error::DuplicateName));
    assert!(dump.lines.is_empty());
}

#[test]
fn run_skips_sections_of_unknown_kind() {
    let mut bytes = vec![0x00, 0x61, 0x73, 0x6d, 0x01, 0x00, 0x00, 0x00];
    bytes.extend([0x3f, 0x02, 0xaa, 0xbb]);
    bytes.extend([0x08, 0x01, 0x00]);
    bytes.extend([0x00, 0x0b, 0x04, b'n', b'a', b'm', b'e']);
    bytes.extend([0x01, 0x04, 0x01, 0x00, 0x01, b'f']);
    let dump = Opts { input: bytes }.run();
    assert_eq!(
        dump.lines,
        vec![listed(1, "start", 14, 15, 1), listed(1, "custom \"name\"", 22, 28, 1)]
    );
    let summary = dump.summary.expect("a summary");
    assert_eq!((summary.called, summary.uncalled), (0, 0));
    assert_eq!(summary.namespaces.len(), 1);
    assert_eq!(summary.namespaces[0].label, "non_namespaced");
}

#[test]
fn run_ignores_calls_to_functions_that_do_not_exist() {
    let mut bytes = vec![0x00, 0x61, 0x73, 0x6d, 0x01, 0x00, 0x00, 0x00];
    bytes.extend([0x03, 0x02, 0x01, 0x00]);
    // one body: call 1; call 200; call 0; end
    bytes.extend([0x0a, 0x0a, 0x01, 0x08, 0x00, 0x10, 0x01, 0x10, 0xc8, 0x01, 0x10, 0x00]);
    bytes.extend([0x00, 0x0b, 0x04, b'n', b'a', b'm', b'e']);
    bytes.extend([0x01, 0x04, 0x01, 0x00, 0x01, b'f']);
    let dump = Opts { input: bytes }.run();
    let summary = dump.summary.expect("a summary");
    assert_eq!((summary.called, summary.uncalled), (1, 0));
    assert_eq!(
        summary.namespaces[0].members,
        vec![FunctionInfo { id: 0, call_count: 1, byte_size: 8 }]
    );
}

#[test]
fn ends_count_modules_in_their_scope_and_components_in_the_scope_around() {
    // a component at 0..6 that holds a module at 1..5 with a function section at 2..4
    let bytes = [0x00, 0x00, 0x01, 0x07, 0x00, 0x00];
    let mut session = Session::new();
    for event in [
        section(SectionKind::Component, 0, 6),
        section(SectionKind::Module, 1, 5),
        section(SectionKind::Functions, 2, 4),
    ] {
        assert_eq!(session.step(&bytes, &event), Ok(()));
    }
    assert_eq!(session.printer.indices.len(), 2);
    assert_eq!(session.printer.indices[1].processing, vec![Encoding::Component, Encoding::Module]);
    assert_eq!(session.step(&bytes, &Event::End), Ok(()));
    assert_eq!(session.printer.indices[1].modules, 1);
    assert_eq!(session.printer.indices[1].processing, vec![Encoding::Component]);
    assert_eq!(session.step(&bytes, &Event::End), Ok(()));
    assert_eq!(session.printer.indices.len(), 1);
    assert_eq!(session.printer.indices[0].components, 1);
    assert_eq!(session.printer.indices[0].modules, 0);
    assert_eq!(session.functions, vec![FunctionInfo { id: 7, call_count: 0, byte_size: 0 }]);
    assert_eq!(session.step(&bytes, &Event::End), Ok(()));
    assert!(session.printer.indices.is_empty());
    let shape: Vec<String> = session.printer.output.iter().map(|line| line.text()).collect();
    assert_eq!(
        shape,
        vec![
            "  component                              |        0x0 -        0x6 |         6 bytes | 1 count",
            "    ------ start component 0 ----------",
            "    module                               |        0x1 -        0x5 |         4 bytes | 1 count",
            "      ------ start module 0 -------------",
            "      functions                          |        0x2 -        0x4 |         2 bytes | 1 count",
            "      ------ end module 0 -------------",
            "    ------ end component 0 ----------",
        ]
    );
}

#[test]
fn a_payload_stands_for_one_event() {
    let types = Some(SectionKind::Types);
    let code = Some(SectionKind::Code);
    let name = || Some(("name".to_string(), 5, 9));
    assert_eq!(event_of(true, None, None, None, None, None), Event::End);
    assert_eq!(
        event_of(false, Some((3, 7)), None, None, None, None),
        Event::CodeEntry { start: 3, end: 7 }
    );
    assert_eq!(event_of(false, None, name(), None, None, Some((1, 9))), custom("name", 5, 9));
    assert_eq!(
        event_of(false, None, None, types, None, Some((10, 14))),
        section(SectionKind::Types, 10, 14)
    );
    assert_eq!(
        event_of(false, None, None, None, code, Some((21, 54))),
        section(SectionKind::Code, 21, 54)
    );
    // a header, and a section of unknown kind
    assert_eq!(event_of(false, None, None, None, None, None), Event::Other);
    assert_eq!(event_of(false, None, None, None, None, Some((8, 10))), Event::Other);
    // a kind without a range
    assert_eq!(event_of(false, None, None, types, None, None), Event::Other);
    // what comes first where more than one thing was read
    assert_eq!(event_of(true, Some((3, 7)), name(), types, code, Some((1, 2))), Event::End);
    assert_eq!(
        event_of(false, Some((3, 7)), name(), types, code, Some((1, 2))),
        Event::CodeEntry { start: 3, end: 7 }
    );
    assert_eq!(event_of(false, None, name(), types, code, Some((1, 2))), custom("name", 5, 9));
    assert_eq!(
        event_of(false, None, None, types, code, Some((1, 2))),
        section(SectionKind::Types, 1, 2)
    );
}
