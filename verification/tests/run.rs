use wasm_objdump::printer::{Encoding, Line};
use wasm_objdump::{Error, FunctionInfo, Opts};

fn leb(mut n: u32) -> Vec<u8> {
    let mut out = Vec::new();
    loop {
        let byte = (n & 0x7f) as u8;
        n >>= 7;
        if n == 0 {
            out.push(byte);
            return out;
        }
        out.push(byte | 0x80);
    }
}

fn section(id: u8, contents: &[u8]) -> Vec<u8> {
    let mut out = vec![id];
    out.extend(leb(contents.len() as u32));
    out.extend_from_slice(contents);
    out
}

fn vector(items: &[Vec<u8>]) -> Vec<u8> {
    let mut out = leb(items.len() as u32);
    for item in items {
        out.extend_from_slice(item);
    }
    out
}

fn text(s: &str) -> Vec<u8> {
    let mut out = leb(s.len() as u32);
    out.extend_from_slice(s.as_bytes());
    out
}

fn module_header() -> Vec<u8> {
    vec![0x00, 0x61, 0x73, 0x6d, 0x01, 0x00, 0x00, 0x00]
}

fn component_header() -> Vec<u8> {
    vec![0x00, 0x61, 0x73, 0x6d, 0x0a, 0x00, 0x01, 0x00]
}

/// A body of `size` bytes without locals: the given instructions, then
/// `nop`s, then `end`.
fn body(instructions: &[u8], size: usize) -> Vec<u8> {
    let mut code = vec![0x00];
    code.extend_from_slice(instructions);
    while code.len() < size - 1 {
        code.push(0x01);
    }
    code.push(0x0b);
    assert_eq!(code.len(), size);
    let mut out = leb(size as u32);
    out.extend(code);
    out
}

fn call(target: u32) -> Vec<u8> {
    let mut out = vec![0x10];
    out.extend(leb(target));
    out
}

fn function_names(names: &[(u32, &str)]) -> Vec<u8> {
    let entries: Vec<Vec<u8>> = names
        .iter()
        .map(|(index, name)| {
            let mut entry = leb(*index);
            entry.extend(text(name));
            entry
        })
        .collect();
    let mut data = text("name");
    data.push(0x01);
    let map = vector(&entries);
    data.extend(leb(map.len() as u32));
    data.extend(map);
    section(0, &data)
}

fn two_function_module(names: &[(u32, &str)]) -> Vec<u8> {
    let mut wasm = module_header();
    wasm.extend(section(1, &vector(&[vec![0x60, 0x00, 0x00]])));
    wasm.extend(section(3, &vector(&[leb(0), leb(0)])));
    wasm.extend(section(10, &vector(&[body(&call(1), 10), body(&[], 20)])));
    if !names.is_empty() {
        wasm.extend(function_names(names));
    }
    wasm
}

#[test]
fn two_namespaces_are_sized_and_ranked() {
    let input = two_function_module(&[(0, "void foo::bar()"), (1, "int baz::qux()")]);
    let dump = Opts { input }.run();
    let summary = dump.summary.expect("a summary");
    assert_eq!(summary.called, 1);
    assert_eq!(summary.uncalled, 1);
    let listed: Vec<(&str, usize, u128)> = summary
        .namespaces
        .iter()
        .map(|b| (b.label.as_str(), b.members.len(), b.byte_size()))
        .collect();
    assert_eq!(listed, vec![("baz", 1, 20), ("foo", 1, 10), ("non_namespaced", 0, 0)]);
    assert_eq!(
        summary.namespaces[0].members,
        vec![FunctionInfo { id: 0, call_count: 1, byte_size: 20 }]
    );
    assert_eq!(
        summary.namespaces[1].members,
        vec![FunctionInfo { id: 0, call_count: 0, byte_size: 10 }]
    );
}

#[test]
fn module_without_names_fails() {
    let input = two_function_module(&[]);
    let dump = Opts { input }.run();
    assert_eq!(dump.summary, Err(Error::MissingNameData));
    assert_eq!(dump.lines.len(), 3);
}

#[test]
fn section_map_of_a_module() {
    let input = two_function_module(&[(0, "a"), (1, "b")]);
    let dump = Opts { input }.run();
    let expected = vec![
        Line::Section { indent: 1, name: "types".to_string(), start: 10, end: 14, count: 1 },
        Line::Section { indent: 1, name: "functions".to_string(), start: 16, end: 19, count: 2 },
        Line::Section { indent: 1, name: "code".to_string(), start: 21, end: 54, count: 2 },
        Line::Section {
            indent: 1,
            name: "custom \"name\"".to_string(),
            start: 61,
            end: 70,
            count: 1,
        },
    ];
    assert_eq!(dump.lines, expected);
}

#[test]
fn nested_component_with_one_module() {
    let mut module = module_header();
    module.extend(section(1, &vector(&[vec![0x60, 0x00, 0x00]])));
    module.extend(section(3, &vector(&[leb(0)])));
    module.extend(section(10, &vector(&[body(&[], 2)])));
    module.extend(function_names(&[(0, "f")]));
    let mut inner = component_header();
    inner.extend(section(1, &module));
    let mut outer = component_header();
    outer.extend(section(4, &inner));
    let dump = Opts { input: outer }.run();
    assert!(dump.summary.is_ok());
    let shape: Vec<String> = dump
        .lines
        .iter()
        .map(|line| match line {
            Line::Section { indent, name, count, .. } => format!("{indent} {name} {count}"),
            Line::Start { indent, encoding, index } => format!("{indent} start {encoding:?} {index}"),
            Line::End { indent, encoding, index } => format!("{indent} end {encoding:?} {index}"),
        })
        .collect();
    assert_eq!(
        shape,
        vec![
            "1 component 1",
            "2 start Component 0",
            "2 module 1",
            "3 start Module 0",
            "3 types 1",
            "3 functions 1",
            "3 code 1",
            "3 custom \"name\" 1",
            "3 end Module 0",
            "2 end Component 0",
        ]
    );
    assert!(matches!(dump.lines[1], Line::Start { encoding: Encoding::Component, .. }));
}

#[test]
fn every_function_of_a_large_module_is_counted_once() {
    let n: u32 = 3000;
    let mut wasm = module_header();
    wasm.extend(section(1, &vector(&[vec![0x60, 0x00, 0x00]])));
    wasm.extend(section(3, &vector(&vec![leb(0); n as usize])));
    // function i calls function i + 1 and function 0; its body has 4 + i % 7 bytes
    // behind the two calls
    let bodies: Vec<Vec<u8>> = (0..n)
        .map(|i| {
            let mut calls = call((i + 1) % n);
            calls.extend(call(0));
            let size = 1 + calls.len() + 4 + (i % 7) as usize;
            body(&calls, size)
        })
        .collect();
    let sizes: Vec<usize> = bodies.iter().map(|b| b.len() - leb(b.len() as u32 - 1).len()).collect();
    wasm.extend(section(10, &vector(&bodies)));
    let names: Vec<String> = (0..n).map(|i| format!("void ns{}::f{}(int)", i % 10, i)).collect();
    let named: Vec<(u32, &str)> = names.iter().enumerate().map(|(i, s)| (i as u32, s.as_str())).collect();
    wasm.extend(function_names(&named));
    let dump = Opts { input: wasm }.run();
    let summary = dump.summary.expect("a summary");
    assert_eq!(summary.called, n as usize);
    assert_eq!(summary.uncalled, 0);
    assert_eq!(summary.namespaces.len(), 11);
    let members: usize = summary.namespaces.iter().map(|b| b.members.len()).sum();
    assert_eq!(members, n as usize);
    let total: u128 = summary.namespaces.iter().map(|b| b.byte_size()).sum();
    assert_eq!(total, sizes.iter().map(|s| *s as u128).sum::<u128>());
    for pair in summary.namespaces.windows(2) {
        assert!(pair[0].byte_size() >= pair[1].byte_size());
    }
    let last = summary.namespaces.last().expect("a bucket");
    assert_eq!(last.label, "non_namespaced");
    assert!(last.members.is_empty());
    let calls: u64 = summary
        .namespaces
        .iter()
        .flat_map(|b| b.members.iter())
        .map(|f| f.call_count as u64)
        .sum();
    assert_eq!(calls, 2 * n as u64);
}
