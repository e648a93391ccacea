//! One decode pass: the state that is threaded through it, and what each
//! event of the section stream does to that state.

use crate::code::body_calls;
use crate::cursor::{leb_u32, Cursor};
use crate::error::Error;
use crate::functions::{
    calls_to, counted, declare_functions, declared, declared_types, lemma_calls_to_concat,
    lemma_function_section_tiled, lemma_with_body, record_body, type_indices, with_body,
    FunctionInfo,
};
use crate::names::{merge_section, NameTable, Names};
use crate::printer::{
    empty_space, lemma_component_started, lemma_container_ended, lemma_module_started,
    open_containers, well_nested, with_end, with_section, with_space, with_start, Encoding,
    LineView, Printer, Sheet,
};
use crate::sections::SectionKind;
use vstd::prelude::*;
use vstd::slice::slice_subrange;

verus! {

/// One event of the section stream.
#[derive(Debug, PartialEq, Eq)]
pub enum Event {
    /// A section of the given kind, with the byte range of its contents.
    Section { kind: SectionKind, start: usize, end: usize },
    /// A custom section, with its name and the byte range of its data.
    Custom { name: String, start: usize, end: usize },
    /// One entry of the code section: the byte range of a function body.
    CodeEntry { start: usize, end: usize },
    /// The end of a module or component.
    End,
    /// Anything that is not reported: a header, or a section of unknown
    /// kind.
    Other,
    /// The stream cannot be decoded any further.
    Malformed,
}

/// An event, with its text as a sequence of characters.
pub enum EventView {
    Section { kind: SectionKind, start: usize, end: usize },
    Custom { name: Seq<char>, start: usize, end: usize },
    CodeEntry { start: usize, end: usize },
    End,
    Other,
    Malformed,
}

impl View for Event {
    type V = EventView;

    open spec fn view(&self) -> EventView {
        match *self {
            Event::Section { kind, start, end } => EventView::Section { kind, start, end },
            Event::Custom { name, start, end } => EventView::Custom { name: name@, start, end },
            Event::CodeEntry { start, end } => EventView::CodeEntry { start, end },
            Event::End => EventView::End,
            Event::Other => EventView::Other,
            Event::Malformed => EventView::Malformed,
        }
    }
}

/// The events of a list, each by its view.
pub open spec fn events_view(events: Seq<Event>) -> Seq<EventView> {
    Seq::new(events.len(), |i: int| events[i]@)
}

/// What `format!("custom {:?}", name)` yields: the label under which a
/// custom section with that name is listed.
pub uninterp spec fn custom_label(name: Seq<char>) -> Seq<char>;

/// Formats the label of a custom section with `format!`, the name in
/// `Debug` form. Trusted: the result is the function [`custom_label`] of
/// the name.
#[verifier::external_body]
fn format_custom_label(name: &str) -> (label: String)
    ensures
        label@ == custom_label(name@),
{
    format!("custom {:?}", name)
}

/// The state of a decode pass.
pub struct Session {
    /// The section map written so far.
    pub printer: Printer,
    /// The functions declared so far, in declaration order.
    pub functions: Vec<FunctionInfo>,
    /// The names resolved so far.
    pub names: NameTable,
    /// How many entries of code sections were processed so far.
    pub code_entries: usize,
}

/// The state of a decode pass, by the views of its parts.
pub struct SessionView {
    pub sheet: Sheet,
    pub functions: Seq<FunctionInfo>,
    pub names: Names,
    pub code_entries: nat,
}

impl View for Session {
    type V = SessionView;

    open spec fn view(&self) -> SessionView {
        SessionView {
            sheet: self.printer@,
            functions: self.functions@,
            names: self.names@,
            code_entries: self.code_entries as nat,
        }
    }
}

/// Whether `[start, end)` is a byte range of an input of the given length.
pub open spec fn in_bounds(start: usize, end: usize, len: nat) -> bool {
    start <= end <= len
}

/// The number of items that a section of the given kind reports: the
/// declared length for a vector of items, and 1 for a single thing. `None`
/// where the declared length cannot be decoded.
pub open spec fn item_count(kind: SectionKind, contents: Seq<u8>) -> Option<u32> {
    if kind.indexed() {
        match leb_u32(contents) {
            Some((count, _)) => Some(count),
            None => None,
        }
    } else {
        Some(1u32)
    }
}

/// The sheet after the line of a section was written, and, for a nested
/// module or component, after its start was noted. A component gets an
/// index space of its own.
pub open spec fn section_written(sheet: Sheet, kind: SectionKind, start: usize, end: usize, count: u32) -> Sheet {
    let listed = with_section(sheet, start, end, count, kind.label());
    match kind {
        SectionKind::Module => with_start(listed, Encoding::Module),
        SectionKind::Component => with_start(with_space(listed), Encoding::Component),
        _ => listed,
    }
}

/// The state after one event, or the error that ends the pass.
///
/// - A section must lie inside the input, and its item count must decode.
///   A function section declares its functions. The section is then
///   listed.
/// - A custom section must lie inside the input. One named `name` is
///   merged into the name tables. The section is then listed with one
///   item.
/// - A code entry must lie inside the input and belong to a declared
///   function; its size is stored and its calls are tallied.
/// - An end closes the innermost container.
/// - A stream that cannot be decoded any further is a fault.
pub open spec fn after(state: SessionView, input: Seq<u8>, event: EventView) -> Result<
    SessionView,
    Error,
> {
    match event {
        EventView::Section { kind, start, end } => {
            if !in_bounds(start, end, input.len()) {
                Err(Error::StructuralDecode)
            } else {
                let contents = input.subrange(start as int, end as int);
                match item_count(kind, contents) {
                    None => Err(Error::StructuralDecode),
                    Some(count) => {
                        let sheet = section_written(state.sheet, kind, start, end, count);
                        if kind == SectionKind::Functions {
                            match declared_types(contents) {
                                Some(ids) => Ok(
                                    SessionView {
                                        sheet,
                                        functions: state.functions + declared(ids),
                                        ..state
                                    },
                                ),
                                None => Err(Error::StructuralDecode),
                            }
                        } else {
                            Ok(SessionView { sheet, ..state })
                        }
                    },
                }
            }
        },
        EventView::Custom { name, start, end } => {
            if !in_bounds(start, end, input.len()) {
                Err(Error::StructuralDecode)
            } else {
                let sheet = with_section(state.sheet, start, end, 1, custom_label(name));
                if name == "name"@ {
                    match merge_section(state.names, input.subrange(start as int, end as int)) {
                        Ok(names) => Ok(SessionView { sheet, names, ..state }),
                        Err(e) => Err(e),
                    }
                } else {
                    Ok(SessionView { sheet, ..state })
                }
            }
        },
        EventView::CodeEntry { start, end } => {
            if !in_bounds(start, end, input.len()) {
                Err(Error::StructuralDecode)
            } else {
                match with_body(
                    state.functions,
                    state.code_entries as int,
                    input.subrange(start as int, end as int),
                ) {
                    Some(functions) => Ok(
                        SessionView {
                            functions,
                            code_entries: state.code_entries + 1,
                            ..state
                        },
                    ),
                    None => Err(Error::StructuralDecode),
                }
            }
        },
        EventView::End => Ok(SessionView { sheet: with_end(state.sheet), ..state }),
        EventView::Other => Ok(state),
        EventView::Malformed => Err(Error::StructuralDecode),
    }
}

/// How far a pass has come: it is still running, in some state, or it has
/// failed, with the lines that were written before the fault.
pub enum Progress {
    Running(SessionView),
    Failed(Seq<LineView>, Error),
}

/// The state at the start of a pass: the outermost index space, and
/// nothing else.
pub open spec fn initial() -> SessionView {
    SessionView {
        sheet: Sheet { indices: seq![empty_space()], output: Seq::empty() },
        functions: Seq::empty(),
        names: Names { functions: Map::empty(), types: Map::empty() },
        code_entries: 0,
    }
}

/// One more event: a running pass takes it, a failed pass stays failed.
pub open spec fn advanced(progress: Progress, input: Seq<u8>, event: EventView) -> Progress {
    match progress {
        Progress::Running(state) => match after(state, input, event) {
            Ok(next) => Progress::Running(next),
            Err(e) => Progress::Failed(state.sheet.output, e),
        },
        Progress::Failed(lines, e) => Progress::Failed(lines, e),
    }
}

/// The pass over a list of events, from the initial state.
pub open spec fn replayed(input: Seq<u8>, events: Seq<EventView>) -> Progress
    decreases events.len(),
{
    if events.len() == 0 {
        Progress::Running(initial())
    } else {
        advanced(replayed(input, events.drop_last()), input, events.last())
    }
}

/// A failed pass stays as it is, whatever events follow.
pub proof fn lemma_failed_stays(input: Seq<u8>, events: Seq<EventView>, k: int)
    requires
        0 <= k <= events.len(),
        replayed(input, events.take(k)) is Failed,
    ensures
        replayed(input, events) == replayed(input, events.take(k)),
    decreases events.len(),
{
    if k < events.len() {
        assert(events.drop_last().take(k) =~= events.take(k));
        lemma_failed_stays(input, events.drop_last(), k);
    } else {
        assert(events.take(k) =~= events);
    }
}

impl Session {
    /// The state at the start of a pass.
    pub fn new() -> (session: Session)
        ensures
            session@ == initial(),
    {
        Session {
            printer: Printer::new(),
            functions: Vec::new(),
            names: NameTable::new(),
            code_entries: 0,
        }
    }

    /// Takes one event. On a fault the lines written so far are kept as
    /// they were; the rest of the state is then not specified.
    pub fn step(&mut self, input: &[u8], event: &Event) -> (r: Result<(), Error>)
        ensures
            match after(old(self)@, input@, event@) {
                Ok(next) => r is Ok && final(self)@ == next,
                Err(e) => r == Err::<(), Error>(e) && final(self)@.sheet == old(self)@.sheet,
            },
    {
        match event {
            Event::Section { kind, start, end } => {
                if !(*start <= *end && *end <= input.len()) {
                    return Err(Error::StructuralDecode);
                }
                let contents = slice_subrange(input, *start, *end);
                let count: u32 = if kind.is_indexed() {
                    let mut cursor = Cursor::new(contents);
                    assert(contents@.skip(0) =~= contents@);
                    match cursor.read_var_u32() {
                        Some(count) => count,
                        None => {
                            return Err(Error::StructuralDecode);
                        },
                    }
                } else {
                    1
                };
                match kind {
                    SectionKind::Functions => {
                        if !declare_functions(&mut self.functions, contents) {
                            return Err(Error::StructuralDecode);
                        }
                    },
                    _ => {},
                }
                self.printer.section_raw(*start, *end, count, kind.name());
                match kind {
                    SectionKind::Module => {
                        self.printer.start(Encoding::Module);
                    },
                    SectionKind::Component => {
                        self.printer.open_space();
                        self.printer.start(Encoding::Component);
                    },
                    _ => {},
                }
                Ok(())
            },
            Event::Custom { name, start, end } => {
                if !(*start <= *end && *end <= input.len()) {
                    return Err(Error::StructuralDecode);
                }
                let names_section = String::from_str("name");
                if *name == names_section {
                    let data = slice_subrange(input, *start, *end);
                    match self.names.merge(data) {
                        Ok(()) => {},
                        Err(e) => {
                            return Err(e);
                        },
                    }
                }
                let label = format_custom_label(name.as_str());
                self.printer.section_raw(*start, *end, 1, label.as_str());
                Ok(())
            },
            Event::CodeEntry { start, end } => {
                if !(*start <= *end && *end <= input.len()) {
                    return Err(Error::StructuralDecode);
                }
                let body = slice_subrange(input, *start, *end);
                if self.code_entries >= self.functions.len() {
                    return Err(Error::StructuralDecode);
                }
                if !record_body(&mut self.functions, self.code_entries, body) {
                    return Err(Error::StructuralDecode);
                }
                self.code_entries = self.code_entries + 1;
                Ok(())
            },
            Event::End => {
                self.printer.end();
                Ok(())
            },
            Event::Other => Ok(()),
            Event::Malformed => Err(Error::StructuralDecode),
        }
    }
}

/// The state of a pass that is still running.
pub open spec fn state_of(progress: Progress) -> SessionView
    recommends
        progress is Running,
{
    match progress {
        Progress::Running(state) => state,
        Progress::Failed(_, _) => initial(),
    }
}

/// The lengths of the code entries among `events`, in the order of the
/// events.
pub open spec fn entry_sizes(events: Seq<EventView>) -> Seq<int>
    decreases events.len(),
{
    if events.len() == 0 {
        Seq::empty()
    } else {
        let before = entry_sizes(events.drop_last());
        match events.last() {
            EventView::CodeEntry { start, end } => before.push(end - start),
            _ => before,
        }
    }
}

/// While a pass runs, the size of a function is written once, by the
/// code entry at the function's position, and is the length of that
/// entry: the functions whose code entries went by carry those lengths,
/// and the others still carry 0.
pub proof fn lemma_sizes_written_once(input: Seq<u8>, events: Seq<EventView>)
    requires
        replayed(input, events) is Running,
    ensures
        ({
            let state = state_of(replayed(input, events));
            let sizes = entry_sizes(events);
            &&& state.code_entries == sizes.len()
            &&& state.code_entries <= state.functions.len()
            &&& forall|i: int|
                0 <= i < state.functions.len() ==> (#[trigger] state.functions[i]).byte_size == (
                if i < state.code_entries {
                    sizes[i]
                } else {
                    0
                })
        }),
    decreases events.len(),
{
    if events.len() > 0 {
        let before = replayed(input, events.drop_last());
        assert(before is Running);
        lemma_sizes_written_once(input, events.drop_last());
        let prev = state_of(before);
        let state = state_of(replayed(input, events));
        assert(after(prev, input, events.last()) == Ok::<SessionView, Error>(state));
        let sizes = entry_sizes(events);
        match events.last() {
            EventView::CodeEntry { start, end } => {
                let body = input.subrange(start as int, end as int);
                lemma_with_body(prev.functions, prev.code_entries as int, body);
                assert forall|i: int| 0 <= i < state.functions.len() implies (
                #[trigger] state.functions[i]).byte_size == (if i < state.code_entries {
                    sizes[i]
                } else {
                    0
                }) by {
                    assert(state.functions[i].id == prev.functions[i].id);
                    assert(prev.functions[i].byte_size == (if i < prev.code_entries {
                        entry_sizes(events.drop_last())[i]
                    } else {
                        0
                    }));
                }
            },
            EventView::Section { kind, start, end } => {
                assert forall|i: int| 0 <= i < state.functions.len() implies (
                #[trigger] state.functions[i]).byte_size == (if i < state.code_entries {
                    sizes[i]
                } else {
                    0
                }) by {
                    if i < prev.functions.len() {
                        assert(state.functions[i] == prev.functions[i]);
                    }
                }
            },
            _ => {
                assert(state.functions == prev.functions);
            },
        }
    }
}

/// The callees of the direct calls in the bodies of the code entries among
/// `events`, in the order of the events.
pub open spec fn all_calls(input: Seq<u8>, events: Seq<EventView>) -> Seq<u32>
    decreases events.len(),
{
    if events.len() == 0 {
        Seq::empty()
    } else {
        let before = all_calls(input, events.drop_last());
        match events.last() {
            EventView::CodeEntry { start, end } => match body_calls(
                input.subrange(start as int, end as int),
            ) {
                Some(calls) => before + calls,
                None => before,
            },
            _ => before,
        }
    }
}

/// Whether every function section among `events` stands before the first
/// code entry, as in a single module.
pub open spec fn declarations_first(events: Seq<EventView>) -> bool
    decreases events.len(),
{
    if events.len() == 0 {
        true
    } else {
        &&& declarations_first(events.drop_last())
        &&& events.last() matches EventView::Section { kind: SectionKind::Functions, .. }
            ==> entry_sizes(events.drop_last()).len() == 0
    }
}

/// Before the first code entry no call has been seen.
pub proof fn lemma_no_entry_no_call(input: Seq<u8>, events: Seq<EventView>)
    requires
        entry_sizes(events).len() == 0,
    ensures
        all_calls(input, events) == Seq::<u32>::empty(),
    decreases events.len(),
{
    if events.len() > 0 {
        lemma_no_entry_no_call(input, events.drop_last());
    }
}

/// Where the functions are declared before the first code entry, each
/// function's call count at the end of a pass is the number of direct
/// calls to it in all the bodies, whether the caller was declared before
/// the function or behind it. (The count stops at the largest value it
/// can hold.)
pub proof fn lemma_call_counts(input: Seq<u8>, events: Seq<EventView>)
    requires
        replayed(input, events) is Running,
        declarations_first(events),
    ensures
        ({
            let state = state_of(replayed(input, events));
            forall|i: int|
                0 <= i < state.functions.len() ==> (#[trigger] state.functions[i]).call_count
                    == counted(0, calls_to(all_calls(input, events), i))
        }),
    decreases events.len(),
{
    if events.len() > 0 {
        let shorter = events.drop_last();
        let before = replayed(input, shorter);
        assert(before is Running);
        lemma_call_counts(input, shorter);
        let prev = state_of(before);
        let state = state_of(replayed(input, events));
        assert(after(prev, input, events.last()) == Ok::<SessionView, Error>(state));
        let seen = all_calls(input, shorter);
        match events.last() {
            EventView::CodeEntry { start, end } => {
                let body = input.subrange(start as int, end as int);
                let calls = body_calls(body).unwrap();
                lemma_with_body(prev.functions, prev.code_entries as int, body);
                assert forall|i: int| 0 <= i < state.functions.len() implies (
                #[trigger] state.functions[i]).call_count == counted(
                    0,
                    calls_to(all_calls(input, events), i),
                ) by {
                    lemma_calls_to_concat(seen, calls, i);
                    assert(state.functions[i].id == prev.functions[i].id);
                    assert(prev.functions[i].call_count == counted(0, calls_to(seen, i)));
                }
            },
            EventView::Section { kind, start, end } => {
                if kind == SectionKind::Functions {
                    lemma_no_entry_no_call(input, shorter);
                }
                assert forall|i: int| 0 <= i < state.functions.len() implies (
                #[trigger] state.functions[i]).call_count == counted(
                    0,
                    calls_to(all_calls(input, events), i),
                ) by {
                    if i < prev.functions.len() {
                        assert(state.functions[i] == prev.functions[i]);
                    }
                }
            },
            _ => {
                assert(state.functions == prev.functions);
            },
        }
    }
}

/// How many nested containers are open after `events`: the module and
/// component sections, less the ends.
pub open spec fn nesting(events: Seq<EventView>) -> int
    decreases events.len(),
{
    if events.len() == 0 {
        0
    } else {
        nesting(events.drop_last()) + match events.last() {
            EventView::Section { kind: SectionKind::Module, .. } => 1int,
            EventView::Section { kind: SectionKind::Component, .. } => 1int,
            EventView::End => -1int,
            _ => 0int,
        }
    }
}

/// Whether at no point of `events` more containers have ended than have
/// started: the end of the outermost container has not come yet.
pub open spec fn inside_input(events: Seq<EventView>) -> bool
    decreases events.len(),
{
    if events.len() == 0 {
        true
    } else {
        inside_input(events.drop_last()) && nesting(events) >= 0
    }
}

/// Until the outermost container ends, the stack of index spaces is never
/// empty: the spaces stay well nested, and as many containers are open in
/// them as have started and not ended.
pub proof fn lemma_spaces_well_nested(input: Seq<u8>, events: Seq<EventView>)
    requires
        replayed(input, events) is Running,
        inside_input(events),
    ensures
        ({
            let indices = state_of(replayed(input, events)).sheet.indices;
            &&& indices.len() >= 1
            &&& well_nested(indices)
            &&& open_containers(indices) == nesting(events)
        }),
    decreases events.len(),
{
    if events.len() == 0 {
        let indices = initial().sheet.indices;
        assert(indices.drop_last() =~= Seq::empty());
        assert(open_containers(indices.drop_last()) == 0);
        assert(indices.last().processing.len() == 0);
    } else {
        let before = replayed(input, events.drop_last());
        assert(before is Running);
        lemma_spaces_well_nested(input, events.drop_last());
        let prev = state_of(before);
        let state = state_of(replayed(input, events));
        assert(after(prev, input, events.last()) == Ok::<SessionView, Error>(state));
        match events.last() {
            EventView::Section { kind, start, end } => {
                let contents = input.subrange(start as int, end as int);
                let count = item_count(kind, contents).unwrap();
                let listed = with_section(prev.sheet, start, end, count, kind.label());
                assert(listed.indices == prev.sheet.indices);
                if kind == SectionKind::Module {
                    lemma_module_started(listed);
                } else if kind == SectionKind::Component {
                    lemma_component_started(listed);
                } else {
                    assert(state.sheet == listed);
                }
            },
            EventView::End => {
                assert(nesting(events) >= 0);
                lemma_container_ended(prev.sheet);
            },
            _ => {
                assert(state.sheet.indices == prev.sheet.indices);
            },
        }
    }
}

/// A pass that is running after `events` was running after each of their
/// beginnings.
pub proof fn lemma_running_throughout(input: Seq<u8>, events: Seq<EventView>, k: int)
    requires
        0 <= k <= events.len(),
        replayed(input, events) is Running,
    ensures
        replayed(input, events.take(k)) is Running,
{
    if replayed(input, events.take(k)) is Failed {
        lemma_failed_stays(input, events, k);
    }
}

/// In a pass that runs to the end of its events, every function section
/// lies inside the input and is exactly as long as its count and its
/// indices together: the reported range has no byte left over and none
/// missing.
pub proof fn lemma_function_sections_fit(input: Seq<u8>, events: Seq<EventView>, k: int)
    requires
        replayed(input, events) is Running,
        0 <= k < events.len(),
        events[k] is Section,
        events[k]->Section_kind == SectionKind::Functions,
    ensures
        ({
            let start = events[k]->Section_start;
            let end = events[k]->Section_end;
            let contents = input.subrange(start as int, end as int);
            &&& in_bounds(start, end, input.len())
            &&& declared_types(contents) is Some
            &&& leb_u32(contents) matches Some((count, head))
            &&& type_indices(contents.skip(head), count as nat) matches Some((ids, used))
            &&& ids.len() == count
            &&& head + used == end - start
        }),
{
    lemma_running_throughout(input, events, k);
    lemma_running_throughout(input, events, k + 1);
    let upto = events.take(k + 1);
    assert(upto.drop_last() =~= events.take(k));
    assert(upto.last() == events[k]);
    let prev = state_of(replayed(input, events.take(k)));
    assert(after(prev, input, events[k]) is Ok);
    let start = events[k]->Section_start;
    let end = events[k]->Section_end;
    lemma_function_section_tiled(input.subrange(start as int, end as int));
}

} // verus!
