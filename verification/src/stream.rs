//! The section stream of an input, as `wasmparser` delivers it.
//!
//! `wasmparser::Parser` walks the input one payload at a time, through
//! nested modules and components. Each payload is turned into an
//! [`Event`] of plain values, by the variant it is and the ranges it
//! carries. The stream is a function of the input; this module gives that
//! function a name. Nothing else is assumed of it: the pass that consumes
//! the events checks every range before it reads.

use crate::sections::SectionKind;
use crate::session::{events_view, Event, EventView};
use vstd::prelude::*;
use wasmparser::{Parser, Payload};

verus! {

/// `wasmparser::Payload`, one item of the section stream.
#[verifier::external_type_specification]
#[verifier::external_body]
pub struct ExPayload<'a>(wasmparser::Payload<'a>);

/// The events that the payloads of `wasmparser::Parser::parse_all` on
/// `input` stand for, in order. Where the parser reports an error the
/// stream ends with `Malformed`.
pub uninterp spec fn section_events(input: Seq<u8>) -> Seq<EventView>;

/// Walks `input` with `wasmparser::Parser::new(0).parse_all` and turns
/// each payload into an event with [`classify`]; a parser error becomes
/// `Event::Malformed`, which is then the last event. Trusted: the result is
/// the function [`section_events`] of the input.
#[verifier::external_body]
pub(crate) fn section_stream(input: &[u8]) -> (events: Vec<Event>)
    ensures
        events_view(events@) == section_events(input@),
{
    let payloads = Parser::new(0).parse_all(input);
    payloads.map(|item| match item {
        Ok(payload) => classify(&payload),
        Err(_) => Event::Malformed,
    }).collect()
}

/// Whether the payload is `Payload::End`.
#[verifier::external_body]
fn is_end(payload: &Payload) -> bool {
    match payload {
        Payload::End(_) => true,
        _ => false,
    }
}

/// The byte range of a function body, from `FunctionBody::range` of a
/// `Payload::CodeSectionEntry`.
#[verifier::external_body]
fn code_entry_range(payload: &Payload) -> Option<(usize, usize)> {
    match payload {
        Payload::CodeSectionEntry(body) => Some((body.range().start, body.range().end)),
        _ => None,
    }
}

/// The name of a `Payload::CustomSection` and the byte range of its data:
/// from `CustomSectionReader::data_offset` to the end of
/// `CustomSectionReader::range`, where the data ends with the section.
#[verifier::external_body]
fn custom_section(payload: &Payload) -> Option<(String, usize, usize)> {
    match payload {
        Payload::CustomSection(reader) => Some(
            (reader.name().to_string(), reader.data_offset(), reader.range().end),
        ),
        _ => None,
    }
}

/// The byte range of a section's contents, from `Payload::as_section`.
#[verifier::external_body]
fn section_range(payload: &Payload) -> Option<(usize, usize)> {
    let (_, range) = payload.as_section()?;
    Some((range.start, range.end))
}

/// The kind of a section of a core module, by the variant of the payload;
/// the code section is told by [`container_section_kind`].
#[verifier::external_body]
fn module_section_kind(payload: &Payload) -> Option<SectionKind> {
    match payload {
        Payload::TypeSection(_) => Some(SectionKind::Types),
        Payload::ImportSection(_) => Some(SectionKind::Imports),
        Payload::FunctionSection(_) => Some(SectionKind::Functions),
        Payload::TableSection(_) => Some(SectionKind::Tables),
        Payload::MemorySection(_) => Some(SectionKind::Memories),
        Payload::TagSection(_) => Some(SectionKind::Tags),
        Payload::GlobalSection(_) => Some(SectionKind::Globals),
        Payload::ExportSection(_) => Some(SectionKind::Exports),
        Payload::StartSection { .. } => Some(SectionKind::Start),
        Payload::ElementSection(_) => Some(SectionKind::Elements),
        Payload::DataCountSection { .. } => Some(SectionKind::DataCount),
        Payload::DataSection(_) => Some(SectionKind::Data),
        _ => None,
    }
}

/// The kind of a section of a component, or of the code section of a core
/// module, by the variant of the payload.
#[verifier::external_body]
fn container_section_kind(payload: &Payload) -> Option<SectionKind> {
    match payload {
        Payload::CodeSectionStart { .. } => Some(SectionKind::Code),
        Payload::ModuleSection { .. } => Some(SectionKind::Module),
        Payload::InstanceSection(_) => Some(SectionKind::CoreInstances),
        Payload::CoreTypeSection(_) => Some(SectionKind::CoreTypes),
        Payload::ComponentSection { .. } => Some(SectionKind::Component),
        Payload::ComponentInstanceSection(_) => Some(SectionKind::ComponentInstances),
        Payload::ComponentAliasSection(_) => Some(SectionKind::ComponentAlias),
        Payload::ComponentTypeSection(_) => Some(SectionKind::ComponentTypes),
        Payload::ComponentCanonicalSection(_) => Some(SectionKind::CanonicalFunctions),
        Payload::ComponentStartSection(_) => Some(SectionKind::ComponentStart),
        Payload::ComponentImportSection(_) => Some(SectionKind::ComponentImports),
        Payload::ComponentExportSection(_) => Some(SectionKind::ComponentExports),
        _ => None,
    }
}

/// The name of a custom section as text, beside the range of its data.
pub open spec fn custom_view(custom: Option<(String, usize, usize)>) -> Option<
    (Seq<char>, usize, usize),
> {
    match custom {
        Some((name, start, end)) => Some((name@, start, end)),
        None => None,
    }
}

/// The event that a payload stands for, by what was read off it: whether
/// it is an end, the range of a function body, the name and data range of
/// a custom section, the kind of a section of a module or of a component,
/// and the range of a section.
///
/// An end comes before a function body, and that before a custom section.
/// A section needs a kind and a range; a kind of a module's sections comes
/// before one of a component's. Everything else is not reported.
pub open spec fn event_for(
    end: bool,
    body: Option<(usize, usize)>,
    custom: Option<(Seq<char>, usize, usize)>,
    module_kind: Option<SectionKind>,
    container_kind: Option<SectionKind>,
    range: Option<(usize, usize)>,
) -> EventView {
    if end {
        EventView::End
    } else if body is Some {
        EventView::CodeEntry { start: body.unwrap().0, end: body.unwrap().1 }
    } else if custom is Some {
        EventView::Custom {
            name: custom.unwrap().0,
            start: custom.unwrap().1,
            end: custom.unwrap().2,
        }
    } else {
        let kind = if module_kind is Some {
            module_kind
        } else {
            container_kind
        };
        if kind is Some && range is Some {
            EventView::Section { kind: kind.unwrap(), start: range.unwrap().0, end: range.unwrap().1 }
        } else {
            EventView::Other
        }
    }
}

/// Decides which event a payload stands for, given what was read off it.
pub fn event_of(
    end: bool,
    body: Option<(usize, usize)>,
    custom: Option<(String, usize, usize)>,
    module_kind: Option<SectionKind>,
    container_kind: Option<SectionKind>,
    range: Option<(usize, usize)>,
) -> (event: Event)
    ensures
        event@ == event_for(end, body, custom_view(custom), module_kind, container_kind, range),
{
    if end {
        return Event::End;
    }
    if let Some((start, end)) = body {
        return Event::CodeEntry { start, end };
    }
    if let Some((name, start, end)) = custom {
        return Event::Custom { name, start, end };
    }
    let kind = match module_kind {
        Some(kind) => Some(kind),
        None => container_kind,
    };
    match (kind, range) {
        (Some(kind), Some((start, end))) => Event::Section { kind, start, end },
        _ => Event::Other,
    }
}

/// Turns a payload into an event: reads the payload with the converters
/// above and lets [`event_of`] decide. A header and a section of unknown
/// kind become `Event::Other`. Whatever the payload holds, the event is
/// one that `event_of` yields, so it is never `Event::Malformed`: in a
/// section stream that event stands for an error of the parser alone.
fn classify(payload: &Payload) -> (event: Event)
    ensures
        !(event@ is Malformed),
{
    event_of(
        is_end(payload),
        code_entry_range(payload),
        custom_section(payload),
        module_section_kind(payload),
        container_section_kind(payload),
        section_range(payload),
    )
}

} // verus!
