//! A whole run: the section map of an input and its namespace report.

use crate::error::Error;
use crate::printer::{lines_view, Line, LineView};
use crate::session::{
    events_view, lemma_failed_stays, replayed, Event, EventView, Progress, Session,
};
use crate::stream::{section_events, section_stream};
use crate::summary::{summarize, summary, Summary, SummaryView};
use vstd::prelude::*;

verus! {

/// What a run is given: the bytes of a module or component.
pub struct Opts {
    pub input: Vec<u8>,
}

/// What a run yields: the lines of the section map that were written, and
/// the namespace report or the fault that kept it from being made.
#[derive(Debug, PartialEq, Eq)]
pub struct Dump {
    pub lines: Vec<Line>,
    pub summary: Result<Summary, Error>,
}

/// A dump, by the views of its parts.
pub struct DumpView {
    pub lines: Seq<LineView>,
    pub summary: Result<SummaryView, Error>,
}

impl View for Dump {
    type V = DumpView;

    open spec fn view(&self) -> DumpView {
        DumpView {
            lines: lines_view(self.lines@),
            summary: match self.summary {
                Ok(s) => Ok(s@),
                Err(e) => Err(e),
            },
        }
    }
}

/// What comes of a pass. One that ran to the end of its events is
/// summarized; one that failed keeps the lines written before the fault.
pub open spec fn outcome(progress: Progress) -> DumpView {
    match progress {
        Progress::Running(state) => DumpView {
            lines: state.sheet.output,
            summary: summary(state.functions, state.names.functions),
        },
        Progress::Failed(lines, e) => DumpView { lines, summary: Err(e) },
    }
}

/// Ends a pass: summarizes it, or reports the fault that stopped it.
fn finish(session: Session, fault: Option<Error>) -> (dump: Dump)
    ensures
        dump@ == outcome(
            match fault {
                Some(e) => Progress::Failed(session@.sheet.output, e),
                None => Progress::Running(session@),
            },
        ),
{
    let Session { printer, functions, names, code_entries: _ } = session;
    let summary = match fault {
        Some(e) => Err(e),
        None => summarize(&functions, &names),
    };
    Dump { lines: printer.output, summary }
}

/// Runs a pass over `input` with the given events in place of the section
/// stream. The pass ends with the list, or at the first fault.
pub fn replay(input: &[u8], events: &Vec<Event>) -> (dump: Dump)
    ensures
        dump@ == outcome(replayed(input@, events_view(events@))),
{
    let mut session = Session::new();
    let ghost all = events_view(events@);
    let mut k: usize = 0;
    assert(all.take(0) =~= Seq::<EventView>::empty());
    while k < events.len()
        invariant
            k <= events.len(),
            all == events_view(events@),
            replayed(input@, all.take(k as int)) == Progress::Running(session@),
        decreases events.len() - k,
    {
        assert(all.take(k + 1).drop_last() =~= all.take(k as int));
        assert(all.take(k + 1).last() == events@[k as int]@);
        match session.step(input, &events[k]) {
            Ok(()) => {},
            Err(e) => {
                proof {
                    lemma_failed_stays(input@, all, k + 1);
                }
                return finish(session, Some(e));
            },
        }
        k = k + 1;
    }
    assert(all.take(k as int) =~= all);
    finish(session, None)
}

impl Opts {
    /// Walks the section stream of the input, as `wasmparser` delivers it,
    /// and reports on it: the dump is what [`replay`] yields on the events
    /// of that stream.
    pub fn run(&self) -> (dump: Dump)
        ensures
            dump@ == outcome(replayed(self.input@, section_events(self.input@))),
    {
        let input = self.input.as_slice();
        let events = section_stream(input);
        replay(input, &events)
    }
}

} // verus!
