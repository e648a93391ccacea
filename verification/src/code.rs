//! Scanning a function body for `call` instructions.
//!
//! Instructions are decoded by `wasmparser`, one at a time. The scan keeps
//! only what the report needs of each instruction: whether it is a direct
//! call, and of which function.

use crate::cursor::{lemma_skip_skip, within};
use vstd::prelude::*;
use vstd::slice::slice_subrange;
use wasmparser::{BinaryReader, FunctionBody, Operator};

verus! {

/// What `wasmparser::BinaryReader::read_operator` yields at the start of
/// `window`: the callee where the instruction is a direct call (`None` for
/// every other instruction), with the number of bytes the instruction
/// occupies; `None` where no instruction can be decoded.
pub uninterp spec fn operator(window: Seq<u8>) -> Option<(Option<u32>, usize)>;

/// Where `wasmparser::FunctionBody::get_operators_reader` starts reading in a
/// function body: the offset of the first instruction, behind the
/// declarations of the locals; `None` where those cannot be decoded.
pub uninterp spec fn operators_offset(body: Seq<u8>) -> Option<usize>;

/// Calls `wasmparser::BinaryReader::read_operator` on a fresh reader over
/// `window`. Trusted: the result is the function [`operator`] of the bytes,
/// where the instruction is reduced to its callee if it is `Operator::Call`
/// and paired with the reader's position after the read.
#[verifier::external_body]
fn decode_operator(window: &[u8]) -> (r: Option<(Option<u32>, usize)>)
    ensures
        r == operator(window@),
{
    let mut reader = BinaryReader::new(window);
    let callee = match reader.read_operator().ok()? {
        Operator::Call { function_index } => Some(function_index),
        _ => None,
    };
    Some((callee, reader.current_position()))
}

/// Calls `wasmparser::FunctionBody::get_operators_reader` on a body placed at
/// offset 0. Trusted: the result is the function [`operators_offset`] of the
/// bytes, read off the position of the reader that was handed out.
#[verifier::external_body]
fn decode_operators_offset(body: &[u8]) -> (r: Option<usize>)
    ensures
        r == operators_offset(body@),
{
    let reader = FunctionBody::new(0, body).get_operators_reader().ok()?;
    Some(reader.original_position())
}

/// The instruction at the start of `window`, reduced to its callee, and its
/// encoded length; `None` where the stream can be decoded no further.
pub open spec fn instruction(window: Seq<u8>) -> Option<(Option<u32>, int)> {
    within(operator(window), window)
}

/// The callees of the direct calls in an instruction stream, in stream order.
/// The stream ends where no further instruction can be decoded.
pub open spec fn call_targets(window: Seq<u8>) -> Seq<u32>
    decreases window.len(),
{
    match instruction(window) {
        Some((callee, used)) => {
            let rest = call_targets(window.skip(used));
            match callee {
                Some(target) => seq![target] + rest,
                None => rest,
            }
        },
        None => Seq::empty(),
    }
}

/// The callees of the direct calls in a function body, or `None` where the
/// declarations of its locals cannot be decoded.
pub open spec fn body_calls(body: Seq<u8>) -> Option<Seq<u32>> {
    match operators_offset(body) {
        Some(offset) => if offset <= body.len() {
            Some(call_targets(body.skip(offset as int)))
        } else {
            None
        },
        None => None,
    }
}

/// Scans an instruction stream to its end and returns the callee of every
/// direct call, in order. An instruction that cannot be decoded ends the
/// scan; it is no error.
pub fn scan_calls(stream: &[u8]) -> (targets: Vec<u32>)
    ensures
        targets@ == call_targets(stream@),
{
    let mut targets: Vec<u32> = Vec::new();
    let mut pos: usize = 0;
    assert(stream@.skip(0) =~= stream@);
    loop
        invariant
            pos <= stream@.len(),
            call_targets(stream@) == targets@ + call_targets(stream@.skip(pos as int)),
        ensures
            targets@ == call_targets(stream@),
        decreases stream@.len() - pos,
    {
        let window = slice_subrange(stream, pos, stream.len());
        assert(window@ == stream@.skip(pos as int));
        let ghost before = targets@;
        match decode_operator(window) {
            Some((callee, used)) => {
                if 1 <= used && used <= stream.len() - pos {
                    let ghost rest = call_targets(stream@.skip(pos + used));
                    proof {
                        lemma_skip_skip(stream@, pos as int, used as int);
                    }
                    match callee {
                        Some(target) => {
                            targets.push(target);
                            assert(before + (seq![target] + rest) =~= (before + seq![target])
                                + rest);
                        },
                        None => {},
                    }
                    pos = pos + used;
                } else {
                    assert(targets@ + Seq::<u32>::empty() =~= targets@);
                    break ;
                }
            },
            None => {
                assert(targets@ + Seq::<u32>::empty() =~= targets@);
                break ;
            },
        }
    }
    targets
}

/// Scans a function body: skips the declarations of its locals and returns
/// the callees of its direct calls. `None` where the locals cannot be
/// decoded.
pub fn scan_body(body: &[u8]) -> (targets: Option<Vec<u32>>)
    ensures
        match body_calls(body@) {
            Some(calls) => targets matches Some(t) && t@ == calls,
            None => targets is None,
        },
{
    match decode_operators_offset(body) {
        Some(offset) => {
            if offset <= body.len() {
                let stream = slice_subrange(body, offset, body.len());
                assert(stream@ == body@.skip(offset as int));
                Some(scan_calls(stream))
            } else {
                None
            }
        },
        None => None,
    }
}

} // verus!
