//! The function table: one record per declared function.
//!
//! Records are created from the function section, in declaration order.
//! The code section then fills in each record's encoded size and adds the
//! calls found in each body to the records of the callees.

use crate::code::{body_calls, scan_body};
use crate::cursor::{leb_u32, lemma_skip_skip, Cursor};
use vstd::prelude::*;

verus! {

/// What is known of one declared function.
#[derive(Clone, Copy, Debug, PartialEq, Eq, Structural)]
pub struct FunctionInfo {
    /// The signature index given in the function section.
    pub id: u32,
    /// How many direct calls in the whole input name this function.
    pub call_count: u32,
    /// The encoded length of the function's body.
    pub byte_size: usize,
}

/// The record of a function that was just declared.
pub open spec fn fresh(id: u32) -> FunctionInfo {
    FunctionInfo { id, call_count: 0, byte_size: 0 }
}

/// The first `n` signature indices in `items`, with the bytes they occupy;
/// `None` where one of them cannot be decoded.
pub open spec fn type_indices(items: Seq<u8>, n: nat) -> Option<(Seq<u32>, int)>
    decreases n,
{
    if n == 0 {
        Some((Seq::empty(), 0int))
    } else {
        match type_indices(items, (n - 1) as nat) {
            Some((ids, used)) => match leb_u32(items.skip(used)) {
                Some((id, more)) => Some((ids.push(id), used + more)),
                None => None,
            },
            None => None,
        }
    }
}

/// The signature indices that a function section declares: a count, then
/// that many indices, then nothing. `None` where the section is anything
/// else.
pub open spec fn declared_types(section: Seq<u8>) -> Option<Seq<u32>> {
    match leb_u32(section) {
        Some((count, head)) => match type_indices(section.skip(head), count as nat) {
            Some((ids, used)) => if head + used == section.len() {
                Some(ids)
            } else {
                None
            },
            None => None,
        },
        None => None,
    }
}

/// The records of the functions with the given signature indices.
pub open spec fn declared(ids: Seq<u32>) -> Seq<FunctionInfo> {
    Seq::new(ids.len(), |i: int| fresh(ids[i]))
}

/// Where `n` indices can be decoded there are `n` of them, each at least
/// one byte long, and they end inside `items`.
pub proof fn lemma_type_indices_bounds(items: Seq<u8>, n: nat)
    ensures
        type_indices(items, n) matches Some((ids, used)) ==> ids.len() == n && n <= used
            <= items.len(),
    decreases n,
{
    if n > 0 {
        lemma_type_indices_bounds(items, (n - 1) as nat);
    }
}

/// Once an index cannot be decoded, no longer run of indices can.
pub proof fn lemma_type_indices_fail(items: Seq<u8>, k: nat, n: nat)
    requires
        k <= n,
        type_indices(items, k) is None,
    ensures
        type_indices(items, n) is None,
    decreases n,
{
    if k < n {
        lemma_type_indices_fail(items, k, (n - 1) as nat);
    }
}

/// An accepted function section is tiled by its count and its indices:
/// the count comes first, each index starts where the one before it ends
/// and takes at least one byte, and the last one ends with the section.
pub proof fn lemma_function_section_tiled(section: Seq<u8>)
    requires
        declared_types(section) is Some,
    ensures
        ({
            let (count, head) = leb_u32(section).unwrap();
            let items = section.skip(head);
            let (ids, used) = type_indices(items, count as nat).unwrap();
            &&& declared_types(section) == Some(ids)
            &&& ids.len() == count
            &&& 1 <= head
            &&& head + used == section.len()
            &&& forall|k: nat|
                k < count ==> {
                    let (_, from) = #[trigger] type_indices(items, k).unwrap();
                    let (_, to) = type_indices(items, k + 1).unwrap();
                    &&& type_indices(items, k) is Some
                    &&& 0 <= from < to <= used
                    &&& leb_u32(items.skip(from)) == Some((ids[k as int], to - from))
                }
        }),
{
    let (count, head) = leb_u32(section).unwrap();
    let items = section.skip(head);
    let (ids, used) = type_indices(items, count as nat).unwrap();
    lemma_type_indices_bounds(items, count as nat);
    assert forall|k: nat| k < count implies {
        let (_, from) = #[trigger] type_indices(items, k).unwrap();
        let (_, to) = type_indices(items, k + 1).unwrap();
        &&& type_indices(items, k) is Some
        &&& 0 <= from < to <= used
        &&& leb_u32(items.skip(from)) == Some((ids[k as int], to - from))
    } by {
        lemma_type_indices_prefix(items, k + 1, count as nat);
        lemma_type_indices_prefix(items, k, k + 1);
        lemma_type_indices_bounds(items, k);
        lemma_type_indices_bounds(items, k + 1);
        let (upto, from) = type_indices(items, k).unwrap();
        let (id, more) = leb_u32(items.skip(from)).unwrap();
        assert(type_indices(items, k + 1) == Some((upto.push(id), from + more)));
        assert(upto.push(id) == ids.take(k + 1 as int));
        assert(ids.take(k + 1 as int)[k as int] == id);
    }
}

/// A run of `n` indices starts with the run of `k` indices, for `k <= n`.
pub proof fn lemma_type_indices_prefix(items: Seq<u8>, k: nat, n: nat)
    requires
        k <= n,
        type_indices(items, n) is Some,
    ensures
        type_indices(items, k) is Some,
        type_indices(items, k).unwrap().1 <= type_indices(items, n).unwrap().1,
        type_indices(items, k).unwrap().0 == type_indices(items, n).unwrap().0.take(k as int),
    decreases n,
{
    lemma_type_indices_bounds(items, n);
    if k < n {
        lemma_type_indices_prefix(items, k, (n - 1) as nat);
        lemma_type_indices_bounds(items, (n - 1) as nat);
        lemma_type_indices_bounds(items, k);
        let whole = type_indices(items, n).unwrap().0;
        let shorter = type_indices(items, (n - 1) as nat).unwrap().0;
        assert(shorter.take(k as int) =~= whole.take(k as int));
    } else {
        assert(type_indices(items, n).unwrap().0.take(n as int) =~= type_indices(
            items,
            n,
        ).unwrap().0);
    }
}

/// Decodes a function section and appends one fresh record per declared
/// function to `table`. Returns `false`, and leaves the table as it was,
/// where the section is not a count followed by exactly that many indices.
pub fn declare_functions(table: &mut Vec<FunctionInfo>, section: &[u8]) -> (ok: bool)
    ensures
        match declared_types(section@) {
            Some(ids) => ok && final(table)@ == old(table)@ + declared(ids),
            None => !ok && final(table)@ == old(table)@,
        },
{
    let mut cursor = Cursor::new(section);
    assert(section@.skip(0) =~= section@);
    let count = match cursor.read_var_u32() {
        Some(count) => count,
        None => {
            return false;
        },
    };
    let head = cursor.position();
    let ghost items = section@.skip(head as int);
    let mut ids: Vec<u32> = Vec::new();
    let mut i: u32 = 0;
    while i < count
        invariant
            cursor.wf(),
            cursor.bytes == section,
            i <= count,
            head <= cursor.pos,
            items == section@.skip(head as int),
            leb_u32(section@) == Some((count, head as int)),
            type_indices(items, i as nat) == Some((ids@, cursor.pos - head)),
        decreases count - i,
    {
        proof {
            lemma_skip_skip(section@, head as int, cursor.pos - head);
        }
        match cursor.read_var_u32() {
            Some(id) => {
                ids.push(id);
            },
            None => {
                proof {
                    lemma_type_indices_fail(items, (i + 1) as nat, count as nat);
                }
                return false;
            },
        }
        i = i + 1;
    }
    if !cursor.eof() {
        return false;
    }
    let ghost before = table@;
    let mut k: usize = 0;
    while k < ids.len()
        invariant
            k <= ids.len(),
            table@ == before + declared(ids@.take(k as int)),
        decreases ids.len() - k,
    {
        table.push(FunctionInfo { id: ids[k], call_count: 0, byte_size: 0 });
        assert(table@ =~= before + declared(ids@.take(k + 1)));
        k = k + 1;
    }
    assert(ids@.take(ids.len() as int) =~= ids@);
    true
}

/// The record after one more call to the function was seen. The count stops
/// at the largest value it can hold.
pub open spec fn called(f: FunctionInfo) -> FunctionInfo {
    FunctionInfo {
        call_count: if f.call_count < u32::MAX {
            (f.call_count + 1) as u32
        } else {
            f.call_count
        },
        ..f
    }
}

/// The table after a direct call to `target` was seen. A target that is no
/// index of the table changes nothing.
pub open spec fn record_call(table: Seq<FunctionInfo>, target: u32) -> Seq<FunctionInfo> {
    if (target as int) < table.len() {
        table.update(target as int, called(table[target as int]))
    } else {
        table
    }
}

/// The table after the calls to `targets` were seen, one after another.
pub open spec fn tally(table: Seq<FunctionInfo>, targets: Seq<u32>) -> Seq<FunctionInfo>
    decreases targets.len(),
{
    if targets.len() == 0 {
        table
    } else {
        record_call(tally(table, targets.drop_last()), targets.last())
    }
}

/// How many of `targets` are the function `index`.
pub open spec fn calls_to(targets: Seq<u32>, index: int) -> nat
    decreases targets.len(),
{
    if targets.len() == 0 {
        0
    } else {
        calls_to(targets.drop_last(), index) + if targets.last() == index {
            1nat
        } else {
            0nat
        }
    }
}

/// The table with the body size of the function at `ordinal` filled in.
pub open spec fn sized(table: Seq<FunctionInfo>, ordinal: int, size: usize) -> Seq<FunctionInfo> {
    table.update(ordinal, FunctionInfo { byte_size: size, ..table[ordinal] })
}

/// The table after the code entry at position `ordinal` was processed: the
/// entry's length becomes the size of the function at that position, and
/// the calls in the body are added to their callees. `None` where no
/// function was declared at that position, or the body's locals cannot be
/// decoded.
pub open spec fn with_body(table: Seq<FunctionInfo>, ordinal: int, body: Seq<u8>) -> Option<
    Seq<FunctionInfo>,
> {
    if 0 <= ordinal < table.len() {
        match body_calls(body) {
            Some(calls) => Some(tally(sized(table, ordinal, body.len() as usize), calls)),
            None => None,
        }
    } else {
        None
    }
}

/// Adds one call to the record of each function named in `targets`. Targets
/// outside the table are skipped.
pub fn tally_calls(table: &mut Vec<FunctionInfo>, targets: &Vec<u32>)
    ensures
        final(table)@ == tally(old(table)@, targets@),
{
    let mut k: usize = 0;
    while k < targets.len()
        invariant
            k <= targets.len(),
            table@ == tally(old(table)@, targets@.take(k as int)),
        decreases targets.len() - k,
    {
        let target = targets[k];
        assert(targets@.take(k + 1).drop_last() =~= targets@.take(k as int));
        if (target as usize) < table.len() {
            let entry = table[target as usize];
            let count = if entry.call_count < u32::MAX {
                entry.call_count + 1
            } else {
                entry.call_count
            };
            table.set(target as usize, FunctionInfo { call_count: count, ..entry });
        }
        k = k + 1;
    }
    assert(targets@.take(targets.len() as int) =~= targets@);
}

/// Processes the code entry at position `ordinal`: stores the body's length
/// in the record at that position and tallies the calls found in the body.
/// Returns `false`, and leaves the table as it was, where no function was
/// declared at that position or the body's locals cannot be decoded.
pub fn record_body(table: &mut Vec<FunctionInfo>, ordinal: usize, body: &[u8]) -> (ok: bool)
    ensures
        match with_body(old(table)@, ordinal as int, body@) {
            Some(after) => ok && final(table)@ == after,
            None => !ok && final(table)@ == old(table)@,
        },
{
    if ordinal >= table.len() {
        return false;
    }
    match scan_body(body) {
        Some(targets) => {
            let entry = table[ordinal];
            table.set(ordinal, FunctionInfo { byte_size: body.len(), ..entry });
            tally_calls(table, &targets);
            true
        },
        None => false,
    }
}

/// The call count after `more` further calls: the sum, or the largest value
/// the count can hold where the sum is beyond it.
pub open spec fn counted(count: u32, more: nat) -> u32 {
    if count + more <= u32::MAX {
        (count + more) as u32
    } else {
        u32::MAX
    }
}

/// Tallying calls changes nothing but call counts, and the count of each
/// function grows by the number of calls that name it, wherever in the
/// list those calls stand.
pub proof fn lemma_tally_counts(table: Seq<FunctionInfo>, targets: Seq<u32>)
    ensures
        tally(table, targets).len() == table.len(),
        forall|i: int|
            0 <= i < table.len() ==> {
                let after = #[trigger] tally(table, targets)[i];
                &&& after.id == table[i].id
                &&& after.byte_size == table[i].byte_size
                &&& after.call_count == counted(table[i].call_count, calls_to(targets, i))
            },
    decreases targets.len(),
{
    if targets.len() > 0 {
        lemma_tally_counts(table, targets.drop_last());
        let before = tally(table, targets.drop_last());
        assert forall|i: int| 0 <= i < table.len() implies {
            let after = #[trigger] tally(table, targets)[i];
            &&& after.id == table[i].id
            &&& after.byte_size == table[i].byte_size
            &&& after.call_count == counted(table[i].call_count, calls_to(targets, i))
        } by {
            assert(before[i].call_count == counted(
                table[i].call_count,
                calls_to(targets.drop_last(), i),
            ));
        }
    }
}

/// A call whose target is no index of the table changes no record.
pub proof fn lemma_call_out_of_range(table: Seq<FunctionInfo>, target: u32)
    requires
        target >= table.len(),
    ensures
        record_call(table, target) == table,
{
}

/// Calls whose targets are no indices of the table count for nothing: the
/// tally is that of the calls that are left without them.
pub proof fn lemma_tally_skips_out_of_range(table: Seq<FunctionInfo>, targets: Seq<u32>)
    ensures
        tally(table, targets) == tally(table, targets.filter(|t: u32| t < table.len())),
    decreases targets.len(),
{
    let valid = |t: u32| t < table.len();
    reveal(Seq::filter);
    if targets.len() > 0 {
        lemma_tally_skips_out_of_range(table, targets.drop_last());
        lemma_tally_counts(table, targets.drop_last());
        let kept = targets.drop_last().filter(valid);
        if valid(targets.last()) {
            assert(targets.filter(valid) == kept.push(targets.last()));
            assert(kept.push(targets.last()).drop_last() =~= kept);
        } else {
            assert(targets.filter(valid) == kept);
        }
    } else {
        assert(targets.filter(valid) =~= targets);
    }
}

/// A processed code entry sets the size of the function at its position
/// to the length of the body, leaves every other size and every signature
/// as it was, and adds to each function the calls that the body makes to
/// it.
pub proof fn lemma_with_body(table: Seq<FunctionInfo>, ordinal: int, body: Seq<u8>)
    requires
        with_body(table, ordinal, body) is Some,
        body.len() <= usize::MAX,
    ensures
        ({
            let after = with_body(table, ordinal, body).unwrap();
            let calls = body_calls(body).unwrap();
            &&& 0 <= ordinal < table.len()
            &&& after.len() == table.len()
            &&& after[ordinal].byte_size == body.len()
            &&& forall|i: int|
                0 <= i < table.len() ==> {
                    &&& #[trigger] after[i].id == table[i].id
                    &&& i != ordinal ==> after[i].byte_size == table[i].byte_size
                    &&& after[i].call_count == counted(table[i].call_count, calls_to(calls, i))
                }
        }),
{
    let calls = body_calls(body).unwrap();
    let filled = sized(table, ordinal, body.len() as usize);
    lemma_tally_counts(filled, calls);
    let after = tally(filled, calls);
    assert forall|i: int| 0 <= i < table.len() implies {
        &&& #[trigger] after[i].id == table[i].id
        &&& i != ordinal ==> after[i].byte_size == table[i].byte_size
        &&& after[i].call_count == counted(table[i].call_count, calls_to(calls, i))
    } by {
        assert(tally(filled, calls)[i].id == filled[i].id);
    }
    assert(tally(filled, calls)[ordinal].byte_size == filled[ordinal].byte_size);
}

/// The calls to a function in two lists, one behind the other, are those
/// in the first and those in the second.
pub proof fn lemma_calls_to_concat(first: Seq<u32>, second: Seq<u32>, index: int)
    ensures
        calls_to(first + second, index) == calls_to(first, index) + calls_to(second, index),
    decreases second.len(),
{
    if second.len() == 0 {
        assert(first + second =~= first);
    } else {
        lemma_calls_to_concat(first, second.drop_last(), index);
        assert((first + second).drop_last() =~= first + second.drop_last());
    }
}

} // verus!
