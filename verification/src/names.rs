//! Debug names of functions and types, read from the `name` custom section.
//!
//! The section is a run of subsections. Those for functions and for types
//! hold a map from index to name and are merged into the table; an index
//! may be named once only. Every other subsection is stepped over.

use crate::cursor::{leb_u32, lemma_skip_skip, text, Cursor};
use crate::error::Error;
use std::collections::HashMap;
use vstd::prelude::*;
use vstd::slice::slice_subrange;
use wasmparser::{Name, NameSectionReader, SectionReader};

verus! {

broadcast use vstd::std_specs::hash::group_hash_axioms;

/// What a subsection of the name section is about.
#[derive(Clone, Copy, Debug, PartialEq, Eq, Structural)]
pub enum NameKind {
    /// Names of functions.
    Functions,
    /// Names of types.
    Types,
    /// Anything else: the module's name, locals, labels, tables, memories,
    /// globals, element and data segments, or an unknown subsection.
    Other,
}

/// What `wasmparser::NameSectionReader::read` yields at the start of
/// `window`: what the subsection is about, where its name map starts (for a
/// subsection about functions or types), and where the subsection ends;
/// `None` where the read fails.
pub uninterp spec fn name_subsection(window: Seq<u8>) -> Option<(NameKind, usize, usize)>;

/// Calls `wasmparser::NameSectionReader::read` on a fresh reader over
/// `window`, placed at offset 0. Trusted: the result is the function
/// [`name_subsection`] of the bytes. For `Name::Function` and `Name::Type`
/// it holds the start of the map's range; for every other variant the
/// end of the subsection stands in its place. The last component is the
/// reader's position after the read.
#[verifier::external_body]
fn decode_name_subsection(window: &[u8]) -> (r: Option<(NameKind, usize, usize)>)
    ensures
        r == name_subsection(window@),
{
    let mut reader = NameSectionReader::new(window, 0).ok()?;
    let name = reader.read().ok()?;
    let next = reader.original_position();
    match name {
        Name::Function(map) => Some((NameKind::Functions, map.range().start, next)),
        Name::Type(map) => Some((NameKind::Types, map.range().start, next)),
        _ => Some((NameKind::Other, next, next)),
    }
}

/// The subsection at the start of `section`: its kind, where its payload
/// starts and where it ends. Accepted only where it is not empty and lies
/// inside the section.
pub open spec fn subsection(section: Seq<u8>) -> Option<(NameKind, int, int)> {
    match name_subsection(section) {
        Some((kind, start, end)) => if start <= end && 1 <= end <= section.len() {
            Some((kind, start as int, end as int))
        } else {
            None
        },
        None => None,
    }
}

/// One entry of a name map: an index and its name, with the bytes the
/// entry occupies.
pub open spec fn naming(window: Seq<u8>) -> Option<((u32, Seq<char>), int)> {
    match leb_u32(window) {
        Some((index, head)) => match text(window.skip(head)) {
            Some((name, more)) => Some(((index, name), head + more)),
            None => None,
        },
        None => None,
    }
}

/// The map after the first `n` entries of `items` were added to it, and the
/// bytes those entries occupy. Entries are taken in order, so the first
/// fault decides: an entry that cannot be decoded, or an index that has a
/// name already.
pub open spec fn merge_entries(map: Map<u32, Seq<char>>, items: Seq<u8>, n: nat) -> Result<
    (Map<u32, Seq<char>>, int),
    Error,
>
    decreases n,
{
    if n == 0 {
        Ok((map, 0int))
    } else {
        match merge_entries(map, items, (n - 1) as nat) {
            Ok((merged, used)) => match naming(items.skip(used)) {
                Some(((index, name), more)) => if merged.contains_key(index) {
                    Err(Error::DuplicateName)
                } else {
                    Ok((merged.insert(index, name), used + more))
                },
                None => Err(Error::StructuralDecode),
            },
            Err(e) => Err(e),
        }
    }
}

/// The map after a name map was merged into it: a count, then that many
/// entries, then nothing.
pub open spec fn merge_map(map: Map<u32, Seq<char>>, payload: Seq<u8>) -> Result<
    Map<u32, Seq<char>>,
    Error,
> {
    match leb_u32(payload) {
        Some((count, head)) => match merge_entries(map, payload.skip(head), count as nat) {
            Ok((merged, used)) => if head + used == payload.len() {
                Ok(merged)
            } else {
                Err(Error::StructuralDecode)
            },
            Err(e) => Err(e),
        },
        None => Err(Error::StructuralDecode),
    }
}

/// The names that a table holds.
pub struct Names {
    /// Function index to name.
    pub functions: Map<u32, Seq<char>>,
    /// Type index to name.
    pub types: Map<u32, Seq<char>>,
}

/// The names after one subsection with the given payload was merged in.
pub open spec fn merge_subsection(names: Names, kind: NameKind, payload: Seq<u8>) -> Result<
    Names,
    Error,
> {
    match kind {
        NameKind::Functions => match merge_map(names.functions, payload) {
            Ok(functions) => Ok(Names { functions, ..names }),
            Err(e) => Err(e),
        },
        NameKind::Types => match merge_map(names.types, payload) {
            Ok(types) => Ok(Names { types, ..names }),
            Err(e) => Err(e),
        },
        NameKind::Other => Ok(names),
    }
}

/// The names after a whole name section was merged in, subsection by
/// subsection, up to the first fault.
pub open spec fn merge_section(names: Names, section: Seq<u8>) -> Result<Names, Error>
    decreases section.len(),
{
    if section.len() == 0 {
        Ok(names)
    } else {
        match subsection(section) {
            Some((kind, start, end)) => match merge_subsection(
                names,
                kind,
                section.subrange(start, end),
            ) {
                Ok(merged) => merge_section(merged, section.skip(end)),
                Err(e) => Err(e),
            },
            None => Err(Error::StructuralDecode),
        }
    }
}

/// The texts of the strings in a map.
pub open spec fn texts(map: Map<u32, String>) -> Map<u32, Seq<char>> {
    Map::new(|k: u32| map.contains_key(k), |k: u32| map[k]@)
}

/// Index-to-name tables for functions and for types.
pub struct NameTable {
    pub functions: HashMap<u32, String>,
    pub types: HashMap<u32, String>,
}

impl View for NameTable {
    type V = Names;

    open spec fn view(&self) -> Names {
        Names { functions: texts(self.functions@), types: texts(self.types@) }
    }
}

/// Merges the name map in `payload` into `map`, entry by entry.
fn merge_name_map(map: &mut HashMap<u32, String>, payload: &[u8]) -> (r: Result<(), Error>)
    ensures
        match merge_map(texts(old(map)@), payload@) {
            Ok(merged) => r is Ok && texts(final(map)@) == merged,
            Err(e) => r == Err::<(), Error>(e),
        },
{
    let mut cursor = Cursor::new(payload);
    assert(payload@.skip(0) =~= payload@);
    let count = match cursor.read_var_u32() {
        Some(count) => count,
        None => {
            return Err(Error::StructuralDecode);
        },
    };
    let head = cursor.position();
    let ghost items = payload@.skip(head as int);
    let ghost start = texts(map@);
    let mut i: u32 = 0;
    while i < count
        invariant
            cursor.wf(),
            cursor.bytes == payload,
            i <= count,
            head <= cursor.pos,
            items == payload@.skip(head as int),
            start == texts(old(map)@),
            leb_u32(payload@) == Some((count, head as int)),
            merge_entries(start, items, i as nat) == Ok::<(Map<u32, Seq<char>>, int), Error>(
                (texts(map@), cursor.pos - head),
            ),
        decreases count - i,
    {
        let ghost at = cursor.pos;
        proof {
            lemma_skip_skip(payload@, head as int, at - head);
        }
        let index = match cursor.read_var_u32() {
            Some(index) => index,
            None => {
                proof {
                    lemma_merge_entries_fail(start, items, (i + 1) as nat, count as nat);
                }
                return Err(Error::StructuralDecode);
            },
        };
        proof {
            lemma_skip_skip(payload@, at as int, cursor.pos - at);
        }
        let name = match cursor.read_text() {
            Some(name) => name,
            None => {
                proof {
                    lemma_merge_entries_fail(start, items, (i + 1) as nat, count as nat);
                }
                return Err(Error::StructuralDecode);
            },
        };
        if map.contains_key(&index) {
            proof {
                lemma_merge_entries_fail(start, items, (i + 1) as nat, count as nat);
            }
            return Err(Error::DuplicateName);
        }
        let ghost before = map@;
        map.insert(index, name);
        assert(texts(map@) =~= texts(before).insert(index, name@));
        i = i + 1;
    }
    if cursor.eof() {
        Ok(())
    } else {
        Err(Error::StructuralDecode)
    }
}

/// Once an entry is at fault, every longer run of entries fails the same
/// way.
pub proof fn lemma_merge_entries_fail(map: Map<u32, Seq<char>>, items: Seq<u8>, k: nat, n: nat)
    requires
        k <= n,
        merge_entries(map, items, k) is Err,
    ensures
        merge_entries(map, items, n) == merge_entries(map, items, k),
    decreases n,
{
    if k < n {
        lemma_merge_entries_fail(map, items, k, (n - 1) as nat);
    }
}

impl NameTable {
    /// A table without names.
    pub fn new() -> (table: NameTable)
        ensures
            table@.functions == Map::<u32, Seq<char>>::empty(),
            table@.types == Map::<u32, Seq<char>>::empty(),
    {
        let table = NameTable { functions: HashMap::new(), types: HashMap::new() };
        assert(texts(table.functions@) =~= Map::<u32, Seq<char>>::empty());
        assert(texts(table.types@) =~= Map::<u32, Seq<char>>::empty());
        table
    }

    /// Whether no function has a name.
    pub fn has_no_function_names(&self) -> (b: bool)
        ensures
            b <==> self@.functions.dom() =~= Set::<u32>::empty(),
    {
        let b = self.functions.is_empty();
        proof {
            if b {
                assert(self@.functions.dom() =~= Set::<u32>::empty());
            } else {
                let k = choose|k: u32| self.functions@.contains_key(k);
                assert(self.functions@.dom().contains(k)) by {
                    if forall|k: u32| !self.functions@.contains_key(k) {
                        assert(self.functions@.dom() =~= Set::<u32>::empty());
                    }
                }
                assert(self@.functions.contains_key(k));
            }
        }
        b
    }

    /// The name of the function `index`, if it has one.
    pub fn function_name(&self, index: u32) -> (name: Option<&String>)
        ensures
            match name {
                Some(s) => self@.functions.contains_key(index) && self@.functions[index] == s@,
                None => !self@.functions.contains_key(index),
            },
    {
        self.functions.get(&index)
    }

    /// Merges a whole name section into the table, subsection by
    /// subsection. The first fault ends the merge and is returned; what
    /// the table holds after a fault is not specified.
    pub fn merge(&mut self, section: &[u8]) -> (r: Result<(), Error>)
        ensures
            match merge_section(old(self)@, section@) {
                Ok(merged) => r is Ok && final(self)@ == merged,
                Err(e) => r == Err::<(), Error>(e),
            },
    {
        let mut pos: usize = 0;
        assert(section@.skip(0) =~= section@);
        while pos < section.len()
            invariant
                pos <= section@.len(),
                merge_section(old(self)@, section@) == merge_section(
                    self@,
                    section@.skip(pos as int),
                ),
            decreases section@.len() - pos,
        {
            let window = slice_subrange(section, pos, section.len());
            assert(window@ == section@.skip(pos as int));
            let (kind, start, end) = match decode_name_subsection(window) {
                Some(found) => found,
                None => {
                    return Err(Error::StructuralDecode);
                },
            };
            if !(start <= end && 1 <= end && end <= section.len() - pos) {
                return Err(Error::StructuralDecode);
            }
            let payload = slice_subrange(section, pos + start, pos + end);
            assert(payload@ =~= window@.subrange(start as int, end as int));
            match kind {
                NameKind::Functions => {
                    match merge_name_map(&mut self.functions, payload) {
                        Ok(()) => {},
                        Err(e) => {
                            return Err(e);
                        },
                    }
                },
                NameKind::Types => {
                    match merge_name_map(&mut self.types, payload) {
                        Ok(()) => {},
                        Err(e) => {
                            return Err(e);
                        },
                    }
                },
                NameKind::Other => {},
            }
            proof {
                lemma_skip_skip(section@, pos as int, end as int);
            }
            pos = pos + end;
        }
        Ok(())
    }
}

/// Where `n` entries merge, each shorter run of entries merges too, and
/// ends no later.
pub proof fn lemma_merge_entries_prefix(map: Map<u32, Seq<char>>, items: Seq<u8>, k: nat, n: nat)
    requires
        k <= n,
        merge_entries(map, items, n) is Ok,
    ensures
        merge_entries(map, items, k) is Ok,
        0 <= merge_entries(map, items, k).unwrap().1 <= merge_entries(map, items, n).unwrap().1
            <= items.len(),
    decreases n,
{
    if n > 0 {
        lemma_merge_entries_prefix(map, items, (n - 1) as nat, (n - 1) as nat);
        if k < n {
            lemma_merge_entries_prefix(map, items, k, (n - 1) as nat);
        }
    }
}

/// An accepted name map is tiled by its count and its entries: the count
/// comes first, each entry starts where the one before it ends and takes
/// at least two bytes, and the last one ends with the map.
pub proof fn lemma_name_map_tiled(map: Map<u32, Seq<char>>, payload: Seq<u8>)
    requires
        merge_map(map, payload) is Ok,
    ensures
        ({
            let (count, head) = leb_u32(payload).unwrap();
            let items = payload.skip(head);
            let (_, used) = merge_entries(map, items, count as nat).unwrap();
            &&& 1 <= head
            &&& head + used == payload.len()
            &&& forall|k: nat|
                k < count ==> {
                    let (_, from) = #[trigger] merge_entries(map, items, k).unwrap();
                    let (_, to) = merge_entries(map, items, k + 1).unwrap();
                    &&& merge_entries(map, items, k) is Ok
                    &&& 0 <= from && from + 2 <= to <= used
                    &&& naming(items.skip(from)) matches Some((_, span)) && span == to - from
                }
        }),
{
    let (count, head) = leb_u32(payload).unwrap();
    let items = payload.skip(head);
    let (_, used) = merge_entries(map, items, count as nat).unwrap();
    assert forall|k: nat| k < count implies {
        let (_, from) = #[trigger] merge_entries(map, items, k).unwrap();
        let (_, to) = merge_entries(map, items, k + 1).unwrap();
        &&& merge_entries(map, items, k) is Ok
        &&& 0 <= from && from + 2 <= to <= used
        &&& naming(items.skip(from)) matches Some((_, span)) && span == to - from
    } by {
        lemma_merge_entries_prefix(map, items, k + 1, count as nat);
        lemma_merge_entries_prefix(map, items, k, k + 1);
    }
}

} // verus!
