//! The namespace report: functions grouped by namespace, the groups ranked
//! by their total size, and the count of functions that are ever called.

use crate::error::Error;
use crate::functions::FunctionInfo;
use crate::names::NameTable;
use crate::namespace::{namespace, namespaces_of, NON_NAMESPACED};
use vstd::prelude::*;

verus! {

/// The functions of one namespace, in declaration order.
#[derive(Debug, PartialEq, Eq)]
pub struct Bucket {
    pub label: String,
    pub members: Vec<FunctionInfo>,
}

/// A bucket, with its label as a sequence of characters.
pub struct BucketView {
    pub label: Seq<char>,
    pub members: Seq<FunctionInfo>,
}

impl View for Bucket {
    type V = BucketView;

    open spec fn view(&self) -> BucketView {
        BucketView { label: self.label@, members: self.members@ }
    }
}

/// The buckets of a list, each by its view.
pub open spec fn buckets_view(buckets: Seq<Bucket>) -> Seq<BucketView> {
    Seq::new(buckets.len(), |i: int| buckets[i]@)
}

/// The sum of the body sizes of `members`.
pub open spec fn total_size(members: Seq<FunctionInfo>) -> nat
    decreases members.len(),
{
    if members.len() == 0 {
        0
    } else {
        total_size(members.drop_last()) + members.last().byte_size as nat
    }
}

/// The position of the first bucket at or behind `from` that carries
/// `label`, or the number of buckets where there is none.
pub open spec fn find_label(buckets: Seq<BucketView>, label: Seq<char>, from: int) -> int
    decreases buckets.len() - from,
{
    if from < 0 || from >= buckets.len() {
        buckets.len() as int
    } else if buckets[from].label == label {
        from
    } else {
        find_label(buckets, label, from + 1)
    }
}

/// The buckets after `f` was filed under `label`: at the end of the bucket
/// with that label, or in a new bucket at the end of the list.
pub open spec fn filed(buckets: Seq<BucketView>, label: Seq<char>, f: FunctionInfo) -> Seq<
    BucketView,
> {
    let at = find_label(buckets, label, 0);
    if at < buckets.len() {
        buckets.update(at, BucketView { members: buckets[at].members.push(f), ..buckets[at] })
    } else {
        buckets.push(BucketView { label, members: seq![f] })
    }
}

/// The buckets after the first `n` functions were filed, each under its
/// label. The bucket for functions without a namespace comes first and is
/// there from the start.
pub open spec fn grouped(functions: Seq<FunctionInfo>, labels: Seq<Seq<char>>, n: nat) -> Seq<
    BucketView,
>
    decreases n,
{
    if n == 0 {
        seq![BucketView { label: NON_NAMESPACED@, members: Seq::empty() }]
    } else {
        filed(grouped(functions, labels, (n - 1) as nat), labels[n - 1], functions[n - 1])
    }
}

/// The position of the first bucket at or behind `from` that is smaller
/// than `size`, or the number of buckets where there is none.
pub open spec fn slot(sorted: Seq<BucketView>, size: nat, from: int) -> int
    decreases sorted.len() - from,
{
    if from < 0 || from >= sorted.len() {
        sorted.len() as int
    } else if total_size(sorted[from].members) < size {
        from
    } else {
        slot(sorted, size, from + 1)
    }
}

/// The ranking after `bucket` was placed in it: before the first bucket
/// that is smaller, so behind every bucket of the same size.
pub open spec fn placed(sorted: Seq<BucketView>, bucket: BucketView) -> Seq<BucketView> {
    sorted.insert(slot(sorted, total_size(bucket.members), 0), bucket)
}

/// The buckets in the order of the report: by total size, largest first;
/// buckets of the same size stay in the order they came in.
pub open spec fn ranked(buckets: Seq<BucketView>) -> Seq<BucketView>
    decreases buckets.len(),
{
    if buckets.len() == 0 {
        Seq::empty()
    } else {
        placed(ranked(buckets.drop_last()), buckets.last())
    }
}

/// How many of `functions` are the target of at least one call.
pub open spec fn called_count(functions: Seq<FunctionInfo>) -> nat
    decreases functions.len(),
{
    if functions.len() == 0 {
        0
    } else {
        called_count(functions.drop_last()) + if functions.last().call_count > 0 {
            1nat
        } else {
            0nat
        }
    }
}

/// Whether the function index `i` has a name.
pub open spec fn has_name(names: Map<u32, Seq<char>>, i: nat) -> bool {
    i <= u32::MAX && names.contains_key(i as u32)
}

/// Whether each of the first `count` function indices has a name.
pub open spec fn all_named(count: nat, names: Map<u32, Seq<char>>) -> bool {
    forall|i: nat| i < count ==> #[trigger] has_name(names, i)
}

/// The namespace labels of the first `count` functions, by their names.
pub open spec fn labels(count: nat, names: Map<u32, Seq<char>>) -> Seq<Seq<char>> {
    Seq::new(count, |i: int| namespace(names[i as u32]))
}

/// The namespace report.
#[derive(Debug, PartialEq, Eq)]
pub struct Summary {
    /// How many functions are called at least once.
    pub called: usize,
    /// How many functions are never called.
    pub uncalled: usize,
    /// The namespaces, largest first.
    pub namespaces: Vec<Bucket>,
}

/// A namespace report, by the views of its buckets.
pub struct SummaryView {
    pub called: usize,
    pub uncalled: usize,
    pub namespaces: Seq<BucketView>,
}

impl View for Summary {
    type V = SummaryView;

    open spec fn view(&self) -> SummaryView {
        SummaryView {
            called: self.called,
            uncalled: self.uncalled,
            namespaces: buckets_view(self.namespaces@),
        }
    }
}

/// The report on a function table and the names of its functions. There
/// is none where no function has a name at all, or where a function of the
/// table has none.
pub open spec fn summary(functions: Seq<FunctionInfo>, names: Map<u32, Seq<char>>) -> Result<
    SummaryView,
    Error,
> {
    if names.dom() == Set::<u32>::empty() || !all_named(functions.len(), names) {
        Err(Error::MissingNameData)
    } else {
        Ok(
            SummaryView {
                called: called_count(functions) as usize,
                uncalled: (functions.len() - called_count(functions)) as usize,
                namespaces: ranked(
                    grouped(functions, labels(functions.len(), names), functions.len()),
                ),
            },
        )
    }
}

impl Bucket {
    /// The sum of the body sizes of the bucket's functions.
    pub fn byte_size(&self) -> (total: u128)
        ensures
            total == total_size(self.members@),
    {
        let mut total: u128 = 0;
        let mut k: usize = 0;
        while k < self.members.len()
            invariant
                k <= self.members.len(),
                total == total_size(self.members@.take(k as int)),
                total <= k * usize::MAX,
            decreases self.members.len() - k,
        {
            assert(self.members@.take(k + 1).drop_last() =~= self.members@.take(k as int));
            assert((k + 1) * usize::MAX <= 0xffff_ffff_ffff_ffff * 0xffff_ffff_ffff_ffff)
                by (nonlinear_arith)
                requires
                    0 <= k + 1 <= 0xffff_ffff_ffff_ffff,
                    0 <= usize::MAX <= 0xffff_ffff_ffff_ffff,
            ;
            assert(k * usize::MAX + usize::MAX == (k + 1) * usize::MAX) by (nonlinear_arith);
            total = total + self.members[k].byte_size as u128;
            k = k + 1;
        }
        assert(self.members@.take(k as int) =~= self.members@);
        total
    }
}

/// Files `f` under `label`.
pub fn assign(buckets: &mut Vec<Bucket>, label: String, f: FunctionInfo)
    ensures
        buckets_view(final(buckets)@) == filed(buckets_view(old(buckets)@), label@, f),
{
    let ghost before = buckets_view(buckets@);
    let mut at: usize = 0;
    while at < buckets.len()
        invariant
            at <= buckets.len(),
            buckets@ == old(buckets)@,
            before == buckets_view(buckets@),
            find_label(before, label@, 0) == find_label(before, label@, at as int),
        decreases buckets.len() - at,
    {
        if buckets[at].label == label {
            buckets[at].members.push(f);
            assert(buckets_view(buckets@) =~= filed(before, label@, f));
            return ;
        }
        at = at + 1;
    }
    let mut members: Vec<FunctionInfo> = Vec::new();
    members.push(f);
    buckets.push(Bucket { label, members });
    assert(buckets_view(buckets@) =~= filed(before, label@, f));
}

/// Puts the buckets in the order of the report: by total size, largest
/// first; buckets of the same size stay in the order they came in.
pub fn rank(buckets: Vec<Bucket>) -> (sorted: Vec<Bucket>)
    ensures
        buckets_view(sorted@) == ranked(buckets_view(buckets@)),
{
    let ghost all = buckets_view(buckets@);
    let mut source = buckets;
    let mut sorted: Vec<Bucket> = Vec::new();
    let mut sizes: Vec<u128> = Vec::new();
    let ghost mut k: int = 0;
    assert(all.skip(0) =~= all);
    assert(buckets_view(sorted@) =~= ranked(all.take(0)));
    while source.len() > 0
        invariant
            0 <= k <= all.len(),
            buckets_view(source@) == all.skip(k),
            buckets_view(sorted@) == ranked(all.take(k)),
            sizes@.len() == sorted@.len(),
            forall|i: int| 0 <= i < sizes@.len() ==> sizes@[i] == total_size(sorted@[i].members@),
        decreases source.len(),
    {
        let ghost rest = source@;
        let ghost so_far = buckets_view(sorted@);
        assert(buckets_view(rest).len() == rest.len());
        let bucket = source.remove(0);
        assert(bucket@ == all.skip(k)[0]);
        assert(buckets_view(source@) =~= all.skip(k + 1)) by {
            assert forall|j: int| 0 <= j < source@.len() implies buckets_view(source@)[j]
                == all.skip(k + 1)[j] by {
                assert(source@[j] == rest[j + 1]);
                assert(buckets_view(rest)[j + 1] == all.skip(k)[j + 1]);
            }
        }
        let size = bucket.byte_size();
        let mut at: usize = 0;
        while at < sizes.len() && sizes[at] >= size
            invariant
                at <= sizes.len(),
                sizes@.len() == sorted@.len(),
                so_far == buckets_view(sorted@),
                size == total_size(bucket@.members),
                forall|i: int|
                    0 <= i < sizes@.len() ==> sizes@[i] == total_size(sorted@[i].members@),
                slot(so_far, size as nat, 0) == slot(so_far, size as nat, at as int),
            decreases sizes.len() - at,
        {
            at = at + 1;
        }
        sorted.insert(at, bucket);
        sizes.insert(at, size);
        proof {
            assert(all.take(k + 1).drop_last() =~= all.take(k));
            assert(all.take(k + 1).last() == bucket@);
            assert(buckets_view(sorted@) =~= so_far.insert(at as int, bucket@));
            k = k + 1;
        }
    }
    assert(all.take(k) =~= all);
    sorted
}

/// Builds the namespace report: files every function of the table under
/// the namespace of its name, ranks the namespaces by total size, and
/// counts the functions that are called at least once.
pub fn summarize(functions: &Vec<FunctionInfo>, names: &NameTable) -> (r: Result<Summary, Error>)
    ensures
        match summary(functions@, names@.functions) {
            Ok(expected) => r matches Ok(s) && s@ == expected,
            Err(e) => r matches Err(f) && f == e,
        },
{
    if names.has_no_function_names() {
        return Err(Error::MissingNameData);
    }
    let n = functions.len();
    let ghost texts = names@.functions;
    let mut found: Vec<String> = Vec::new();
    let mut i: usize = 0;
    while i < n
        invariant
            i <= n,
            n == functions@.len(),
            texts == names@.functions,
            found@.len() == i,
            forall|j: nat| j < i ==> #[trigger] has_name(texts, j),
            forall|j: int| 0 <= j < i ==> (#[trigger] found@[j])@ == texts[j as u32],
        decreases n - i,
    {
        if i > u32::MAX as usize {
            assert(!has_name(texts, i as nat));
            return Err(Error::MissingNameData);
        }
        match names.function_name(i as u32) {
            Some(name) => {
                found.push(name.clone());
            },
            None => {
                assert(!has_name(texts, i as nat));
                return Err(Error::MissingNameData);
            },
        }
        assert(has_name(texts, i as nat));
        i = i + 1;
    }
    let filed_under = namespaces_of(&found);
    let mut buckets: Vec<Bucket> = Vec::new();
    buckets.push(Bucket { label: String::from_str(NON_NAMESPACED), members: Vec::new() });
    assert(buckets_view(buckets@) =~= grouped(functions@, labels(n as nat, texts), 0));
    let mut called: usize = 0;
    let mut i: usize = 0;
    while i < n
        invariant
            i <= n,
            n == functions@.len(),
            filed_under@.len() == n,
            forall|j: int|
                0 <= j < n ==> (#[trigger] filed_under@[j])@ == labels(n as nat, texts)[j],
            buckets_view(buckets@) == grouped(functions@, labels(n as nat, texts), i as nat),
            called == called_count(functions@.take(i as int)),
            called <= i,
        decreases n - i,
    {
        assign(&mut buckets, filed_under[i].clone(), functions[i]);
        assert(functions@.take(i + 1).drop_last() =~= functions@.take(i as int));
        if functions[i].call_count > 0 {
            called = called + 1;
        }
        i = i + 1;
    }
    assert(functions@.take(n as int) =~= functions@);
    Ok(Summary { called, uncalled: n - called, namespaces: rank(buckets) })
}

/// The search for a label ends at the first bucket that carries it, or
/// behind the last bucket.
pub proof fn lemma_find_label(buckets: Seq<BucketView>, label: Seq<char>, from: int)
    requires
        0 <= from <= buckets.len(),
    ensures
        from <= find_label(buckets, label, from) <= buckets.len(),
        find_label(buckets, label, from) < buckets.len() ==> buckets[find_label(
            buckets,
            label,
            from,
        )].label == label,
        forall|j: int| from <= j < find_label(buckets, label, from) ==> buckets[j].label != label,
    decreases buckets.len() - from,
{
    if from < buckets.len() && buckets[from].label != label {
        lemma_find_label(buckets, label, from + 1);
    }
}

/// The search for a slot ends at the first bucket that is smaller than
/// `size`, or behind the last bucket.
pub proof fn lemma_slot(sorted: Seq<BucketView>, size: nat, from: int)
    requires
        0 <= from <= sorted.len(),
    ensures
        from <= slot(sorted, size, from) <= sorted.len(),
        slot(sorted, size, from) < sorted.len() ==> total_size(
            sorted[slot(sorted, size, from)].members,
        ) < size,
        forall|j: int| from <= j < slot(sorted, size, from) ==> total_size(sorted[j].members) >= size,
    decreases sorted.len() - from,
{
    if from < sorted.len() && total_size(sorted[from].members) >= size {
        lemma_slot(sorted, size, from + 1);
    }
}

/// Whether no bucket is larger than one before it.
pub open spec fn largest_first(buckets: Seq<BucketView>) -> bool {
    forall|i: int, j: int|
        0 <= i < j < buckets.len() ==> total_size(#[trigger] buckets[i].members) >= total_size(
            #[trigger] buckets[j].members,
        )
}

/// The ranking lists the buckets largest first, and it lists each bucket
/// that went in exactly once: it is a rearrangement of them.
pub proof fn lemma_ranked(buckets: Seq<BucketView>)
    ensures
        largest_first(ranked(buckets)),
        ranked(buckets).len() == buckets.len(),
        ranked(buckets).to_multiset() == buckets.to_multiset(),
    decreases buckets.len(),
{
    broadcast use vstd::seq_lib::group_to_multiset_ensures;

    if buckets.len() == 0 {
        assert(buckets =~= Seq::<BucketView>::empty());
    } else {
        let shorter = buckets.drop_last();
        let bucket = buckets.last();
        lemma_ranked(shorter);
        let sorted = ranked(shorter);
        let size = total_size(bucket.members);
        let at = slot(sorted, size, 0);
        lemma_slot(sorted, size, 0);
        let next = sorted.insert(at, bucket);
        assert(next == ranked(buckets));
        assert forall|i: int, j: int| 0 <= i < j < next.len() implies total_size(
            #[trigger] next[i].members,
        ) >= total_size(#[trigger] next[j].members) by {
            if j < at {
                assert(next[i] == sorted[i] && next[j] == sorted[j]);
            } else if j == at {
                assert(next[i] == sorted[i]);
            } else if i < at {
                assert(next[i] == sorted[i] && next[j] == sorted[j - 1]);
                assert(total_size(sorted[at].members) >= total_size(sorted[j - 1].members)
                    || j - 1 == at);
            } else if i == at {
                assert(next[j] == sorted[j - 1]);
                assert(total_size(sorted[at].members) >= total_size(sorted[j - 1].members)
                    || j - 1 == at);
            } else {
                assert(next[i] == sorted[i - 1] && next[j] == sorted[j - 1]);
            }
        }
        assert(next.remove(at) =~= sorted);
        assert(next[at] == bucket);
        assert(next.to_multiset() =~= sorted.to_multiset().insert(bucket));
        assert(buckets =~= shorter.push(bucket));
    }
}

/// Those of the first `n` functions that are filed under `label`, in
/// declaration order.
pub open spec fn members_with(
    functions: Seq<FunctionInfo>,
    labels: Seq<Seq<char>>,
    label: Seq<char>,
    n: nat,
) -> Seq<FunctionInfo>
    decreases n,
{
    if n == 0 {
        Seq::empty()
    } else {
        let before = members_with(functions, labels, label, (n - 1) as nat);
        if labels[n - 1] == label {
            before.push(functions[n - 1])
        } else {
            before
        }
    }
}

/// A label that none of the first `n` functions carries has no members.
pub proof fn lemma_no_members(
    functions: Seq<FunctionInfo>,
    labels: Seq<Seq<char>>,
    label: Seq<char>,
    n: nat,
)
    requires
        forall|i: int| 0 <= i < n ==> labels[i] != label,
    ensures
        members_with(functions, labels, label, n) == Seq::<FunctionInfo>::empty(),
    decreases n,
{
    if n > 0 {
        lemma_no_members(functions, labels, label, (n - 1) as nat);
    }
}

/// Grouping loses no function and files none twice. The bucket for
/// functions without a namespace is always there, and comes first. No two
/// buckets carry the same label. Every label that occurs has its bucket,
/// and each bucket holds exactly the functions that carry its label, in
/// declaration order.
pub proof fn lemma_grouped(functions: Seq<FunctionInfo>, labels: Seq<Seq<char>>, n: nat)
    requires
        n <= functions.len(),
        n <= labels.len(),
    ensures
        ({
            let groups = grouped(functions, labels, n);
            &&& groups.len() >= 1
            &&& groups[0].label == NON_NAMESPACED@
            &&& forall|a: int, b: int|
                0 <= a < b < groups.len() ==> #[trigger] groups[a].label
                    != #[trigger] groups[b].label
            &&& forall|i: int|
                0 <= i < n ==> find_label(groups, #[trigger] labels[i], 0) < groups.len()
            &&& forall|k: int|
                0 <= k < groups.len() ==> (#[trigger] groups[k]).members == members_with(
                    functions,
                    labels,
                    groups[k].label,
                    n,
                )
        }),
    decreases n,
{
    if n > 0 {
        let m = (n - 1) as nat;
        lemma_grouped(functions, labels, m);
        let before = grouped(functions, labels, m);
        let label = labels[n - 1];
        let f = functions[n - 1];
        let at = find_label(before, label, 0);
        lemma_find_label(before, label, 0);
        let groups = grouped(functions, labels, n);
        assert(groups == filed(before, label, f));
        if at >= before.len() {
            assert forall|i: int| 0 <= i < m implies labels[i] != label by {
                lemma_find_label(before, labels[i], 0);
            }
            lemma_no_members(functions, labels, label, m);
        }
        assert forall|i: int| 0 <= i < n implies find_label(groups, #[trigger] labels[i], 0)
            < groups.len() by {
            lemma_find_label(groups, labels[i], 0);
            if i < m {
                lemma_find_label(before, labels[i], 0);
                let k = find_label(before, labels[i], 0);
                assert(groups[k].label == labels[i]);
            } else {
                let k = if at < before.len() {
                    at
                } else {
                    before.len() as int
                };
                assert(groups[k].label == label);
            }
        }
        assert forall|k: int| 0 <= k < groups.len() implies (#[trigger] groups[k]).members
            == members_with(functions, labels, groups[k].label, n) by {
            if k < before.len() {
                assert(before[k].members == members_with(functions, labels, before[k].label, m));
            }
        }
    }
}

/// The report always lists the bucket for functions without a namespace,
/// also where there is no function at all.
pub proof fn lemma_sentinel_listed(functions: Seq<FunctionInfo>, names: Map<u32, Seq<char>>)
    requires
        summary(functions, names) is Ok,
    ensures
        exists|k: int|
            0 <= k < summary(functions, names).unwrap().namespaces.len() && (
            #[trigger] summary(functions, names).unwrap().namespaces[k]).label
                == NON_NAMESPACED@,
{
    broadcast use vstd::seq_lib::group_to_multiset_ensures;

    let n = functions.len();
    let groups = grouped(functions, labels(n, names), n);
    lemma_grouped(functions, labels(n, names), n);
    lemma_ranked(groups);
    let listed = ranked(groups);
    groups.to_multiset_ensures();
    listed.to_multiset_ensures();
    assert(groups.contains(groups[0]));
    assert(groups.to_multiset().count(groups[0]) > 0);
    assert(listed.contains(groups[0]));
    let k = choose|k: int| 0 <= k < listed.len() && listed[k] == groups[0];
    assert(summary(functions, names).unwrap().namespaces[k].label == NON_NAMESPACED@);
}

/// The report lists the namespaces largest first, and each namespace of
/// the grouping exactly once.
pub proof fn lemma_report_order(functions: Seq<FunctionInfo>, names: Map<u32, Seq<char>>)
    requires
        summary(functions, names) is Ok,
    ensures
        largest_first(summary(functions, names).unwrap().namespaces),
        summary(functions, names).unwrap().namespaces.to_multiset() == grouped(
            functions,
            labels(functions.len(), names),
            functions.len(),
        ).to_multiset(),
{
    lemma_ranked(grouped(functions, labels(functions.len(), names), functions.len()));
}

} // verus!
