//! The order of the entries of a comparison: ascending by the names of their
//! variables, entries of one name in the order in which they were found.

use crate::diff::{entries_of, DiffEntry, DiffResult};
use crate::names::{
    lemma_name_lt_irreflexive, lemma_name_lt_total, lemma_name_lt_transitive, name_lt, str_lt,
};
use vstd::prelude::*;

verus! {

/// No entry stands behind an entry whose variable's name comes after its
/// own.
pub open spec fn sorted_by_name(entries: Seq<DiffEntry>) -> bool {
    forall|i: int, j: int|
        0 <= i < j < entries.len() ==> !name_lt(
            (#[trigger] entries[j]).variable.name,
            (#[trigger] entries[i]).variable.name,
        )
}

/// The entries that speak of the variable `name`, in the order in which
/// they stand.
pub open spec fn with_name(entries: Seq<DiffEntry>, name: Seq<char>) -> Seq<DiffEntry>
    decreases entries.len(),
{
    if entries.len() == 0 {
        seq![]
    } else if entries.last().variable.name == name {
        with_name(entries.drop_last(), name).push(entries.last())
    } else {
        with_name(entries.drop_last(), name)
    }
}

/// `entry` put among `entries`: before the entries at the end whose names
/// come after its own, and so behind every entry of its own name.
pub open spec fn put_by_name(entries: Seq<DiffEntry>, entry: DiffEntry) -> Seq<DiffEntry>
    decreases entries.len(),
{
    if entries.len() > 0 && name_lt(entry.variable.name, entries.last().variable.name) {
        put_by_name(entries.drop_last(), entry).push(entries.last())
    } else {
        entries.push(entry)
    }
}

/// The entries sorted by the names of their variables, entries of one name
/// in the order in which they stand.
pub open spec fn by_name(entries: Seq<DiffEntry>) -> Seq<DiffEntry>
    decreases entries.len(),
{
    if entries.len() == 0 {
        seq![]
    } else {
        put_by_name(by_name(entries.drop_last()), entries.last())
    }
}

/// Putting an entry among others puts it at one place and leaves the others
/// as they stand: behind it only names that come after its own, right before
/// it none.
pub proof fn lemma_put_place(entries: Seq<DiffEntry>, entry: DiffEntry) -> (at: int)
    ensures
        0 <= at <= entries.len(),
        put_by_name(entries, entry) == entries.insert(at, entry),
        forall|i: int|
            at <= i < entries.len() ==> name_lt(
                entry.variable.name,
                (#[trigger] entries[i]).variable.name,
            ),
        at > 0 ==> !name_lt(entry.variable.name, entries[at - 1].variable.name),
    decreases entries.len(),
{
    if entries.len() > 0 && name_lt(entry.variable.name, entries.last().variable.name) {
        let at = lemma_put_place(entries.drop_last(), entry);
        assert(entries.drop_last().insert(at, entry).push(entries.last()) =~= entries.insert(
            at,
            entry,
        ));
        assert forall|i: int| at <= i < entries.len() implies name_lt(
            entry.variable.name,
            (#[trigger] entries[i]).variable.name,
        ) by {
            if i < entries.len() - 1 {
                assert(entries[i] == entries.drop_last()[i]);
            }
        }
        if at > 0 {
            assert(entries[at - 1] == entries.drop_last()[at - 1]);
        }
        at
    } else {
        assert(entries.push(entry) =~= entries.insert(entries.len() as int, entry));
        entries.len() as int
    }
}

/// An entry put among sorted entries leaves them sorted.
pub proof fn lemma_put_sorted(entries: Seq<DiffEntry>, entry: DiffEntry)
    requires
        sorted_by_name(entries),
    ensures
        sorted_by_name(put_by_name(entries, entry)),
{
    let at = lemma_put_place(entries, entry);
    let put = entries.insert(at, entry);
    assert forall|i: int, j: int| 0 <= i < j < put.len() implies !name_lt(
        (#[trigger] put[j]).variable.name,
        (#[trigger] put[i]).variable.name,
    ) by {
        if j == at {
            // Nothing before the entry comes after the entry before it.
            let before = entries[at - 1].variable.name;
            if i < at - 1 {
                assert(!name_lt(entries[at - 1].variable.name, entries[i].variable.name));
            }
            if name_lt(entry.variable.name, put[i].variable.name) {
                lemma_name_lt_total(before, put[i].variable.name);
                if name_lt(put[i].variable.name, before) {
                    lemma_name_lt_transitive(entry.variable.name, put[i].variable.name, before);
                }
            }
        } else if i == at {
            assert(put[j] == entries[j - 1]);
            if name_lt(put[j].variable.name, entry.variable.name) {
                lemma_name_lt_transitive(
                    put[j].variable.name,
                    entry.variable.name,
                    put[j].variable.name,
                );
                lemma_name_lt_irreflexive(put[j].variable.name);
            }
        } else {
            let a = if i < at { i } else { i - 1 };
            let b = if j < at { j } else { j - 1 };
            assert(put[i] == entries[a] && put[j] == entries[b]);
        }
    }
}

/// Sorting by name gives sorted entries.
pub proof fn lemma_by_name_sorted(entries: Seq<DiffEntry>)
    ensures
        sorted_by_name(by_name(entries)),
    decreases entries.len(),
{
    if entries.len() > 0 {
        lemma_by_name_sorted(entries.drop_last());
        lemma_put_sorted(by_name(entries.drop_last()), entries.last());
    }
}

/// Sorting by name gives the same entries, each as often as before.
pub proof fn lemma_by_name_same_entries(entries: Seq<DiffEntry>)
    ensures
        by_name(entries).to_multiset() == entries.to_multiset(),
        by_name(entries).len() == entries.len(),
        forall|e: DiffEntry| #[trigger] by_name(entries).contains(e) <==> entries.contains(e),
    decreases entries.len(),
{
    if entries.len() > 0 {
        let earlier = entries.drop_last();
        let sorted = by_name(earlier);
        lemma_by_name_same_entries(earlier);
        lemma_put_same_entries(sorted, entries.last());
        earlier.to_multiset_ensures();
        assert(earlier.push(entries.last()) =~= entries);
        assert(by_name(entries).to_multiset() =~= entries.to_multiset());
    }
    by_name(entries).to_multiset_ensures();
    entries.to_multiset_ensures();
    assert forall|e: DiffEntry| #[trigger] by_name(entries).contains(e) <==> entries.contains(e) by {
        assert(by_name(entries).to_multiset().count(e) == entries.to_multiset().count(e));
    }
}

proof fn lemma_put_same_entries(entries: Seq<DiffEntry>, entry: DiffEntry)
    ensures
        put_by_name(entries, entry).to_multiset() == entries.to_multiset().insert(entry),
    decreases entries.len(),
{
    entries.to_multiset_ensures();
    if entries.len() > 0 && name_lt(entry.variable.name, entries.last().variable.name) {
        let earlier = entries.drop_last();
        lemma_put_same_entries(earlier, entry);
        put_by_name(earlier, entry).to_multiset_ensures();
        earlier.to_multiset_ensures();
        assert(earlier.push(entries.last()) =~= entries);
        assert(put_by_name(entries, entry).to_multiset() =~= entries.to_multiset().insert(entry));
    }
}

proof fn lemma_put_stable(entries: Seq<DiffEntry>, entry: DiffEntry, name: Seq<char>)
    ensures
        with_name(put_by_name(entries, entry), name) == if entry.variable.name == name {
            with_name(entries, name).push(entry)
        } else {
            with_name(entries, name)
        },
    decreases entries.len(),
{
    if entries.len() > 0 && name_lt(entry.variable.name, entries.last().variable.name) {
        let earlier = entries.drop_last();
        let put = put_by_name(earlier, entry).push(entries.last());
        lemma_put_stable(earlier, entry, name);
        lemma_name_lt_irreflexive(name);
        assert(put.drop_last() =~= put_by_name(earlier, entry));
    } else {
        assert(entries.push(entry).drop_last() =~= entries);
    }
}

/// Sorting by name keeps the entries of each name in the order in which
/// they stood.
pub proof fn lemma_by_name_stable(entries: Seq<DiffEntry>, name: Seq<char>)
    ensures
        with_name(by_name(entries), name) == with_name(entries, name),
    decreases entries.len(),
{
    if entries.len() > 0 {
        lemma_by_name_stable(entries.drop_last(), name);
        lemma_put_stable(by_name(entries.drop_last()), entries.last(), name);
    }
}

/// Sorting by name leaves sorted entries as they stand.
pub proof fn lemma_by_name_of_sorted(entries: Seq<DiffEntry>)
    requires
        sorted_by_name(entries),
    ensures
        by_name(entries) == entries,
    decreases entries.len(),
{
    if entries.len() > 0 {
        let earlier = entries.drop_last();
        assert(sorted_by_name(earlier)) by {
            assert forall|i: int, j: int| 0 <= i < j < earlier.len() implies !name_lt(
                (#[trigger] earlier[j]).variable.name,
                (#[trigger] earlier[i]).variable.name,
            ) by {
                assert(earlier[i] == entries[i] && earlier[j] == entries[j]);
            }
        }
        lemma_by_name_of_sorted(earlier);
        if earlier.len() > 0 {
            assert(earlier.last() == entries[entries.len() - 2]);
            assert(entries.last() == entries[entries.len() - 1]);
        }
        assert(earlier.push(entries.last()) =~= entries);
    }
}

/// Where entries speak of a name, one of them does.
proof fn lemma_with_name_found(entries: Seq<DiffEntry>, name: Seq<char>) -> (at: int)
    requires
        with_name(entries, name).len() > 0,
    ensures
        0 <= at < entries.len(),
        entries[at].variable.name == name,
    decreases entries.len(),
{
    if entries.last().variable.name == name {
        entries.len() - 1
    } else {
        lemma_with_name_found(entries.drop_last(), name)
    }
}

/// Sorted entries are fixed by the entries of each name and their order:
/// two sorted sequences that agree on these are one sequence.
pub proof fn lemma_sorted_fixed(r: Seq<DiffEntry>, s: Seq<DiffEntry>)
    requires
        sorted_by_name(r),
        sorted_by_name(s),
        forall|name: Seq<char>| #[trigger] with_name(r, name) == with_name(s, name),
    ensures
        r == s,
    decreases r.len(),
{
    if r.len() == 0 {
        if s.len() > 0 {
            assert(with_name(r, s.last().variable.name) == with_name(s, s.last().variable.name));
        }
        assert(r =~= s);
    } else {
        let x = r.last();
        let m = x.variable.name;
        assert(with_name(r, m) == with_name(s, m));
        assert(with_name(r, m).last() == x);
        let j = lemma_with_name_found(s, m);
        let y = s.last();
        let n = y.variable.name;
        assert(with_name(r, n) == with_name(s, n));
        assert(with_name(s, n).last() == y);
        let i = lemma_with_name_found(r, n);
        assert(!name_lt(r[r.len() - 1].variable.name, r[i].variable.name)) by {
            lemma_name_lt_irreflexive(m);
        }
        assert(!name_lt(s[s.len() - 1].variable.name, s[j].variable.name)) by {
            lemma_name_lt_irreflexive(n);
        }
        lemma_name_lt_total(m, n);
        assert(m == n);
        assert(x == y);
        let r0 = r.drop_last();
        let s0 = s.drop_last();
        assert forall|name: Seq<char>| #[trigger] with_name(r0, name) == with_name(s0, name) by {
            assert(with_name(r, name) == with_name(s, name));
            if name == m {
                assert(with_name(r0, name) =~= with_name(r, name).drop_last());
                assert(with_name(s0, name) =~= with_name(s, name).drop_last());
            }
        }
        assert(sorted_by_name(r0)) by {
            assert forall|a: int, b: int| 0 <= a < b < r0.len() implies !name_lt(
                (#[trigger] r0[b]).variable.name,
                (#[trigger] r0[a]).variable.name,
            ) by {
                assert(r0[a] == r[a] && r0[b] == r[b]);
            }
        }
        assert(sorted_by_name(s0)) by {
            assert forall|a: int, b: int| 0 <= a < b < s0.len() implies !name_lt(
                (#[trigger] s0[b]).variable.name,
                (#[trigger] s0[a]).variable.name,
            ) by {
                assert(s0[a] == s[a] && s0[b] == s[b]);
            }
        }
        lemma_sorted_fixed(r0, s0);
        assert(r =~= r0.push(x));
        assert(s =~= s0.push(y));
    }
}

/// Sorting by name is the one way to put entries in the order of their
/// names while the entries of each name stay in the order in which they
/// stand.
pub proof fn lemma_by_name_only(r: Seq<DiffEntry>, entries: Seq<DiffEntry>)
    requires
        sorted_by_name(r),
        forall|name: Seq<char>| #[trigger] with_name(r, name) == with_name(entries, name),
    ensures
        r == by_name(entries),
{
    lemma_by_name_sorted(entries);
    assert forall|name: Seq<char>| #[trigger]
        with_name(r, name) == with_name(by_name(entries), name) by {
        lemma_by_name_stable(entries, name);
        assert(with_name(r, name) == with_name(entries, name));
    }
    lemma_sorted_fixed(r, by_name(entries));
}

/// Puts `entry` among `entries`, behind every entry whose variable's name
/// does not come after its own.
fn put_in_order(entries: &mut Vec<DiffResult>, entry: DiffResult)
    ensures
        entries_of(final(entries)@) == put_by_name(entries_of(old(entries)@), entry@),
{
    let ghost before = entries_of(entries@);
    let mut at: usize = entries.len();
    while at > 0 && str_lt(entry.env_var.key.as_str(), entries[at - 1].env_var.key.as_str())
        invariant
            at <= entries@.len(),
            before == entries_of(entries@),
            forall|i: int|
                at <= i < before.len() ==> name_lt(
                    entry@.variable.name,
                    (#[trigger] before[i]).variable.name,
                ),
        decreases at,
    {
        at = at - 1;
    }
    proof {
        let place = lemma_put_place(before, entry@);
        if place < at {
            assert(name_lt(entry@.variable.name, before[at - 1].variable.name));
        }
        if at < place {
            assert(name_lt(entry@.variable.name, before[place - 1].variable.name));
        }
    }
    let ghost shown = entry@;
    entries.insert(at, entry);
    proof {
        assert(entries_of(entries@) =~= before.insert(at as int, shown));
    }
}

/// Sorts the entries by the names of their variables. Entries of one name
/// stay in the order in which they stand.
pub fn sort_by_name(entries: Vec<DiffResult>) -> (r: Vec<DiffResult>)
    ensures
        entries_of(r@) == by_name(entries_of(entries@)),
{
    let ghost all = entries_of(entries@);
    let mut sorted: Vec<DiffResult> = Vec::new();
    let mut rest = entries;
    let ghost mut at: int = 0;
    proof {
        assert(entries_of(sorted@) =~= by_name(all.take(0)));
        assert(entries_of(rest@) =~= all.skip(0));
    }
    while rest.len() > 0
        invariant
            0 <= at,
            at + rest@.len() == all.len(),
            entries_of(rest@) == all.skip(at),
            entries_of(sorted@) == by_name(all.take(at)),
        decreases rest@.len(),
    {
        let ghost left = rest@;
        let entry = rest.remove(0);
        proof {
            assert(entries_of(left)[0] == all.skip(at)[0]);
            assert(entries_of(rest@) =~= entries_of(left).remove(0));
            assert(all.skip(at).remove(0) =~= all.skip(at + 1));
            assert(all.take(at + 1).drop_last() =~= all.take(at));
        }
        put_in_order(&mut sorted, entry);
        proof {
            at = at + 1;
        }
    }
    proof {
        assert(all.take(at) =~= all);
    }
    sorted
}

} // verus!
