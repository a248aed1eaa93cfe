//! What changes between two sets of variables.
//!
//! A comparison looks at a set of names. Each name gives up to two entries,
//! and the entries are sorted by the names of their variables, so that
//! entries of one name stay in the order in which they were found.

use crate::names::{
    ascending, in_order, lemma_in_order_exists, lemma_name_lt_asymmetric,
    lemma_name_lt_irreflexive, name_lt, names_of,
};
use crate::sorted::{
    by_name, lemma_by_name_of_sorted, lemma_by_name_same_entries, lemma_by_name_sorted,
    lemma_by_name_stable, sort_by_name, sorted_by_name, with_name,
};
use crate::sorted_map::SortedMap;
use crate::variable::{keyed_by_name, EnvVariable, EnvVariableMap, Variable};
use vstd::prelude::*;

verus! {

/// Which side of a comparison a variable was found on.
#[derive(Debug, Clone, Copy, PartialEq, Eq)]
pub enum DiffStatus {
    /// The variable is in the set compared to.
    Added,
    /// The variable is in the set compared from.
    Deleted,
}

/// What one entry of a comparison says.
pub struct DiffEntry {
    pub status: DiffStatus,
    pub variable: Variable,
}

/// One entry of a comparison: a variable and the side it was found on.
#[derive(Debug, PartialEq)]
pub struct DiffResult {
    pub diff_status: DiffStatus,
    pub env_var: EnvVariable,
}

impl View for DiffResult {
    type V = DiffEntry;

    open spec fn view(&self) -> DiffEntry {
        DiffEntry { status: self.diff_status, variable: self.env_var@ }
    }
}

/// What a sequence of results says, result by result.
pub open spec fn entries_of(results: Seq<DiffResult>) -> Seq<DiffEntry> {
    results.map_values(|r: DiffResult| r@)
}

/// The entries that one name gives: none where both sets hold the same value
/// under it or neither holds it, the old variable and then the new one where
/// the values differ, and the one variable where only one set holds it.
pub open spec fn changes_at(
    name: Seq<char>,
    from: Map<Seq<char>, Variable>,
    to: Map<Seq<char>, Variable>,
) -> Seq<DiffEntry> {
    if from.contains_key(name) && to.contains_key(name) {
        if from[name].value != to[name].value {
            seq![
                DiffEntry { status: DiffStatus::Deleted, variable: from[name] },
                DiffEntry { status: DiffStatus::Added, variable: to[name] },
            ]
        } else {
            seq![]
        }
    } else if to.contains_key(name) {
        seq![DiffEntry { status: DiffStatus::Added, variable: to[name] }]
    } else if from.contains_key(name) {
        seq![DiffEntry { status: DiffStatus::Deleted, variable: from[name] }]
    } else {
        seq![]
    }
}

/// The entries that the names give, name after name.
pub open spec fn changes(
    names: Seq<Seq<char>>,
    from: Map<Seq<char>, Variable>,
    to: Map<Seq<char>, Variable>,
) -> Seq<DiffEntry>
    decreases names.len(),
{
    if names.len() == 0 {
        seq![]
    } else {
        changes(names.drop_last(), from, to) + changes_at(names.last(), from, to)
    }
}

/// The entries that the names of a set give, as they are found: the names
/// are taken in ascending order.
pub open spec fn found(
    names: Set<Seq<char>>,
    from: Map<Seq<char>, Variable>,
    to: Map<Seq<char>, Variable>,
) -> Seq<DiffEntry> {
    changes(in_order(names), from, to)
}

/// The comparison of `from` with `to` on a set of names: the entries that
/// the names give, sorted by the names of their variables. Entries of one
/// name stay in the order in which they were found.
pub open spec fn difference(
    names: Set<Seq<char>>,
    from: Map<Seq<char>, Variable>,
    to: Map<Seq<char>, Variable>,
) -> Seq<DiffEntry> {
    by_name(found(names, from, to))
}

/// The entries are in ascending order of the variables' names, and a name
/// has one entry, or two that stand side by side, the deleted variable
/// first.
pub open spec fn in_diff_order(entries: Seq<DiffEntry>) -> bool {
    forall|i: int, j: int|
        0 <= i < j < entries.len() ==> {
            ||| name_lt((#[trigger] entries[i]).variable.name, (#[trigger] entries[j]).variable.name)
            ||| {
                &&& entries[i].variable.name == entries[j].variable.name
                &&& j == i + 1
                &&& entries[i].status == DiffStatus::Deleted
                &&& entries[j].status == DiffStatus::Added
            }
        }
}

/// The same entry seen from the other side.
pub open spec fn reversed(entry: DiffEntry) -> DiffEntry {
    DiffEntry {
        status: match entry.status {
            DiffStatus::Added => DiffStatus::Deleted,
            DiffStatus::Deleted => DiffStatus::Added,
        },
        variable: entry.variable,
    }
}

/// Every entry speaks of one of the names, and of the variable that one of
/// the two sets holds under it.
proof fn lemma_changes_names(
    names: Seq<Seq<char>>,
    from: Map<Seq<char>, Variable>,
    to: Map<Seq<char>, Variable>,
    i: int,
) -> (at: int)
    requires
        keyed_by_name(from),
        keyed_by_name(to),
        0 <= i < changes(names, from, to).len(),
    ensures
        0 <= at < names.len(),
        changes(names, from, to)[i].variable.name == names[at],
        changes(names.take(at), from, to).len() <= i < changes(names.take(at + 1), from, to).len(),
        changes(names, from, to)[i] == changes_at(names[at], from, to)[i - changes(
            names.take(at),
            from,
            to,
        ).len()],
    decreases names.len(),
{
    let before = changes(names.drop_last(), from, to);
    assert(names.take(names.len() as int) =~= names);
    assert(names.take(names.len() - 1) =~= names.drop_last());
    if i < before.len() {
        let at = lemma_changes_names(names.drop_last(), from, to, i);
        assert(names.drop_last().take(at) =~= names.take(at));
        assert(names.drop_last().take(at + 1) =~= names.take(at + 1));
        at
    } else {
        names.len() - 1
    }
}

/// Names in ascending order give entries in the order of a comparison.
pub proof fn lemma_changes_in_diff_order(
    names: Seq<Seq<char>>,
    from: Map<Seq<char>, Variable>,
    to: Map<Seq<char>, Variable>,
)
    requires
        ascending(names),
        keyed_by_name(from),
        keyed_by_name(to),
    ensures
        in_diff_order(changes(names, from, to)),
{
    let all = changes(names, from, to);
    assert forall|i: int, j: int| 0 <= i < j < all.len() implies {
        ||| name_lt((#[trigger] all[i]).variable.name, (#[trigger] all[j]).variable.name)
        ||| {
            &&& all[i].variable.name == all[j].variable.name
            &&& j == i + 1
            &&& all[i].status == DiffStatus::Deleted
            &&& all[j].status == DiffStatus::Added
        }
    } by {
        let a = lemma_changes_names(names, from, to, i);
        let b = lemma_changes_names(names, from, to, j);
        if a > b {
            lemma_changes_grow(names, from, to, b + 1, a);
        } else if a == b {
            assert(names.take(a + 1).drop_last() =~= names.take(a));
            assert(names.take(a + 1).last() == names[a]);
        }
    }
}

/// More names give more entries.
proof fn lemma_changes_grow(
    names: Seq<Seq<char>>,
    from: Map<Seq<char>, Variable>,
    to: Map<Seq<char>, Variable>,
    a: int,
    b: int,
)
    requires
        0 <= a <= names.len(),
        0 <= b <= names.len(),
    ensures
        a <= b ==> changes(names.take(a), from, to).len() <= changes(names.take(b), from, to).len(),
    decreases b,
{
    if a < b {
        lemma_changes_grow(names, from, to, a, b - 1);
        assert(names.take(b).drop_last() =~= names.take(b - 1));
    }
}

proof fn lemma_contains_concat(s: Seq<DiffEntry>, t: Seq<DiffEntry>, e: DiffEntry)
    ensures
        (s + t).contains(e) <==> s.contains(e) || t.contains(e),
{
    if s.contains(e) {
        let i = choose|i: int| 0 <= i < s.len() && s[i] == e;
        assert((s + t)[i] == e);
    }
    if t.contains(e) {
        let i = choose|i: int| 0 <= i < t.len() && t[i] == e;
        assert((s + t)[s.len() + i] == e);
    }
    if (s + t).contains(e) {
        let i = choose|i: int| 0 <= i < (s + t).len() && (s + t)[i] == e;
        if i < s.len() {
            assert(s[i] == e);
        } else {
            assert(t[i - s.len()] == e);
        }
    }
}

/// An entry is among those that the names give where, and only where, one of
/// the names gives it.
pub proof fn lemma_changes_contains(
    names: Seq<Seq<char>>,
    from: Map<Seq<char>, Variable>,
    to: Map<Seq<char>, Variable>,
    e: DiffEntry,
)
    ensures
        changes(names, from, to).contains(e) <==> exists|i: int|
            0 <= i < names.len() && changes_at(#[trigger] names[i], from, to).contains(e),
    decreases names.len(),
{
    if names.len() > 0 {
        let earlier = names.drop_last();
        lemma_changes_contains(earlier, from, to, e);
        lemma_contains_concat(changes(earlier, from, to), changes_at(names.last(), from, to), e);
        if changes(earlier, from, to).contains(e) {
            let i = choose|i: int|
                0 <= i < earlier.len() && changes_at(#[trigger] earlier[i], from, to).contains(e);
            assert(changes_at(names[i], from, to).contains(e));
        }
        if changes_at(names.last(), from, to).contains(e) {
            assert(changes_at(names[names.len() - 1], from, to).contains(e));
        }
        if exists|i: int|
            0 <= i < names.len() && changes_at(#[trigger] names[i], from, to).contains(e) {
            let i = choose|i: int|
                0 <= i < names.len() && changes_at(#[trigger] names[i], from, to).contains(e);
            if i < names.len() - 1 {
                assert(changes_at(earlier[i], from, to).contains(e));
            }
        }
    }
}

/// A comparison on a finite set of names holds the entries that the names of
/// the set give, and no others.
pub proof fn lemma_difference_contains(
    names: Set<Seq<char>>,
    from: Map<Seq<char>, Variable>,
    to: Map<Seq<char>, Variable>,
    e: DiffEntry,
)
    requires
        names.finite(),
    ensures
        difference(names, from, to).contains(e) <==> exists|name: Seq<char>|
            names.contains(name) && #[trigger] changes_at(name, from, to).contains(e),
{
    let ordered = in_order(names);
    lemma_in_order_exists(names);
    lemma_changes_contains(ordered, from, to, e);
    lemma_by_name_same_entries(found(names, from, to));
    if difference(names, from, to).contains(e) {
        let i = choose|i: int|
            0 <= i < ordered.len() && changes_at(#[trigger] ordered[i], from, to).contains(e);
        assert(ordered.to_set().contains(ordered[i]));
    }
    if exists|name: Seq<char>|
        names.contains(name) && #[trigger] changes_at(name, from, to).contains(e) {
        let name = choose|name: Seq<char>|
            names.contains(name) && #[trigger] changes_at(name, from, to).contains(e);
        assert(ordered.to_set().contains(name));
        let i = choose|i: int| 0 <= i < ordered.len() && ordered[i] == name;
        assert(changes_at(ordered[i], from, to).contains(e));
    }
}

/// Entries in the order of a comparison are sorted by name.
pub proof fn lemma_diff_order_sorted(entries: Seq<DiffEntry>)
    requires
        in_diff_order(entries),
    ensures
        sorted_by_name(entries),
{
    assert forall|i: int, j: int| 0 <= i < j < entries.len() implies !name_lt(
        (#[trigger] entries[j]).variable.name,
        (#[trigger] entries[i]).variable.name,
    ) by {
        if name_lt(entries[i].variable.name, entries[j].variable.name) {
            lemma_name_lt_asymmetric(entries[i].variable.name, entries[j].variable.name);
        } else {
            lemma_name_lt_irreflexive(entries[i].variable.name);
        }
    }
}

/// A comparison is sorted by the names of its variables, holds the entries
/// that were found, each as often, and keeps the entries of each name in the
/// order in which they were found.
pub proof fn lemma_difference_sorted(
    names: Set<Seq<char>>,
    from: Map<Seq<char>, Variable>,
    to: Map<Seq<char>, Variable>,
)
    ensures
        sorted_by_name(difference(names, from, to)),
        difference(names, from, to).to_multiset() == found(names, from, to).to_multiset(),
        forall|name: Seq<char>| #[trigger]
            with_name(difference(names, from, to), name) == with_name(
                found(names, from, to),
                name,
            ),
{
    lemma_by_name_sorted(found(names, from, to));
    lemma_by_name_same_entries(found(names, from, to));
    assert forall|name: Seq<char>| #[trigger]
        with_name(difference(names, from, to), name) == with_name(
            found(names, from, to),
            name,
        ) by {
        lemma_by_name_stable(found(names, from, to), name);
    }
}

/// A comparison of two sets of variables, each stored under its own name, on
/// a finite set of names holds the entries in the order in which they were
/// found, which is the order of a comparison.
pub proof fn lemma_difference_in_diff_order(
    names: Set<Seq<char>>,
    from: Map<Seq<char>, Variable>,
    to: Map<Seq<char>, Variable>,
)
    requires
        names.finite(),
        keyed_by_name(from),
        keyed_by_name(to),
    ensures
        difference(names, from, to) == found(names, from, to),
        in_diff_order(difference(names, from, to)),
{
    lemma_in_order_exists(names);
    lemma_changes_in_diff_order(in_order(names), from, to);
    lemma_diff_order_sorted(found(names, from, to));
    lemma_by_name_of_sorted(found(names, from, to));
}

/// Seen from the other side, a name gives the same variables in the opposite
/// roles: what was deleted is added and what was added is deleted.
pub proof fn lemma_changes_at_symmetric(
    name: Seq<char>,
    a: Map<Seq<char>, Variable>,
    b: Map<Seq<char>, Variable>,
)
    ensures
        changes_at(name, b, a) == changes_at(name, a, b).map_values(|e: DiffEntry| reversed(e)).reverse(),
{
    assert(changes_at(name, b, a) =~= changes_at(name, a, b).map_values(
        |e: DiffEntry| reversed(e),
    ).reverse());
}

proof fn lemma_changes_symmetric(
    names: Seq<Seq<char>>,
    a: Map<Seq<char>, Variable>,
    b: Map<Seq<char>, Variable>,
    e: DiffEntry,
)
    ensures
        changes(names, a, b).contains(e) <==> changes(names, b, a).contains(reversed(e)),
        changes(names, a, b).len() == changes(names, b, a).len(),
    decreases names.len(),
{
    if names.len() > 0 {
        let name = names.last();
        lemma_changes_symmetric(names.drop_last(), a, b, e);
        lemma_contains_concat(changes(names.drop_last(), a, b), changes_at(name, a, b), e);
        lemma_contains_concat(changes(names.drop_last(), b, a), changes_at(name, b, a), reversed(e));
        let here = changes_at(name, a, b);
        let there = changes_at(name, b, a);
        if here.contains(e) {
            let i = choose|i: int| 0 <= i < here.len() && here[i] == e;
            assert(there[here.len() - 1 - i] == reversed(e));
        }
        if there.contains(reversed(e)) {
            let i = choose|i: int| 0 <= i < there.len() && there[i] == reversed(e);
            assert(here[there.len() - 1 - i] == e);
        }
    }
}

/// The variables' names that the entries speak of.
pub open spec fn names_in(entries: Seq<DiffEntry>) -> Set<Seq<char>> {
    entries.map_values(|e: DiffEntry| e.variable.name).to_set()
}

/// Comparing `b` with `a` gives what comparing `a` with `b` gives, seen from
/// the other side: as many entries, on the same names, and each variable that
/// one comparison calls deleted the other calls added.
pub proof fn lemma_difference_symmetric(
    names: Set<Seq<char>>,
    a: Map<Seq<char>, Variable>,
    b: Map<Seq<char>, Variable>,
)
    ensures
        difference(names, a, b).len() == difference(names, b, a).len(),
        forall|e: DiffEntry| #[trigger]
            difference(names, a, b).contains(e) <==> difference(names, b, a).contains(reversed(e)),
        names_in(difference(names, a, b)) == names_in(difference(names, b, a)),
{
    let forth = difference(names, a, b);
    let back = difference(names, b, a);
    lemma_by_name_same_entries(found(names, a, b));
    lemma_by_name_same_entries(found(names, b, a));
    assert forall|e: DiffEntry| #[trigger] forth.contains(e) <==> back.contains(reversed(e)) by {
        lemma_changes_symmetric(in_order(names), a, b, e);
    }
    lemma_changes_symmetric(in_order(names), a, b, arbitrary());
    assert forall|n: Seq<char>| names_in(forth).contains(n) <==> names_in(back).contains(n) by {
        let forth_names = forth.map_values(|e: DiffEntry| e.variable.name);
        let back_names = back.map_values(|e: DiffEntry| e.variable.name);
        if names_in(forth).contains(n) {
            let i = choose|i: int| 0 <= i < forth_names.len() && forth_names[i] == n;
            assert(forth.contains(forth[i]));
            let j = choose|j: int| 0 <= j < back.len() && back[j] == reversed(forth[i]);
            assert(back_names[j] == n);
        }
        if names_in(back).contains(n) {
            let i = choose|i: int| 0 <= i < back_names.len() && back_names[i] == n;
            assert(reversed(reversed(back[i])) == back[i]);
            assert(back.contains(reversed(reversed(back[i]))));
            assert(forth.contains(reversed(back[i])));
            let j = choose|j: int| 0 <= j < forth.len() && forth[j] == reversed(back[i]);
            assert(forth_names[j] == n);
        }
    }
    assert(names_in(forth) =~= names_in(back));
}

/// Adds the names to the set.
fn add_names(set: &mut SortedMap<()>, names: &[String])
    ensures
        final(set)@.dom() == old(set)@.dom().union(names_of(names@).to_set()),
{
    let mut at: usize = 0;
    while at < names.len()
        invariant
            at <= names@.len(),
            set@.dom() == old(set)@.dom().union(names_of(names@.take(at as int)).to_set()),
        decreases names@.len() - at,
    {
        set.insert(names[at].clone(), ());
        proof {
            let taken = names_of(names@.take(at as int));
            assert(names_of(names@.take(at + 1)) =~= taken.push(names@[at as int]@));
            taken.lemma_push_to_set_commute(names@[at as int]@);
            assert(set@.dom() =~= old(set)@.dom().union(taken.push(names@[at as int]@).to_set()));
        }
        at = at + 1;
    }
    proof {
        assert(names@.take(names@.len() as int) =~= names@);
    }
}

/// The names under which either set holds a variable, each once, in
/// ascending order.
pub fn unique_keys(defaults: &EnvVariableMap, overrides: &EnvVariableMap) -> (r: Vec<String>)
    ensures
        names_of(r@) == in_order(defaults@.dom().union(overrides@.dom())),
        names_of(r@).to_set() == defaults@.dom().union(overrides@.dom()),
        ascending(names_of(r@)),
{
    let mut set: SortedMap<()> = SortedMap::new();
    add_names(&mut set, defaults.keys().as_slice());
    add_names(&mut set, overrides.keys().as_slice());
    proof {
        assert(set@.dom() =~= defaults@.dom().union(overrides@.dom()));
    }
    set.keys()
}

/// Compares `from_vars` with `to_vars` on the names in `unique_keys`. The
/// names are taken as a set: their order and repetitions among them do not
/// matter. The entries come sorted by the names of their variables; where
/// two entries speak of one name, the one found first comes first.
pub fn diff(unique_keys: &[String], from_vars: &EnvVariableMap, to_vars: &EnvVariableMap) -> (r:
    Vec<DiffResult>)
    ensures
        entries_of(r@) == difference(names_of(unique_keys@).to_set(), from_vars@, to_vars@),
        sorted_by_name(entries_of(r@)),
        entries_of(r@).to_multiset() == found(
            names_of(unique_keys@).to_set(),
            from_vars@,
            to_vars@,
        ).to_multiset(),
        forall|name: Seq<char>| #[trigger]
            with_name(entries_of(r@), name) == with_name(
                found(names_of(unique_keys@).to_set(), from_vars@, to_vars@),
                name,
            ),
        keyed_by_name(from_vars@) && keyed_by_name(to_vars@) ==> in_diff_order(entries_of(r@)),
{
    let mut set: SortedMap<()> = SortedMap::new();
    add_names(&mut set, unique_keys);
    let names = set.keys();
    let ghost ordered = names_of(names@);
    proof {
        assert(set@.dom() =~= names_of(unique_keys@).to_set());
    }
    let mut res: Vec<DiffResult> = Vec::new();
    let mut at: usize = 0;
    proof {
        assert(entries_of(res@) =~= changes(ordered.take(0), from_vars@, to_vars@));
    }
    while at < names.len()
        invariant
            at <= names@.len(),
            ordered == names_of(names@),
            entries_of(res@) == changes(ordered.take(at as int), from_vars@, to_vars@),
        decreases names@.len() - at,
    {
        let k = names[at].as_str();
        let ghost before = res@;
        match (from_vars.get(k), to_vars.get(k)) {
            (Some(from), Some(to)) => {
                if !(from.value == to.value) {
                    res.push(DiffResult { diff_status: DiffStatus::Deleted, env_var: from.clone() });
                    res.push(DiffResult { diff_status: DiffStatus::Added, env_var: to.clone() });
                }
            },
            (None, Some(to)) => {
                res.push(DiffResult { diff_status: DiffStatus::Added, env_var: to.clone() });
            },
            (Some(from), None) => {
                res.push(DiffResult { diff_status: DiffStatus::Deleted, env_var: from.clone() });
            },
            (None, None) => {},
        }
        proof {
            assert(ordered.take(at + 1).drop_last() =~= ordered.take(at as int));
            assert(ordered.take(at + 1).last() == k@);
            assert(entries_of(res@) =~= entries_of(before) + changes_at(k@, from_vars@, to_vars@));
        }
        at = at + 1;
    }
    proof {
        assert(ordered.take(names@.len() as int) =~= ordered);
        lemma_difference_sorted(set@.dom(), from_vars@, to_vars@);
        if keyed_by_name(from_vars@) && keyed_by_name(to_vars@) {
            lemma_difference_in_diff_order(set@.dom(), from_vars@, to_vars@);
        }
    }
    sort_by_name(res)
}

} // verus!
