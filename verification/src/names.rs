//! The order of names.
//!
//! Variable names and environment names are compared as `str` compares: one
//! code point after the other, the first difference deciding, and a proper
//! prefix coming before what it is a prefix of.

use vstd::prelude::*;
use vstd::std_specs::iter::IteratorSpec;

verus! {

/// `a` comes strictly before `b`.
pub open spec fn name_lt(a: Seq<char>, b: Seq<char>) -> bool
    decreases a.len(),
{
    if b.len() == 0 {
        false
    } else if a.len() == 0 {
        true
    } else if a[0] != b[0] {
        (a[0] as u32) < (b[0] as u32)
    } else {
        name_lt(a.drop_first(), b.drop_first())
    }
}

/// What a sequence of strings holds, string by string.
pub open spec fn names_of(strings: Seq<String>) -> Seq<Seq<char>> {
    strings.map_values(|s: String| s@)
}

/// Every name stands before the names that follow it in the sequence.
pub open spec fn ascending(names: Seq<Seq<char>>) -> bool {
    forall|i: int, j: int| 0 <= i < j < names.len() ==> name_lt(#[trigger] names[i], #[trigger] names[j])
}

/// The names of a finite set, each once, in ascending order.
pub open spec fn in_order(names: Set<Seq<char>>) -> Seq<Seq<char>> {
    choose|s: Seq<Seq<char>>| ascending(s) && s.to_set() == names
}

/// No name comes before itself.
pub proof fn lemma_name_lt_irreflexive(a: Seq<char>)
    ensures
        !name_lt(a, a),
    decreases a.len(),
{
    if a.len() > 0 {
        lemma_name_lt_irreflexive(a.drop_first());
    }
}

/// Of two different names one comes before the other.
pub proof fn lemma_name_lt_total(a: Seq<char>, b: Seq<char>)
    ensures
        name_lt(a, b) || name_lt(b, a) || a == b,
    decreases a.len(),
{
    if a.len() == 0 || b.len() == 0 {
        if a.len() == 0 && b.len() == 0 {
            assert(a =~= b);
        }
    } else if a[0] == b[0] {
        lemma_name_lt_total(a.drop_first(), b.drop_first());
        if a.drop_first() == b.drop_first() {
            assert(a =~= seq![a[0]] + a.drop_first());
            assert(b =~= seq![b[0]] + b.drop_first());
        }
    } else {
        vstd::utf8::char_u32_cast(a[0], a[0] as u32);
        vstd::utf8::char_u32_cast(b[0], b[0] as u32);
    }
}

/// The order is transitive.
pub proof fn lemma_name_lt_transitive(a: Seq<char>, b: Seq<char>, c: Seq<char>)
    requires
        name_lt(a, b),
        name_lt(b, c),
    ensures
        name_lt(a, c),
    decreases a.len(),
{
    if a.len() > 0 && a[0] == b[0] && b[0] == c[0] {
        lemma_name_lt_transitive(a.drop_first(), b.drop_first(), c.drop_first());
    }
}

/// No two names come before each other.
pub proof fn lemma_name_lt_asymmetric(a: Seq<char>, b: Seq<char>)
    requires
        name_lt(a, b),
    ensures
        !name_lt(b, a),
{
    if name_lt(b, a) {
        lemma_name_lt_transitive(a, b, a);
        lemma_name_lt_irreflexive(a);
    }
}

/// An ascending sequence holds no name twice.
pub proof fn lemma_ascending_no_duplicates(names: Seq<Seq<char>>)
    requires
        ascending(names),
    ensures
        names.no_duplicates(),
{
    assert forall|i: int, j: int| 0 <= i < names.len() && 0 <= j < names.len() && i != j implies names[i]
        != names[j] by {
        lemma_name_lt_irreflexive(names[i]);
    }
}

/// Two ascending sequences that hold the same names are the same sequence.
pub proof fn lemma_ascending_unique(s: Seq<Seq<char>>, t: Seq<Seq<char>>)
    requires
        ascending(s),
        ascending(t),
        s.to_set() == t.to_set(),
    ensures
        s == t,
    decreases s.len(),
{
    if s.len() == 0 {
        if t.len() > 0 {
            assert(t.to_set().contains(t[0]));
            assert(s.to_set().contains(t[0]));
        }
        assert(s =~= t);
    } else if t.len() == 0 {
        assert(s.to_set().contains(s[0]));
        assert(t.to_set().contains(s[0]));
    } else {
        // Both sequences end in the greatest name of the set.
        let x = s.last();
        let y = t.last();
        assert(s.to_set().contains(x));
        assert(t.to_set().contains(x));
        assert(t.to_set().contains(y));
        assert(s.to_set().contains(y));
        let i = choose|i: int| 0 <= i < t.len() && t[i] == x;
        let j = choose|j: int| 0 <= j < s.len() && s[j] == y;
        if x != y {
            assert(i < t.len() - 1);
            assert(name_lt(t[i], t[t.len() - 1]));
            assert(j < s.len() - 1);
            assert(name_lt(s[j], s[s.len() - 1]));
            lemma_name_lt_asymmetric(x, y);
        }
        let s0 = s.drop_last();
        let t0 = t.drop_last();
        lemma_ascending_no_duplicates(s);
        lemma_ascending_no_duplicates(t);
        assert forall|n: Seq<char>| s0.to_set().contains(n) <==> t0.to_set().contains(n) by {
            if s0.to_set().contains(n) {
                let k = choose|k: int| 0 <= k < s0.len() && s0[k] == n;
                assert(s[k] == n);
                assert(n != x);
                assert(s.to_set().contains(n));
                assert(t.to_set().contains(n));
                let m = choose|m: int| 0 <= m < t.len() && t[m] == n;
                assert(t0[m] == n);
            }
            if t0.to_set().contains(n) {
                let k = choose|k: int| 0 <= k < t0.len() && t0[k] == n;
                assert(t[k] == n);
                assert(n != y);
                assert(t.to_set().contains(n));
                assert(s.to_set().contains(n));
                let m = choose|m: int| 0 <= m < s.len() && s[m] == n;
                assert(s0[m] == n);
            }
        }
        assert(s0.to_set() =~= t0.to_set());
        assert(ascending(s0));
        assert(ascending(t0));
        lemma_ascending_unique(s0, t0);
        assert(s =~= s0.push(x));
        assert(t =~= t0.push(y));
    }
}

/// An ascending sequence is the order of the set of its names.
pub proof fn lemma_in_order(names: Seq<Seq<char>>)
    requires
        ascending(names),
    ensures
        in_order(names.to_set()) == names,
{
    let chosen = in_order(names.to_set());
    assert(ascending(chosen) && chosen.to_set() == names.to_set());
    lemma_ascending_unique(chosen, names);
}

/// A finite set of names that is not empty has a least name.
pub proof fn lemma_least_name(names: Set<Seq<char>>) -> (least: Seq<char>)
    requires
        names.finite(),
        !names.is_empty(),
    ensures
        names.contains(least),
        forall|n: Seq<char>| names.contains(n) ==> n == least || name_lt(least, n),
    decreases names.len(),
{
    let x = names.choose();
    let rest = names.remove(x);
    if rest.is_empty() {
        assert forall|n: Seq<char>| names.contains(n) implies n == x by {
            if n != x {
                assert(rest.contains(n));
            }
        }
        x
    } else {
        let m = lemma_least_name(rest);
        lemma_name_lt_total(x, m);
        if name_lt(x, m) {
            assert forall|n: Seq<char>| names.contains(n) implies n == x || name_lt(x, n) by {
                if n != x {
                    assert(rest.contains(n));
                    if n != m {
                        lemma_name_lt_transitive(x, m, n);
                    }
                }
            }
            x
        } else {
            assert forall|n: Seq<char>| names.contains(n) implies n == m || name_lt(m, n) by {
                if n != x {
                    assert(rest.contains(n));
                }
            }
            m
        }
    }
}

/// The names of a finite set can be put in ascending order.
pub proof fn lemma_in_order_exists(names: Set<Seq<char>>)
    requires
        names.finite(),
    ensures
        ascending(in_order(names)),
        in_order(names).to_set() == names,
        in_order(names).len() == names.len(),
    decreases names.len(),
{
    let witness = if names.is_empty() {
        Seq::<Seq<char>>::empty()
    } else {
        let m = lemma_least_name(names);
        let rest = names.remove(m);
        lemma_in_order_exists(rest);
        let tail = in_order(rest);
        let s = seq![m] + tail;
        assert forall|i: int, j: int| 0 <= i < j < s.len() implies name_lt(s[i], s[j]) by {
            if i == 0 {
                assert(tail.to_set().contains(tail[j - 1]));
                assert(rest.contains(s[j]));
            } else {
                assert(name_lt(tail[i - 1], tail[j - 1]));
            }
        }
        assert forall|n: Seq<char>| s.to_set().contains(n) <==> names.contains(n) by {
            if s.to_set().contains(n) {
                let i = choose|i: int| 0 <= i < s.len() && s[i] == n;
                if i > 0 {
                    assert(tail.to_set().contains(tail[i - 1]));
                }
            }
            if names.contains(n) {
                if n == m {
                    assert(s[0] == n);
                } else {
                    assert(rest.contains(n));
                    assert(tail.to_set().contains(n));
                    let i = choose|i: int| 0 <= i < tail.len() && tail[i] == n;
                    assert(s[i + 1] == n);
                }
            }
        }
        s
    };
    assert(witness.to_set() =~= names);
    assert(ascending(witness));
    let chosen = in_order(names);
    assert(ascending(chosen) && chosen.to_set() == names);
    lemma_ascending_no_duplicates(chosen);
    chosen.unique_seq_to_set();
}

/// Whether `a` comes strictly before `b`.
pub fn str_lt(a: &str, b: &str) -> (r: bool)
    ensures
        r == name_lt(a@, b@),
{
    let mut rest_a = a.chars();
    let mut rest_b = b.chars();
    loop
        invariant
            name_lt(a@, b@) == name_lt(rest_a.remaining(), rest_b.remaining()),
            rest_a.decrease() is Some,
        decreases rest_a.decrease()->0,
    {
        match (rest_a.next(), rest_b.next()) {
            (_, None) => {
                return false;
            },
            (None, Some(_)) => {
                return true;
            },
            (Some(x), Some(y)) => {
                if x != y {
                    return (x as u32) < (y as u32);
                }
            },
        }
    }
}

/// Whether the two names are the same.
pub fn str_eq(a: &str, b: &str) -> (r: bool)
    ensures
        r == (a@ == b@),
{
    proof {
        lemma_name_lt_total(a@, b@);
        lemma_name_lt_irreflexive(a@);
    }
    !str_lt(a, b) && !str_lt(b, a)
}

} // verus!
