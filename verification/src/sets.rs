use vstd::prelude::*;

use crate::trace::TraceAction;

verus! {

broadcast use vstd::seq_lib::group_seq_properties;

/// Whether the vector contains the given canal identifier.
pub(crate) fn contains_usize(v: &Vec<usize>, x: usize) -> (r: bool)
    ensures
        r == v@.contains(x),
{
    let mut i: usize = 0;
    while i < v.len()
        invariant
            i <= v@.len(),
            forall|k: int| 0 <= k < i ==> v@[k] != x,
        decreases v@.len() - i,
    {
        if v[i] == x {
            return true;
        }
        i = i + 1;
    }
    false
}

/// Whether the vector contains the given action.
pub(crate) fn contains_action(v: &Vec<TraceAction>, a: TraceAction) -> (r: bool)
    ensures
        r == v@.contains(a),
{
    let mut i: usize = 0;
    while i < v.len()
        invariant
            i <= v@.len(),
            forall|k: int| 0 <= k < i ==> v@[k] != a,
        decreases v@.len() - i,
    {
        if v[i] == a {
            return true;
        }
        i = i + 1;
    }
    false
}

/// A fresh vector with the same canal identifiers.
pub(crate) fn copy_usize_vec(v: &Vec<usize>) -> (r: Vec<usize>)
    ensures
        r@ == v@,
{
    let mut r: Vec<usize> = Vec::new();
    let mut i: usize = 0;
    while i < v.len()
        invariant
            i <= v@.len(),
            r@ == v@.subrange(0, i as int),
        decreases v@.len() - i,
    {
        r.push(v[i]);
        proof {
            assert(r@ =~= v@.subrange(0, i + 1 as int));
        }
        i = i + 1;
    }
    proof {
        assert(v@.subrange(0, v@.len() as int) =~= v@);
    }
    r
}

/// A fresh vector with the same actions.
pub(crate) fn copy_action_vec(v: &Vec<TraceAction>) -> (r: Vec<TraceAction>)
    ensures
        r@ == v@,
{
    let mut r: Vec<TraceAction> = Vec::new();
    let mut i: usize = 0;
    while i < v.len()
        invariant
            i <= v@.len(),
            r@ == v@.subrange(0, i as int),
        decreases v@.len() - i,
    {
        r.push(v[i]);
        proof {
            assert(r@ =~= v@.subrange(0, i + 1 as int));
        }
        i = i + 1;
    }
    proof {
        assert(v@.subrange(0, v@.len() as int) =~= v@);
    }
    r
}

/// Whether every action of `part` occurs in `whole`.
pub(crate) fn actions_all_contained(part: &Vec<TraceAction>, whole: &Vec<TraceAction>) -> (r: bool)
    ensures
        r == forall|j: int| 0 <= j < part@.len() ==> whole@.contains(#[trigger] part@[j]),
{
    let mut i: usize = 0;
    while i < part.len()
        invariant
            i <= part@.len(),
            forall|j: int| 0 <= j < i ==> whole@.contains(#[trigger] part@[j]),
        decreases part@.len() - i,
    {
        if !contains_action(whole, part[i]) {
            return false;
        }
        i = i + 1;
    }
    true
}

/// Whether the two repetition-free vectors hold the same set of actions.
pub(crate) fn same_action_set(a: &Vec<TraceAction>, b: &Vec<TraceAction>) -> (r: bool)
    ensures
        r == (a@.to_set() == b@.to_set()),
{
    let fwd = actions_all_contained(a, b);
    let bwd = actions_all_contained(b, a);
    proof {
        if fwd && bwd {
            assert(a@.to_set() =~= b@.to_set());
        }
        if !fwd {
            let j = choose|j: int| 0 <= j < a@.len() && !b@.contains(a@[j]);
            assert(a@.to_set().contains(a@[j]));
        }
        if !bwd {
            let j = choose|j: int| 0 <= j < b@.len() && !a@.contains(b@[j]);
            assert(b@.to_set().contains(b@[j]));
        }
    }
    fwd && bwd
}

/// The elements of `s` whose value is not among `forbid`, in order.
pub open spec fn seq_remove_all(s: Seq<TraceAction>, forbid: Seq<TraceAction>) -> Seq<TraceAction>
    decreases s.len(),
{
    if s.len() == 0 {
        Seq::empty()
    } else if forbid.contains(s.last()) {
        seq_remove_all(s.drop_last(), forbid)
    } else {
        seq_remove_all(s.drop_last(), forbid).push(s.last())
    }
}

/// Every element kept by `seq_remove_all` comes from the original sequence.
pub proof fn lemma_seq_remove_all_subset(s: Seq<TraceAction>, forbid: Seq<TraceAction>)
    ensures
        forall|x: TraceAction| seq_remove_all(s, forbid).contains(x) ==> s.contains(x),
    decreases s.len(),
{
    if s.len() > 0 {
        lemma_seq_remove_all_subset(s.drop_last(), forbid);
        assert forall|x: TraceAction| seq_remove_all(s, forbid).contains(x) implies s.contains(
            x,
        ) by {
            if seq_remove_all(s.drop_last(), forbid).contains(x) {
                assert(s.drop_last().contains(x));
                let k = choose|k: int| 0 <= k < s.drop_last().len() && s.drop_last()[k] == x;
                assert(s[k] == x);
            } else {
                assert(!forbid.contains(s.last()) && x == s.last());
                assert(s[s.len() - 1] == x);
            }
        }
    }
}

/// Removes from `left` every action that occurs in `forbid`.
pub(crate) fn remove_actions(left: &Vec<TraceAction>, forbid: &Vec<TraceAction>) -> (r: Vec<TraceAction>)
    ensures
        r@ == seq_remove_all(left@, forbid@),
{
    let mut r: Vec<TraceAction> = Vec::new();
    let mut i: usize = 0;
    while i < left.len()
        invariant
            i <= left@.len(),
            r@ == seq_remove_all(left@.subrange(0, i as int), forbid@),
        decreases left@.len() - i,
    {
        proof {
            assert(left@.subrange(0, i + 1 as int).drop_last() =~= left@.subrange(0, i as int));
            assert(left@.subrange(0, i + 1 as int).last() == left@[i as int]);
        }
        if !contains_action(forbid, left[i]) {
            r.push(left[i]);
        }
        i = i + 1;
    }
    proof {
        assert(left@.subrange(0, left@.len() as int) =~= left@);
    }
    r
}

/// All subsets of `s`, each in the order of `s`: the subsets of the prefix
/// without the last element, followed by the same subsets with the last
/// element appended.
pub open spec fn spec_powerset(s: Seq<usize>) -> Seq<Seq<usize>>
    decreases s.len(),
{
    if s.len() == 0 {
        seq![Seq::<usize>::empty()]
    } else {
        let p = spec_powerset(s.drop_last());
        p + p.map_values(|t: Seq<usize>| t.push(s.last()))
    }
}

/// Every member of every enumerated subset is an element of the base
/// sequence.
pub proof fn lemma_powerset_elements(s: Seq<usize>)
    ensures
        forall|k: int, x: usize|
            0 <= k < spec_powerset(s).len() && #[trigger] spec_powerset(s)[k].contains(x)
                ==> s.contains(x),
    decreases s.len(),
{
    if s.len() > 0 {
        lemma_powerset_elements(s.drop_last());
        let p = spec_powerset(s.drop_last());
        assert forall|k: int, x: usize|
            0 <= k < spec_powerset(s).len() && #[trigger] spec_powerset(s)[k].contains(
                x,
            ) implies s.contains(x) by {
            if k < p.len() {
                assert(p[k].contains(x));
                assert(s.drop_last().contains(x));
            } else {
                let t = p[k - p.len()];
                assert(spec_powerset(s)[k] == t.push(s.last()));
                if x == s.last() {
                    assert(s[s.len() - 1] == x);
                } else {
                    let j = choose|j: int| 0 <= j < t.push(s.last()).len() && t.push(s.last())[j] == x;
                    assert(t[j] == x);
                    assert(p[k - p.len()].contains(x));
                    assert(s.drop_last().contains(x));
                }
            }
        }
    }
}

/// Enumerates every subset of the given identifiers, deterministically, in
/// the order `spec_powerset` defines.
pub(crate) fn powerset(v: &Vec<usize>) -> (r: Vec<Vec<usize>>)
    ensures
        r@.len() == spec_powerset(v@).len(),
        forall|k: int| 0 <= k < r@.len() ==> (#[trigger] r@[k]@) == spec_powerset(v@)[k],
{
    let mut r: Vec<Vec<usize>> = Vec::new();
    r.push(Vec::new());
    proof {
        assert(v@.subrange(0, 0) =~= Seq::<usize>::empty());
        assert(r@[0]@ =~= Seq::<usize>::empty());
    }
    let mut i: usize = 0;
    while i < v.len()
        invariant
            i <= v@.len(),
            r@.len() == spec_powerset(v@.subrange(0, i as int)).len(),
            forall|k: int|
                0 <= k < r@.len() ==> (#[trigger] r@[k]@) == spec_powerset(
                    v@.subrange(0, i as int),
                )[k],
        decreases v@.len() - i,
    {
        let ghost p = spec_powerset(v@.subrange(0, i as int));
        let n = r.len();
        let mut j: usize = 0;
        while j < n
            invariant
                j <= n,
                n == p.len(),
                i < v@.len(),
                r@.len() == p.len() + j,
                forall|k: int| 0 <= k < p.len() ==> (#[trigger] r@[k]@) == p[k],
                forall|k: int|
                    p.len() <= k < p.len() + j ==> (#[trigger] r@[k]@) == p[k - p.len()].push(
                        v@[i as int],
                    ),
            decreases n - j,
        {
            let mut t = copy_usize_vec(&r[j]);
            t.push(v[i]);
            r.push(t);
            j = j + 1;
        }
        proof {
            let q = spec_powerset(v@.subrange(0, i + 1 as int));
            assert(v@.subrange(0, i + 1 as int).drop_last() =~= v@.subrange(0, i as int));
            assert(v@.subrange(0, i + 1 as int).last() == v@[i as int]);
            assert(q == p + p.map_values(|t: Seq<usize>| t.push(v@[i as int])));
            assert forall|k: int| 0 <= k < r@.len() implies (#[trigger] r@[k]@) == q[k] by {
                if k >= p.len() {
                    assert(q[k] == p.map_values(|t: Seq<usize>| t.push(v@[i as int]))[k - p.len()]);
                }
            }
        }
        i = i + 1;
    }
    proof {
        assert(v@.subrange(0, v@.len() as int) =~= v@);
    }
    r
}

/// The identifiers of `a` that are not in `b`, in order, each listed once
/// when `a` is repetition-free.
pub(crate) fn usize_vec_difference(a: &Vec<usize>, b: &Vec<usize>) -> (r: Vec<usize>)
    ensures
        r@.to_set() == a@.to_set().difference(b@.to_set()),
        a@.no_duplicates() ==> r@.no_duplicates(),
    {
    let mut r: Vec<usize> = Vec::new();
    let mut i: usize = 0;
    while i < a.len()
        invariant
            i <= a@.len(),
            forall|k: int|
                0 <= k < r@.len() ==> !b@.contains(#[trigger] r@[k]) && exists|j: int|
                    0 <= j < i && a@[j] == r@[k],
            forall|j: int|
                0 <= j < i && !b@.contains(#[trigger] a@[j]) ==> r@.contains(a@[j]),
            a@.no_duplicates() ==> r@.no_duplicates(),
        decreases a@.len() - i,
    {
        if !contains_usize(b, a[i]) {
            proof {
                if a@.no_duplicates() && r@.contains(a@[i as int]) {
                    let k = choose|k: int| 0 <= k < r@.len() && r@[k] == a@[i as int];
                    let j = choose|j: int| 0 <= j < i && a@[j] == r@[k];
                    assert(false);
                }
            }
            r.push(a[i]);
        }
        i = i + 1;
    }
    proof {
        assert forall|x: usize| r@.to_set().contains(x) implies a@.to_set().difference(
            b@.to_set(),
        ).contains(x) by {
            let k = choose|k: int| 0 <= k < r@.len() && r@[k] == x;
            let j = choose|j: int| 0 <= j < a@.len() && a@[j] == r@[k];
            assert(a@.contains(a@[j]));
        }
        assert forall|x: usize|
            a@.to_set().difference(b@.to_set()).contains(x) implies r@.to_set().contains(x) by {
            let j = choose|j: int| 0 <= j < a@.len() && a@[j] == x;
            assert(r@.contains(a@[j]));
        }
        assert(r@.to_set() =~= a@.to_set().difference(b@.to_set()));
    }
    r
}

} // verus!
