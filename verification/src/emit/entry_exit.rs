//! Entry / exit sequencing.
//!
//! For a transition with `source`, `target` and `kind`:
//!
//! ```text
//! effective_lca(t) = parent(source)               if External and source == target
//!                  = lca_inclusive(source, target) otherwise
//! exit_set(t)  = source up to, not including, effective_lca   (innermost first)
//! entry_set(t) = effective_lca down to target, excluding the lca (outermost first)
//! ```
//!
//! An `Internal` transition exits and enters nothing.

use vstd::prelude::*;

use crate::ir::{TransitionKind, TransitionObject};
use crate::parent_table::{ParentTable, parents_wf};
use crate::state_index::{ROOT_SENTINEL, RecordView, StateIndex, index_wf, spec_lookup};

verus! {

/// The ancestor chain of `a`, inclusive, ending at the root sentinel:
/// `[a, parent(a), ..., 0]`.
pub open spec fn anc_chain(p: Seq<u8>, a: u8) -> Seq<u8>
    decreases a,
{
    if 0 < a && (a as int) < p.len() && p[a as int] < a {
        seq![a] + anc_chain(p, p[a as int])
    } else {
        seq![a]
    }
}

/// The first element of `cb` that also occurs in `ca` (0 if none).
pub open spec fn first_common(cb: Seq<u8>, ca: Seq<u8>) -> u8
    decreases cb.len(),
{
    if cb.len() == 0 {
        0
    } else if ca.contains(cb[0]) {
        cb[0]
    } else {
        first_common(cb.drop_first(), ca)
    }
}

/// Inclusive lowest common ancestor: the first ancestor of `b` (itself
/// included) that is also an ancestor of `a` (itself included).
pub open spec fn spec_lca(p: Seq<u8>, a: u8, b: u8) -> u8 {
    first_common(anc_chain(p, b), anc_chain(p, a))
}

/// The walk from `cur` upwards that stops before `stop` or the root.
pub open spec fn up_path(p: Seq<u8>, cur: u8, stop: u8) -> Seq<u8>
    decreases cur,
{
    if cur == stop || cur == 0 {
        Seq::empty()
    } else if (cur as int) < p.len() && p[cur as int] < cur {
        seq![cur] + up_path(p, p[cur as int], stop)
    } else {
        seq![cur]
    }
}

/// The index an id resolves to, the root sentinel when unknown.
pub open spec fn spec_must_lookup(index: Seq<RecordView>, id: Seq<char>) -> u8 {
    match spec_lookup(index, id) {
        Some(i) => i as u8,
        None => 0,
    }
}

/// The effective LCA of a transition.
pub open spec fn spec_effective_lca(t: TransitionObject, index: Seq<RecordView>, p: Seq<u8>) -> u8 {
    let s = spec_must_lookup(index, t.source@);
    let g = spec_must_lookup(index, t.target@);
    if t.kind == TransitionKind::External && s == g {
        p[s as int]
    } else {
        spec_lca(p, s, g)
    }
}

/// The exit set of a transition, innermost first.
pub open spec fn spec_exit_path(t: TransitionObject, index: Seq<RecordView>, p: Seq<u8>) -> Seq<u8> {
    if t.kind == TransitionKind::Internal {
        Seq::empty()
    } else {
        up_path(p, spec_must_lookup(index, t.source@), spec_effective_lca(t, index, p))
    }
}

/// The entry set of a transition, outermost first.
pub open spec fn spec_entry_path(t: TransitionObject, index: Seq<RecordView>, p: Seq<u8>) -> Seq<u8> {
    if t.kind == TransitionKind::Internal {
        Seq::empty()
    } else {
        up_path(p, spec_must_lookup(index, t.target@), spec_effective_lca(t, index, p)).reverse()
    }
}

/// An index and a parent table that belong together.
pub open spec fn tables_fit(index: Seq<RecordView>, parents: Seq<u8>) -> bool {
    &&& index_wf(index)
    &&& parents_wf(parents)
    &&& parents.len() == index.len()
}

pub proof fn lemma_must_lookup_range(index: Seq<RecordView>, id: Seq<char>)
    requires
        index_wf(index),
    ensures
        (spec_must_lookup(index, id) as int) < index.len(),
{
    crate::state_index::lemma_lookup_range(index, id);
}

/// Every chain starts at its vertex and ends at the root.
pub proof fn lemma_chain_shape(p: Seq<u8>, a: u8)
    requires
        parents_wf(p),
        (a as int) < p.len(),
    ensures
        anc_chain(p, a).len() >= 1,
        anc_chain(p, a)[0] == a,
        anc_chain(p, a).last() == 0,
        anc_chain(p, a).contains(0),
        anc_chain(p, a).contains(a),
        forall|k: int| 0 <= k < anc_chain(p, a).len() ==> (#[trigger] anc_chain(p, a)[k] as int) < p.len(),
    decreases a,
{
    let c = anc_chain(p, a);
    assert(c[0] == a);
    if a > 0 {
        let q = p[a as int];
        lemma_chain_shape(p, q);
        let cq = anc_chain(p, q);
        assert(c == seq![a] + cq);
        assert(c.last() == cq.last());
        assert(c[c.len() - 1] == 0);
        assert forall|k: int| 0 <= k < c.len() implies (#[trigger] c[k] as int) < p.len() by {
            if k > 0 {
                assert(c[k] == cq[k - 1]);
            }
        }
    } else {
        assert(c == seq![0u8]);
    }
}

/// A suffix of a chain is the chain of its first element.
pub proof fn lemma_chain_suffix(p: Seq<u8>, a: u8, k: int)
    requires
        parents_wf(p),
        (a as int) < p.len(),
        0 <= k < anc_chain(p, a).len(),
    ensures
        anc_chain(p, anc_chain(p, a)[k]) == anc_chain(p, a).skip(k),
    decreases a,
{
    let c = anc_chain(p, a);
    if k == 0 {
        assert(c.skip(0) =~= c);
    } else {
        let q = p[a as int];
        assert(a > 0);
        assert(c == seq![a] + anc_chain(p, q));
        lemma_chain_suffix(p, q, k - 1);
        assert(c.skip(k) =~= anc_chain(p, q).skip(k - 1));
        assert(c[k] == anc_chain(p, q)[k - 1]);
    }
}

/// Chain elements strictly decrease.
pub proof fn lemma_chain_decreasing(p: Seq<u8>, a: u8, i: int, j: int)
    requires
        parents_wf(p),
        (a as int) < p.len(),
        0 <= i < j < anc_chain(p, a).len(),
    ensures
        anc_chain(p, a)[j] < anc_chain(p, a)[i],
    decreases a,
{
    let c = anc_chain(p, a);
    let q = p[a as int];
    assert(a > 0);
    assert(c == seq![a] + anc_chain(p, q));
    lemma_chain_shape(p, q);
    if i == 0 {
        if j == 1 {
            assert(c[1] == q);
        } else {
            lemma_chain_decreasing(p, q, 0, j - 1);
            assert(c[j] == anc_chain(p, q)[j - 1]);
        }
    } else {
        lemma_chain_decreasing(p, q, i - 1, j - 1);
        assert(c[j] == anc_chain(p, q)[j - 1]);
        assert(c[i] == anc_chain(p, q)[i - 1]);
    }
}

proof fn lemma_first_common(cb: Seq<u8>, ca: Seq<u8>)
    requires
        exists|k: int| 0 <= k < cb.len() && ca.contains(#[trigger] cb[k]),
    ensures
        exists|k: int|
            0 <= k < cb.len() && cb[k] == first_common(cb, ca) && ca.contains(cb[k]) && (forall|j: int|
                0 <= j < k ==> !ca.contains(#[trigger] cb[j])),
    decreases cb.len(),
{
    if ca.contains(cb[0]) {
        assert(cb[0] == first_common(cb, ca));
    } else {
        let k0 = choose|k: int| 0 <= k < cb.len() && ca.contains(#[trigger] cb[k]);
        assert(k0 > 0);
        assert(cb.drop_first()[k0 - 1] == cb[k0]);
        lemma_first_common(cb.drop_first(), ca);
        let k = choose|k: int|
            0 <= k < cb.drop_first().len() && cb.drop_first()[k] == first_common(cb.drop_first(), ca)
                && ca.contains(cb.drop_first()[k]) && (forall|j: int|
                0 <= j < k ==> !ca.contains(#[trigger] cb.drop_first()[j]));
        assert(cb[k + 1] == first_common(cb, ca));
        assert forall|j: int| 0 <= j < k + 1 implies !ca.contains(#[trigger] cb[j]) by {
            if j > 0 {
                assert(cb[j] == cb.drop_first()[j - 1]);
            }
        }
    }
}

/// Law: the inclusive LCA is a common ancestor of both vertices, and every
/// common ancestor is an ancestor of it (it is the lowest one).
pub proof fn law_lca_is_lowest_common_ancestor(p: Seq<u8>, a: u8, b: u8)
    requires
        parents_wf(p),
        (a as int) < p.len(),
        (b as int) < p.len(),
    ensures
        anc_chain(p, a).contains(spec_lca(p, a, b)),
        anc_chain(p, b).contains(spec_lca(p, a, b)),
        forall|x: u8|
            anc_chain(p, a).contains(x) && anc_chain(p, b).contains(x) ==> #[trigger] anc_chain(
                p,
                spec_lca(p, a, b),
            ).contains(x),
{
    let ca = anc_chain(p, a);
    let cb = anc_chain(p, b);
    lemma_chain_shape(p, a);
    lemma_chain_shape(p, b);
    assert(ca.contains(cb[cb.len() - 1]));
    lemma_first_common(cb, ca);
    let k = choose|k: int|
        0 <= k < cb.len() && cb[k] == first_common(cb, ca) && ca.contains(cb[k]) && (forall|j: int|
            0 <= j < k ==> !ca.contains(#[trigger] cb[j]));
    let l = cb[k];
    assert(cb.contains(l));
    lemma_chain_suffix(p, b, k);
    assert forall|x: u8| ca.contains(x) && cb.contains(x) implies #[trigger] anc_chain(p, spec_lca(p, a, b)).contains(x) by {
        let j = choose|j: int| 0 <= j < cb.len() && cb[j] == x;
        if j < k {
            assert(!ca.contains(cb[j]));
        } else {
            assert(cb.skip(k)[j - k] == x);
        }
    }
}

/// Law: the inclusive LCA does not depend on the order of its arguments,
/// and a vertex is its own LCA.
pub proof fn law_lca_symmetric(p: Seq<u8>, a: u8, b: u8)
    requires
        parents_wf(p),
        (a as int) < p.len(),
        (b as int) < p.len(),
    ensures
        spec_lca(p, a, b) == spec_lca(p, b, a),
        spec_lca(p, a, a) == a,
{
    law_lca_is_lowest_common_ancestor(p, a, b);
    law_lca_is_lowest_common_ancestor(p, b, a);
    law_lca_is_lowest_common_ancestor(p, a, a);
    let x = spec_lca(p, a, b);
    let y = spec_lca(p, b, a);
    lemma_chain_shape(p, a);
    lemma_chain_shape(p, b);
    // x and y are ancestors of each other.
    assert(anc_chain(p, x).contains(y));
    assert(anc_chain(p, y).contains(x));
    let ia = choose|i: int| 0 <= i < anc_chain(p, a).len() && anc_chain(p, a)[i] == x;
    let ja = choose|i: int| 0 <= i < anc_chain(p, a).len() && anc_chain(p, a)[i] == y;
    lemma_chain_shape(p, x);
    lemma_chain_shape(p, y);
    let i1 = choose|i: int| 0 <= i < anc_chain(p, x).len() && anc_chain(p, x)[i] == y;
    let i2 = choose|i: int| 0 <= i < anc_chain(p, y).len() && anc_chain(p, y)[i] == x;
    if i1 > 0 {
        lemma_chain_decreasing(p, x, 0, i1);
    }
    if i2 > 0 {
        lemma_chain_decreasing(p, y, 0, i2);
    }
    assert(x == y);
    assert(anc_chain(p, a)[0] == a);
    assert(spec_lca(p, a, a) == a) by {
        let c = anc_chain(p, a);
        assert(c.contains(c[0]));
    }
}

/// Law: when `l` is an ancestor of `s`, the upward path from `s` stopped
/// at `l`, followed by the chain of `l`, is the chain of `s`.
pub proof fn law_up_path_then_chain(p: Seq<u8>, s: u8, l: u8)
    requires
        parents_wf(p),
        (s as int) < p.len(),
        anc_chain(p, s).contains(l),
    ensures
        up_path(p, s, l) + anc_chain(p, l) == anc_chain(p, s),
        !up_path(p, s, l).contains(l),
    decreases s,
{
    if s == l {
        assert(up_path(p, s, l) =~= Seq::<u8>::empty());
        assert(up_path(p, s, l) + anc_chain(p, l) =~= anc_chain(p, s));
    } else if s == 0 {
        assert(anc_chain(p, 0) == seq![0u8]);
        assert(l == 0);
    } else {
        let q = p[s as int];
        let c = anc_chain(p, s);
        assert(c == seq![s] + anc_chain(p, q));
        let k = choose|k: int| 0 <= k < c.len() && c[k] == l;
        assert(k > 0);
        assert(anc_chain(p, q)[k - 1] == l);
        law_up_path_then_chain(p, q, l);
        assert(up_path(p, s, l) == seq![s] + up_path(p, q, l));
        assert(up_path(p, s, l) + anc_chain(p, l) =~= seq![s] + (up_path(p, q, l) + anc_chain(p, l)));
        assert(!up_path(p, s, l).contains(l)) by {
            if up_path(p, s, l).contains(l) {
                let j = choose|j: int| 0 <= j < up_path(p, s, l).len() && up_path(p, s, l)[j] == l;
                if j > 0 {
                    assert(up_path(p, q, l)[j - 1] == l);
                }
            }
        }
    }
}

/// Law (exit and entry sets): for every transition that is not internal,
/// the exit set followed by the chain of the effective LCA is the chain of
/// the source, and the reversed entry set followed by that chain is the
/// chain of the target. So the exit set is exactly the source's ancestors
/// strictly below the effective LCA, innermost first, and the entry set is
/// exactly the target's ancestors strictly below it, outermost first; the
/// effective LCA itself is in neither.
pub proof fn law_exit_entry_sets(t: TransitionObject, index: Seq<RecordView>, parents: Seq<u8>)
    requires
        tables_fit(index, parents),
        t.kind != TransitionKind::Internal,
    ensures
        spec_exit_path(t, index, parents) + anc_chain(
            parents,
            spec_effective_lca(t, index, parents),
        ) == anc_chain(parents, spec_must_lookup(index, t.source@)),
        spec_entry_path(t, index, parents).reverse() + anc_chain(
            parents,
            spec_effective_lca(t, index, parents),
        ) == anc_chain(parents, spec_must_lookup(index, t.target@)),
        !spec_exit_path(t, index, parents).contains(spec_effective_lca(t, index, parents)),
        !spec_entry_path(t, index, parents).contains(spec_effective_lca(t, index, parents)),
{
    let p = parents;
    let s = spec_must_lookup(index, t.source@);
    let g = spec_must_lookup(index, t.target@);
    let l = spec_effective_lca(t, index, p);
    lemma_must_lookup_range(index, t.source@);
    lemma_must_lookup_range(index, t.target@);
    lemma_chain_shape(p, s);
    if t.kind == TransitionKind::External && s == g {
        let c = anc_chain(p, s);
        if s > 0 {
            assert(c == seq![s] + anc_chain(p, p[s as int]));
            lemma_chain_shape(p, p[s as int]);
            assert(c[1] == p[s as int]);
        } else {
            assert(c[0] == 0);
        }
        assert(c.contains(l));
    } else {
        law_lca_is_lowest_common_ancestor(p, s, g);
    }
    law_up_path_then_chain(p, s, l);
    law_up_path_then_chain(p, g, l);
    let e = up_path(p, g, l);
    assert(e.reverse().reverse() =~= e);
    assert(!e.reverse().contains(l)) by {
        if e.reverse().contains(l) {
            let j = choose|j: int| 0 <= j < e.reverse().len() && e.reverse()[j] == l;
            assert(e[e.len() - 1 - j] == l);
        }
    }
}

/// Whether `x` occurs in `v`.
fn vec_contains(v: &Vec<u8>, x: u8) -> (r: bool)
    ensures
        r == v@.contains(x),
{
    let mut i: usize = 0;
    while i < v.len()
        invariant
            i <= v.len(),
            forall|j: int| 0 <= j < i ==> v@[j] != x,
        decreases v.len() - i,
    {
        if v[i] == x {
            assert(v@[i as int] == x);
            return true;
        }
        i += 1;
    }
    false
}

/// Standard inclusive LCA — a state is its own ancestor.
pub fn lca_inclusive(a: u8, b: u8, parents: &ParentTable) -> (r: u8)
    requires
        parents.wf(),
        (a as int) < parents.parents@.len(),
        (b as int) < parents.parents@.len(),
    ensures
        r == spec_lca(parents.parents@, a, b),
{
    let ghost p = parents.parents@;
    let mut chain: Vec<u8> = Vec::new();
    let mut cur = a;
    while cur != ROOT_SENTINEL
        invariant
            parents_wf(p),
            p == parents.parents@,
            (cur as int) < p.len(),
            chain@ + anc_chain(p, cur) == anc_chain(p, a),
        decreases cur,
    {
        assert(anc_chain(p, cur) == seq![cur] + anc_chain(p, p[cur as int]));
        chain.push(cur);
        cur = parents.parents[cur as usize];
        assert(chain@ + anc_chain(p, cur) =~= anc_chain(p, a));
    }
    chain.push(ROOT_SENTINEL);
    assert(anc_chain(p, 0) == seq![0u8]);
    assert(chain@ =~= anc_chain(p, a));
    let ghost ca = anc_chain(p, a);
    let mut cur = b;
    loop
        invariant
            parents_wf(p),
            p == parents.parents@,
            (cur as int) < p.len(),
            chain@ == ca,
            ca == anc_chain(p, a),
            first_common(anc_chain(p, b), ca) == first_common(anc_chain(p, cur), ca),
        decreases cur,
    {
        let ghost c = anc_chain(p, cur);
        proof {
            lemma_chain_shape(p, cur);
        }
        assert(c[0] == cur);
        if vec_contains(&chain, cur) {
            return cur;
        }
        if cur == ROOT_SENTINEL {
            assert(c.drop_first() =~= Seq::<u8>::empty());
            assert(first_common(c.drop_first(), ca) == 0);
            return ROOT_SENTINEL;
        }
        assert(c.drop_first() =~= anc_chain(p, p[cur as int]));
        cur = parents.parents[cur as usize];
    }
}

/// The effective LCA index of a transition: `lca_inclusive(source,
/// target)`, except that an `External` self-transition lifts to the
/// source's parent so the state is exited and re-entered.
pub fn effective_lca(t: &TransitionObject, index: &StateIndex, parents: &ParentTable) -> (r: u8)
    requires
        tables_fit(index@, parents.parents@),
    ensures
        r == spec_effective_lca(*t, index@, parents.parents@),
        (r as int) < index@.len(),
{
    let source = index.must_lookup(t.source.as_str());
    let target = index.must_lookup(t.target.as_str());
    proof {
        lemma_must_lookup_range(index@, t.source@);
        lemma_must_lookup_range(index@, t.target@);
    }
    let base = lca_inclusive(source, target, parents);
    proof {
        law_lca_is_lowest_common_ancestor(parents.parents@, source, target);
        lemma_chain_shape(parents.parents@, target);
        let cb = anc_chain(parents.parents@, target);
        let k = choose|k: int| 0 <= k < cb.len() && cb[k] == base;
    }
    if t.kind == TransitionKind::External && source == target {
        parents.parents[source as usize]
    } else {
        base
    }
}

/// The ordered exit set (innermost first) of a transition.
pub fn exit_path(t: &TransitionObject, index: &StateIndex, parents: &ParentTable) -> (r: Vec<u8>)
    requires
        tables_fit(index@, parents.parents@),
    ensures
        r@ == spec_exit_path(*t, index@, parents.parents@),
{
    let source = index.must_lookup(t.source.as_str());
    let lca = effective_lca(t, index, parents);
    let mut path: Vec<u8> = Vec::new();
    if t.kind == TransitionKind::Internal {
        return path;
    }
    proof {
        lemma_must_lookup_range(index@, t.source@);
    }
    let ghost p = parents.parents@;
    let mut cur = source;
    while cur != lca && cur != ROOT_SENTINEL
        invariant
            parents_wf(p),
            p == parents.parents@,
            (cur as int) < p.len(),
            path@ + up_path(p, cur, lca) == up_path(p, source, lca),
        decreases cur,
    {
        assert(up_path(p, cur, lca) == seq![cur] + up_path(p, p[cur as int], lca));
        path.push(cur);
        cur = parents.parents[cur as usize];
        assert(path@ + up_path(p, cur, lca) =~= up_path(p, source, lca));
    }
    assert(up_path(p, cur, lca) =~= Seq::<u8>::empty());
    assert(path@ =~= up_path(p, source, lca));
    path
}

/// The ordered entry set (outermost first) of a transition.
pub fn entry_path(t: &TransitionObject, index: &StateIndex, parents: &ParentTable) -> (r: Vec<u8>)
    requires
        tables_fit(index@, parents.parents@),
    ensures
        r@ == spec_entry_path(*t, index@, parents.parents@),
{
    let target = index.must_lookup(t.target.as_str());
    let lca = effective_lca(t, index, parents);
    if t.kind == TransitionKind::Internal {
        return Vec::new();
    }
    proof {
        lemma_must_lookup_range(index@, t.target@);
    }
    let ghost p = parents.parents@;
    let mut chain: Vec<u8> = Vec::new();
    let mut cur = target;
    while cur != lca && cur != ROOT_SENTINEL
        invariant
            parents_wf(p),
            p == parents.parents@,
            (cur as int) < p.len(),
            chain@ + up_path(p, cur, lca) == up_path(p, target, lca),
        decreases cur,
    {
        assert(up_path(p, cur, lca) == seq![cur] + up_path(p, p[cur as int], lca));
        chain.push(cur);
        cur = parents.parents[cur as usize];
        assert(chain@ + up_path(p, cur, lca) =~= up_path(p, target, lca));
    }
    assert(up_path(p, cur, lca) =~= Seq::<u8>::empty());
    assert(chain@ =~= up_path(p, target, lca));
    let mut rev: Vec<u8> = Vec::new();
    let mut k = chain.len();
    while k > 0
        invariant
            k <= chain.len(),
            rev@ == chain@.skip(k as int).reverse(),
        decreases k,
    {
        k -= 1;
        rev.push(chain[k]);
        assert(rev@ =~= chain@.skip(k as int).reverse());
    }
    assert(chain@.skip(0) =~= chain@);
    rev
}


/// The walk from `from` up to (excluding) `stop` or the root, outermost
/// first.
pub fn walk_down(parents: &ParentTable, from: u8, stop: u8) -> (r: Vec<u8>)
    requires
        parents_wf(parents.parents@),
        (from as int) < parents.parents@.len(),
    ensures
        r@ == up_path(parents.parents@, from, stop).reverse(),
{
    let ghost p = parents.parents@;
    let mut chain: Vec<u8> = Vec::new();
    let mut cur = from;
    assert(chain@ + up_path(p, cur, stop) =~= up_path(p, from, stop));
    while cur != stop && cur != ROOT_SENTINEL
        invariant
            parents_wf(p),
            p == parents.parents@,
            (cur as int) < p.len(),
            chain@ + up_path(p, cur, stop) == up_path(p, from, stop),
        decreases cur,
    {
        assert(up_path(p, cur, stop) == seq![cur] + up_path(p, p[cur as int], stop));
        chain.push(cur);
        cur = parents.parents[cur as usize];
        assert(chain@ + up_path(p, cur, stop) =~= up_path(p, from, stop));
    }
    assert(up_path(p, cur, stop) =~= Seq::<u8>::empty());
    assert(chain@ =~= up_path(p, from, stop));
    let mut rev: Vec<u8> = Vec::new();
    let mut k = chain.len();
    while k > 0
        invariant
            k <= chain.len(),
            rev@ == chain@.skip(k as int).reverse(),
        decreases k,
    {
        k -= 1;
        rev.push(chain[k]);
        assert(rev@ =~= chain@.skip(k as int).reverse());
    }
    assert(chain@.skip(0) =~= chain@);
    rev
}


/// Every vertex of an upward walk is in the table.
pub proof fn lemma_up_path_in_range(p: Seq<u8>, cur: u8, stop: u8)
    requires
        parents_wf(p),
        (cur as int) < p.len(),
    ensures
        forall|k: int| 0 <= k < up_path(p, cur, stop).len() ==> (#[trigger] up_path(p, cur, stop)[k] as int) < p.len(),
        forall|k: int| 0 <= k < up_path(p, cur, stop).reverse().len() ==> (#[trigger] up_path(p, cur, stop).reverse()[k] as int) < p.len(),
    decreases cur,
{
    if cur == stop || cur == 0 {
    } else {
        lemma_up_path_in_range(p, p[cur as int], stop);
        assert forall|k: int| 0 <= k < up_path(p, cur, stop).len() implies (#[trigger] up_path(p, cur, stop)[k] as int) < p.len() by {
            if k > 0 {
                assert(up_path(p, cur, stop)[k] == up_path(p, p[cur as int], stop)[k - 1]);
            }
        }
    }
    assert forall|k: int| 0 <= k < up_path(p, cur, stop).reverse().len() implies (#[trigger] up_path(p, cur, stop).reverse()[k] as int) < p.len() by {
        assert(up_path(p, cur, stop).reverse()[k] == up_path(p, cur, stop)[up_path(p, cur, stop).len() - 1 - k]);
    }
}


/// The exit and entry sets hold indices of the table.
pub proof fn lemma_paths_in_range(t: TransitionObject, index: Seq<RecordView>, parents: Seq<u8>)
    requires
        tables_fit(index, parents),
    ensures
        forall|k: int| 0 <= k < spec_exit_path(t, index, parents).len()
            ==> (#[trigger] spec_exit_path(t, index, parents)[k] as int) < index.len(),
        forall|k: int| 0 <= k < spec_entry_path(t, index, parents).len()
            ==> (#[trigger] spec_entry_path(t, index, parents)[k] as int) < index.len(),
{
    lemma_must_lookup_range(index, t.source@);
    lemma_must_lookup_range(index, t.target@);
    let p = parents;
    lemma_up_path_in_range(p, spec_must_lookup(index, t.source@), spec_effective_lca(t, index, p));
    lemma_up_path_in_range(p, spec_must_lookup(index, t.target@), spec_effective_lca(t, index, p));
}


/// Every element of a chain is at most its first.
proof fn lemma_chain_le(p: Seq<u8>, a: u8, x: u8)
    requires
        parents_wf(p),
        (a as int) < p.len(),
        anc_chain(p, a).contains(x),
    ensures
        x <= a,
{
    lemma_chain_shape(p, a);
    let j = choose|j: int| 0 <= j < anc_chain(p, a).len() && anc_chain(p, a)[j] == x;
    if j > 0 {
        lemma_chain_decreasing(p, a, 0, j);
    }
}

/// An upward walk never holds the vertex it stops at.
proof fn lemma_up_path_excludes_stop(p: Seq<u8>, cur: u8, stop: u8)
    ensures
        !up_path(p, cur, stop).contains(stop),
    decreases cur,
{
    if cur == stop || cur == 0 {
    } else if (cur as int) < p.len() && p[cur as int] < cur {
        lemma_up_path_excludes_stop(p, p[cur as int], stop);
        assert(up_path(p, cur, stop) == seq![cur] + up_path(p, p[cur as int], stop));
        if up_path(p, cur, stop).contains(stop) {
            let k = choose|k: int| 0 <= k < up_path(p, cur, stop).len() && up_path(p, cur, stop)[k] == stop;
            assert(k > 0);
            assert(up_path(p, p[cur as int], stop)[k - 1] == stop);
        }
    } else {
    }
}

/// Law: an internal transition exits and enters nothing.
pub proof fn law_internal_keeps_configuration(t: TransitionObject, index: Seq<RecordView>, parents: Seq<u8>)
    requires
        t.kind == TransitionKind::Internal,
    ensures
        spec_exit_path(t, index, parents) == Seq::<u8>::empty(),
        spec_entry_path(t, index, parents) == Seq::<u8>::empty(),
{
}

/// Law: a local transition from a state into its own subtree (or onto
/// itself) does not exit that state and does not re-enter it.
pub proof fn law_local_into_subtree_keeps_source(t: TransitionObject, index: Seq<RecordView>, parents: Seq<u8>)
    requires
        tables_fit(index, parents),
        t.kind == TransitionKind::Local,
        anc_chain(parents, spec_must_lookup(index, t.target@)).contains(spec_must_lookup(index, t.source@)),
    ensures
        spec_exit_path(t, index, parents) == Seq::<u8>::empty(),
        !spec_entry_path(t, index, parents).contains(spec_must_lookup(index, t.source@)),
{
    let p = parents;
    let s = spec_must_lookup(index, t.source@);
    let g = spec_must_lookup(index, t.target@);
    lemma_must_lookup_range(index, t.source@);
    lemma_must_lookup_range(index, t.target@);
    lemma_chain_shape(p, s);
    law_lca_is_lowest_common_ancestor(p, s, g);
    let l = spec_lca(p, s, g);
    assert(anc_chain(p, l).contains(s));
    lemma_chain_le(p, s, l);
    lemma_chain_shape(p, g);
    let k = choose|k: int| 0 <= k < anc_chain(p, g).len() && anc_chain(p, g)[k] == l;
    assert((l as int) < p.len());
    lemma_chain_le(p, l, s);
    assert(l == s);
    assert(spec_effective_lca(t, index, p) == s);
    lemma_up_path_excludes_stop(p, g, s);
    let up = up_path(p, g, s);
    if up.reverse().contains(s) {
        let j = choose|j: int| 0 <= j < up.reverse().len() && up.reverse()[j] == s;
        assert(up[up.len() - 1 - j] == s);
    }
}

} // verus!
