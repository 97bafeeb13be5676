//! The matching engine and the per-tick engine state: selecting the nodes a
//! selector addresses inside a subtree, recording the examined nodes for
//! change tracking, preparing the per-sheet state of one evaluation pass,
//! and deciding when watched changes force a re-match.

use crate::component::StyleSheet;
use crate::selector::{
    elem_eq, selector_weight, spec_segments, ElemV, PseudoClassElement, Selector, SelectorElement,
};
use crate::stylesheet::{RuleV, StyleSheetAsset};
use crate::text::{spec_split_ws, vec_contains_str, vec_contains_u64};
use crate::tree::{wf_nodes, Interaction, NodeV, Tree};
use vstd::prelude::*;
use vstd::string::*;

verus! {

// ---------------------------------------------------------------------------
// Element predicates
// ---------------------------------------------------------------------------

/// Whether the node at index `i` satisfies one selector element: id
/// selectors compare the node's name exactly; class selectors ask the class
/// list; component selectors ask the named tags; the universal selector
/// asks for the node marker; pseudo-classes ask the interaction state, and
/// an unsupported pseudo-class restricts nothing.
pub open spec fn spec_matches_element(t: Seq<NodeV>, i: int, e: ElemV) -> bool {
    match e {
        ElemV::Name(n) => t[i].name == Some(n),
        ElemV::Component(c) => t[i].components.contains(c),
        ElemV::Class(c) => match t[i].class {
            Some(s) => spec_split_ws(s).contains(c),
            None => false,
        },
        ElemV::Any => t[i].ui_node,
        ElemV::Child => false,
        ElemV::PseudoClass(p) => match p {
            PseudoClassElement::Hover => t[i].interaction == Some(Interaction::Hovered),
            PseudoClassElement::Active => t[i].interaction == Some(Interaction::Pressed),
            PseudoClassElement::Unsupported => true,
        },
    }
}

/// Tests one selector element on the node at index `i`.
pub fn node_matches(tree: &Tree, i: usize, e: &SelectorElement) -> (r: bool)
    requires
        i < tree@.len(),
    ensures
        r == spec_matches_element(tree@, i as int, e.deep_view()),
{
    let node = tree.node_at(i);
    match e {
        SelectorElement::Name(n) => match &node.name {
            Some(nm) => crate::text::str_eq(nm.as_str(), n.as_str()),
            None => false,
        },
        SelectorElement::Component(c) => vec_contains_str(&node.components, c.as_str()),
        SelectorElement::Class(c) => match &node.class {
            Some(cl) => cl.matches(c.as_str()),
            None => false,
        },
        SelectorElement::Any => node.ui_node,
        SelectorElement::Child => false,
        SelectorElement::PseudoClass(p) => match p {
            PseudoClassElement::Hover => match node.interaction {
                Some(Interaction::Hovered) => true,
                _ => false,
            },
            PseudoClassElement::Active => match node.interaction {
                Some(Interaction::Pressed) => true,
                _ => false,
            },
            PseudoClassElement::Unsupported => true,
        },
    }
}

// ---------------------------------------------------------------------------
// Descendants
// ---------------------------------------------------------------------------

/// Whether the node at index `i` is a strict descendant of the node at
/// index `a`, following parent links.
pub open spec fn is_strict_desc(t: Seq<NodeV>, i: int, a: int) -> bool
    decreases i,
        when wf_nodes(t) && 0 <= i < t.len()
{
    match t[i].parent {
        Some(p) => p == a || is_strict_desc(t, p, a),
        None => false,
    }
}

/// Tests descent by walking the parent chain.
pub fn is_strict_desc_exec(tree: &Tree, i: usize, a: usize) -> (r: bool)
    requires
        tree.wf(),
        i < tree@.len(),
    ensures
        r == is_strict_desc(tree@, i as int, a as int),
{
    let mut cur = i;
    loop
        invariant
            tree.wf(),
            cur < tree@.len(),
            is_strict_desc(tree@, i as int, a as int) == is_strict_desc(
                tree@,
                cur as int,
                a as int,
            ),
        decreases cur,
    {
        match tree.node_at(cur).parent {
            Some(p) => {
                if p == a {
                    return true;
                }
                cur = p;
            },
            None => {
                return false;
            },
        }
    }
}

/// Every pool index stays below `n`.
pub open spec fn pool_in_bounds(pool: Seq<usize>, n: nat) -> bool {
    forall|q: int| 0 <= q < pool.len() ==> (#[trigger] pool[q]) < n
}

/// The indices below `n` that are the root or its strict descendants, in
/// ascending order.
pub open spec fn initial_pool_upto(t: Seq<NodeV>, root: int, n: nat) -> Seq<usize>
    decreases n,
{
    if n == 0 {
        Seq::empty()
    } else {
        let rest = initial_pool_upto(t, root, (n - 1) as nat);
        if n - 1 == root || is_strict_desc(t, n - 1, root) {
            rest.push((n - 1) as usize)
        } else {
            rest
        }
    }
}

/// The initial candidate pool of a selection: the root and all its strict
/// descendants, in ascending index order.
pub open spec fn spec_initial_pool(t: Seq<NodeV>, root: int) -> Seq<usize> {
    initial_pool_upto(t, root, t.len())
}

/// Builds the initial candidate pool for the given root.
pub fn initial_pool(tree: &Tree, root: usize) -> (r: Vec<usize>)
    requires
        tree.wf(),
        root < tree@.len(),
    ensures
        r@ == spec_initial_pool(tree@, root as int),
        pool_in_bounds(r@, tree@.len()),
{
    let n = tree.len();
    let mut pool: Vec<usize> = Vec::new();
    let mut i: usize = 0;
    proof {
        assert(pool@ =~= initial_pool_upto(tree@, root as int, 0));
    }
    while i < n
        invariant
            i <= n,
            n == tree@.len(),
            tree.wf(),
            root < tree@.len(),
            pool@ == initial_pool_upto(tree@, root as int, i as nat),
            pool_in_bounds(pool@, tree@.len()),
        decreases n - i,
    {
        if i == root || is_strict_desc_exec(tree, i, root) {
            pool.push(i);
        }
        i = i + 1;
    }
    pool
}

/// Whether some node of `pool` is a strict ancestor of the node at `i`.
pub open spec fn has_ancestor_in(t: Seq<NodeV>, i: int, pool: Seq<usize>) -> bool {
    exists|q: int| 0 <= q < pool.len() && is_strict_desc(t, i, (#[trigger] pool[q]) as int)
}

/// Tests whether any pool node is a strict ancestor of the node at `i`.
fn has_ancestor_in_exec(tree: &Tree, i: usize, pool: &Vec<usize>) -> (r: bool)
    requires
        tree.wf(),
        i < tree@.len(),
    ensures
        r == has_ancestor_in(tree@, i as int, pool@),
{
    let mut q: usize = 0;
    while q < pool.len()
        invariant
            q <= pool.len(),
            tree.wf(),
            i < tree@.len(),
            forall|j: int|
                0 <= j < q ==> !is_strict_desc(tree@, i as int, (#[trigger] pool@[j]) as int),
        decreases pool.len() - q,
    {
        if is_strict_desc_exec(tree, i, pool[q]) {
            proof {
                assert(has_ancestor_in(tree@, i as int, pool@)) by {
                    assert(0 <= q < pool@.len() && is_strict_desc(
                        tree@,
                        i as int,
                        pool@[q as int] as int,
                    ));
                }
            }
            return true;
        }
        q = q + 1;
    }
    proof {
        if has_ancestor_in(tree@, i as int, pool@) {
            let j = choose|j: int|
                0 <= j < pool@.len() && is_strict_desc(tree@, i as int, pool@[j] as int);
            assert(false);
        }
    }
    false
}

/// The indices below `n` with a strict ancestor in `pool`, ascending.
pub open spec fn desc_pool_upto(t: Seq<NodeV>, pool: Seq<usize>, n: nat) -> Seq<usize>
    decreases n,
{
    if n == 0 {
        Seq::empty()
    } else {
        let rest = desc_pool_upto(t, pool, (n - 1) as nat);
        if has_ancestor_in(t, n - 1, pool) {
            rest.push((n - 1) as usize)
        } else {
            rest
        }
    }
}

/// The next candidate pool after a non-final segment: the strict
/// descendants of the surviving nodes, in ascending index order.
pub open spec fn spec_desc_pool(t: Seq<NodeV>, pool: Seq<usize>) -> Seq<usize> {
    desc_pool_upto(t, pool, t.len())
}

/// Builds the pool of strict descendants of the surviving nodes.
fn desc_pool(tree: &Tree, pool: &Vec<usize>) -> (r: Vec<usize>)
    requires
        tree.wf(),
    ensures
        r@ == spec_desc_pool(tree@, pool@),
        pool_in_bounds(r@, tree@.len()),
{
    let n = tree.len();
    let mut out: Vec<usize> = Vec::new();
    let mut i: usize = 0;
    proof {
        assert(out@ =~= desc_pool_upto(tree@, pool@, 0));
    }
    while i < n
        invariant
            i <= n,
            n == tree@.len(),
            tree.wf(),
            out@ == desc_pool_upto(tree@, pool@, i as nat),
            pool_in_bounds(out@, tree@.len()),
        decreases n - i,
    {
        if has_ancestor_in_exec(tree, i, pool) {
            out.push(i);
        }
        i = i + 1;
    }
    out
}

// ---------------------------------------------------------------------------
// Pool filtering
// ---------------------------------------------------------------------------

/// The pool nodes that satisfy one element, in pool order.
pub open spec fn spec_filter_pool(t: Seq<NodeV>, pool: Seq<usize>, e: ElemV) -> Seq<usize>
    decreases pool.len(),
{
    if pool.len() == 0 {
        Seq::empty()
    } else {
        let rest = spec_filter_pool(t, pool.drop_last(), e);
        if spec_matches_element(t, pool.last() as int, e) {
            rest.push(pool.last())
        } else {
            rest
        }
    }
}

/// Filters a pool by one element.
fn filter_pool(tree: &Tree, pool: &Vec<usize>, e: &SelectorElement) -> (r: Vec<usize>)
    requires
        pool_in_bounds(pool@, tree@.len()),
    ensures
        r@ == spec_filter_pool(tree@, pool@, e.deep_view()),
        pool_in_bounds(r@, tree@.len()),
{
    let mut out: Vec<usize> = Vec::new();
    let mut k: usize = 0;
    proof {
        assert(pool@.subrange(0, 0) =~= Seq::<usize>::empty());
        assert(out@ =~= spec_filter_pool(tree@, pool@.subrange(0, 0), e.deep_view()));
    }
    while k < pool.len()
        invariant
            k <= pool.len(),
            pool_in_bounds(pool@, tree@.len()),
            out@ == spec_filter_pool(tree@, pool@.subrange(0, k as int), e.deep_view()),
            pool_in_bounds(out@, tree@.len()),
        decreases pool.len() - k,
    {
        proof {
            assert(pool@.subrange(0, (k + 1) as int).drop_last() =~= pool@.subrange(0, k as int));
            assert(pool@.subrange(0, (k + 1) as int).last() == pool@[k as int]);
        }
        if node_matches(tree, pool[k], e) {
            out.push(pool[k]);
        }
        k = k + 1;
    }
    proof {
        assert(pool@.subrange(0, pool@.len() as int) =~= pool@);
    }
    out
}

/// The host identifiers of the pool nodes, in pool order.
pub open spec fn ids_of(t: Seq<NodeV>, pool: Seq<usize>) -> Seq<u64>
    decreases pool.len(),
{
    if pool.len() == 0 {
        Seq::empty()
    } else {
        ids_of(t, pool.drop_last()).push(t[pool.last() as int].id)
    }
}

/// Reads the host identifiers of the pool nodes.
fn ids_of_exec(tree: &Tree, pool: &Vec<usize>) -> (r: Vec<u64>)
    requires
        pool_in_bounds(pool@, tree@.len()),
    ensures
        r@ == ids_of(tree@, pool@),
{
    let mut out: Vec<u64> = Vec::new();
    let mut k: usize = 0;
    proof {
        assert(pool@.subrange(0, 0) =~= Seq::<usize>::empty());
        assert(out@ =~= ids_of(tree@, pool@.subrange(0, 0)));
    }
    while k < pool.len()
        invariant
            k <= pool.len(),
            pool_in_bounds(pool@, tree@.len()),
            out@ == ids_of(tree@, pool@.subrange(0, k as int)),
        decreases pool.len() - k,
    {
        proof {
            assert(pool@.subrange(0, (k + 1) as int).drop_last() =~= pool@.subrange(0, k as int));
            assert(pool@.subrange(0, (k + 1) as int).last() == pool@[k as int]);
        }
        out.push(tree.node_at(pool[k]).id);
        k = k + 1;
    }
    proof {
        assert(pool@.subrange(0, pool@.len() as int) =~= pool@);
    }
    out
}

// ---------------------------------------------------------------------------
// Tracked entities
// ---------------------------------------------------------------------------

/// The mathematical shape of the watched-entities table: element by
/// element, the identifiers examined for it, in recording order.
pub type TrackedV = Seq<(ElemV, Seq<u64>)>;

/// The table after recording `ids` for `e`: nothing when `ids` is empty,
/// else the ids are appended to the element's entry, or a new entry is
/// added at the end.
pub open spec fn track_add(tr: TrackedV, e: ElemV, ids: Seq<u64>) -> TrackedV
    decreases tr.len(),
{
    if ids.len() == 0 {
        tr
    } else if tr.len() == 0 {
        seq![(e, ids)]
    } else if tr[0].0 == e {
        seq![(e, tr[0].1 + ids)] + tr.drop_first()
    } else {
        seq![tr[0]] + track_add(tr.drop_first(), e, ids)
    }
}

/// The identifiers one element evaluation records: interaction
/// pseudo-classes record every examined node, an unsupported pseudo-class
/// records nothing, and every other element records the nodes it matched.
pub open spec fn elem_matched_ids(t: Seq<NodeV>, pool: Seq<usize>, e: ElemV) -> Seq<u64> {
    match e {
        ElemV::PseudoClass(p) => match p {
            PseudoClassElement::Hover => ids_of(t, pool),
            PseudoClassElement::Active => ids_of(t, pool),
            PseudoClassElement::Unsupported => Seq::empty(),
        },
        _ => ids_of(t, spec_filter_pool(t, pool, e)),
    }
}

/// The per-element table of examined node identifiers, kept across ticks so
/// the change-tracking pass can ask cheaply whether anything relevant
/// changed.
#[derive(Debug)]
pub struct TrackedEntities {
    entries: Vec<(SelectorElement, Vec<u64>)>,
}

impl View for TrackedEntities {
    type V = TrackedV;

    closed spec fn view(&self) -> TrackedV {
        self.entries.deep_view()
    }
}

impl TrackedEntities {
    /// Creates an empty table.
    pub fn new() -> (r: TrackedEntities)
        ensures
            r@ == Seq::<(ElemV, Seq<u64>)>::empty(),
    {
        let r = TrackedEntities { entries: Vec::new() };
        proof {
            assert(r@ =~= Seq::<(ElemV, Seq<u64>)>::empty());
        }
        r
    }

    /// How many elements have recorded entries.
    pub fn len(&self) -> (r: usize)
        ensures
            r == self@.len(),
    {
        self.entries.len()
    }

    /// Reads the entry at the given position.
    pub fn entry_at(&self, i: usize) -> (r: (&SelectorElement, &Vec<u64>))
        requires
            i < self@.len(),
        ensures
            (r.0.deep_view(), r.1.deep_view()) == self@[i as int],
    {
        let e = &self.entries[i];
        (&e.0, &e.1)
    }

    /// Records the identifiers examined for one element; an empty list
    /// records nothing.
    #[verifier::loop_isolation(false)]
    pub fn record(&mut self, element: &SelectorElement, ids: Vec<u64>)
        ensures
            final(self)@ == track_add(old(self)@, element.deep_view(), ids@),
    {
        if ids.len() == 0 {
            return ;
        }
        let ghost pre = self@;
        let ghost ev = element.deep_view();
        let ghost idsv = ids@;
        let n = self.entries.len();
        let mut j: usize = 0;
        while j < n
            invariant
                n == self.entries.len(),
                j <= n,
                self@ == pre,
                forall|k: int| 0 <= k < j ==> pre[k].0 != ev,
            decreases n - j,
        {
            if elem_eq(&self.entries[j].0, element) {
                let ghost pe = self.entries@;
                let mut entry = self.entries.remove(j);
                let mut rest = ids;
                entry.1.append(&mut rest);
                self.entries.insert(j, entry);
                proof {
                    assert(pre[j as int].0 == ev);
                    lemma_track_add_at(pre, j as int, ev, idsv);
                    assert(self.entries@ =~= pe.update(j as int, self.entries@[j as int]));
                    assert(self.entries@[j as int].deep_view() == (ev, pre[j as int].1 + idsv));
                    let target = pre.subrange(0, j as int) + seq![(ev, pre[j as int].1 + idsv)]
                        + pre.subrange(j + 1, pre.len() as int);
                    assert forall|k: int| 0 <= k < pre.len() implies self@[k] == target[k] by {
                        if k < j {
                            assert(self.entries@[k] == pe[k]);
                        } else if k > j {
                            assert(self.entries@[k] == pe[k]);
                        }
                    }
                    assert(self@ =~= target);
                }
                return ;
            }
            j = j + 1;
        }
        let ghost pe = self.entries@;
        self.entries.push((element.clone(), ids));
        proof {
            lemma_track_add_fresh(pre, ev, idsv);
            assert(self.entries@[pe.len() as int].deep_view() == (ev, idsv));
            assert forall|k: int| 0 <= k < self@.len() implies self@[k] == pre.push(
                (ev, idsv),
            )[k] by {
                if k < pre.len() {
                    assert(self.entries@[k] == pe[k]);
                }
            }
            assert(self@ =~= pre.push((ev, idsv)));
        }
    }
}

/// Appending to the entry at position `j` is what [`track_add`] does when
/// the earlier entries concern other elements.
proof fn lemma_track_add_at(tr: TrackedV, j: int, e: ElemV, ids: Seq<u64>)
    requires
        ids.len() > 0,
        0 <= j < tr.len(),
        tr[j].0 == e,
        forall|k: int| 0 <= k < j ==> tr[k].0 != e,
    ensures
        track_add(tr, e, ids) == tr.subrange(0, j) + seq![(e, tr[j].1 + ids)] + tr.subrange(
            j + 1,
            tr.len() as int,
        ),
    decreases j,
{
    if j == 0 {
        assert(track_add(tr, e, ids) =~= tr.subrange(0, 0) + seq![(e, tr[0].1 + ids)]
            + tr.subrange(1, tr.len() as int));
    } else {
        lemma_track_add_at(tr.drop_first(), j - 1, e, ids);
        assert(tr.drop_first().subrange(0, j - 1) =~= tr.subrange(1, j));
        assert(tr.drop_first().subrange(j, tr.len() - 1) =~= tr.subrange(j + 1, tr.len() as int));
        assert(tr.drop_first()[j - 1] == tr[j]);
        assert(track_add(tr, e, ids) =~= tr.subrange(0, j) + seq![(e, tr[j].1 + ids)]
            + tr.subrange(j + 1, tr.len() as int));
    }
}

/// Appending a new entry is what [`track_add`] does when no entry concerns
/// the element yet.
proof fn lemma_track_add_fresh(tr: TrackedV, e: ElemV, ids: Seq<u64>)
    requires
        ids.len() > 0,
        forall|k: int| 0 <= k < tr.len() ==> (#[trigger] tr[k]).0 != e,
    ensures
        track_add(tr, e, ids) == tr.push((e, ids)),
    decreases tr.len(),
{
    if tr.len() == 0 {
        assert(track_add(tr, e, ids) =~= tr.push((e, ids)));
    } else {
        assert(forall|k: int|
            0 <= k < tr.drop_first().len() ==> (#[trigger] tr.drop_first()[k]).0 != e);
        lemma_track_add_fresh(tr.drop_first(), e, ids);
        assert(track_add(tr, e, ids) =~= tr.push((e, ids)));
    }
}

// ---------------------------------------------------------------------------
// Selection
// ---------------------------------------------------------------------------

/// The pool after filtering by the elements of one segment from position
/// `m` on: a node survives only if it satisfies every element.
pub open spec fn spec_filter_segment(t: Seq<NodeV>, pool: Seq<usize>, seg: Seq<ElemV>, m: nat) -> Seq<
    usize,
>
    decreases seg.len() - m,
{
    if m >= seg.len() {
        pool
    } else {
        spec_filter_segment(t, spec_filter_pool(t, pool, seg[m as int]), seg, m + 1)
    }
}

/// The nodes a selector's segments select from the pool, taking segments
/// from position `k` on: each segment filters the pool, and between
/// segments the pool narrows to the survivors' strict descendants. With no
/// segments nothing is selected.
pub open spec fn spec_select_segments(
    t: Seq<NodeV>,
    pool: Seq<usize>,
    segs: Seq<Seq<ElemV>>,
    k: nat,
) -> Seq<usize>
    decreases segs.len() - k,
{
    if k >= segs.len() {
        Seq::empty()
    } else {
        let f = spec_filter_segment(t, pool, segs[k as int], 0);
        if k == segs.len() - 1 {
            f
        } else {
            spec_select_segments(t, spec_desc_pool(t, f), segs, k + 1)
        }
    }
}

/// The node indices a selector addresses inside the subtree of `root`.
pub open spec fn spec_select(t: Seq<NodeV>, root: int, elems: Seq<ElemV>) -> Seq<usize> {
    spec_select_segments(t, spec_initial_pool(t, root), spec_segments(elems), 0)
}

/// The watched-entities table after one segment's elements, from position
/// `m` on, starting from pool `pool` and table `tr`.
pub open spec fn track_segment(
    t: Seq<NodeV>,
    pool: Seq<usize>,
    seg: Seq<ElemV>,
    m: nat,
    tr: TrackedV,
) -> TrackedV
    decreases seg.len() - m,
{
    if m >= seg.len() {
        tr
    } else {
        track_segment(
            t,
            spec_filter_pool(t, pool, seg[m as int]),
            seg,
            m + 1,
            track_add(tr, seg[m as int], elem_matched_ids(t, pool, seg[m as int])),
        )
    }
}

/// The watched-entities table after all segments from position `k` on.
pub open spec fn track_segments(
    t: Seq<NodeV>,
    pool: Seq<usize>,
    segs: Seq<Seq<ElemV>>,
    k: nat,
    tr: TrackedV,
) -> TrackedV
    decreases segs.len() - k,
{
    if k >= segs.len() {
        tr
    } else {
        let tr2 = track_segment(t, pool, segs[k as int], 0, tr);
        let f = spec_filter_segment(t, pool, segs[k as int], 0);
        if k == segs.len() - 1 {
            tr2
        } else {
            track_segments(t, spec_desc_pool(t, f), segs, k + 1, tr2)
        }
    }
}

/// The watched-entities table a selection leaves behind, starting from
/// `tr0`.
pub open spec fn spec_track(t: Seq<NodeV>, root: int, elems: Seq<ElemV>, tr0: TrackedV) -> TrackedV {
    track_segments(t, spec_initial_pool(t, root), spec_segments(elems), 0, tr0)
}

/// Selects all nodes inside the subtree of `root` (the root included) that
/// the selector addresses, and records in `watched` which nodes each
/// selector element examined. Returns the matched nodes' host identifiers
/// in ascending tree order.
#[verifier::loop_isolation(false)]
pub fn select_entities(tree: &Tree, root: usize, selector: &Selector, watched: &mut TrackedEntities) -> (r:
    Vec<u64>)
    requires
        tree.wf(),
        root < tree@.len(),
    ensures
        r@ == ids_of(tree@, spec_select(tree@, root as int, selector@)),
        final(watched)@ == spec_track(tree@, root as int, selector@, old(watched)@),
{
    let ghost t = tree@;
    let ghost segs = spec_segments(selector@);
    let ghost full_select = spec_select(t, root as int, selector@);
    let ghost full_track = spec_track(t, root as int, selector@, old(watched)@);
    let segments = selector.get_parent_tree();
    let mut pool = initial_pool(tree, root);
    let mut k: usize = 0;
    if segments.len() == 0 {
        proof {
            assert(full_select =~= Seq::<usize>::empty());
            assert(ids_of(t, full_select) =~= Seq::<u64>::empty());
        }
        let r: Vec<u64> = Vec::new();
        proof {
            assert(r@ =~= Seq::<u64>::empty());
        }
        return r;
    }
    loop
        invariant
            tree.wf(),
            t == tree@,
            segs == spec_segments(selector@),
            segments.deep_view() == segs,
            segments@.len() == segs.len(),
            k < segs.len(),
            pool_in_bounds(pool@, t.len()),
            spec_select_segments(t, pool@, segs, k as nat) == full_select,
            track_segments(t, pool@, segs, k as nat, watched@) == full_track,
        decreases segs.len() - k,
    {
        let seg = &segments[k];
        let ghost segv = segs[k as int];
        let ghost seg_pool = pool@;
        let ghost seg_tracked = watched@;
        let mut m: usize = 0;
        proof {
            assert(segments@[k as int].deep_view() == segv);
        }
        while m < seg.len()
            invariant
                tree.wf(),
                t == tree@,
                m <= seg@.len(),
                seg.deep_view() == segv,
                seg@.len() == segv.len(),
                pool_in_bounds(pool@, t.len()),
                spec_filter_segment(t, pool@, segv, m as nat) == spec_filter_segment(
                    t,
                    seg_pool,
                    segv,
                    0,
                ),
                track_segment(t, pool@, segv, m as nat, watched@) == track_segment(
                    t,
                    seg_pool,
                    segv,
                    0,
                    seg_tracked,
                ),
            decreases seg@.len() - m,
        {
            let element = &seg[m];
            proof {
                assert(seg@[m as int].deep_view() == segv[m as int]);
            }
            let filtered = filter_pool(tree, &pool, element);
            let ids: Vec<u64> = match element {
                SelectorElement::PseudoClass(p) => match p {
                    PseudoClassElement::Hover => ids_of_exec(tree, &pool),
                    PseudoClassElement::Active => ids_of_exec(tree, &pool),
                    PseudoClassElement::Unsupported => Vec::new(),
                },
                _ => ids_of_exec(tree, &filtered),
            };
            proof {
                assert(ids@ == elem_matched_ids(t, pool@, segv[m as int])) by {
                    if ids@.len() == 0 {
                        assert(ids@ =~= Seq::<u64>::empty());
                    }
                }
            }
            watched.record(element, ids);
            pool = filtered;
            m = m + 1;
        }
        if k == segments.len() - 1 {
            proof {
                assert(spec_filter_segment(t, pool@, segv, segv.len()) == pool@);
                assert(track_segment(t, pool@, segv, segv.len(), watched@) == watched@);
            }
            return ids_of_exec(tree, &pool);
        }
        proof {
            assert(spec_filter_segment(t, pool@, segv, segv.len()) == pool@);
            assert(track_segment(t, pool@, segv, segv.len(), watched@) == watched@);
        }
        pool = desc_pool(tree, &pool);
        k = k + 1;
    }
}

// ---------------------------------------------------------------------------
// Selected entities
// ---------------------------------------------------------------------------

/// The mathematical shape of a selection result: selector by selector, the
/// matched node identifiers, in ascending specificity order.
pub type SelectedV = Seq<(Seq<ElemV>, Seq<u64>)>;

/// The selection list after adding one entry: it is placed after every
/// entry of smaller or equal specificity weight and before every entry of
/// greater weight, so equal weights keep their insertion order.
pub open spec fn insert_by_weight(s: SelectedV, item: (Seq<ElemV>, Seq<u64>)) -> SelectedV
    decreases s.len(),
{
    if s.len() == 0 {
        seq![item]
    } else if selector_weight(s.last().0) <= selector_weight(item.0) {
        s.push(item)
    } else {
        insert_by_weight(s.drop_last(), item).push(s.last())
    }
}

/// Entries stand in ascending specificity-weight order.
pub open spec fn weight_sorted(s: SelectedV) -> bool {
    forall|i: int, j: int|
        0 <= i < j < s.len() ==> selector_weight((#[trigger] s[i]).0) <= selector_weight(
            (#[trigger] s[j]).0,
        )
}

/// Inserting keeps the list sorted by weight.
pub proof fn lemma_insert_by_weight_sorted(s: SelectedV, item: (Seq<ElemV>, Seq<u64>))
    requires
        weight_sorted(s),
    ensures
        weight_sorted(insert_by_weight(s, item)),
    decreases s.len(),
{
    if s.len() == 0 {
    } else if selector_weight(s.last().0) <= selector_weight(item.0) {
        let r = s.push(item);
        assert forall|i: int, j: int| 0 <= i < j < r.len() implies selector_weight(
            (#[trigger] r[i]).0,
        ) <= selector_weight((#[trigger] r[j]).0) by {
            if j < s.len() {
                assert(r[i] == s[i] && r[j] == s[j]);
            } else {
                if i < s.len() - 1 {
                    assert(selector_weight(s[i].0) <= selector_weight(s[s.len() - 1].0));
                }
            }
        }
    } else {
        assert(weight_sorted(s.drop_last())) by {
            assert(forall|i: int, j: int|
                0 <= i < j < s.drop_last().len() ==> selector_weight(
                    (#[trigger] s.drop_last()[i]).0,
                ) <= selector_weight((#[trigger] s.drop_last()[j]).0));
        }
        lemma_insert_by_weight_sorted(s.drop_last(), item);
        let rr = insert_by_weight(s.drop_last(), item);
        let r = rr.push(s.last());
        lemma_insert_by_weight_members(s.drop_last(), item);
        assert forall|i: int, j: int| 0 <= i < j < r.len() implies selector_weight(
            (#[trigger] r[i]).0,
        ) <= selector_weight((#[trigger] r[j]).0) by {
            if j < rr.len() {
                assert(r[i] == rr[i] && r[j] == rr[j]);
            } else {
                assert(r[j] == s.last());
                assert(r[i] == rr[i]);
                assert(rr[i] == item || exists|k: int|
                    0 <= k < s.drop_last().len() && rr[i] == (#[trigger] s.drop_last()[k]));
                if rr[i] != item {
                    let k = choose|k: int|
                        0 <= k < s.drop_last().len() && rr[i] == (#[trigger] s.drop_last()[k]);
                    assert(selector_weight(s[k].0) <= selector_weight(s.last().0));
                }
            }
        }
    }
}

/// Every entry of the inserted list is the new item or one of the old
/// entries.
proof fn lemma_insert_by_weight_members(s: SelectedV, item: (Seq<ElemV>, Seq<u64>))
    ensures
        forall|i: int|
            0 <= i < insert_by_weight(s, item).len() ==> ((#[trigger] insert_by_weight(s, item)[i])
                == item || exists|k: int|
                0 <= k < s.len() && insert_by_weight(s, item)[i] == (#[trigger] s[k])),
    decreases s.len(),
{
    if s.len() == 0 {
    } else if selector_weight(s.last().0) <= selector_weight(item.0) {
        let r = s.push(item);
        assert forall|i: int| 0 <= i < r.len() implies ((#[trigger] r[i]) == item || exists|k: int|
            0 <= k < s.len() && r[i] == (#[trigger] s[k])) by {
            if i < s.len() {
                assert(r[i] == s[i]);
            }
        }
    } else {
        lemma_insert_by_weight_members(s.drop_last(), item);
        let rr = insert_by_weight(s.drop_last(), item);
        let r = rr.push(s.last());
        assert forall|i: int| 0 <= i < r.len() implies ((#[trigger] r[i]) == item || exists|k: int|
            0 <= k < s.len() && r[i] == (#[trigger] s[k])) by {
            if i < rr.len() {
                assert(r[i] == rr[i]);
                if rr[i] != item {
                    let k = choose|k: int|
                        0 <= k < s.drop_last().len() && rr[i] == (#[trigger] s.drop_last()[k]);
                    assert(r[i] == s[k]);
                }
            } else {
                assert(r[i] == s[s.len() - 1]);
            }
        }
    }
}

/// The per-selector matched node sets of one stylesheet on one subtree,
/// kept in ascending specificity order so that later application lets more
/// specific rules win.
#[derive(Debug)]
pub struct SelectedEntities {
    entries: Vec<(Selector, Vec<u64>)>,
}

impl View for SelectedEntities {
    type V = SelectedV;

    closed spec fn view(&self) -> SelectedV {
        self.entries.deep_view()
    }
}

impl DeepView for SelectedEntities {
    type V = SelectedV;

    open spec fn deep_view(&self) -> SelectedV {
        self.view()
    }
}

impl DeepView for TrackedEntities {
    type V = TrackedV;

    open spec fn deep_view(&self) -> TrackedV {
        self.view()
    }
}

impl SelectedEntities {
    /// Whether the selector stored at position `i` is well-formed.
    pub closed spec fn sel_wf(&self, i: int) -> bool {
        0 <= i < self.entries.len() && self.entries[i].0.wf()
    }

    /// A well-formed selection list: every stored selector's frozen hash
    /// and weight agree with its elements.
    pub open spec fn wf(&self) -> bool {
        forall|i: int| 0 <= i < self@.len() ==> (#[trigger] self.sel_wf(i))
    }

    /// Creates an empty selection list.
    pub fn new() -> (r: SelectedEntities)
        ensures
            r@ == Seq::<(Seq<ElemV>, Seq<u64>)>::empty(),
            r.wf(),
    {
        let r = SelectedEntities { entries: Vec::new() };
        proof {
            assert(r@ =~= Seq::<(Seq<ElemV>, Seq<u64>)>::empty());
        }
        r
    }

    /// How many selectors have matched sets.
    pub fn len(&self) -> (r: usize)
        ensures
            r == self@.len(),
    {
        self.entries.len()
    }

    /// Reads the entry at the given position.
    pub fn entry_at(&self, i: usize) -> (r: (&Selector, &Vec<u64>))
        requires
            i < self@.len(),
        ensures
            (r.0@, r.1@) == self@[i as int],
            self.wf() ==> r.0.wf(),
    {
        proof {
            if self.wf() {
                assert(self.sel_wf(i as int));
            }
        }
        let e = &self.entries[i];
        (&e.0, &e.1)
    }

    /// Adds one selector's matched set, keeping ascending specificity
    /// order; among equal weights, earlier insertions stay first.
    #[verifier::loop_isolation(false)]
    pub fn push_sorted(&mut self, selector: Selector, ids: Vec<u64>)
        requires
            selector.wf(),
            old(self).wf(),
        ensures
            final(self)@ == insert_by_weight(old(self)@, (selector@, ids@)),
            final(self).wf(),
    {
        let ghost pre = self@;
        let ghost item = (selector@, ids@);
        let w = selector.weight();
        let mut k = self.entries.len();
        while k > 0
            invariant
                k <= self.entries.len(),
                self@ == pre,
                forall|j: int|
                    k <= j < pre.len() ==> selector_weight((#[trigger] pre[j]).0)
                        > selector_weight(item.0),
            decreases k,
        {
            proof {
                assert(self.sel_wf(k - 1));
            }
            let stop = self.entries[k - 1].0.weight() <= w;
            if stop {
                break ;
            }
            k = k - 1;
        }
        proof {
            if k > 0 {
                assert(self.sel_wf(k - 1));
                assert(selector_weight(pre[k - 1].0) <= selector_weight(item.0));
            }
        }
        let ghost pe = self.entries@;
        self.entries.insert(k, (selector, ids));
        proof {
            lemma_insert_by_weight_at(pre, k as int, item);
            assert(self.entries@[k as int].deep_view() == item);
            assert forall|i: int| 0 <= i < self@.len() implies self@[i] == (pre.subrange(0, k as int)
                + seq![item] + pre.subrange(k as int, pre.len() as int))[i] by {
                if i < k {
                    assert(self.entries@[i] == pe[i]);
                } else if i > k {
                    assert(self.entries@[i] == pe[i - 1]);
                }
            }
            assert(self@ =~= pre.subrange(0, k as int) + seq![item] + pre.subrange(
                k as int,
                pre.len() as int,
            ));
            assert forall|i: int| 0 <= i < self@.len() implies #[trigger] self.sel_wf(i) by {
                if i < k {
                    assert(old(self).sel_wf(i));
                    assert(self.entries@[i] == pe[i]);
                } else if i > k {
                    assert(old(self).sel_wf(i - 1));
                    assert(self.entries@[i] == pe[i - 1]);
                }
            }
        }
    }
}

/// The frozen content hash a well-formed selector with these elements
/// carries.
pub open spec fn selector_hash_of(elems: Seq<ElemV>) -> u64 {
    crate::selector::selector_hash(elems)
}

/// Placing the new entry at position `k` — after every entry of smaller or
/// equal weight and before every entry of greater weight — is what
/// [`insert_by_weight`] computes.
proof fn lemma_insert_by_weight_at(s: SelectedV, k: int, item: (Seq<ElemV>, Seq<u64>))
    requires
        0 <= k <= s.len(),
        forall|j: int|
            k <= j < s.len() ==> selector_weight((#[trigger] s[j]).0) > selector_weight(item.0),
        k > 0 ==> selector_weight(s[k - 1].0) <= selector_weight(item.0),
    ensures
        insert_by_weight(s, item) == s.subrange(0, k) + seq![item] + s.subrange(k, s.len() as int),
    decreases s.len(),
{
    if s.len() == 0 {
        assert(insert_by_weight(s, item) =~= s.subrange(0, 0) + seq![item] + s.subrange(0, 0));
    } else if selector_weight(s.last().0) <= selector_weight(item.0) {
        assert(k == s.len());
        assert(insert_by_weight(s, item) =~= s.subrange(0, k) + seq![item] + s.subrange(
            k,
            s.len() as int,
        ));
    } else {
        assert(k < s.len());
        assert(forall|j: int|
            k <= j < s.drop_last().len() ==> selector_weight((#[trigger] s.drop_last()[j]).0)
                > selector_weight(item.0));
        if k > 0 {
            assert(s.drop_last()[k - 1] == s[k - 1]);
        }
        lemma_insert_by_weight_at(s.drop_last(), k, item);
        assert(s.drop_last().subrange(0, k) =~= s.subrange(0, k));
        assert(s.drop_last().subrange(k, s.len() - 1) =~= s.subrange(k, s.len() - 1));
        assert(insert_by_weight(s, item) =~= s.subrange(0, k) + seq![item] + s.subrange(
            k,
            s.len() as int,
        ));
    }
}

// ---------------------------------------------------------------------------
// Engine state
// ---------------------------------------------------------------------------

/// The mathematical shape of one state entry: a sheet's asset id, the
/// tracked-entities table its matching pass left behind, and the per-
/// selector matched sets in ascending specificity order.
pub type StateEntryV = (u64, TrackedV, SelectedV);

/// The working state of one evaluation pass: one entry per (styled root,
/// referenced sheet) pair. Matched sets are cleared every tick once
/// consumed; tracked tables persist so the change-tracking pass can watch
/// them.
#[derive(Debug)]
pub struct StyleSheetState {
    entries: Vec<(u64, TrackedEntities, SelectedEntities)>,
}

impl View for StyleSheetState {
    type V = Seq<StateEntryV>;

    closed spec fn view(&self) -> Seq<StateEntryV> {
        self.entries.deep_view()
    }
}

impl StyleSheetState {
    /// Whether the selection list at position `i` is well-formed.
    pub closed spec fn entry_wf(&self, i: int) -> bool {
        0 <= i < self.entries.len() && self.entries[i].2.wf()
    }

    /// A well-formed state: every stored selector is well-formed.
    pub open spec fn wf(&self) -> bool {
        forall|i: int| 0 <= i < self@.len() ==> (#[trigger] self.entry_wf(i))
    }

    /// Creates an empty state.
    pub fn new() -> (r: StyleSheetState)
        ensures
            r@ == Seq::<StateEntryV>::empty(),
            r.wf(),
    {
        let r = StyleSheetState { entries: Vec::new() };
        proof {
            assert(r@ =~= Seq::<StateEntryV>::empty());
        }
        r
    }

    /// How many (root, sheet) entries the state holds.
    pub fn len(&self) -> (r: usize)
        ensures
            r == self@.len(),
    {
        self.entries.len()
    }

    /// Reads the entry at the given position.
    pub fn entry_at(&self, i: usize) -> (r: (u64, &TrackedEntities, &SelectedEntities))
        requires
            i < self@.len(),
        ensures
            (r.0, r.1@, r.2@) == self@[i as int],
            self.wf() ==> r.2.wf(),
    {
        proof {
            if self.wf() {
                assert(self.entry_wf(i as int));
            }
        }
        let e = &self.entries[i];
        (e.0, &e.1, &e.2)
    }

    /// Appends one entry.
    pub fn push_entry(&mut self, id: u64, watched: TrackedEntities, selected: SelectedEntities)
        requires
            old(self).wf(),
            selected.wf(),
        ensures
            final(self)@ == old(self)@.push((id, watched@, selected@)),
            final(self).wf(),
    {
        let ghost pre = self@;
        let ghost pe = self.entries@;
        let ghost item = (id, watched@, selected@);
        let ghost sel = selected;
        self.entries.push((id, watched, selected));
        proof {
            assert(self@ =~= pre.push(item));
            assert forall|i: int| 0 <= i < self@.len() implies #[trigger] self.entry_wf(i) by {
                if i < pre.len() {
                    assert(old(self).entry_wf(i));
                    assert(self.entries@[i] == pe[i]);
                } else {
                    assert(self.entries@[i].2 == sel);
                }
            }
        }
    }

    /// Whether any entry still holds matched sets to consume.
    pub fn has_any_selected_entities(&self) -> (r: bool)
        ensures
            r == exists|i: int| 0 <= i < self@.len() && (#[trigger] self@[i]).2.len() > 0,
    {
        let mut i: usize = 0;
        while i < self.entries.len()
            invariant
                i <= self.entries.len(),
                forall|j: int| 0 <= j < i ==> (#[trigger] self@[j]).2.len() == 0,
            decreases self.entries.len() - i,
        {
            if self.entries[i].2.len() > 0 {
                proof {
                    assert(0 <= i < self@.len() && self@[i as int].2.len() > 0);
                }
                return true;
            }
            i = i + 1;
        }
        proof {
            if exists|j: int| 0 <= j < self@.len() && (#[trigger] self@[j]).2.len() > 0 {
                let j = choose|j: int| 0 <= j < self@.len() && (#[trigger] self@[j]).2.len() > 0;
                assert(false);
            }
        }
        false
    }

    /// Empties every entry's matched sets, keeping the tracked tables: run
    /// after property application each tick to bound memory and force
    /// freshness.
    #[verifier::loop_isolation(false)]
    pub fn clear_selected_entities(&mut self)
        ensures
            final(self)@ == clear_selected(old(self)@),
            final(self).wf(),
    {
        let ghost pre = self@;
        let n = self.entries.len();
        let mut out: Vec<(u64, TrackedEntities, SelectedEntities)> = Vec::new();
        let mut k: usize = 0;
        proof {
            assert(out.deep_view() =~= clear_selected(pre).subrange(0, 0));
        }
        while self.entries.len() > 0
            invariant
                k + self.entries.len() == n,
                n == pre.len(),
                self.entries.deep_view() == pre.skip(k as int),
                out.deep_view() == clear_selected(pre).subrange(0, k as int),
                forall|i: int| 0 <= i < k ==> out@[i].2@.len() == 0 && out@[i].2.wf(),
            decreases self.entries.len(),
        {
            let ghost pot = out.deep_view();
            let e = self.entries.remove(0);
            proof {
                assert(pre.skip(k as int)[0] == pre[k as int]);
                assert(pre.skip(k as int).drop_first() =~= pre.skip(k + 1));
                assert(self.entries.deep_view() =~= pre.skip(k as int).drop_first());
            }
            let cleared = SelectedEntities::new();
            let ghost cl = cleared;
            out.push((e.0, e.1, cleared));
            k = k + 1;
            proof {
                assert(out.deep_view() =~= pot.push(
                    (pre[k - 1].0, pre[k - 1].1, Seq::<(Seq<ElemV>, Seq<u64>)>::empty()),
                ));
                assert(out.deep_view() =~= clear_selected(pre).subrange(0, k as int));
                assert(out@[k - 1].2 == cl);
            }
        }
        self.entries = out;
        proof {
            assert(clear_selected(pre).subrange(0, n as int) =~= clear_selected(pre));
            assert forall|i: int| 0 <= i < self@.len() implies #[trigger] self.entry_wf(i) by {}
        }
    }
}

/// Every entry with its matched sets emptied; tracked tables kept.
pub open spec fn clear_selected(s: Seq<StateEntryV>) -> Seq<StateEntryV> {
    Seq::new(s.len(), |i: int| (s[i].0, s[i].1, Seq::<(Seq<ElemV>, Seq<u64>)>::empty()))
}

// ---------------------------------------------------------------------------
// Preparing state
// ---------------------------------------------------------------------------

/// The rules of the first asset with the given id, if any.
pub open spec fn lookup_rules(assets: Seq<(u64, Seq<RuleV>)>, id: u64) -> Option<Seq<RuleV>>
    decreases assets.len(),
{
    if assets.len() == 0 {
        None
    } else if assets[0].0 == id {
        Some(assets[0].1)
    } else {
        lookup_rules(assets.drop_first(), id)
    }
}

/// One sheet's matching pass over one subtree, rule by rule from position
/// `k` on: each rule's selector is matched, its examined nodes recorded,
/// and its matched set inserted in specificity order.
pub open spec fn sheet_pass(
    t: Seq<NodeV>,
    root: int,
    rules: Seq<RuleV>,
    k: nat,
    tr: TrackedV,
    sel: SelectedV,
) -> (TrackedV, SelectedV)
    decreases rules.len() - k,
{
    if k >= rules.len() {
        (tr, sel)
    } else {
        let ids = ids_of(t, spec_select(t, root, rules[k as int].selector));
        sheet_pass(
            t,
            root,
            rules,
            k + 1,
            spec_track(t, root, rules[k as int].selector, tr),
            insert_by_weight(sel, (rules[k as int].selector, ids)),
        )
    }
}

/// The state entries one styled root contributes, sheet by sheet from
/// position `k` on: ids without a matching asset are skipped.
pub open spec fn prepare_sheets(
    t: Seq<NodeV>,
    root: int,
    handles: Seq<u64>,
    assets: Seq<(u64, Seq<RuleV>)>,
    k: nat,
    acc: Seq<StateEntryV>,
) -> Seq<StateEntryV>
    decreases handles.len() - k,
{
    if k >= handles.len() {
        acc
    } else {
        match lookup_rules(assets, handles[k as int]) {
            Some(rules) => {
                let pass = sheet_pass(t, root, rules, 0, Seq::empty(), Seq::empty());
                prepare_sheets(
                    t,
                    root,
                    handles,
                    assets,
                    k + 1,
                    acc.push((handles[k as int], pass.0, pass.1)),
                )
            },
            None => prepare_sheets(t, root, handles, assets, k + 1, acc),
        }
    }
}

/// The state entries of all styled roots from position `k` on, in order.
pub open spec fn prepare_roots(
    t: Seq<NodeV>,
    styled: Seq<(usize, Seq<u64>)>,
    assets: Seq<(u64, Seq<RuleV>)>,
    k: nat,
    acc: Seq<StateEntryV>,
) -> Seq<StateEntryV>
    decreases styled.len() - k,
{
    if k >= styled.len() {
        acc
    } else {
        prepare_roots(
            t,
            styled,
            assets,
            k + 1,
            prepare_sheets(t, styled[k as int].0 as int, styled[k as int].1, assets, 0, acc),
        )
    }
}

/// The state one evaluation pass prepares: for each styled root in order,
/// for each referenced sheet found among the assets, the tracked table and
/// the specificity-ordered matched sets of that sheet on that subtree.
pub open spec fn spec_prepare(
    t: Seq<NodeV>,
    styled: Seq<(usize, Seq<u64>)>,
    assets: Seq<(u64, Seq<RuleV>)>,
) -> Seq<StateEntryV> {
    prepare_roots(t, styled, assets, 0, Seq::empty())
}

/// Finds the first asset with the given id.
fn lookup_asset<'a>(assets: &'a Vec<(u64, StyleSheetAsset)>, id: u64) -> (r: Option<
    &'a StyleSheetAsset,
>)
    ensures
        match r {
            Some(a) => lookup_rules(assets.deep_view(), id) == Some(a.spec_rules()),
            None => lookup_rules(assets.deep_view(), id) is None,
        },
        (forall|i: int| 0 <= i < assets@.len() ==> (#[trigger] assets@[i]).1.wf()) ==> (
        r matches Some(a) ==> a.wf()),
{
    let ghost av = assets.deep_view();
    let mut k: usize = 0;
    proof {
        assert(av.skip(0) =~= av);
    }
    while k < assets.len()
        invariant
            k <= assets.len(),
            av == assets.deep_view(),
            av.len() == assets@.len(),
            lookup_rules(av.skip(k as int), id) == lookup_rules(av, id),
        decreases assets.len() - k,
    {
        proof {
            assert(av.skip(k as int)[0] == av[k as int]);
            assert(av.skip(k as int).drop_first() =~= av.skip(k + 1));
        }
        if assets[k].0 == id {
            return Some(&assets[k].1);
        }
        k = k + 1;
    }
    proof {
        assert(av.skip(assets@.len() as int) =~= Seq::<(u64, Seq<RuleV>)>::empty());
    }
    None
}

/// Prepares the engine state of one evaluation pass: matches every rule of
/// every referenced sheet against each styled root's subtree. `styled`
/// lists the roots whose stylesheet reference changed, with the asset ids
/// it names; `assets` maps asset ids to parsed sheets.
#[verifier::loop_isolation(false)]
pub fn prepare_state(
    tree: &Tree,
    styled: &Vec<(usize, Vec<u64>)>,
    assets: &Vec<(u64, StyleSheetAsset)>,
) -> (r: StyleSheetState)
    requires
        tree.wf(),
        forall|i: int| 0 <= i < styled@.len() ==> (#[trigger] styled@[i]).0 < tree@.len(),
        forall|i: int| 0 <= i < assets@.len() ==> (#[trigger] assets@[i]).1.wf(),
    ensures
        r@ == spec_prepare(tree@, styled.deep_view(), assets.deep_view()),
        r.wf(),
{
    let ghost t = tree@;
    let ghost sv = styled.deep_view();
    let ghost av = assets.deep_view();
    let mut state = StyleSheetState::new();
    let mut k: usize = 0;
    proof {
        assert(prepare_roots(t, sv, av, 0, state@) == spec_prepare(t, sv, av));
    }
    while k < styled.len()
        invariant
            k <= styled@.len(),
            state.wf(),
            state@ == old_state_at_root(t, sv, av, k as nat),
            prepare_roots(t, sv, av, k as nat, old_state_at_root(t, sv, av, k as nat))
                == spec_prepare(t, sv, av),
        decreases styled@.len() - k,
    {
        let root = styled[k].0;
        let handles = &styled[k].1;
        proof {
            assert(sv[k as int] == (root, handles.deep_view()));
            assert(sv[k as int].1 == handles@);
        }
        let mut h: usize = 0;
        while h < handles.len()
            invariant
                h <= handles@.len(),
                state.wf(),
                root < tree@.len(),
                handles@ == sv[k as int].1,
                k < styled@.len(),
                prepare_sheets(t, root as int, handles@, av, h as nat, state@) == prepare_sheets(
                    t,
                    root as int,
                    handles@,
                    av,
                    0,
                    old_state_at_root(t, sv, av, k as nat),
                ),
            decreases handles@.len() - h,
        {
            let id = handles[h];
            match lookup_asset(assets, id) {
                Some(sheet) => {
                    let mut watched = TrackedEntities::new();
                    let mut selected = SelectedEntities::new();
                    let ghost rules = sheet.spec_rules();
                    let n_rules = sheet.len();
                    let mut ri: usize = 0;
                    while ri < n_rules
                        invariant
                            ri <= rules.len(),
                            n_rules == rules.len(),
                            rules == sheet.spec_rules(),
                            sheet.wf(),
                            root < tree@.len(),
                            selected.wf(),
                            sheet_pass(t, root as int, rules, ri as nat, watched@, selected@)
                                == sheet_pass(
                                t,
                                root as int,
                                rules,
                                0,
                                Seq::<(ElemV, Seq<u64>)>::empty(),
                                Seq::<(Seq<ElemV>, Seq<u64>)>::empty(),
                            ),
                        decreases rules.len() - ri,
                    {
                        let rule = sheet.rule_at(ri);
                        let ids = select_entities(tree, root, &rule.selector, &mut watched);
                        let sel_clone = rule.selector.clone();
                        selected.push_sorted(sel_clone, ids);
                        ri = ri + 1;
                    }
                    state.push_entry(id, watched, selected);
                },
                None => {},
            }
            h = h + 1;
        }
        proof {
            assert(prepare_sheets(t, root as int, handles@, av, handles@.len(), state@)
                == state@);
            assert(old_state_at_root(t, sv, av, (k + 1) as nat) == prepare_sheets(
                t,
                sv[k as int].0 as int,
                sv[k as int].1,
                av,
                0,
                old_state_at_root(t, sv, av, k as nat),
            ));
        }
        k = k + 1;
    }
    proof {
        assert(prepare_roots(t, sv, av, sv.len(), state@) == state@);
    }
    state
}

/// The accumulated entries just before root `k` is processed.
pub open spec fn old_state_at_root(
    t: Seq<NodeV>,
    styled: Seq<(usize, Seq<u64>)>,
    assets: Seq<(u64, Seq<RuleV>)>,
    k: nat,
) -> Seq<StateEntryV>
    decreases k,
{
    if k == 0 {
        Seq::empty()
    } else {
        prepare_sheets(
            t,
            styled[k - 1].0 as int,
            styled[k - 1].1,
            assets,
            0,
            old_state_at_root(t, styled, assets, (k - 1) as nat),
        )
    }
}

// ---------------------------------------------------------------------------
// Change tracking
// ---------------------------------------------------------------------------

/// The mathematical shape of a [`ChangeReport`].
pub struct ReportV {
    pub name_changed: Seq<u64>,
    pub class_changed: Seq<u64>,
    pub interaction_changed: Seq<u64>,
    pub node_changed: Seq<u64>,
    pub components_changed: Seq<(Seq<char>, Seq<u64>)>,
}

/// What the host observed changing since the last tick, by concern: nodes
/// whose name, class list, interaction state or node marker changed, and,
/// per component tag, the nodes on which that tag changed.
#[derive(Debug)]
pub struct ChangeReport {
    pub name_changed: Vec<u64>,
    pub class_changed: Vec<u64>,
    pub interaction_changed: Vec<u64>,
    pub node_changed: Vec<u64>,
    pub components_changed: Vec<(String, Vec<u64>)>,
}

impl DeepView for ChangeReport {
    type V = ReportV;

    open spec fn deep_view(&self) -> ReportV {
        ReportV {
            name_changed: self.name_changed@,
            class_changed: self.class_changed@,
            interaction_changed: self.interaction_changed@,
            node_changed: self.node_changed@,
            components_changed: self.components_changed.deep_view(),
        }
    }
}

/// The changed-node list of the first report entry for component `c`.
pub open spec fn lookup_component_changes(s: Seq<(Seq<char>, Seq<u64>)>, c: Seq<char>) -> Option<
    Seq<u64>,
>
    decreases s.len(),
{
    if s.len() == 0 {
        None
    } else if s[0].0 == c {
        Some(s[0].1)
    } else {
        lookup_component_changes(s.drop_first(), c)
    }
}

/// Whether the report says the node `id` changed in the respect the
/// element `e` depends on: names for id selectors, class lists for class
/// selectors, the named tag for component selectors, the interaction state
/// for pseudo-classes, and the node marker for the universal selector.
pub open spec fn relevant_changed(rep: ReportV, e: ElemV, id: u64) -> bool {
    match e {
        ElemV::Name(_) => rep.name_changed.contains(id),
        ElemV::Class(_) => rep.class_changed.contains(id),
        ElemV::Component(c) => match lookup_component_changes(rep.components_changed, c) {
            Some(ids) => ids.contains(id),
            None => false,
        },
        ElemV::Any => rep.node_changed.contains(id),
        ElemV::Child => false,
        ElemV::PseudoClass(p) => match p {
            PseudoClassElement::Hover => rep.interaction_changed.contains(id),
            PseudoClassElement::Active => rep.interaction_changed.contains(id),
            PseudoClassElement::Unsupported => false,
        },
    }
}

/// Whether any tracked node of any element in the table changed in the
/// respect its element depends on.
pub open spec fn tracked_changed(rep: ReportV, tr: TrackedV) -> bool {
    exists|k: int, j: int|
        0 <= k < tr.len() && 0 <= j < (#[trigger] tr[k]).1.len() && relevant_changed(
            rep,
            tr[k].0,
            #[trigger] tr[k].1[j],
        )
}

/// The asset ids of the state entries whose tracked table saw a relevant
/// change, in state order.
pub open spec fn spec_changed_assets(state: Seq<StateEntryV>, rep: ReportV) -> Seq<u64>
    decreases state.len(),
{
    if state.len() == 0 {
        Seq::empty()
    } else {
        let rest = spec_changed_assets(state.drop_last(), rep);
        if tracked_changed(rep, state.last().1) {
            rest.push(state.last().0)
        } else {
            rest
        }
    }
}

/// Tests the report for one element and one tracked node.
#[verifier::loop_isolation(false)]
fn relevant_changed_exec(rep: &ChangeReport, e: &SelectorElement, id: u64) -> (r: bool)
    ensures
        r == relevant_changed(rep.deep_view(), e.deep_view(), id),
{
    match e {
        SelectorElement::Name(_) => vec_contains_u64(&rep.name_changed, id),
        SelectorElement::Class(_) => vec_contains_u64(&rep.class_changed, id),
        SelectorElement::Component(c) => {
            let ghost cv = rep.components_changed.deep_view();
            let mut k: usize = 0;
            proof {
                assert(cv.skip(0) =~= cv);
            }
            while k < rep.components_changed.len()
                invariant
                    k <= rep.components_changed@.len(),
                    cv == rep.components_changed.deep_view(),
                    cv.len() == rep.components_changed@.len(),
                    lookup_component_changes(cv.skip(k as int), c@) == lookup_component_changes(
                        cv,
                        c@,
                    ),
                decreases rep.components_changed@.len() - k,
            {
                proof {
                    assert(cv.skip(k as int)[0] == cv[k as int]);
                    assert(cv.skip(k as int).drop_first() =~= cv.skip(k + 1));
                }
                if crate::text::str_eq(rep.components_changed[k].0.as_str(), c.as_str()) {
                    proof {
                        assert(rep.components_changed@[k as int].1.deep_view()
                            =~= rep.components_changed@[k as int].1@);
                    }
                    return vec_contains_u64(&rep.components_changed[k].1, id);
                }
                k = k + 1;
            }
            proof {
                assert(cv.skip(rep.components_changed@.len() as int) =~= Seq::<(
                    Seq<char>,
                    Seq<u64>,
                )>::empty());
            }
            false
        },
        SelectorElement::Any => vec_contains_u64(&rep.node_changed, id),
        SelectorElement::Child => false,
        SelectorElement::PseudoClass(p) => match p {
            PseudoClassElement::Hover => vec_contains_u64(&rep.interaction_changed, id),
            PseudoClassElement::Active => vec_contains_u64(&rep.interaction_changed, id),
            PseudoClassElement::Unsupported => false,
        },
    }
}

/// Tests whether any tracked node of the table changed relevantly.
fn tracked_changed_exec(rep: &ChangeReport, watched: &TrackedEntities) -> (r: bool)
    ensures
        r == tracked_changed(rep.deep_view(), watched@),
{
    let ghost tr = watched@;
    let n = watched.len();
    let mut k: usize = 0;
    while k < n
        invariant
            k <= n,
            n == tr.len(),
            tr == watched@,
            forall|k2: int, j: int|
                0 <= k2 < k && 0 <= j < (#[trigger] tr[k2]).1.len() ==> !relevant_changed(
                    rep.deep_view(),
                    tr[k2].0,
                    #[trigger] tr[k2].1[j],
                ),
        decreases n - k,
    {
        let (element, ids) = watched.entry_at(k);
        let mut j: usize = 0;
        while j < ids.len()
            invariant
                j <= ids@.len(),
                k < n,
                n == tr.len(),
                tr == watched@,
                (element.deep_view(), ids.deep_view()) == tr[k as int],
                forall|j2: int|
                    0 <= j2 < j ==> !relevant_changed(
                        rep.deep_view(),
                        tr[k as int].0,
                        #[trigger] tr[k as int].1[j2],
                    ),
            decreases ids@.len() - j,
        {
            if relevant_changed_exec(rep, element, ids[j]) {
                proof {
                    assert(0 <= k < tr.len() && 0 <= j < tr[k as int].1.len() && relevant_changed(
                        rep.deep_view(),
                        tr[k as int].0,
                        tr[k as int].1[j as int],
                    ));
                }
                return true;
            }
            j = j + 1;
        }
        k = k + 1;
    }
    proof {
        if tracked_changed(rep.deep_view(), tr) {
            let (k2, j) = choose|k2: int, j: int|
                0 <= k2 < tr.len() && 0 <= j < (#[trigger] tr[k2]).1.len() && relevant_changed(
                    rep.deep_view(),
                    tr[k2].0,
                    #[trigger] tr[k2].1[j],
                );
            assert(false);
        }
    }
    false
}

/// Decides which assets must be re-applied: an asset is listed when any
/// node examined for any element of its tracked table changed in the
/// respect that element depends on.
pub fn check_for_changed_assets(state: &StyleSheetState, rep: &ChangeReport) -> (r: Vec<u64>)
    ensures
        r@ == spec_changed_assets(state@, rep.deep_view()),
{
    let ghost sv = state@;
    let n = state.len();
    let mut out: Vec<u64> = Vec::new();
    let mut k: usize = 0;
    proof {
        assert(sv.subrange(0, 0) =~= Seq::<StateEntryV>::empty());
        assert(out@ =~= spec_changed_assets(sv.subrange(0, 0), rep.deep_view()));
    }
    while k < n
        invariant
            k <= n,
            n == sv.len(),
            sv == state@,
            out@ == spec_changed_assets(sv.subrange(0, k as int), rep.deep_view()),
        decreases n - k,
    {
        proof {
            assert(sv.subrange(0, (k + 1) as int).drop_last() =~= sv.subrange(0, k as int));
            assert(sv.subrange(0, (k + 1) as int).last() == sv[k as int]);
        }
        let (id, watched, _selected) = state.entry_at(k);
        if tracked_changed_exec(rep, watched) {
            out.push(id);
        }
        k = k + 1;
    }
    proof {
        assert(sv.subrange(0, sv.len() as int) =~= sv);
    }
    out
}

/// Whether the sheet reference names any of the listed assets.
pub open spec fn references_any(sheets: Seq<u64>, ids: Seq<u64>) -> bool {
    exists|q: int| 0 <= q < ids.len() && sheets.contains(#[trigger] ids[q])
}

/// Tests whether the reference names any listed asset.
fn references_any_exec(sheet: &StyleSheet, ids: &Vec<u64>) -> (r: bool)
    ensures
        r == references_any(sheet.spec_sheets(), ids@),
{
    let mut q: usize = 0;
    while q < ids.len()
        invariant
            q <= ids@.len(),
            forall|j: int| 0 <= j < q ==> !sheet.spec_sheets().contains(#[trigger] ids@[j]),
        decreases ids@.len() - q,
    {
        if sheet.references(ids[q]) {
            proof {
                assert(0 <= q < ids@.len() && sheet.spec_sheets().contains(ids@[q as int]));
            }
            return true;
        }
        q = q + 1;
    }
    proof {
        if references_any(sheet.spec_sheets(), ids@) {
            let j = choose|j: int|
                0 <= j < ids@.len() && sheet.spec_sheets().contains(#[trigger] ids@[j]);
            assert(false);
        }
    }
    false
}

/// Marks every stylesheet reference naming one of the listed assets as
/// pending a re-match; other references keep their flag.
#[verifier::loop_isolation(false)]
fn refresh_matching(sheets: &mut Vec<StyleSheet>, ids: &Vec<u64>)
    ensures
        final(sheets)@.len() == old(sheets)@.len(),
        forall|i: int|
            0 <= i < old(sheets)@.len() ==> (#[trigger] final(sheets)@[i]).spec_sheets() == old(
                sheets,
            )@[i].spec_sheets() && final(sheets)@[i].spec_changed() == (
            old(sheets)@[i].spec_changed() || references_any(
                old(sheets)@[i].spec_sheets(),
                ids@,
            )),
{
    let ghost pre = sheets@;
    let n = sheets.len();
    let mut out: Vec<StyleSheet> = Vec::new();
    let mut k: usize = 0;
    while sheets.len() > 0
        invariant
            k + sheets@.len() == n,
            n == pre.len(),
            sheets@ == pre.skip(k as int),
            out@.len() == k,
            forall|i: int|
                0 <= i < k ==> (#[trigger] out@[i]).spec_sheets() == pre[i].spec_sheets()
                    && out@[i].spec_changed() == (pre[i].spec_changed() || references_any(
                    pre[i].spec_sheets(),
                    ids@,
                )),
        decreases sheets@.len(),
    {
        let mut sh = sheets.remove(0);
        proof {
            assert(pre.skip(k as int)[0] == pre[k as int]);
            assert(pre.skip(k as int).drop_first() =~= pre.skip(k + 1));
        }
        if references_any_exec(&sh, ids) {
            sh.refresh();
        }
        out.push(sh);
        k = k + 1;
    }
    *sheets = out;
}

/// Watches the tracked node sets: whenever any node examined by an applied
/// sheet changed in a tracked respect, every reference naming that sheet is
/// marked for a re-match at the next tick.
pub fn watch_tracked_entities(
    state: &StyleSheetState,
    rep: &ChangeReport,
    sheets: &mut Vec<StyleSheet>,
)
    ensures
        final(sheets)@.len() == old(sheets)@.len(),
        forall|i: int|
            0 <= i < old(sheets)@.len() ==> (#[trigger] final(sheets)@[i]).spec_sheets() == old(
                sheets,
            )@[i].spec_sheets() && final(sheets)@[i].spec_changed() == (
            old(sheets)@[i].spec_changed() || references_any(
                old(sheets)@[i].spec_sheets(),
                spec_changed_assets(state@, rep.deep_view()),
            )),
{
    let changed = check_for_changed_assets(state, rep);
    refresh_matching(sheets, &changed);
}

/// Reacts to hot-reloaded assets: every reference naming a modified asset
/// is marked for a re-match at the next tick.
pub fn hot_reload_style_sheets(modified: &Vec<u64>, sheets: &mut Vec<StyleSheet>)
    ensures
        final(sheets)@.len() == old(sheets)@.len(),
        forall|i: int|
            0 <= i < old(sheets)@.len() ==> (#[trigger] final(sheets)@[i]).spec_sheets() == old(
                sheets,
            )@[i].spec_sheets() && final(sheets)@[i].spec_changed() == (
            old(sheets)@[i].spec_changed() || references_any(
                old(sheets)@[i].spec_sheets(),
                modified@,
            )),
{
    refresh_matching(sheets, modified);
}

/// Clears the consumed matched sets after property application, keeping
/// the tracked tables for the next change-tracking pass.
pub fn clear_state(state: &mut StyleSheetState)
    ensures
        final(state)@ == clear_selected(old(state)@),
        final(state).wf(),
{
    state.clear_selected_entities();
}

// ---------------------------------------------------------------------------
// Laws of matching
// ---------------------------------------------------------------------------

/// Law (matching idempotence): the matched list is a pure function of the
/// tree and the selector, so re-running the engine on an unchanged tree and
/// selector yields the identical list, order included. The result of
/// [`select_entities`] is pinned to exactly this function.
pub proof fn lemma_matching_idempotent(
    t: Seq<NodeV>,
    root: int,
    elems: Seq<ElemV>,
    r1: Seq<u64>,
    r2: Seq<u64>,
)
    requires
        r1 == ids_of(t, spec_select(t, root, elems)),
        r2 == ids_of(t, spec_select(t, root, elems)),
    ensures
        r1 == r2,
{
}

/// Whether the node at `i` satisfies every element of the segment from
/// position `m` on.
pub open spec fn seg_matches(t: Seq<NodeV>, i: usize, seg: Seq<ElemV>, m: nat) -> bool
    decreases seg.len() - m,
{
    if m >= seg.len() {
        true
    } else {
        spec_matches_element(t, i as int, seg[m as int]) && seg_matches(t, i, seg, m + 1)
    }
}

/// A pool filtered by one element holds exactly the pool nodes that satisfy
/// it.
proof fn lemma_filter_pool_mem(t: Seq<NodeV>, pool: Seq<usize>, e: ElemV, i: usize)
    ensures
        spec_filter_pool(t, pool, e).contains(i) <==> (pool.contains(i) && spec_matches_element(
            t,
            i as int,
            e,
        )),
    decreases pool.len(),
{
    if pool.len() == 0 {
        assert(!spec_filter_pool(t, pool, e).contains(i));
        assert(!pool.contains(i));
    } else {
        lemma_filter_pool_mem(t, pool.drop_last(), e, i);
        let r = spec_filter_pool(t, pool, e);
        let rr = spec_filter_pool(t, pool.drop_last(), e);
        if spec_matches_element(t, pool.last() as int, e) {
            assert(r == rr.push(pool.last()));
            assert(r.contains(i) <==> (rr.contains(i) || i == pool.last())) by {
                if r.contains(i) {
                    let q = choose|q: int| 0 <= q < r.len() && r[q] == i;
                    if q < rr.len() {
                        assert(rr[q] == i);
                    }
                }
                if rr.contains(i) {
                    let q = choose|q: int| 0 <= q < rr.len() && rr[q] == i;
                    assert(r[q] == i);
                }
                if i == pool.last() {
                    assert(r[r.len() - 1] == i);
                }
            }
        } else {
            assert(r == rr);
        }
        assert(pool.contains(i) <==> (pool.drop_last().contains(i) || i == pool.last())) by {
            if pool.contains(i) {
                let q = choose|q: int| 0 <= q < pool.len() && pool[q] == i;
                if q < pool.len() - 1 {
                    assert(pool.drop_last()[q] == i);
                }
            }
            if pool.drop_last().contains(i) {
                let q = choose|q: int| 0 <= q < pool.drop_last().len() && pool.drop_last()[q] == i;
                assert(pool[q] == i);
            }
            if i == pool.last() {
                assert(pool[pool.len() - 1] == i);
            }
        }
    }
}

/// A pool filtered by a whole segment holds exactly the pool nodes that
/// satisfy every element of it.
proof fn lemma_filter_segment_mem(t: Seq<NodeV>, pool: Seq<usize>, seg: Seq<ElemV>, m: nat, i: usize)
    requires
        m <= seg.len(),
    ensures
        spec_filter_segment(t, pool, seg, m).contains(i) <==> (pool.contains(i) && seg_matches(
            t,
            i,
            seg,
            m,
        )),
    decreases seg.len() - m,
{
    if m < seg.len() {
        lemma_filter_pool_mem(t, pool, seg[m as int], i);
        lemma_filter_segment_mem(t, spec_filter_pool(t, pool, seg[m as int]), seg, m + 1, i);
    }
}

/// The descendant pool holds exactly the nodes with a strict ancestor among
/// the survivors.
proof fn lemma_desc_pool_mem(t: Seq<NodeV>, pool: Seq<usize>, n: nat, i: usize)
    requires
        n <= t.len(),
        n <= usize::MAX,
    ensures
        desc_pool_upto(t, pool, n).contains(i) <==> (i < n && has_ancestor_in(t, i as int, pool)),
    decreases n,
{
    if n > 0 {
        lemma_desc_pool_mem(t, pool, (n - 1) as nat, i);
        let r = desc_pool_upto(t, pool, n);
        let rr = desc_pool_upto(t, pool, (n - 1) as nat);
        if has_ancestor_in(t, n - 1, pool) {
            assert(r == rr.push(((n - 1) as usize)));
            assert(r.contains(i) <==> (rr.contains(i) || i == (n - 1) as usize)) by {
                if r.contains(i) {
                    let q = choose|q: int| 0 <= q < r.len() && r[q] == i;
                    if q < rr.len() {
                        assert(rr[q] == i);
                    }
                }
                if rr.contains(i) {
                    let q = choose|q: int| 0 <= q < rr.len() && rr[q] == i;
                    assert(r[q] == i);
                }
                if i == (n - 1) as usize {
                    assert(r[r.len() - 1] == i);
                }
            }
        } else {
            assert(r == rr);
            if i == (n - 1) as usize {
                assert(!has_ancestor_in(t, i as int, pool));
            }
        }
    }
}

/// The initial pool holds exactly the root and its strict descendants.
proof fn lemma_initial_pool_mem(t: Seq<NodeV>, root: int, n: nat, i: usize)
    requires
        n <= t.len(),
        n <= usize::MAX,
    ensures
        initial_pool_upto(t, root, n).contains(i) <==> (i < n && (i as int == root
            || is_strict_desc(t, i as int, root))),
    decreases n,
{
    if n > 0 {
        lemma_initial_pool_mem(t, root, (n - 1) as nat, i);
        let r = initial_pool_upto(t, root, n);
        let rr = initial_pool_upto(t, root, (n - 1) as nat);
        if n - 1 == root || is_strict_desc(t, n - 1, root) {
            assert(r == rr.push(((n - 1) as usize)));
            assert(r.contains(i) <==> (rr.contains(i) || i == (n - 1) as usize)) by {
                if r.contains(i) {
                    let q = choose|q: int| 0 <= q < r.len() && r[q] == i;
                    if q < rr.len() {
                        assert(rr[q] == i);
                    }
                }
                if rr.contains(i) {
                    let q = choose|q: int| 0 <= q < rr.len() && rr[q] == i;
                    assert(r[q] == i);
                }
                if i == (n - 1) as usize {
                    assert(r[r.len() - 1] == i);
                }
            }
        } else {
            assert(r == rr);
        }
    }
}

/// Law (descendant combinator): for a two-segment selector, a node is
/// selected exactly when it satisfies the second segment and has a strict
/// ancestor — itself the root or a strict descendant of it — that satisfies
/// the first segment. Matching thus means "descendant of anything matching
/// the first segment", not "direct child".
pub proof fn lemma_descendant_combinator(t: Seq<NodeV>, root: int, elems: Seq<ElemV>, i: usize)
    requires
        wf_nodes(t),
        0 <= root < t.len(),
        t.len() <= usize::MAX,
        spec_segments(elems).len() == 2,
    ensures
        spec_select(t, root, elems).contains(i) <==> (i < t.len() && seg_matches(
            t,
            i,
            spec_segments(elems)[1],
            0,
        ) && exists|a: usize|
            a < t.len() && (a as int == root || is_strict_desc(t, a as int, root)) && #[trigger]
            seg_matches(t, a, spec_segments(elems)[0], 0) && is_strict_desc(t, i as int, a as int)),
{
    let segs = spec_segments(elems);
    let pool0 = spec_initial_pool(t, root);
    let f1 = spec_filter_segment(t, pool0, segs[0], 0);
    let dp = spec_desc_pool(t, f1);
    let r = spec_select(t, root, elems);
    assert(spec_select(t, root, elems) == spec_select_segments(t, pool0, segs, 0));
    assert(spec_select_segments(t, pool0, segs, 0) == spec_select_segments(t, dp, segs, 1));
    assert(spec_select_segments(t, dp, segs, 1) == spec_filter_segment(t, dp, segs[1], 0));
    lemma_filter_segment_mem(t, dp, segs[1], 0, i);
    lemma_desc_pool_mem(t, f1, t.len(), i);
    if r.contains(i) {
        assert(has_ancestor_in(t, i as int, f1));
        let q = choose|q: int|
            0 <= q < f1.len() && is_strict_desc(t, i as int, (#[trigger] f1[q]) as int);
        let a = f1[q];
        assert(f1.contains(a));
        lemma_filter_segment_mem(t, pool0, segs[0], 0, a);
        lemma_initial_pool_mem(t, root, t.len(), a);
        assert(a < t.len() && (a as int == root || is_strict_desc(t, a as int, root))
            && seg_matches(t, a, segs[0], 0) && is_strict_desc(t, i as int, a as int));
    }
    if i < t.len() && seg_matches(t, i, segs[1], 0) && exists|a: usize|
        a < t.len() && (a as int == root || is_strict_desc(t, a as int, root)) && #[trigger]
        seg_matches(t, a, segs[0], 0) && is_strict_desc(t, i as int, a as int) {
        let a = choose|a: usize|
            a < t.len() && (a as int == root || is_strict_desc(t, a as int, root)) && #[trigger]
            seg_matches(t, a, segs[0], 0) && is_strict_desc(t, i as int, a as int);
        lemma_initial_pool_mem(t, root, t.len(), a);
        assert(pool0.contains(a));
        lemma_filter_segment_mem(t, pool0, segs[0], 0, a);
        assert(f1.contains(a));
        let q = choose|q: int| 0 <= q < f1.len() && f1[q] == a;
        assert(is_strict_desc(t, i as int, (f1[q]) as int));
        assert(has_ancestor_in(t, i as int, f1));
        assert(dp.contains(i));
        assert(r.contains(i));
    }
}

/// Law (specificity ordering, preparation side): the selection list a
/// sheet's matching pass produces stands in ascending specificity-weight
/// order. Together with the application-order laws, the most specific rule
/// that matches a node and resolves a property decides its value.
pub proof fn lemma_sheet_pass_sorted(
    t: Seq<NodeV>,
    root: int,
    rules: Seq<RuleV>,
    k: nat,
    tr: TrackedV,
    sel: SelectedV,
)
    requires
        weight_sorted(sel),
    ensures
        weight_sorted(sheet_pass(t, root, rules, k, tr, sel).1),
    decreases rules.len() - k,
{
    if k < rules.len() {
        let item = (
            rules[k as int].selector,
            ids_of(t, spec_select(t, root, rules[k as int].selector)),
        );
        lemma_insert_by_weight_sorted(sel, item);
        lemma_sheet_pass_sorted(
            t,
            root,
            rules,
            k + 1,
            spec_track(t, root, rules[k as int].selector, tr),
            insert_by_weight(sel, item),
        );
    }
}

/// The per-root pass keeps every accumulated selection list sorted, and
/// adds only sorted ones.
proof fn lemma_prepare_sheets_sorted(
    t: Seq<NodeV>,
    root: int,
    handles: Seq<u64>,
    assets: Seq<(u64, Seq<RuleV>)>,
    k: nat,
    acc: Seq<StateEntryV>,
)
    requires
        forall|i: int| 0 <= i < acc.len() ==> weight_sorted((#[trigger] acc[i]).2),
    ensures
        forall|i: int|
            0 <= i < prepare_sheets(t, root, handles, assets, k, acc).len() ==> weight_sorted(
                (#[trigger] prepare_sheets(t, root, handles, assets, k, acc)[i]).2,
            ),
    decreases handles.len() - k,
{
    if k >= handles.len() {
        assert(prepare_sheets(t, root, handles, assets, k, acc) == acc);
    } else {
        match lookup_rules(assets, handles[k as int]) {
            Some(rules) => {
                let pass = sheet_pass(t, root, rules, 0, Seq::empty(), Seq::empty());
                assert(weight_sorted(Seq::<(Seq<ElemV>, Seq<u64>)>::empty()));
                lemma_sheet_pass_sorted(t, root, rules, 0, Seq::empty(), Seq::empty());
                let acc2 = acc.push((handles[k as int], pass.0, pass.1));
                assert forall|i: int| 0 <= i < acc2.len() implies weight_sorted(
                    (#[trigger] acc2[i]).2,
                ) by {
                    if i < acc.len() {
                        assert(acc2[i] == acc[i]);
                    }
                }
                lemma_prepare_sheets_sorted(t, root, handles, assets, k + 1, acc2);
                assert(prepare_sheets(t, root, handles, assets, k, acc) == prepare_sheets(
                    t,
                    root,
                    handles,
                    assets,
                    k + 1,
                    acc2,
                ));
            },
            None => {
                lemma_prepare_sheets_sorted(t, root, handles, assets, k + 1, acc);
                assert(prepare_sheets(t, root, handles, assets, k, acc) == prepare_sheets(
                    t,
                    root,
                    handles,
                    assets,
                    k + 1,
                    acc,
                ));
            },
        }
    }
}

/// Law (specificity ordering, state side): every selection list the
/// evaluation pass prepares stands in ascending specificity-weight order.
/// Together with the application-order laws this gives the cascade rule:
/// among rules of one sheet that match the same node and resolve the same
/// property, the most specific one decides the applied value.
pub proof fn lemma_prepare_state_sorted(
    t: Seq<NodeV>,
    styled: Seq<(usize, Seq<u64>)>,
    assets: Seq<(u64, Seq<RuleV>)>,
    k: nat,
    acc: Seq<StateEntryV>,
)
    requires
        forall|i: int| 0 <= i < acc.len() ==> weight_sorted((#[trigger] acc[i]).2),
    ensures
        forall|i: int|
            0 <= i < prepare_roots(t, styled, assets, k, acc).len() ==> weight_sorted(
                (#[trigger] prepare_roots(t, styled, assets, k, acc)[i]).2,
            ),
    decreases styled.len() - k,
{
    if k >= styled.len() {
        assert(prepare_roots(t, styled, assets, k, acc) == acc);
    } else {
        lemma_prepare_sheets_sorted(
            t,
            styled[k as int].0 as int,
            styled[k as int].1,
            assets,
            0,
            acc,
        );
        let acc2 = prepare_sheets(
            t,
            styled[k as int].0 as int,
            styled[k as int].1,
            assets,
            0,
            acc,
        );
        lemma_prepare_state_sorted(t, styled, assets, k + 1, acc2);
        assert(prepare_roots(t, styled, assets, k, acc) == prepare_roots(
            t,
            styled,
            assets,
            k + 1,
            acc2,
        ));
    }
}

} // verus!
