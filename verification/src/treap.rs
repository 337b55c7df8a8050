//! The inner part of the exray: an implicit treap and the functions that
//! control it.
//!
//! Every node owns at most two subtrees and carries the element count and the
//! aggregate vector of its whole subtree. A node's position in the sequence
//! is never stored: it is derived from subtree sizes alone. The random
//! `y_key` priorities order the tree as a max-heap — a node's priority is at
//! least both children's — which is what gives the expected logarithmic
//! depth; the contracts state that ordering, while of the drawn priorities
//! themselves nothing is promised.

use crate::functions::Func;
use rand::Rng;
use vstd::prelude::*;

verus! {

/// A pointer to an implicit treap: `None` is the empty tree.
pub type Link = Option<Box<ImplicitTreap>>;

/// One node of an implicit treap.
pub struct ImplicitTreap {
    /// The number of elements in the subtree of this node.
    cnt: usize,
    /// The balancing priority of the node: a random integer.
    y_key: i64,
    /// The value stored in the node.
    value: i64,
    /// The aggregate of every maintained function over this subtree;
    /// `value_all[i]` belongs to function `i` of the owning sequence.
    value_all: Vec<i64>,
    /// The left subtree: the elements before this node.
    l: Link,
    /// The right subtree: the elements after this node.
    r: Link,
}

/// The sequence of elements a subtree holds, in order.
pub closed spec fn seq_of(t: Link) -> Seq<i64>
    decreases t,
{
    match t {
        None => Seq::empty(),
        Some(n) => n.seq(),
    }
}

/// Every stored element count in a subtree is the size of its subtree.
pub closed spec fn size_ok(t: Link) -> bool
    decreases t,
{
    match t {
        None => true,
        Some(n) => n.size_ok(),
    }
}

/// A subtree is well-formed for a function list: its counts are correct and
/// every stored aggregate is the aggregate of its subtree's sequence.
pub closed spec fn tree_wf(t: Link, fns: Seq<Func>) -> bool
    decreases t,
{
    match t {
        None => true,
        Some(n) => n.wf(fns),
    }
}

/// Whether the root of `t`, if any, carries a priority no greater than
/// `bound`.
pub closed spec fn root_below(t: Link, bound: i64) -> bool {
    match t {
        None => true,
        Some(n) => n.y_key <= bound,
    }
}

/// The priority of the root of `t`; meaningful only when `t` has one.
pub closed spec fn root_prio(t: Link) -> i64 {
    match t {
        None => 0,
        Some(n) => n.y_key,
    }
}

/// The value of the root of `t`; meaningful only when `t` has one.
pub closed spec fn root_value(t: Link) -> i64 {
    match t {
        None => 0,
        Some(n) => n.value,
    }
}

/// The treap's max-heap property: every node's priority is at least both
/// children's priorities.
pub closed spec fn heap_ok(t: Link) -> bool
    decreases t,
{
    match t {
        None => true,
        Some(n) => {
            &&& root_below(n.l, n.y_key)
            &&& root_below(n.r, n.y_key)
            &&& heap_ok(n.l)
            &&& heap_ok(n.r)
        },
    }
}

/// Whether two trees are copies of one another: the same shape, and in
/// corresponding nodes the same count, priority, value and aggregates.
pub closed spec fn same_structure(a: Link, b: Link) -> bool
    decreases a,
{
    match (a, b) {
        (None, None) => true,
        (Some(x), Some(y)) => {
            &&& x.cnt == y.cnt
            &&& x.y_key == y.y_key
            &&& x.value == y.value
            &&& x.value_all@ == y.value_all@
            &&& same_structure(x.l, y.l)
            &&& same_structure(x.r, y.r)
        },
        _ => false,
    }
}

impl ImplicitTreap {
    /// The sequence of this node's subtree: left part, own value, right part.
    pub closed spec fn seq(self) -> Seq<i64>
        decreases self,
    {
        seq_of(self.l) + seq![self.value] + seq_of(self.r)
    }

    /// See `size_ok`.
    pub closed spec fn size_ok(self) -> bool
        decreases self,
    {
        &&& self.cnt == self.seq().len()
        &&& size_ok(self.l)
        &&& size_ok(self.r)
    }

    /// See `tree_wf`.
    pub closed spec fn wf(self, fns: Seq<Func>) -> bool
        decreases self,
    {
        &&& self.cnt == self.seq().len()
        &&& self.value_all@.len() == fns.len()
        &&& (forall|i: int| 0 <= i < fns.len() ==> self.value_all@[i] == #[trigger] fns[i].agg(self.seq()))
        &&& tree_wf(self.l, fns)
        &&& tree_wf(self.r, fns)
    }
}

/// The empty tree is well-formed for every function list and holds the empty
/// sequence.
pub proof fn lemma_empty_tree(fns: Seq<Func>)
    ensures
        tree_wf(None, fns),
        seq_of(None) == Seq::<i64>::empty(),
        size_ok(None),
        heap_ok(None),
{
}

/// A tree holds elements exactly when it has a root.
pub proof fn lemma_seq_len(t: Link)
    ensures
        t.is_some() <==> seq_of(t).len() > 0,
{
    match t {
        None => {},
        Some(n) => {},
    }
}

/// A well-formed tree holds no more elements than fit in a machine word,
/// since its root stores their count in one.
pub proof fn lemma_wf_len(t: Link, fns: Seq<Func>)
    requires
        tree_wf(t, fns),
    ensures
        seq_of(t).len() <= usize::MAX,
{
    match t {
        None => {},
        Some(n) => {},
    }
}

/// Well-formedness for any function list includes correct counts.
pub proof fn lemma_wf_size_ok(t: Link, fns: Seq<Func>)
    requires
        tree_wf(t, fns),
    ensures
        size_ok(t),
    decreases t,
{
    match t {
        None => {},
        Some(n) => {
            lemma_wf_size_ok(n.l, fns);
            lemma_wf_size_ok(n.r, fns);
        },
    }
}

/// Relies on `rand::thread_rng` and `rand::Rng::gen::<i64>` for a fresh
/// balancing priority, drawn uniformly at random; nothing is promised of it.
#[verifier::external_body]
fn gen_priority() -> i64 {
    rand::thread_rng().gen::<i64>()
}

/// The number of elements in the subtree of some node.
pub fn get_cnt(curr: &Link) -> (cnt: u64)
    ensures
        curr.is_none() ==> cnt == 0,
        size_ok(*curr) ==> cnt as nat == seq_of(*curr).len(),
{
    if curr.is_none() {
        return 0;
    }
    return curr.as_ref().unwrap().cnt as u64;
}

/// The aggregates of every maintained function over the subtree of some
/// node; empty for the empty tree.
pub fn get_values(curr: &Link) -> (values: Vec<i64>)
    ensures
        curr.is_none() ==> values@.len() == 0,
        forall|fns: Seq<Func>|
            #[trigger] tree_wf(*curr, fns) && curr.is_some() ==> values@.len() == fns.len() && (forall|
                i: int,
            | 0 <= i < fns.len() ==> values@[i] == #[trigger] fns[i].agg(seq_of(*curr))),
{
    match curr {
        None => Vec::new(),
        Some(node) => {
            let values = node.value_all.clone();
            proof {
                assert(values@ =~= node.value_all@);
            }
            values
        },
    }
}

/// Construct a treap of one element from its value and its aggregate vector.
/// The new node is well-formed for every function list whose aggregates of
/// the one-element sequence are exactly `value_all`.
pub fn make_treap(value: i64, value_all: Vec<i64>) -> (t: Link)
    ensures
        t.is_some(),
        seq_of(t) == seq![value],
        size_ok(t),
        heap_ok(t),
        forall|fns: Seq<Func>|
            (value_all@.len() == fns.len() && (forall|i: int|
                0 <= i < fns.len() ==> value_all@[i] == #[trigger] fns[i].agg(seq![value])))
                ==> #[trigger] tree_wf(t, fns),
{
    let ghost va = value_all@;
    let t: Link = Some(
        Box::new(
            ImplicitTreap {
                cnt: 1,
                y_key: gen_priority(),
                value: value,
                value_all: value_all,
                l: None,
                r: None,
            },
        ),
    );
    proof {
        let n = t.unwrap();
        assert(n.seq() =~= seq![value]);
        assert(n.size_ok());
        assert(root_below(n.l, n.y_key));
        assert(root_below(n.r, n.y_key));
        assert(heap_ok(t)) by {
            reveal_with_fuel(heap_ok, 2);
        }
        assert forall|fns: Seq<Func>|
            (va.len() == fns.len() && (forall|i: int|
                0 <= i < fns.len() ==> va[i] == #[trigger] fns[i].agg(seq![value])))
                implies #[trigger] tree_wf(t, fns) by {
            assert(n.wf(fns));
        }
    }
    t
}

/// Recompute this node's count and aggregate vector from its children and
/// its own value. This is the single function that restores the tree
/// invariant; it must be called on every node whose children changed,
/// innermost first.
fn recover(node: &mut ImplicitTreap, functions: &Vec<Func>)
    requires
        tree_wf(old(node).l, functions@),
        tree_wf(old(node).r, functions@),
        seq_of(old(node).l).len() + 1 + seq_of(old(node).r).len() <= usize::MAX,
    ensures
        final(node).l == old(node).l,
        final(node).r == old(node).r,
        final(node).value == old(node).value,
        final(node).y_key == old(node).y_key,
        final(node).seq() == old(node).seq(),
        final(node).wf(functions@),
{
    let mut curr_cnt: usize = 1;
    if node.l.is_some() {
        curr_cnt += node.l.as_ref().unwrap().cnt;
    }
    if node.r.is_some() {
        curr_cnt += node.r.as_ref().unwrap().cnt;
    }
    node.cnt = curr_cnt;
    proof {
        assert(node.seq() == old(node).seq());
        assert(node.cnt == node.seq().len());
    }

    let len = functions.len();
    node.value_all = Vec::new();
    let mut i: usize = 0;
    while i < len
        invariant
            i <= len,
            len == functions@.len(),
            node.l == old(node).l,
            node.r == old(node).r,
            node.value == old(node).value,
            node.y_key == old(node).y_key,
            node.cnt == node.seq().len(),
            tree_wf(node.l, functions@),
            tree_wf(node.r, functions@),
            node.value_all@.len() == i,
            forall|j: int|
                0 <= j < i ==> node.value_all@[j] == #[trigger] functions@[j].agg(node.seq()),
        decreases len - i,
    {
        let function = &functions[i];

        let mut l_data: Option<(i64, u64)> = None;
        if node.l.is_some() {
            let left = node.l.as_ref().unwrap();
            l_data = Some((left.value_all[i], left.cnt as u64));
        }
        let mut r_data: Option<(i64, u64)> = None;
        if node.r.is_some() {
            let right = node.r.as_ref().unwrap();
            r_data = Some((right.value_all[i], right.cnt as u64));
        }
        let combined = function.apply(l_data, node.value, r_data);
        proof {
            crate::functions::lemma_combine_agg(
                functions@[i as int],
                seq_of(node.l),
                node.value,
                seq_of(node.r),
                seq_of(node.l).len() as u64,
                seq_of(node.r).len() as u64,
            );
            assert(node.seq() == seq_of(node.l) + seq![node.value] + seq_of(node.r));
        }
        node.value_all.push(combined);
        i += 1;
    }
}

/// Where a split at position `ind` actually cuts: at `ind`, or at the end
/// when `ind` lies beyond it.
pub open spec fn split_point(s: Seq<i64>, ind: u64) -> int {
    if ind <= s.len() {
        ind as int
    } else {
        s.len() as int
    }
}

/// Partition a treap in two: a left treap with the elements before position
/// `ind` and a right treap with the elements at and after it. A position at
/// or beyond the end yields the whole tree and an empty one. Both parts
/// keep the max-heap ordering, and neither part's root outranks the root it
/// came from.
pub fn split(curr: Link, ind: u64, functions: &Vec<Func>) -> (parts: (Link, Link))
    requires
        tree_wf(curr, functions@),
        heap_ok(curr),
    ensures
        tree_wf(parts.0, functions@),
        tree_wf(parts.1, functions@),
        heap_ok(parts.0),
        heap_ok(parts.1),
        seq_of(parts.0) == seq_of(curr).take(split_point(seq_of(curr), ind)),
        seq_of(parts.1) == seq_of(curr).skip(split_point(seq_of(curr), ind)),
        curr.is_none() ==> parts.0.is_none() && parts.1.is_none(),
        curr.is_some() ==> root_below(parts.0, root_prio(curr)) && root_below(
            parts.1,
            root_prio(curr),
        ),
    decreases curr,
{
    match curr {
        None => {
            proof {
                assert(seq_of(curr).take(0) =~= seq_of(curr));
                assert(seq_of(curr).skip(0) =~= seq_of(curr));
            }
            (None, None)
        },
        Some(mut node) => {
            let ghost whole = node.seq();
            let ghost cut = split_point(whole, ind);
            let ghost prio = node.y_key;
            proof {
                assert(node.wf(functions@));
                lemma_wf_size_ok(node.l, functions@);
            }
            let left_cnt: u64 = get_cnt(&node.l);
            let curr_len: u64 = left_cnt + 1;
            if curr_len <= ind {
                let ghost old_right = node.r;
                let right = node.r.take();
                let (mid, r_part) = split(right, ind - curr_len, functions);
                node.r = mid;
                recover(&mut *node, functions);
                let l_part: Link = Some(node);
                proof {
                    assert(cut - curr_len == split_point(seq_of(old_right), (ind - curr_len) as u64));
                    assert(seq_of(l_part) =~= whole.take(cut));
                    assert(seq_of(r_part) =~= whole.skip(cut));
                    if old_right.is_some() {
                        assert(root_prio(old_right) <= prio);
                        assert(root_below(mid, prio));
                        assert(root_below(r_part, prio));
                    }
                    assert(heap_ok(l_part));
                    assert(root_below(l_part, root_prio(curr)));
                }
                (l_part, r_part)
            } else {
                let ghost old_left = node.l;
                let left = node.l.take();
                let (l_part, mid) = split(left, ind, functions);
                node.l = mid;
                recover(&mut *node, functions);
                let r_part: Link = Some(node);
                proof {
                    assert(cut == split_point(seq_of(old_left), ind));
                    assert(seq_of(l_part) =~= whole.take(cut));
                    assert(seq_of(r_part) =~= whole.skip(cut));
                    if old_left.is_some() {
                        assert(root_prio(old_left) <= prio);
                        assert(root_below(l_part, prio));
                        assert(root_below(mid, prio));
                    }
                    assert(heap_ok(r_part));
                    assert(root_below(r_part, root_prio(curr)));
                }
                (l_part, r_part)
            }
        },
    }
}

/// Concatenate two treaps, every element of the left one before every
/// element of the right one; the node priorities decide the shape of the
/// result. The input root with the greater priority becomes the root of the
/// whole — on equal priorities the right one, matching the strict
/// comparison — an empty side leaves the other untouched, and the max-heap
/// ordering is kept.
pub fn merge(l_part: Link, r_part: Link, functions: &Vec<Func>) -> (merged: Link)
    requires
        tree_wf(l_part, functions@),
        tree_wf(r_part, functions@),
        heap_ok(l_part),
        heap_ok(r_part),
        seq_of(l_part).len() + seq_of(r_part).len() <= usize::MAX,
    ensures
        tree_wf(merged, functions@),
        heap_ok(merged),
        seq_of(merged) == seq_of(l_part) + seq_of(r_part),
        l_part.is_none() ==> merged == r_part,
        r_part.is_none() ==> merged == l_part,
        l_part.is_some() && r_part.is_some() && root_prio(l_part) > root_prio(r_part)
            ==> merged.is_some() && root_prio(merged) == root_prio(l_part) && root_value(merged)
            == root_value(l_part),
        l_part.is_some() && r_part.is_some() && root_prio(l_part) <= root_prio(r_part)
            ==> merged.is_some() && root_prio(merged) == root_prio(r_part) && root_value(merged)
            == root_value(r_part),
    decreases l_part, r_part,
{
    if l_part.is_none() {
        proof {
            assert(seq_of(l_part) + seq_of(r_part) =~= seq_of(r_part));
        }
        return r_part;
    }
    if r_part.is_none() {
        proof {
            assert(seq_of(l_part) + seq_of(r_part) =~= seq_of(l_part));
        }
        return l_part;
    }
    let mut l_node = l_part.unwrap();
    let mut r_node = r_part.unwrap();
    if l_node.y_key > r_node.y_key {
        let ghost l_whole = l_node.seq();
        let ghost r_whole = r_node.seq();
        let ghost prio = l_node.y_key;
        let ghost old_tail = l_node.r;
        let ghost r_input: Link = Some(r_node);
        let tail = l_node.r.take();
        let sub = merge(tail, Some(r_node), functions);
        l_node.r = sub;
        recover(&mut *l_node, functions);
        let merged: Link = Some(l_node);
        proof {
            assert(seq_of(merged) =~= l_whole + r_whole);
            assert(root_below(old_tail, prio));
            assert(root_below(r_input, prio));
            assert(root_below(sub, prio));
            assert(heap_ok(merged));
        }
        merged
    } else {
        let ghost l_whole = l_node.seq();
        let ghost r_whole = r_node.seq();
        let ghost prio = r_node.y_key;
        let ghost old_head = r_node.l;
        let ghost l_input: Link = Some(l_node);
        let head = r_node.l.take();
        let sub = merge(Some(l_node), head, functions);
        r_node.l = sub;
        recover(&mut *r_node, functions);
        let merged: Link = Some(r_node);
        proof {
            assert(seq_of(merged) =~= l_whole + r_whole);
            assert(root_below(l_input, prio));
            assert(root_below(old_head, prio));
            assert(root_below(sub, prio));
            assert(heap_ok(merged));
        }
        merged
    }
}

/// Splitting a sequence at any admissible position and merging the parts
/// back together reproduces the sequence, and with it every aggregate, since
/// an aggregate is a function of the sequence alone. This is the round trip
/// that `split` and `merge` promise in their contracts.
pub proof fn lemma_split_merge_round_trip(s: Seq<i64>, k: int)
    requires
        0 <= k <= s.len(),
    ensures
        s.take(k) + s.skip(k) == s,
        forall|f: Func| #[trigger] f.agg(s.take(k) + s.skip(k)) == f.agg(s),
{
    assert(s.take(k) + s.skip(k) =~= s);
}

/// A reference to the value at position `ind` of the subtree; the position
/// is derived from the stored subtree sizes.
pub fn find_index(curr: &Link, ind: u64) -> (value: &i64)
    requires
        size_ok(*curr),
        ind < seq_of(*curr).len(),
    ensures
        *value == seq_of(*curr)[ind as int],
    decreases curr,
{
    let node = curr.as_ref().unwrap();
    proof {
        assert(node.size_ok());
    }
    let curr_len: u64 = get_cnt(&node.l) + 1;
    if curr_len == ind + 1 {
        proof {
            assert(node.seq()[ind as int] == node.value);
        }
        &node.value
    } else if curr_len < ind + 1 {
        proof {
            assert(node.seq()[ind as int] == seq_of(node.r)[ind - curr_len]);
        }
        find_index(&node.r, ind - curr_len)
    } else {
        proof {
            assert(node.seq()[ind as int] == seq_of(node.l)[ind as int]);
        }
        find_index(&node.l, ind)
    }
}

/// Replace the value at position `ind` with `new_value` and return the value
/// it replaces. The aggregates along the path to the node are recomputed on
/// the way back up, so the tree stays well-formed; no priority changes, so
/// the max-heap ordering and the root's rank stay as they were.
pub fn find_mut_index(curr: &mut Link, ind: u64, new_value: i64, functions: &Vec<Func>) -> (prev:
    i64)
    requires
        tree_wf(*old(curr), functions@),
        heap_ok(*old(curr)),
        ind < seq_of(*old(curr)).len(),
    ensures
        tree_wf(*final(curr), functions@),
        heap_ok(*final(curr)),
        (*final(curr)).is_some() == (*old(curr)).is_some(),
        root_prio(*final(curr)) == root_prio(*old(curr)),
        seq_of(*final(curr)) == seq_of(*old(curr)).update(ind as int, new_value),
        prev == seq_of(*old(curr))[ind as int],
    decreases *old(curr),
{
    let mut node = curr.take().unwrap();
    let ghost whole = node.seq();
    proof {
        assert(node.wf(functions@));
        lemma_wf_size_ok(node.l, functions@);
    }
    let curr_len: u64 = get_cnt(&node.l) + 1;
    let prev: i64;
    if curr_len == ind + 1 {
        prev = node.value;
        node.value = new_value;
        recover(&mut *node, functions);
        proof {
            assert(whole[ind as int] == prev);
            assert(node.seq() =~= whole.update(ind as int, new_value));
        }
    } else if curr_len < ind + 1 {
        let mut right = node.r.take();
        prev = find_mut_index(&mut right, ind - curr_len, new_value, functions);
        node.r = right;
        recover(&mut *node, functions);
        proof {
            assert(whole[ind as int] == prev);
            assert(node.seq() =~= whole.update(ind as int, new_value));
        }
    } else {
        let mut left = node.l.take();
        prev = find_mut_index(&mut left, ind, new_value, functions);
        node.l = left;
        recover(&mut *node, functions);
        proof {
            assert(whole[ind as int] == prev);
            assert(node.seq() =~= whole.update(ind as int, new_value));
        }
    }
    let updated: Link = Some(node);
    proof {
        assert(heap_ok(updated));
    }
    *curr = updated;
    prev
}

/// Release a whole subtree, children before parents, and leave the empty
/// tree behind. Explicit post-order release keeps the recursion bounded by
/// the depth of the tree.
pub fn drop_treap(curr: &mut Link)
    ensures
        (*final(curr)).is_none(),
    decreases *old(curr),
{
    match curr.take() {
        None => {},
        Some(mut node) => {
            drop_treap(&mut node.l);
            drop_treap(&mut node.r);
        },
    }
}

/// A deep copy of a subtree: node for node the same shape, count, priority,
/// value and aggregates, sharing no node with the original.
pub fn clone_treap(curr: &Link) -> (cloned: Link)
    ensures
        same_structure(*curr, cloned),
        seq_of(cloned) == seq_of(*curr),
        cloned.is_some() == curr.is_some(),
        size_ok(*curr) ==> size_ok(cloned),
        heap_ok(*curr) ==> heap_ok(cloned),
        forall|fns: Seq<Func>| #[trigger] tree_wf(*curr, fns) ==> tree_wf(cloned, fns),
    decreases curr,
{
    match curr {
        None => None,
        Some(node) => {
            let new_l = clone_treap(&node.l);
            let new_r = clone_treap(&node.r);
            let new_values = node.value_all.clone();
            proof {
                assert(new_values@ =~= node.value_all@);
            }
            let new_node = ImplicitTreap {
                cnt: node.cnt,
                y_key: node.y_key,
                value: node.value,
                value_all: new_values,
                l: new_l,
                r: new_r,
            };
            let ghost gnode = new_node;
            let cloned: Link = Some(Box::new(new_node));
            proof {
                assert(gnode.seq() =~= node.seq());
                assert(seq_of(cloned) == gnode.seq());
                assert(same_structure(*curr, cloned));
                if node.size_ok() {
                    assert(gnode.size_ok());
                }
                if heap_ok(*curr) {
                    assert(root_below(gnode.l, gnode.y_key));
                    assert(root_below(gnode.r, gnode.y_key));
                    assert(heap_ok(cloned));
                }
                assert forall|fns: Seq<Func>| #[trigger] tree_wf(*curr, fns) implies tree_wf(
                    cloned,
                    fns,
                ) by {
                    assert(node.wf(fns));
                    assert(tree_wf(node.l, fns));
                    assert(tree_wf(node.r, fns));
                    assert(tree_wf(gnode.l, fns));
                    assert(tree_wf(gnode.r, fns));
                    assert(gnode.wf(fns));
                }
            }
            cloned
        },
    }
}

/// Append every value of the subtree to `v`, in order.
pub fn collect_elements(curr: &Link, v: &mut Vec<i64>)
    ensures
        final(v)@ == old(v)@ + seq_of(*curr),
    decreases curr,
{
    match curr {
        None => {
            proof {
                assert(v@ + seq_of(*curr) =~= v@);
            }
        },
        Some(node) => {
            collect_elements(&node.l, v);
            v.push(node.value);
            collect_elements(&node.r, v);
            proof {
                assert(v@ =~= old(v)@ + node.seq());
            }
        },
    }
}

} // verus!
