use vstd::prelude::*;

use crate::random::random_int_range;
use crate::tool_func::{lemma_swap_multiset, swap_spec};

verus! {

broadcast use vstd::seq_lib::group_to_multiset_ensures;

/// An object of the scene as the hierarchy builder sees it: its index in
/// the scene and, per axis, the lower corner of its bounding box as an
/// order-preserving integer key.
#[derive(Clone, Copy)]
pub struct BvhItem {
    pub id: usize,
    pub key: [u64; 3],
}

/// Layout of a bounding-volume hierarchy node: either a node whose two
/// children are scene objects (given by id; both the same object when the
/// node covers a single one), or a node whose children are nodes.
pub enum BvhTree {
    Leaf { left_id: usize, right_id: usize },
    Node { left: Box<BvhTree>, right: Box<BvhTree> },
}

/// Entries `lo..hi` of `s` are in nondecreasing order of their key on
/// `axis`.
pub open spec fn sorted_between(s: Seq<BvhItem>, lo: int, hi: int, axis: int) -> bool {
    forall|a: int, b: int| lo <= a < b < hi ==> #[trigger] s[a].key@[axis] <= #[trigger] s[b].key@[axis]
}

/// The whole of `s` is in nondecreasing order of the key on `axis`.
pub open spec fn sorted_on(s: Seq<BvhItem>, axis: int) -> bool {
    sorted_between(s, 0, s.len() as int, axis)
}

/// Some entry of `s` has id `id`.
pub open spec fn has_id(s: Seq<BvhItem>, id: usize) -> bool {
    exists|i: int| 0 <= i < s.len() && #[trigger] s[i].id == id
}

/// Every object that `t` refers to is one of the entries of `s`.
pub open spec fn ids_in(t: BvhTree, s: Seq<BvhItem>) -> bool
    decreases t,
{
    match t {
        BvhTree::Leaf { left_id, right_id } => has_id(s, left_id) && has_id(s, right_id),
        BvhTree::Node { left, right } => ids_in(*left, s) && ids_in(*right, s),
    }
}

/// The shape of the hierarchy over `n` objects: one or two objects make a
/// node of objects; more are split into a first half of `n / 2` objects
/// and a second half of the rest, each built in the same way.
pub open spec fn fits_span(t: BvhTree, n: int) -> bool
    decreases t,
{
    match t {
        BvhTree::Leaf { .. } => n == 1 || n == 2,
        BvhTree::Node { left, right } => n > 2 && fits_span(*left, n / 2) && fits_span(
            *right,
            n - n / 2,
        ),
    }
}

/// How the hierarchy over entries `start..end` of `s_in` may come out as
/// `t`, leaving the list as `s_out`. One entry: a node with it on both
/// sides. Two: the second then the first. More: the list is first put in
/// order along some axis, then the first half and the second half are laid
/// out in turn.
pub open spec fn bvh_layout(s_in: Seq<BvhItem>, start: int, end: int, t: BvhTree, s_out: Seq<BvhItem>) -> bool
    decreases end - start,
{
    if end - start <= 0 {
        false
    } else if end - start == 1 {
        &&& s_out == s_in
        &&& t == (BvhTree::Leaf { left_id: s_in[start].id, right_id: s_in[start].id })
    } else if end - start == 2 {
        &&& s_out == s_in
        &&& t == (BvhTree::Leaf { left_id: s_in[start + 1].id, right_id: s_in[start].id })
    } else {
        let mid = start + (end - start) / 2;
        match t {
            BvhTree::Leaf { .. } => false,
            BvhTree::Node { left, right } => exists|axis: int, s1: Seq<BvhItem>, s2: Seq<BvhItem>|
                #![trigger sorted_on(s1, axis), s2.to_multiset()]
                {
                    &&& 0 <= axis < 3
                    &&& s1.to_multiset() == s_in.to_multiset()
                    &&& s1.len() == s_in.len()
                    &&& sorted_on(s1, axis)
                    &&& s2.to_multiset() == s_in.to_multiset()
                    &&& bvh_layout(s1, start, mid, *left, s2)
                    &&& bvh_layout(s2, mid, end, *right, s_out)
                },
        }
    }
}

/// A layout of more than two objects sorts the whole list at every node
/// that splits, and the last of those sorts is never undone (the nodes that
/// follow it hold one or two objects and leave the list alone). So the list
/// comes back sorted along one of the three axes.
pub proof fn lemma_layout_ends_sorted(
    s_in: Seq<BvhItem>,
    start: int,
    end: int,
    t: BvhTree,
    s_out: Seq<BvhItem>,
)
    requires
        bvh_layout(s_in, start, end, t, s_out),
        end - start > 2,
    ensures
        exists|axis: int| 0 <= axis < 3 && #[trigger] sorted_on(s_out, axis),
    decreases end - start,
{
    let mid = start + (end - start) / 2;
    match t {
        BvhTree::Leaf { .. } => {},
        BvhTree::Node { left, right } => {
            let (axis, s1, s2) = choose|axis: int, s1: Seq<BvhItem>, s2: Seq<BvhItem>|
                #![trigger sorted_on(s1, axis), s2.to_multiset()]
                {
                    &&& 0 <= axis < 3
                    &&& s1.to_multiset() == s_in.to_multiset()
                    &&& s1.len() == s_in.len()
                    &&& sorted_on(s1, axis)
                    &&& s2.to_multiset() == s_in.to_multiset()
                    &&& bvh_layout(s1, start, mid, *left, s2)
                    &&& bvh_layout(s2, mid, end, *right, s_out)
                };
            if end - mid > 2 {
                lemma_layout_ends_sorted(s2, mid, end, *right, s_out);
            } else {
                assert(s_out == s2);
                assert(mid - start <= 2);
                assert(s2 == s1);
                assert(sorted_on(s_out, axis));
            }
        },
    }
}

proof fn lemma_layout_node(
    s0: Seq<BvhItem>,
    start: int,
    end: int,
    axis: int,
    s1: Seq<BvhItem>,
    s2: Seq<BvhItem>,
    s3: Seq<BvhItem>,
    l: BvhTree,
    r: BvhTree,
)
    requires
        end - start > 2,
        0 <= axis < 3,
        s1.to_multiset() == s0.to_multiset(),
        s1.len() == s0.len(),
        s2.to_multiset() == s0.to_multiset(),
        sorted_on(s1, axis),
        bvh_layout(s1, start, start + (end - start) / 2, l, s2),
        bvh_layout(s2, start + (end - start) / 2, end, r, s3),
    ensures
        bvh_layout(s0, start, end, BvhTree::Node { left: Box::new(l), right: Box::new(r) }, s3),
{
}

proof fn lemma_has_id_perm(s1: Seq<BvhItem>, s2: Seq<BvhItem>, id: usize)
    requires
        s1.to_multiset() == s2.to_multiset(),
        has_id(s1, id),
    ensures
        has_id(s2, id),
{
    let i = choose|i: int| 0 <= i < s1.len() && #[trigger] s1[i].id == id;
    assert(s1.contains(s1[i]));
    assert(s1.to_multiset().count(s1[i]) > 0);
    assert(s2.to_multiset().count(s1[i]) > 0);
    assert(s2.contains(s1[i]));
    let k = choose|k: int| 0 <= k < s2.len() && s2[k] == s1[i];
    assert(s2[k].id == id);
}

proof fn lemma_ids_in_perm(t: BvhTree, s1: Seq<BvhItem>, s2: Seq<BvhItem>)
    requires
        s1.to_multiset() == s2.to_multiset(),
        ids_in(t, s1),
    ensures
        ids_in(t, s2),
    decreases t,
{
    match t {
        BvhTree::Leaf { left_id, right_id } => {
            lemma_has_id_perm(s1, s2, left_id);
            lemma_has_id_perm(s1, s2, right_id);
        },
        BvhTree::Node { left, right } => {
            lemma_ids_in_perm(*left, s1, s2);
            lemma_ids_in_perm(*right, s1, s2);
        },
    }
}

/// Whether `b`'s box starts before `b`'s own box along `axis`. Both
/// operands are read from `b`, so the answer is always `false`; `a` is not
/// consulted.
pub fn box_compare(a: &BvhItem, b: &BvhItem, axis: i32) -> (r: bool)
    requires
        0 <= axis < 3,
    ensures
        r == (b.key@[axis as int] < b.key@[axis as int]),
        !r,
{
    let box_a: u64 = b.key[axis as usize];
    let box_b: u64 = b.key[axis as usize];
    box_a < box_b
}

/// [`box_compare`] along the x axis.
pub fn box_x_compare(a: &BvhItem, b: &BvhItem) -> (r: bool)
    ensures
        r == (b.key@[0] < b.key@[0]),
{
    box_compare(a, b, 0)
}

/// [`box_compare`] along the y axis.
pub fn box_y_compare(a: &BvhItem, b: &BvhItem) -> (r: bool)
    ensures
        r == (b.key@[1] < b.key@[1]),
{
    box_compare(a, b, 1)
}

/// [`box_compare`] along the z axis.
pub fn box_z_compare(a: &BvhItem, b: &BvhItem) -> (r: bool)
    ensures
        r == (b.key@[2] < b.key@[2]),
{
    box_compare(a, b, 2)
}

/// Sorts all of `items` by the lower corner of their boxes on `axis`.
pub fn sort_by_axis(items: &mut Vec<BvhItem>, axis: usize)
    requires
        axis < 3,
    ensures
        final(items)@.to_multiset() == old(items)@.to_multiset(),
        final(items)@.len() == old(items)@.len(),
        sorted_on(final(items)@, axis as int),
{
    let n = items.len();
    let mut i: usize = 1;
    if n == 0 {
        return;
    }
    while i < n
        invariant
            axis < 3,
            1 <= i <= n,
            n == items.len(),
            items@.to_multiset() == old(items)@.to_multiset(),
            sorted_between(items@, 0, i as int, axis as int),
        decreases n - i,
    {
        let mut j: usize = i;
        while j > 0 && items[j - 1].key[axis] > items[j].key[axis]
            invariant
                axis < 3,
                0 <= j <= i < n,
                n == items.len(),
                items@.to_multiset() == old(items)@.to_multiset(),
                sorted_between(items@, 0, j as int, axis as int),
                sorted_between(items@, j as int, i + 1, axis as int),
                forall|a: int, b: int|
                    0 <= a < j && j < b <= i ==> #[trigger] items@[a].key@[axis as int]
                        <= #[trigger] items@[b].key@[axis as int],
            decreases j,
        {
            let ghost before = items@;
            let x = items[j - 1];
            let y = items[j];
            items.set(j - 1, y);
            items.set(j, x);
            proof {
                assert(items@ == swap_spec(before, (j - 1) as int, j as int));
                lemma_swap_multiset(before, (j - 1) as int, j as int);
            }
            j = j - 1;
        }
        i = i + 1;
    }
}

/// Lays out the hierarchy over entries `start..end` of `items`.
///
/// One object makes a node with that object on both sides; two make a node
/// of the pair, ordered by [`box_compare`] along a random axis. More
/// objects: the whole list is sorted along a random axis and the range is
/// split at its middle, each half laid out in turn (each again sorting the
/// whole list).
pub fn bvh_node(items: &mut Vec<BvhItem>, start: u32, end: u32) -> (t: BvhTree)
    requires
        start < end,
        end <= old(items).len(),
    ensures
        final(items)@.len() == old(items)@.len(),
        final(items)@.to_multiset() == old(items)@.to_multiset(),
        bvh_layout(old(items)@, start as int, end as int, t, final(items)@),
        end - start > 2 ==> exists|axis: int| 0 <= axis < 3 && #[trigger] sorted_on(final(items)@, axis),
        fits_span(t, end - start),
        ids_in(t, old(items)@),
    decreases end - start,
{
    let axis = random_int_range(0, 2);
    let object_span: u32 = end - start;
    if object_span == 1 {
        let id = items[start as usize].id;
        let t = BvhTree::Leaf { left_id: id, right_id: id };
        assert(has_id(items@, items@[start as int].id));
        t
    } else if object_span == 2 {
        let a = items[start as usize].id;
        let b = items[(start + 1) as usize].id;
        assert(has_id(items@, items@[start as int].id));
        assert(has_id(items@, items@[start + 1].id));
        if box_compare(&items[start as usize], &items[(start + 1) as usize], axis) {
            BvhTree::Leaf { left_id: a, right_id: b }
        } else {
            BvhTree::Leaf { left_id: b, right_id: a }
        }
    } else {
        let ghost s0 = items@;
        sort_by_axis(items, axis as usize);
        let ghost s1 = items@;
        let mid: u32 = start + object_span / 2;
        let lleft = bvh_node(items, start, mid);
        let ghost s2 = items@;
        let rright = bvh_node(items, mid, end);
        let ghost s3 = items@;
        proof {
            lemma_ids_in_perm(lleft, s1, s0);
            lemma_ids_in_perm(rright, s2, s0);
        }
        let t = BvhTree::Node { left: Box::new(lleft), right: Box::new(rright) };
        proof {
            lemma_layout_node(s0, start as int, end as int, axis as int, s1, s2, s3, lleft, rright);
            lemma_layout_ends_sorted(s0, start as int, end as int, t, s3);
        }
        t
    }
}

} // verus!
