use vstd::prelude::*;

use crate::random::random_int_range;
use crate::tool_func::{copy_vec, lemma_swap_multiset, swap_spec};

verus! {

/// Number of lattice points of the noise generator; the lattice hash masks
/// coordinates with `POINT_COUNT - 1`.
pub const POINT_COUNT: u32 = 256;

/// Targets for a Fisher-Yates pass over the first `n` entries: step `m`
/// handles position `n - 1 - m` and may exchange it with any position up
/// to it.
pub open spec fn valid_targets(t: Seq<usize>, n: int) -> bool {
    &&& t.len() == n
    &&& forall|m: int| 0 <= m < n ==> #[trigger] t[m] <= n - 1 - m
}

/// The entries after the steps in `t` of a Fisher-Yates pass over the first
/// `n` entries of `s`: step `m` exchanges position `n - 1 - m` with `t[m]`.
pub open spec fn fisher_yates(s: Seq<i32>, n: int, t: Seq<usize>) -> Seq<i32>
    decreases t.len(),
{
    if t.len() == 0 {
        s
    } else {
        let m = t.len() - 1;
        swap_spec(fisher_yates(s, n, t.drop_last()), n - 1 - m, t[m] as int)
    }
}

/// The sequence `0, 1, ..., n - 1`.
pub open spec fn identity_perm(n: int) -> Seq<i32> {
    Seq::new(n as nat, |v: int| v as i32)
}

/// `s` is what some Fisher-Yates pass makes of `0, 1, ..., n - 1`.
pub open spec fn is_shuffle_of_identity(s: Seq<i32>, n: int) -> bool {
    exists|t: Seq<usize>| valid_targets(t, n) && s == fisher_yates(identity_perm(n), n, t)
}

/// `s` holds each of `0, 1, ..., n - 1` exactly once.
pub open spec fn is_perm_of_range(s: Seq<i32>, n: int) -> bool {
    &&& s.len() == n
    &&& forall|i: int| 0 <= i < n ==> 0 <= #[trigger] s[i] < n
    &&& s.no_duplicates()
}

/// The lattice hash of the noise generator: the three permutation tables
/// read at the coordinates' low eight bits, combined by exclusive or.
pub open spec fn lattice_hash(px: Seq<i32>, py: Seq<i32>, pz: Seq<i32>, i: i32, j: i32, k: i32) -> i32 {
    px[(i & 255) as int] ^ py[(j & 255) as int] ^ pz[(k & 255) as int]
}

/// The lattice hash depends on each of the three tables at the slot it
/// reads: changing the x, y or z table at the coordinate's low eight bits
/// (and nothing else) changes the hash.
pub proof fn lemma_lattice_hash_reads_each_table(
    px: Seq<i32>,
    py: Seq<i32>,
    pz: Seq<i32>,
    i: i32,
    j: i32,
    k: i32,
    v: i32,
)
    requires
        0 <= (i & 255) < px.len(),
        0 <= (j & 255) < py.len(),
        0 <= (k & 255) < pz.len(),
    ensures
        v != px[(i & 255) as int] ==> lattice_hash(px.update((i & 255) as int, v), py, pz, i, j, k)
            != lattice_hash(px, py, pz, i, j, k),
        v != py[(j & 255) as int] ==> lattice_hash(px, py.update((j & 255) as int, v), pz, i, j, k)
            != lattice_hash(px, py, pz, i, j, k),
        v != pz[(k & 255) as int] ==> lattice_hash(px, py, pz.update((k & 255) as int, v), i, j, k)
            != lattice_hash(px, py, pz, i, j, k),
        lattice_hash(px, py, pz, i, j, k) == px[(i & 255) as int] ^ py[(j & 255) as int] ^ pz[(k
            & 255) as int],
{
    let a = px[(i & 255) as int];
    let b = py[(j & 255) as int];
    let c = pz[(k & 255) as int];
    assert(forall|x: i32, y: i32, z: i32, w: i32| #![auto] w != x ==> (w ^ y ^ z) != (x ^ y ^ z))
        by (bit_vector);
    assert(forall|x: i32, y: i32, z: i32, w: i32| #![auto] w != y ==> (x ^ w ^ z) != (x ^ y ^ z))
        by (bit_vector);
    assert(forall|x: i32, y: i32, z: i32, w: i32| #![auto] w != z ==> (x ^ y ^ w) != (x ^ y ^ z))
        by (bit_vector);
    assert(px.update((i & 255) as int, v)[(i & 255) as int] == v);
    assert(py.update((j & 255) as int, v)[(j & 255) as int] == v);
    assert(pz.update((k & 255) as int, v)[(k & 255) as int] == v);
}

proof fn lemma_swap_keeps_perm_of_range(s: Seq<i32>, n: int, i: int, j: int)
    requires
        is_perm_of_range(s, n),
        0 <= i < n,
        0 <= j < n,
    ensures
        is_perm_of_range(swap_spec(s, i, j), n),
{
    let r = swap_spec(s, i, j);
    let src = |a: int| if a == j { i } else if a == i { j } else { a };
    assert forall|a: int| 0 <= a < n implies r[a] == s[src(a)] by {}
    assert forall|a: int, b: int| 0 <= a < n && 0 <= b < n && a != b implies r[a] != r[b] by {
        assert(r[a] == s[src(a)]);
        assert(r[b] == s[src(b)]);
    }
}

/// A Fisher-Yates pass, whatever targets it draws, rearranges its input:
/// same length, same multiset of entries.
pub proof fn lemma_fisher_yates_multiset(s: Seq<i32>, n: int, t: Seq<usize>)
    requires
        n <= s.len(),
        t.len() <= n,
        forall|m: int| 0 <= m < t.len() ==> #[trigger] t[m] <= n - 1 - m,
    ensures
        fisher_yates(s, n, t).len() == s.len(),
        fisher_yates(s, n, t).to_multiset() == s.to_multiset(),
    decreases t.len(),
{
    if t.len() > 0 {
        let m = t.len() - 1;
        let tp = t.drop_last();
        assert forall|q: int| 0 <= q < tp.len() implies #[trigger] tp[q] <= n - 1 - q by {
            assert(tp[q] == t[q]);
        }
        lemma_fisher_yates_multiset(s, n, tp);
        assert(t[m] <= n - 1 - m);
        lemma_swap_multiset(fisher_yates(s, n, tp), n - 1 - m, t[m] as int);
    }
}

/// A Fisher-Yates pass over a permutation of `0..n`, whatever targets it
/// draws, gives a permutation of `0..n`.
pub proof fn lemma_fisher_yates_perm_of_range(s: Seq<i32>, n: int, t: Seq<usize>)
    requires
        is_perm_of_range(s, n),
        t.len() <= n,
        forall|m: int| 0 <= m < t.len() ==> #[trigger] t[m] <= n - 1 - m,
    ensures
        is_perm_of_range(fisher_yates(s, n, t), n),
    decreases t.len(),
{
    if t.len() > 0 {
        let m = t.len() - 1;
        let tp = t.drop_last();
        assert forall|q: int| 0 <= q < tp.len() implies #[trigger] tp[q] <= n - 1 - q by {
            assert(tp[q] == t[q]);
        }
        lemma_fisher_yates_perm_of_range(s, n, tp);
        assert(t[m] <= n - 1 - m);
        lemma_swap_keeps_perm_of_range(fisher_yates(s, n, tp), n, n - 1 - m, t[m] as int);
    }
}

/// The first step of a pass fixes position `n - 1`; the remaining steps are
/// a pass over the first `n - 1` entries.
proof fn lemma_fisher_yates_first_step(s: Seq<i32>, n: int, t: Seq<usize>)
    requires
        t.len() >= 1,
    ensures
        fisher_yates(s, n, t) == fisher_yates(swap_spec(s, n - 1, t[0] as int), n - 1, t.drop_first()),
    decreases t.len(),
{
    let s1 = swap_spec(s, n - 1, t[0] as int);
    if t.len() == 1 {
        assert(t.drop_last() =~= Seq::<usize>::empty());
        assert(t.drop_first() =~= Seq::<usize>::empty());
        assert(fisher_yates(s, n, t.drop_last()) == s);
        assert(fisher_yates(s, n, t) == swap_spec(s, n - 1, t[0] as int));
        assert(fisher_yates(s1, n - 1, t.drop_first()) == s1);
    } else {
        let l = t.len();
        let tl = t.drop_last();
        let tf = t.drop_first();
        lemma_fisher_yates_first_step(s, n, tl);
        assert(tl[0] == t[0]);
        assert(tl.drop_first() =~= tf.drop_last());
        assert(tf[tf.len() - 1] == t[l - 1]);
        assert(fisher_yates(s, n, t) == swap_spec(fisher_yates(s, n, tl), n - 1 - (l - 1), t[l - 1] as int));
        assert(fisher_yates(s1, n - 1, tf) == swap_spec(
            fisher_yates(s1, n - 1, tf.drop_last()),
            (n - 1) - 1 - (tf.len() - 1),
            tf[tf.len() - 1] as int,
        ));
    }
}

/// Every rearrangement can come out of a Fisher-Yates pass: for any `q`
/// that holds the first `n` entries of `s` in some order and agrees with
/// `s` after them, some targets, each drawn from its whole allowed range,
/// lead the pass from `s` to `q`. With the identity as `s`, every
/// permutation of `0..n` is one of the pass's outcomes.
pub proof fn lemma_fisher_yates_reaches_every_rearrangement(s: Seq<i32>, n: int, q: Seq<i32>)
    requires
        0 <= n <= s.len(),
        n <= usize::MAX,
        q.len() == s.len(),
        forall|i: int| n <= i < s.len() ==> #[trigger] q[i] == s[i],
        q.subrange(0, n).to_multiset() == s.subrange(0, n).to_multiset(),
    ensures
        exists|t: Seq<usize>| valid_targets(t, n) && #[trigger] fisher_yates(s, n, t) == q,
    decreases n,
{
    broadcast use vstd::multiset::group_multiset_axioms;
    broadcast use vstd::seq_lib::group_to_multiset_ensures;

    if n == 0 {
        let t = Seq::<usize>::empty();
        assert(q =~= s);
        assert(valid_targets(t, n));
        assert(fisher_yates(s, n, t) == q);
    } else {
        let x = q[n - 1];
        let qp = q.subrange(0, n);
        let sp = s.subrange(0, n);
        assert(qp[n - 1] == x);
        assert(qp.contains(x));
        assert(qp.to_multiset().count(x) > 0);
        assert(sp.to_multiset().count(x) > 0);
        assert(sp.contains(x));
        let j = choose|j: int| 0 <= j < n && sp[j] == x;
        assert(s[j] == x);
        assert((j as usize) as int == j);
        let s1 = swap_spec(s, n - 1, j);
        // prefixes of length n: the swap stays inside them
        assert(s1.subrange(0, n) =~= swap_spec(sp, n - 1, j));
        lemma_swap_multiset(sp, n - 1, j);
        assert(s1.subrange(0, n) =~= s1.subrange(0, n - 1).push(x));
        assert(qp =~= q.subrange(0, n - 1).push(x));
        assert(s1.subrange(0, n - 1).to_multiset().insert(x) =~= q.subrange(0, n - 1).to_multiset().insert(x));
        assert(s1.subrange(0, n - 1).to_multiset() =~= q.subrange(0, n - 1).to_multiset()) by {
            let a = s1.subrange(0, n - 1).to_multiset();
            let b = q.subrange(0, n - 1).to_multiset();
            assert forall|v: i32| a.count(v) == b.count(v) by {
                assert(a.insert(x).count(v) == b.insert(x).count(v));
            }
        }
        assert forall|i: int| n - 1 <= i < s1.len() implies #[trigger] q[i] == s1[i] by {
            if i == n - 1 {
            } else {
                assert(q[i] == s[i]);
            }
        }
        lemma_fisher_yates_reaches_every_rearrangement(s1, n - 1, q);
        let tp = choose|tp: Seq<usize>| valid_targets(tp, n - 1) && #[trigger] fisher_yates(s1, n - 1, tp) == q;
        let t = seq![j as usize].add(tp);
        assert(t.drop_first() =~= tp);
        assert(t[0] == j as usize);
        assert forall|m: int| 0 <= m < n implies #[trigger] t[m] <= n - 1 - m by {
            if m > 0 {
                assert(t[m] == tp[m - 1]);
            }
        }
        assert(valid_targets(t, n));
        lemma_fisher_yates_first_step(s, n, t);
        assert(fisher_yates(s, n, t) == q);
    }
}

/// Every permutation of `0..n` is a possible outcome of the shuffle that
/// makes a Perlin table: some Fisher-Yates pass over the identity gives it.
pub proof fn lemma_every_permutation_is_a_shuffle(q: Seq<i32>, n: int)
    requires
        0 <= n <= usize::MAX,
        q.len() == n,
        q.to_multiset() == identity_perm(n).to_multiset(),
    ensures
        is_shuffle_of_identity(q, n),
{
    let s = identity_perm(n);
    assert(q.subrange(0, n) =~= q);
    assert(s.subrange(0, n) =~= s);
    lemma_fisher_yates_reaches_every_rearrangement(s, n, q);
}

/// Permutation tables of the Perlin noise generator: three shuffles of
/// `0..point_count`, one per axis, hashed together to pick a gradient for
/// each lattice point.
pub struct Perlin {
    pub point_count: u32,
    pub perm_x: Vec<i32>,
    pub perm_y: Vec<i32>,
    pub perm_z: Vec<i32>,
}

impl Perlin {
    /// Well-formed tables: `POINT_COUNT` points, each table a permutation
    /// of `0..POINT_COUNT`.
    pub open spec fn wf(&self) -> bool {
        &&& self.point_count == POINT_COUNT
        &&& is_perm_of_range(self.perm_x@, POINT_COUNT as int)
        &&& is_perm_of_range(self.perm_y@, POINT_COUNT as int)
        &&& is_perm_of_range(self.perm_z@, POINT_COUNT as int)
    }

    pub open spec fn spec_hash(&self, i: i32, j: i32, k: i32) -> i32 {
        lattice_hash(self.perm_x@, self.perm_y@, self.perm_z@, i, j, k)
    }

    /// An entry-by-entry copy of the tables.
    pub fn copy(&self) -> (res: Perlin)
        ensures
            res.point_count == self.point_count,
            res.perm_x@ == self.perm_x@,
            res.perm_y@ == self.perm_y@,
            res.perm_z@ == self.perm_z@,
    {
        Perlin {
            point_count: self.point_count,
            perm_x: copy_vec(&self.perm_x),
            perm_y: copy_vec(&self.perm_y),
            perm_z: copy_vec(&self.perm_z),
        }
    }

    /// Fresh tables: three independent random shuffles of `0..POINT_COUNT`.
    pub fn perlin() -> (res: Perlin)
        ensures
            res.wf(),
            is_shuffle_of_identity(res.perm_x@, POINT_COUNT as int),
            is_shuffle_of_identity(res.perm_y@, POINT_COUNT as int),
            is_shuffle_of_identity(res.perm_z@, POINT_COUNT as int),
    {
        let ppoint_count: u32 = POINT_COUNT;
        let pperm_x = Perlin::perlin_generate_perm(ppoint_count);
        let pperm_y = Perlin::perlin_generate_perm(ppoint_count);
        let pperm_z = Perlin::perlin_generate_perm(ppoint_count);
        Perlin { point_count: ppoint_count, perm_x: pperm_x, perm_y: pperm_y, perm_z: pperm_z }
    }

    /// A random permutation of `0..point_count`: the identity shuffled by a
    /// Fisher-Yates pass.
    pub fn perlin_generate_perm(point_count: u32) -> (p: Vec<i32>)
        requires
            point_count <= i32::MAX,
        ensures
            is_perm_of_range(p@, point_count as int),
            is_shuffle_of_identity(p@, point_count as int),
    {
        let mut p: Vec<i32> = Vec::new();
        for i in 0..point_count
            invariant
                point_count <= i32::MAX,
                p@ == identity_perm(i as int),
        {
            p.push(i as i32);
            assert(p@ =~= identity_perm(i + 1));
        }
        let ghost identity = p@;
        assert(is_perm_of_range(identity, point_count as int));
        Perlin::permute(&mut p, point_count);
        proof {
            let t = choose|t: Seq<usize>|
                valid_targets(t, point_count as int) && p@ == fisher_yates(
                    identity,
                    point_count as int,
                    t,
                );
            lemma_fisher_yates_perm_of_range(identity, point_count as int, t);
        }
        p
    }

    /// Shuffles the first `point_count` entries of `p` in place: for
    /// `i = point_count - 1` down to `0`, the entry at `i` is exchanged with
    /// the one at a position drawn at random from `0..=i`.
    pub fn permute(p: &mut Vec<i32>, point_count: u32)
        requires
            point_count <= old(p).len(),
            point_count <= i32::MAX,
        ensures
            final(p)@.to_multiset() == old(p)@.to_multiset(),
            exists|t: Seq<usize>|
                valid_targets(t, point_count as int) && final(p)@ == fisher_yates(
                    old(p)@,
                    point_count as int,
                    t,
                ),
    {
        let mut targets: Vec<usize> = Vec::new();
        for m in 0..point_count
            invariant
                point_count <= i32::MAX,
                targets.len() == m,
                forall|q: int| 0 <= q < m ==> #[trigger] targets@[q] <= point_count - 1 - q,
        {
            let i: u32 = point_count - 1 - m;
            let target = random_int_range(0, i as i32);
            targets.push(target as usize);
        }
        Perlin::permute_with(p, point_count, &targets);
        assert(valid_targets(targets@, point_count as int));
    }

    /// The Fisher-Yates pass of [`Perlin::permute`] with its random choices
    /// given: step `m` exchanges the entry at `point_count - 1 - m` with the
    /// one at `targets[m]`.
    pub fn permute_with(p: &mut Vec<i32>, point_count: u32, targets: &Vec<usize>)
        requires
            point_count <= old(p).len(),
            valid_targets(targets@, point_count as int),
        ensures
            final(p)@ == fisher_yates(old(p)@, point_count as int, targets@),
            final(p)@.to_multiset() == old(p)@.to_multiset(),
    {
        let ghost s = p@;
        let ghost n = point_count as int;
        for m in 0..point_count
            invariant
                point_count <= s.len(),
                valid_targets(targets@, n),
                n == point_count,
                p@ == fisher_yates(s, n, targets@.take(m as int)),
                p@.len() == s.len(),
        {
            let i: usize = (point_count - 1 - m) as usize;
            let target: usize = targets[m as usize];
            assert(target <= n - 1 - m);
            let tmp = p[i];
            let other = p[target];
            p.set(i, other);
            p.set(target, tmp);
            assert(targets@.take(m + 1).drop_last() =~= targets@.take(m as int));
        }
        assert(targets@.take(n) =~= targets@);
        proof {
            lemma_fisher_yates_multiset(s, n, targets@);
        }
    }

    /// The tables have entries at the low eight bits of `i`, `j` and `k`.
    pub open spec fn readable(&self, i: i32, j: i32, k: i32) -> bool {
        &&& ((i & 255) as int) < self.perm_x@.len()
        &&& ((j & 255) as int) < self.perm_y@.len()
        &&& ((k & 255) as int) < self.perm_z@.len()
    }

    /// The tables have entries for every corner of the cell at `(i, j, k)`.
    pub open spec fn cell_readable(&self, i: i32, j: i32, k: i32) -> bool {
        forall|di: int, dj: int, dk: int|
            0 <= di < 2 && 0 <= dj < 2 && 0 <= dk < 2 ==> #[trigger] self.readable(
                (i + di) as i32,
                (j + dj) as i32,
                (k + dk) as i32,
            )
    }

    /// The gradient slot for lattice point `(i, j, k)`; with well-formed
    /// tables it lies below `POINT_COUNT`.
    pub fn hash(&self, i: i32, j: i32, k: i32) -> (h: usize)
        requires
            self.readable(i, j, k),
        ensures
            h == (self.perm_x@[(i & 255) as int] ^ self.perm_y@[(j & 255) as int]
                ^ self.perm_z@[(k & 255) as int]) as usize,
            h == self.spec_hash(i, j, k) as usize,
            self.wf() ==> h == self.spec_hash(i, j, k) && h < POINT_COUNT,
    {
        let a: usize = (i & 255) as usize;
        let b: usize = (j & 255) as usize;
        let c: usize = (k & 255) as usize;
        assert(0 <= (i & 255) < 256) by (bit_vector);
        assert(0 <= (j & 255) < 256) by (bit_vector);
        assert(0 <= (k & 255) < 256) by (bit_vector);
        let x = self.perm_x[a];
        let y = self.perm_y[b];
        let z = self.perm_z[c];
        assert(0 <= x < 256 && 0 <= y < 256 && 0 <= z < 256 ==> 0 <= x ^ y ^ z < 256)
            by (bit_vector);
        (x ^ y ^ z) as usize
    }

    /// Gradient slots of the eight corners of the lattice cell whose lowest
    /// corner is `(i, j, k)`: the entry at `4 * di + 2 * dj + dk` is the slot
    /// of corner `(i + di, j + dj, k + dk)`, for `di, dj, dk` in `{0, 1}`.
    pub fn corner_hashes(&self, i: i32, j: i32, k: i32) -> (res: Vec<usize>)
        requires
            self.cell_readable(i, j, k),
            i < i32::MAX,
            j < i32::MAX,
            k < i32::MAX,
        ensures
            res.len() == 8,
            forall|di: int, dj: int, dk: int|
                0 <= di < 2 && 0 <= dj < 2 && 0 <= dk < 2 ==> #[trigger] res@[4 * di + 2 * dj + dk]
                    == (self.perm_x@[(((i + di) as i32) & 255) as int] ^ self.perm_y@[(((j
                    + dj) as i32) & 255) as int] ^ self.perm_z@[(((k + dk) as i32) & 255) as int])
                    as usize,
            forall|di: int, dj: int, dk: int|
                0 <= di < 2 && 0 <= dj < 2 && 0 <= dk < 2 ==> #[trigger] res@[4 * di + 2 * dj + dk]
                    == self.spec_hash((i + di) as i32, (j + dj) as i32, (k + dk) as i32) as usize,
            self.wf() ==> forall|q: int| 0 <= q < 8 ==> #[trigger] res@[q] < POINT_COUNT,
    {
        let mut res: Vec<usize> = Vec::new();
        for di in 0..2i32
            invariant
                self.cell_readable(i, j, k),
                i < i32::MAX,
                j < i32::MAX,
                k < i32::MAX,
                res.len() == 4 * di,
                forall|a: int, b: int, c: int|
                    0 <= a < di && 0 <= b < 2 && 0 <= c < 2 ==> #[trigger] res@[4 * a + 2 * b + c]
                        == self.spec_hash((i + a) as i32, (j + b) as i32, (k + c) as i32) as usize,
                self.wf() ==> forall|q: int| 0 <= q < res.len() ==> #[trigger] res@[q] < POINT_COUNT,
        {
            for dj in 0..2i32
                invariant
                    self.cell_readable(i, j, k),
                    0 <= di < 2,
                    i < i32::MAX,
                    j < i32::MAX,
                    k < i32::MAX,
                    res.len() == 4 * di + 2 * dj,
                    forall|a: int, b: int, c: int|
                        0 <= a < 2 && 0 <= b < 2 && 0 <= c < 2 && (a < di || (a == di && b < dj))
                            ==> #[trigger] res@[4 * a + 2 * b + c] == self.spec_hash(
                            (i + a) as i32,
                            (j + b) as i32,
                            (k + c) as i32,
                        ) as usize,
                    self.wf() ==> forall|q: int| 0 <= q < res.len() ==> #[trigger] res@[q] < POINT_COUNT,
            {
                for dk in 0..2i32
                    invariant
                        self.cell_readable(i, j, k),
                        0 <= di < 2,
                        0 <= dj < 2,
                        i < i32::MAX,
                        j < i32::MAX,
                        k < i32::MAX,
                        res.len() == 4 * di + 2 * dj + dk,
                        forall|a: int, b: int, c: int|
                            0 <= a < 2 && 0 <= b < 2 && 0 <= c < 2 && (a < di || (a == di && (b
                                < dj || (b == dj && c < dk)))) ==> #[trigger] res@[4 * a + 2 * b
                                + c] == self.spec_hash(
                                (i + a) as i32,
                                (j + b) as i32,
                                (k + c) as i32,
                            ) as usize,
                        self.wf() ==> forall|q: int| 0 <= q < res.len() ==> #[trigger] res@[q] < POINT_COUNT,
                {
                    let h = self.hash(i + di, j + dj, k + dk);
                    res.push(h);
                }
            }
        }
        res
    }
}

} // verus!
