use vstd::prelude::*;

verus! {

broadcast use vstd::seq_lib::group_to_multiset_ensures;

/// `s` with the entries at `i` and `j` exchanged.
pub open spec fn swap_spec<A>(s: Seq<A>, i: int, j: int) -> Seq<A> {
    s.update(i, s[j]).update(j, s[i])
}

/// Exchanging two entries keeps the length and the multiset of entries.
pub proof fn lemma_swap_multiset<A>(s: Seq<A>, i: int, j: int)
    requires
        0 <= i < s.len(),
        0 <= j < s.len(),
    ensures
        swap_spec(s, i, j).len() == s.len(),
        swap_spec(s, i, j).to_multiset() == s.to_multiset(),
{
    broadcast use vstd::multiset::group_multiset_axioms;

    let s1 = s.update(i, s[j]);
    assert(s1.to_multiset() =~= s.to_multiset().insert(s[j]).remove(s[i]));
    assert(swap_spec(s, i, j).to_multiset() =~= s1.to_multiset().insert(s[i]).remove(s1[j]));
    assert(swap_spec(s, i, j).to_multiset() =~= s.to_multiset());
}

/// Returns an element-by-element copy of `a`.
pub fn copy_vec<T: Copy>(a: &Vec<T>) -> (res: Vec<T>)
    ensures
        res@ == a@,
{
    let mut res: Vec<T> = Vec::new();
    let len = a.len();
    for i in 0..len
        invariant
            len == a.len(),
            res@ == a@.take(i as int),
    {
        res.push(a[i]);
        assert(a@.take(i + 1) =~= a@.take(i as int).push(a@[i as int]));
    }
    assert(a@.take(len as int) =~= a@);
    res
}

} // verus!
