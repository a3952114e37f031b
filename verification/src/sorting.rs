use vstd::prelude::*;
use vstd::multiset::Multiset;

verus! {

/// A value ordered by a number.
pub trait Keyed {
    spec fn key_of(&self) -> int;

    fn key(&self) -> (r: u128)
        ensures
            r == self.key_of(),
    ;
}

/// The number of elements at the front of `r` whose key is at most `key`.
pub open spec fn prefix_not_greater<T: Keyed>(r: Seq<T>, key: int) -> nat
    decreases r.len(),
{
    if r.len() == 0 {
        0
    } else if r[0].key_of() > key {
        0
    } else {
        1 + prefix_not_greater(r.skip(1), key)
    }
}

/// `x` inserted into `r` behind all elements at the front whose key is not greater.
pub open spec fn insert_by_key<T: Keyed>(r: Seq<T>, x: T) -> Seq<T> {
    let k = prefix_not_greater(r, x.key_of()) as int;
    r.take(k) + seq![x] + r.skip(k)
}

/// `s` ordered by key, elements of equal key in their order in `s`.
pub open spec fn sort_by_key<T: Keyed>(s: Seq<T>) -> Seq<T>
    decreases s.len(),
{
    if s.len() == 0 {
        Seq::empty()
    } else {
        insert_by_key(sort_by_key(s.drop_last()), s.last())
    }
}

/// The keys of `s` never decrease.
pub open spec fn sorted_by_key<T: Keyed>(s: Seq<T>) -> bool {
    forall|i: int, j: int| 0 <= i < j < s.len() ==> s[i].key_of() <= s[j].key_of()
}

proof fn lemma_prefix_bound<T: Keyed>(r: Seq<T>, key: int)
    ensures
        prefix_not_greater(r, key) <= r.len(),
        forall|i: int| 0 <= i < prefix_not_greater(r, key) ==> r[i].key_of() <= key,
        prefix_not_greater(r, key) < r.len() ==> r[prefix_not_greater(r, key) as int].key_of() > key,
    decreases r.len(),
{
    if r.len() > 0 && r[0].key_of() <= key {
        lemma_prefix_bound(r.skip(1), key);
        assert forall|i: int| 0 <= i < prefix_not_greater(r, key) implies r[i].key_of() <= key by {
            if i > 0 {
                assert(r[i] == r.skip(1)[i - 1]);
            }
        }
    }
}

proof fn lemma_insert_by_key<T: Keyed>(r: Seq<T>, x: T)
    requires
        sorted_by_key(r),
    ensures
        sorted_by_key(insert_by_key(r, x)),
        insert_by_key(r, x).len() == r.len() + 1,
        insert_by_key(r, x).to_multiset() == r.to_multiset().insert(x),
{
    lemma_prefix_bound(r, x.key_of());
    let k = prefix_not_greater(r, x.key_of()) as int;
    let out = insert_by_key(r, x);
    assert forall|i: int, j: int| 0 <= i < j < out.len() implies out[i].key_of()
        <= out[j].key_of() by {
        if j < k {
            assert(out[i] == r[i] && out[j] == r[j]);
        } else if j == k {
            assert(out[j] == x);
            assert(out[i] == r[i]);
        } else if i < k {
            assert(out[i] == r[i] && out[j] == r[j - 1]);
        } else if i == k {
            assert(out[i] == x && out[j] == r[j - 1]);
            assert(r[k].key_of() > x.key_of());
            assert(r[k].key_of() <= r[j - 1].key_of() || j - 1 == k);
        } else {
            assert(out[i] == r[i - 1] && out[j] == r[j - 1]);
        }
    }
    vstd::seq_lib::lemma_multiset_commutative(r.take(k) + seq![x], r.skip(k));
    vstd::seq_lib::lemma_multiset_commutative(r.take(k), seq![x]);
    vstd::seq_lib::lemma_multiset_commutative(r.take(k), r.skip(k));
    assert(r.take(k) + r.skip(k) == r);
    assert(seq![x].to_multiset() =~= Multiset::empty().insert(x)) by {
        assert(seq![x] == Seq::<T>::empty().push(x));
        Seq::<T>::empty().to_multiset_ensures();
        Seq::<T>::empty().push(x).to_multiset_ensures();
    }
}

/// Sorting by key keeps the elements and orders them by key.
pub proof fn lemma_sort_by_key<T: Keyed>(s: Seq<T>)
    ensures
        sorted_by_key(sort_by_key(s)),
        sort_by_key(s).len() == s.len(),
        sort_by_key(s).to_multiset() == s.to_multiset(),
    decreases s.len(),
{
    if s.len() > 0 {
        lemma_sort_by_key(s.drop_last());
        lemma_insert_by_key(sort_by_key(s.drop_last()), s.last());
        s.drop_last().to_multiset_ensures();
        assert(s.drop_last().push(s.last()) == s);
    } else {
        assert(s.to_multiset() =~= Multiset::empty()) by {
            s.to_multiset_ensures();
        }
        Seq::<T>::empty().to_multiset_ensures();
    }
}

/// Orders `v` by key; elements of equal key keep their order.
pub fn stable_sort_by_key<T: Keyed>(v: Vec<T>) -> (r: Vec<T>)
    ensures
        r@ == sort_by_key(v@),
{
    let ghost all = v@;
    let mut remaining = v;
    let mut sorted: Vec<T> = Vec::new();
    let mut n: usize = 0;
    let total = remaining.len();
    while remaining.len() > 0
        invariant
            n + remaining@.len() == total,
            total == all.len(),
            remaining@ == all.skip(n as int),
            sorted@ == sort_by_key(all.take(n as int)),
        decreases remaining@.len(),
    {
        let x = remaining.remove(0);
        assert(remaining@ =~= all.skip(n + 1));
        let ghost r = sorted@;
        let key = x.key();
        let mut pos: usize = 0;
        assert(r.skip(0) == r);
        while pos < sorted.len() && sorted[pos].key() <= key
            invariant
                pos <= sorted@.len(),
                r == sorted@,
                key == x.key_of(),
                prefix_not_greater(r, key as int) == pos + prefix_not_greater(r.skip(pos as int), key as int),
            decreases sorted@.len() - pos,
        {
            assert(r.skip(pos as int)[0] == r[pos as int]);
            assert(r.skip(pos as int).skip(1) == r.skip(pos + 1));
            pos = pos + 1;
        }
        proof {
            if pos < r.len() {
                assert(r.skip(pos as int)[0] == r[pos as int]);
            }
        }
        sorted.insert(pos, x);
        proof {
            assert(all.take(n + 1).drop_last() == all.take(n as int));
            assert(all.take(n + 1).last() == x) by {
                assert(all.skip(n as int)[0] == all[n as int]);
            }
            assert(sorted@ =~= insert_by_key(r, x));
        }
        n = n + 1;
    }
    assert(all.take(n as int) == all);
    sorted
}

} // verus!
