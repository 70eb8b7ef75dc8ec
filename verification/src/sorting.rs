//! A stable sort: equal elements keep the order they came in, which is what
//! makes a listing independent of how its input happened to be ordered.
use vstd::prelude::*;

verus! {

/// An order to sort by: `before_or_with(a, b)` says `a` may come before `b`.
pub trait SortOrder: Sized {
    spec fn before_or_with(a: Self, b: Self) -> bool;

    /// Any two elements can be put in order.
    proof fn lemma_total(a: Self, b: Self)
        ensures
            Self::before_or_with(a, b) || Self::before_or_with(b, a),
    ;

    proof fn lemma_transitive(a: Self, b: Self, c: Self)
        requires
            Self::before_or_with(a, b),
            Self::before_or_with(b, c),
        ensures
            Self::before_or_with(a, c),
    ;

    fn comes_before_or_with(a: &Self, b: &Self) -> (r: bool)
        ensures
            r == Self::before_or_with(*a, *b),
    ;
}

/// `x` inserted into `s` after every element it may follow, scanning from
/// the back: after the last element that may come before it.
pub open spec fn insert_stable<T: SortOrder>(s: Seq<T>, x: T) -> Seq<T>
    decreases s.len(),
{
    if s.len() == 0 {
        seq![x]
    } else if T::before_or_with(s.last(), x) {
        s.push(x)
    } else {
        insert_stable(s.drop_last(), x).push(s.last())
    }
}

/// The stable sort of `s`: each element inserted in turn.
pub open spec fn sorted_stable<T: SortOrder>(s: Seq<T>) -> Seq<T>
    decreases s.len(),
{
    if s.len() == 0 {
        Seq::empty()
    } else {
        insert_stable(sorted_stable(s.drop_last()), s.last())
    }
}

/// Every element may come before every later one.
pub open spec fn is_sorted<T: SortOrder>(s: Seq<T>) -> bool {
    forall|i: int, j: int| 0 <= i < j < s.len() ==> T::before_or_with(#[trigger] s[i], #[trigger] s[j])
}

/// Where the scan from the back stops.
pub open spec fn insert_point<T: SortOrder>(s: Seq<T>, x: T, j: int) -> bool {
    &&& 0 <= j <= s.len()
    &&& (j > 0 ==> T::before_or_with(s[j - 1], x))
    &&& forall|k: int| j <= k < s.len() ==> !T::before_or_with(#[trigger] s[k], x)
}

proof fn lemma_insert_at<T: SortOrder>(s: Seq<T>, x: T, j: int)
    requires
        insert_point(s, x, j),
    ensures
        insert_stable(s, x) == s.take(j) + seq![x] + s.skip(j),
    decreases s.len(),
{
    if s.len() == 0 {
        assert(s.take(j) + seq![x] + s.skip(j) =~= seq![x]);
    } else if T::before_or_with(s.last(), x) {
        assert(j == s.len());
        assert(s.take(j) + seq![x] + s.skip(j) =~= s.push(x));
    } else {
        assert(j < s.len());
        let p = s.drop_last();
        assert(insert_point(p, x, j)) by {
            assert forall|k: int| j <= k < p.len() implies !T::before_or_with(#[trigger] p[k], x) by {
                assert(p[k] == s[k]);
            }
        }
        lemma_insert_at(p, x, j);
        assert(p.take(j) + seq![x] + p.skip(j) + seq![s.last()] =~= s.take(j) + seq![x] + s.skip(j));
    }
}

/// Insert into a sorted sequence, keeping it sorted.
fn insert_sorted<T: SortOrder>(v: &mut Vec<T>, x: T)
    ensures
        final(v)@ == insert_stable(old(v)@, x),
{
    let mut j: usize = v.len();
    while j > 0 && !T::comes_before_or_with(&v[j - 1], &x)
        invariant
            j <= v@.len(),
            forall|k: int| j <= k < v@.len() ==> !T::before_or_with(#[trigger] v@[k], x),
        decreases j,
    {
        j = j - 1;
    }
    proof {
        assert(insert_point(v@, x, j as int));
        lemma_insert_at(v@, x, j as int);
    }
    let ghost before = v@;
    v.insert(j, x);
    proof {
        assert(v@ =~= before.take(j as int) + seq![x] + before.skip(j as int));
    }
}

/// `v` stably sorted.
pub fn sort_stable<T: SortOrder>(v: Vec<T>) -> (out: Vec<T>)
    ensures
        out@ == sorted_stable(v@),
{
    let mut out: Vec<T> = Vec::new();
    let mut rest = v;
    let ghost all = rest@;
    // Take elements from the front by reversing once, then popping.
    let mut reversed: Vec<T> = Vec::new();
    while rest.len() > 0
        invariant
            all.len() == rest@.len() + reversed@.len(),
            forall|k: int| 0 <= k < rest@.len() ==> rest@[k] == all[k],
            forall|k: int| 0 <= k < reversed@.len() ==> #[trigger] reversed@[k] == all[all.len() - 1 - k],
        decreases rest@.len(),
    {
        let x = rest.pop().unwrap();
        reversed.push(x);
    }
    let mut i: usize = 0;
    let n = reversed.len();
    while reversed.len() > 0
        invariant
            n == all.len(),
            i + reversed@.len() == n,
            forall|k: int| 0 <= k < reversed@.len() ==> #[trigger] reversed@[k] == all[n - 1 - k],
            out@ == sorted_stable(all.take(i as int)),
        decreases reversed@.len(),
    {
        let x = reversed.pop().unwrap();
        proof {
            assert(x == all[i as int]);
            assert(all.take(i + 1).drop_last() =~= all.take(i as int));
        }
        insert_sorted(&mut out, x);
        i = i + 1;
    }
    proof {
        assert(all.take(n as int) =~= all);
    }
    out
}

/// Inserting keeps a sorted sequence sorted.
proof fn lemma_insert_keeps_sorted<T: SortOrder>(s: Seq<T>, x: T)
    requires
        is_sorted(s),
    ensures
        is_sorted(insert_stable(s, x)),
    decreases s.len(),
{
    if s.len() == 0 {
    } else if T::before_or_with(s.last(), x) {
        let t = s.push(x);
        assert forall|i: int, j: int| 0 <= i < j < t.len() implies T::before_or_with(#[trigger] t[i], #[trigger] t[j]) by {
            if j == s.len() {
                if i < s.len() - 1 {
                    assert(T::before_or_with(s[i], s[s.len() - 1]));
                    T::lemma_transitive(s[i], s.last(), x);
                }
            }
        }
    } else {
        let p = s.drop_last();
        assert(is_sorted(p)) by {
            assert forall|i: int, j: int| 0 <= i < j < p.len() implies T::before_or_with(#[trigger] p[i], #[trigger] p[j]) by {
                assert(p[i] == s[i] && p[j] == s[j]);
            }
        }
        lemma_insert_keeps_sorted(p, x);
        let q = insert_stable(p, x);
        T::lemma_total(s.last(), x);
        lemma_insert_members(p, x);
        let t = q.push(s.last());
        assert forall|i: int, j: int| 0 <= i < j < t.len() implies T::before_or_with(#[trigger] t[i], #[trigger] t[j]) by {
            if j == q.len() {
                let e = q[i];
                if e == x {
                } else {
                    let k = choose|k: int| 0 <= k < p.len() && p[k] == e;
                    assert(T::before_or_with(s[k], s[s.len() - 1]));
                }
            }
        }
    }
}

/// What an insertion holds: the new element and the old ones.
proof fn lemma_insert_members<T: SortOrder>(s: Seq<T>, x: T)
    ensures
        insert_stable(s, x).len() == s.len() + 1,
        forall|i: int| 0 <= i < insert_stable(s, x).len() ==> (#[trigger] insert_stable(s, x)[i] == x
            || exists|k: int| 0 <= k < s.len() && s[k] == insert_stable(s, x)[i]),
        insert_stable(s, x).to_multiset() == s.to_multiset().insert(x),
    decreases s.len(),
{
    broadcast use vstd::seq_lib::group_to_multiset_ensures;
    if s.len() == 0 {
        assert(insert_stable(s, x) =~= seq![x]);
        assert(seq![x] =~= Seq::<T>::empty().push(x));
    } else if T::before_or_with(s.last(), x) {
        let t = s.push(x);
        assert forall|i: int| 0 <= i < t.len() implies (#[trigger] t[i] == x || exists|k: int| 0 <= k < s.len() && s[k] == t[i]) by {
            if i < s.len() {
                assert(s[i] == t[i]);
            }
        }
    } else {
        let p = s.drop_last();
        lemma_insert_members(p, x);
        let q = insert_stable(p, x);
        let t = q.push(s.last());
        assert forall|i: int| 0 <= i < t.len() implies (#[trigger] t[i] == x || exists|k: int| 0 <= k < s.len() && s[k] == t[i]) by {
            if i == q.len() {
                assert(s[s.len() - 1] == t[i]);
            } else {
                if q[i] != x {
                    let k = choose|k: int| 0 <= k < p.len() && p[k] == q[i];
                    assert(s[k] == t[i]);
                }
            }
        }
        assert(s =~= p.push(s.last()));
    }
}

/// The stable sort is sorted, and holds exactly the elements it was given.
pub proof fn lemma_sorted_stable<T: SortOrder>(s: Seq<T>)
    ensures
        is_sorted(sorted_stable(s)),
        sorted_stable(s).to_multiset() == s.to_multiset(),
    decreases s.len(),
{
    broadcast use vstd::seq_lib::group_to_multiset_ensures;
    if s.len() > 0 {
        lemma_sorted_stable(s.drop_last());
        lemma_insert_keeps_sorted(sorted_stable(s.drop_last()), s.last());
        lemma_insert_members(sorted_stable(s.drop_last()), s.last());
        assert(s =~= s.drop_last().push(s.last()));
    }
}

} // verus!
