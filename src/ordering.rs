use vstd::laws_cmp::*;
use vstd::laws_eq::*;
use vstd::prelude::*;
use vstd::std_specs::cmp::{OrdSpec, PartialEqSpec, PartialOrdSpec};
use core::cmp::Ordering;

verus! {

broadcast use {vstd::seq_lib::group_to_multiset_ensures, vstd::multiset::group_multiset_axioms};

/// Each element is no greater than the one after it.
pub open spec fn sorted<T: Ord>(s: Seq<T>) -> bool {
    forall|i: int| 0 <= i < s.len() - 1 ==> #[trigger] s[i].cmp_spec(&s[i + 1]) != Ordering::Greater
}

/// `i` is the position of the first element of `s` that equals `v`.
pub open spec fn is_first_match<T: PartialEq>(s: Seq<T>, v: &T, i: int) -> bool {
    &&& 0 <= i < s.len()
    &&& s[i].eq_spec(v)
    &&& forall|j: int| 0 <= j < i ==> !(#[trigger] s[j].eq_spec(v))
}

/// Some element of `s` equals `v`.
pub open spec fn has_match<T: PartialEq>(s: Seq<T>, v: &T) -> bool {
    exists|j: int| 0 <= j < s.len() && #[trigger] s[j].eq_spec(v)
}

/// The comparison reverses when its arguments are swapped.
proof fn lemma_cmp_flip<T: Ord>(x: T, y: T)
    requires
        obeys_cmp::<T>(),
        x.cmp_spec(&y) == Ordering::Greater,
    ensures
        y.cmp_spec(&x) == Ordering::Less,
{
    reveal(obeys_cmp_ord);
    reveal(obeys_partial_cmp_spec_properties);
    assert(x.partial_cmp_spec(&y) == Some(x.cmp_spec(&y)));
    assert(y.partial_cmp_spec(&x) == Some(y.cmp_spec(&x)));
}

/// Sorts `v` in ascending order by insertion: each element taken off the back
/// goes in front of the first greater element of the sorted part.
pub fn sort_vec<T: Ord>(v: &mut Vec<T>)
    requires
        obeys_cmp::<T>(),
    ensures
        sorted(final(v)@),
        final(v)@.to_multiset() == old(v)@.to_multiset(),
{
    proof {
        reveal(obeys_cmp_ord);
    }
    let mut out: Vec<T> = Vec::new();
    while v.len() > 0
        invariant
            obeys_cmp::<T>(),
            T::obeys_cmp_spec(),
            sorted(out@),
            out@.to_multiset().add(v@.to_multiset()) == old(v)@.to_multiset(),
        decreases v.len(),
    {
        let ghost before = v@;
        let x = v.pop().unwrap();
        assert(before =~= v@.push(x));
        let mut p: usize = 0;
        while p < out.len()
            invariant
                T::obeys_cmp_spec(),
                p <= out@.len(),
                forall|k: int| 0 <= k < p ==> (#[trigger] out@[k]).cmp_spec(&x)
                    != Ordering::Greater,
            ensures
                p <= out@.len(),
                forall|k: int| 0 <= k < p ==> (#[trigger] out@[k]).cmp_spec(&x)
                    != Ordering::Greater,
                p < out@.len() ==> out@[p as int].cmp_spec(&x) == Ordering::Greater,
            decreases out@.len() - p,
        {
            match out[p].cmp(&x) {
                Ordering::Greater => break,
                _ => {},
            }
            p = p + 1;
        }
        let ghost prev = out@;
        proof {
            if p < prev.len() {
                if prev[p as int].cmp_spec(&x) == Ordering::Greater {
                    lemma_cmp_flip(prev[p as int], x);
                }
            }
        }
        out.insert(p, x);
        assert forall|i: int| 0 <= i < out@.len() - 1 implies #[trigger] out@[i].cmp_spec(
            &out@[i + 1],
        ) != Ordering::Greater by {
            if i < p - 1 {
                assert(out@[i] == prev[i] && out@[i + 1] == prev[i + 1]);
                assert(prev[i].cmp_spec(&prev[i + 1]) != Ordering::Greater);
            } else if i == p - 1 {
                assert(out@[i] == prev[i] && out@[i + 1] == x);
                assert(prev[i].cmp_spec(&x) != Ordering::Greater);
            } else if i == p {
                assert(out@[i] == x && out@[i + 1] == prev[i]);
                assert(x.cmp_spec(&prev[i]) == Ordering::Less);
            } else {
                let j = i - 1;
                assert(out@[i] == prev[j] && out@[i + 1] == prev[j + 1]);
                assert(prev[j].cmp_spec(&prev[j + 1]) != Ordering::Greater);
            }
        }
        assert(out@.to_multiset().add(v@.to_multiset()) =~= old(v)@.to_multiset());
    }
    assert(v@ =~= Seq::<T>::empty());
    *v = out;
}

} // verus!
