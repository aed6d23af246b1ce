//! In-place shuffling of vectors, with the random index drawn from the
//! `quad_rand` generator. The permutation itself is verified: whatever the
//! generator returns, shuffling keeps exactly the elements it was given.

use vstd::prelude::*;

verus! {

/// Relies on `quad_rand::gen_range` for `usize`: the generator draws a
/// 32-bit number and maps it into the requested range with `f64`
/// arithmetic. For bounds up to 2^53 every quantity involved is
/// represented exactly enough that the result cannot leave `[low, high]`
/// (the bound `high` itself can be hit: the final scaling may round up).
/// The result depends on a process-global generator state, so nothing
/// relates one draw to the next.
#[verifier::external_body]
fn gen_range_usize(low: usize, high: usize) -> (r: usize)
    requires
        low < high,
    ensures
        high <= 0x20_0000_0000_0000 ==> low <= r <= high,
{
    quad_rand::gen_range(low, high)
}

/// Relies on `<[T]>::swap`, reached through `Vec`'s slice view: exchanges
/// the elements at the two indices.
#[verifier::external_body]
fn swap_in_vec<T>(v: &mut Vec<T>, i: usize, j: usize)
    requires
        i < old(v).len(),
        j < old(v).len(),
    ensures
        final(v)@ == old(v)@.update(i as int, old(v)@[j as int]).update(
            j as int,
            old(v)@[i as int],
        ),
{
    v.swap(i, j);
}

/// Swapping two entries of a sequence keeps its multiset of elements.
proof fn lemma_swap_multiset<T>(s: Seq<T>, i: int, j: int)
    requires
        0 <= i < s.len(),
        0 <= j < s.len(),
    ensures
        s.update(i, s[j]).update(j, s[i]).to_multiset() == s.to_multiset(),
{
    broadcast use vstd::seq_lib::group_to_multiset_ensures;

    let s1 = s.update(i, s[j]);
    let s2 = s1.update(j, s[i]);
    if i == j {
        assert(s2 =~= s);
    } else {
        assert(s.contains(s[i]));
        assert(s1[j] == s[j]);
        assert(s1.contains(s[j]));
        assert(s1.to_multiset() == s.to_multiset().insert(s[j]).remove(s[i]));
        assert(s2.to_multiset() == s1.to_multiset().insert(s[i]).remove(s1[j]));
        assert(s2.to_multiset() =~= s.to_multiset());
    }
}

/// Collections that can permute their own contents in place.
pub trait Shuffle {
    fn shuffle(&mut self);
}

impl<T> Shuffle for Vec<T> {
    /// Fisher-Yates style shuffle: however the random indices come out,
    /// the result holds exactly the elements the vector held before.
    fn shuffle(&mut self)
        ensures
            final(self)@.to_multiset() == old(self)@.to_multiset(),
            final(self).len() == old(self).len(),
    {
        let len = self.len();
        if len < 2 {
            return;
        }
        for i in 0..len - 1
            invariant
                self.len() == len,
                2 <= len,
                self@.to_multiset() == old(self)@.to_multiset(),
        {
            let j = gen_range_usize(i, len);
            if j < len {
                proof {
                    lemma_swap_multiset(self@, i as int, j as int);
                }
                swap_in_vec(self, i, j);
            }
        }
        proof {
            broadcast use vstd::seq_lib::group_to_multiset_ensures;

            assert(self@.len() == self@.to_multiset().len());
            assert(old(self)@.len() == old(self)@.to_multiset().len());
        }
    }
}

} // verus!
