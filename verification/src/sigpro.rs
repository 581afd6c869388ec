//! Helpers for vectors of numbers.

use vstd::prelude::*;
use vstd::std_specs::convert::FromSpec;
use vstd::std_specs::ops::{AddSpec, DivSpec};
use core::ops::{Add, Div};

verus! {

/// The sum of the numbers of a sequence that is not empty, added up from
/// the front.
pub open spec fn sum_of<T: Add<Output = T>>(s: Seq<T>) -> T
    decreases s.len(),
{
    if s.len() <= 1 {
        s[0]
    } else {
        sum_of(s.drop_last()).add_spec(s.last())
    }
}

/// Whether each addition on the way to the sum of `s` is allowed.
pub open spec fn sum_defined<T: Add<Output = T>>(s: Seq<T>) -> bool
    decreases s.len(),
{
    if s.len() <= 1 {
        true
    } else {
        sum_defined(s.drop_last()) && sum_of(s.drop_last()).add_req(s.last())
    }
}

/// The average of the numbers of a vector: their sum, divided by their
/// count. The count must fit in a `u16`, from which it is converted.
pub fn vec_avg<T: Add<Output = T> + From<u16> + Div<Output = T> + Copy>(vdata: &Vec<T>) -> (r: T)
    requires
        0 < vdata.len() <= u16::MAX,
        T::obeys_add_spec(),
        T::obeys_from_spec(),
        sum_defined(vdata@),
        sum_of(vdata@).div_req(T::from_spec(vdata.len() as u16)),
    ensures
        T::obeys_div_spec() ==> r == sum_of(vdata@).div_spec(T::from_spec(vdata.len() as u16)),
{
    let mut d = vdata[0];
    let mut i: usize = 1;
    assert(vdata@.take(1).len() == 1);
    assert(vdata@.take(1)[0] == vdata@[0]);
    while i < vdata.len()
        invariant
            1 <= i <= vdata.len(),
            T::obeys_add_spec(),
            sum_defined(vdata@),
            d == sum_of(vdata@.take(i as int)),
            sum_defined(vdata@.take(i as int)),
        decreases vdata.len() - i,
    {
        proof {
            assert(vdata@.take(i + 1).drop_last() =~= vdata@.take(i as int));
            lemma_sum_defined_prefix(vdata@, i + 1);
        }
        d = d + vdata[i];
        i += 1;
    }
    assert(vdata@.take(vdata.len() as int) =~= vdata@);
    let n = T::from(vdata.len() as u16);
    d / n
}

/// Where the sum of a sequence is defined, so is that of each of its
/// prefixes that is not empty.
pub proof fn lemma_sum_defined_prefix<T: Add<Output = T>>(s: Seq<T>, k: int)
    requires
        sum_defined(s),
        1 <= k <= s.len(),
    ensures
        sum_defined(s.take(k)),
    decreases s.len() - k,
{
    if k < s.len() {
        lemma_sum_defined_prefix(s, k + 1);
        assert(s.take(k + 1).drop_last() =~= s.take(k));
    } else {
        assert(s.take(k) =~= s);
    }
}

} // verus!
