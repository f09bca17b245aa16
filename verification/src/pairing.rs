//! Items taken two by two, as the `itertools` crate does it.

use crate::resp::Resp;
use itertools::Itertools;
use vstd::prelude::*;

verus! {

/// `Itertools::tuples` on the items of a vector, collected: the first item
/// with the second, the third with the fourth, and so on. An item left over
/// at the end is dropped.
#[verifier::external_body]
pub(crate) fn pair_up(items: &Vec<Resp>) -> (pairs: Vec<(&Resp, &Resp)>)
    ensures
        pairs@.len() == items@.len() / 2,
        forall|i: int|
            0 <= i < pairs@.len() ==> *(#[trigger] pairs@[i]).0 == items@[2 * i] && *pairs@[i].1
                == items@[2 * i + 1],
{
    items.iter().tuples().collect()
}

} // verus!
