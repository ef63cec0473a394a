use smallvec::SmallVec;
use vstd::prelude::*;

verus! {

/// A short list of symbol positions, kept inline in a `SmallVec`.
#[verifier::external_body]
pub struct Ambiguities {
    items: SmallVec<[u16; 4]>,
}

/// The positions that a list holds, in order.
pub uninterp spec fn positions(a: Ambiguities) -> Seq<u16>;

/// Relies on `SmallVec::new`: a new vector holds nothing.
#[verifier::external_body]
pub(crate) fn positions_new() -> (r: Ambiguities)
    ensures
        positions(r) == Seq::<u16>::empty(),
{
    Ambiguities { items: SmallVec::new() }
}

/// Relies on `SmallVec::push`: appends one item at the end.
#[verifier::external_body]
pub(crate) fn positions_push(a: &mut Ambiguities, p: u16)
    ensures
        positions(*final(a)) == positions(*old(a)).push(p),
{
    a.items.push(p)
}

/// Relies on `SmallVec::len`: the number of items held.
#[verifier::external_body]
pub(crate) fn positions_len(a: &Ambiguities) -> (r: usize)
    ensures
        r == positions(*a).len(),
{
    a.items.len()
}

/// Relies on `SmallVec::as_slice`: the items held, in order, of which one is read.
#[verifier::external_body]
pub(crate) fn positions_at(a: &Ambiguities, i: usize) -> (r: u16)
    requires
        i < positions(*a).len(),
    ensures
        r == positions(*a)[i as int],
{
    a.items.as_slice()[i]
}

impl Ambiguities {
    /// The number of positions held.
    pub fn len(&self) -> (r: usize)
        ensures
            r == positions(*self).len(),
    {
        positions_len(self)
    }

    /// The position at index `i`.
    pub fn get(&self, i: usize) -> (r: Option<u16>)
        ensures
            i < positions(*self).len() ==> r == Some(positions(*self)[i as int]),
            i >= positions(*self).len() ==> r is None,
    {
        if i < positions_len(self) {
            Some(positions_at(self, i))
        } else {
            None
        }
    }
}

} // verus!
