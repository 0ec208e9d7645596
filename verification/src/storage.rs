//! Trusted declarations for the inline crossing buffer.
//!
//! The feature solver gathers up to twelve edge crossings per leaf; they are
//! held in a `smallvec::SmallVec` with inline capacity twelve, so the hot
//! path never allocates. The vector is outside code and its generic bounds
//! cannot be declared to the verifier, so it sits in a private field of an
//! opaque struct; its contents are named by `crossing_seq`, and each method
//! the solver calls is wrapped with the contract the crate's source shows.

use vstd::prelude::*;
use smallvec::SmallVec;

verus! {

/// A buffer of edge crossings: coordinate triples, up to twelve inline.
#[verifier::external_body]
pub struct CrossingBuf {
    buf: SmallVec<[(i64, i64, i64); 12]>,
}

/// The sequence of coordinate triples a crossing buffer holds, in insertion
/// order.
pub uninterp spec fn crossing_seq(v: CrossingBuf) -> Seq<(i64, i64, i64)>;

/// Relies on smallvec::SmallVec::new: a freshly constructed vector is empty.
#[verifier::external_body]
pub fn crossing_buf_new() -> (v: CrossingBuf)
    ensures
        crossing_seq(v) == Seq::<(i64, i64, i64)>::empty(),
{
    CrossingBuf { buf: SmallVec::new() }
}

/// Relies on smallvec::SmallVec::push: appends the element at the back.
/// Below the inline capacity of twelve it cannot fail to allocate.
#[verifier::external_body]
pub fn crossing_buf_push(v: &mut CrossingBuf, p: (i64, i64, i64))
    requires
        crossing_seq(*old(v)).len() < 12,
    ensures
        crossing_seq(*final(v)) == crossing_seq(*old(v)).push(p),
{
    v.buf.push(p)
}

/// Relies on smallvec::SmallVec::len: the number of stored elements.
#[verifier::external_body]
pub fn crossing_buf_len(v: &CrossingBuf) -> (n: usize)
    ensures
        n == crossing_seq(*v).len(),
{
    v.buf.len()
}

/// Relies on smallvec's `Index` impl (slice indexing by position).
#[verifier::external_body]
pub fn crossing_buf_get(v: &CrossingBuf, i: usize) -> (p: (i64, i64, i64))
    requires
        i < crossing_seq(*v).len(),
    ensures
        p == crossing_seq(*v)[i as int],
{
    v.buf[i]
}


/// Relies on String::push: appends one character at the back.
#[verifier::external_body]
pub fn push_char(s: &mut String, c: char)
    ensures
        final(s)@ == old(s)@.push(c),
{
    s.push(c)
}

} // verus!
