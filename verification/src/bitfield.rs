//! A vector of bits, kept by the `bitvec` crate.
//!
//! The verifier does not look inside the bit vector. What it holds is named by
//! [`bitfield_bits`], and each function below that touches it states what the
//! crate's method does to those bits. These statements are taken on trust.

use vstd::prelude::*;

verus! {

/// A growable vector of bits: `bitvec::vec::BitVec<u8, Lsb0>`.
///
/// Trusted: the field is opaque to the verifier.
#[verifier::external_body]
#[derive(Debug, PartialEq, Eq)]
pub struct Bitfield {
    bits: bitvec::vec::BitVec<u8, bitvec::order::Lsb0>,
}

/// The bits that the vector holds, first index first.
pub uninterp spec fn bitfield_bits(b: Bitfield) -> Seq<bool>;

impl View for Bitfield {
    type V = Seq<bool>;

    open spec fn view(&self) -> Seq<bool> {
        bitfield_bits(*self)
    }
}

/// The longest bit vector that `bitvec` can address: `BitSlice::MAX_BITS`,
/// an eighth of the address space.
pub open spec fn spec_max_bits() -> usize {
    (usize::MAX / 8) as usize
}

#[verifier::when_used_as_spec(spec_max_bits)]
pub fn max_bits() -> (n: usize)
    ensures
        n == spec_max_bits(),
{
    usize::MAX / 8
}

/// `BitVec::with_capacity`: a new vector that holds no bits. The crate
/// panics where the capacity is beyond what it can address, so that is
/// ruled out.
#[verifier::external_body]
fn with_capacity(capacity: usize) -> (b: Bitfield)
    requires
        capacity <= spec_max_bits(),
    ensures
        bitfield_bits(b) == Seq::<bool>::empty(),
{
    Bitfield { bits: bitvec::vec::BitVec::with_capacity(capacity) }
}

/// `BitVec::resize`: cuts the vector down to `new_len` bits, or appends
/// copies of `value` until it has `new_len` bits. The crate panics where
/// `new_len` is beyond what it can address, so that is ruled out.
#[verifier::external_body]
fn resize(b: &mut Bitfield, new_len: usize, value: bool)
    requires
        new_len <= spec_max_bits(),
    ensures
        bitfield_bits(*final(b)) == if new_len <= bitfield_bits(*old(b)).len() {
            bitfield_bits(*old(b)).take(new_len as int)
        } else {
            bitfield_bits(*old(b)) + Seq::new(
                (new_len - bitfield_bits(*old(b)).len()) as nat,
                |i: int| value,
            )
        },
{
    b.bits.resize(new_len, value);
}

/// `BitSlice::set`: writes `value` at `index` and leaves the other bits as
/// they are. The crate panics on an index out of bounds, so that is ruled
/// out.
#[verifier::external_body]
fn set(b: &mut Bitfield, index: usize, value: bool)
    requires
        index < bitfield_bits(*old(b)).len(),
    ensures
        bitfield_bits(*final(b)) == bitfield_bits(*old(b)).update(index as int, value),
{
    b.bits.set(index, value);
}

/// `BitVec::len`: the number of bits.
#[verifier::external_body]
fn len(b: &Bitfield) -> (n: usize)
    ensures
        n == bitfield_bits(*b).len(),
{
    b.bits.len()
}

/// Indexing a `BitSlice`: the bit at `index`. The crate panics on an index
/// out of bounds, so that is ruled out.
#[verifier::external_body]
fn bit(b: &Bitfield, index: usize) -> (v: bool)
    requires
        index < bitfield_bits(*b).len(),
    ensures
        v == bitfield_bits(*b)[index as int],
{
    b.bits[index]
}

impl Bitfield {
    /// A vector of `len` cleared bits; `None` where `len` is more than
    /// [`max_bits`].
    pub fn zeros(len: usize) -> (r: Option<Bitfield>)
        ensures
            match r {
                Some(b) => len <= spec_max_bits() && b@ == Seq::new(len as nat, |i: int| false),
                None => len > spec_max_bits(),
            },
    {
        if len > max_bits() {
            return None;
        }
        let mut b = with_capacity(len);
        resize(&mut b, len, false);
        assert(b@ =~= Seq::new(len as nat, |i: int| false));
        Some(b)
    }

    /// Sets the bit at `index`; `false` and no change where there is no
    /// such bit.
    pub fn set(&mut self, index: usize) -> (done: bool)
        ensures
            done == (index < old(self)@.len()),
            final(self)@ == if done {
                old(self)@.update(index as int, true)
            } else {
                old(self)@
            },
    {
        if index < len(self) {
            set(self, index, true);
            true
        } else {
            false
        }
    }

    pub fn len(&self) -> (n: usize)
        ensures
            n == self@.len(),
    {
        len(self)
    }

    /// The bit at `index`, if there is one.
    pub fn get(&self, index: usize) -> (r: Option<bool>)
        ensures
            r == if index < self@.len() {
                Some(self@[index as int])
            } else {
                None
            },
    {
        if index < len(self) {
            Some(bit(self, index))
        } else {
            None
        }
    }

    /// The bits as a vector of `bool`.
    pub fn to_vec(&self) -> (v: Vec<bool>)
        ensures
            v@ == self@,
    {
        let n = len(self);
        let mut v: Vec<bool> = Vec::new();
        let mut i: usize = 0;
        while i < n
            invariant
                i <= n,
                n == self@.len(),
                v@ == self@.take(i as int),
            decreases n - i,
        {
            v.push(bit(self, i));
            assert(self@.take(i + 1) =~= self@.take(i as int).push(self@[i as int]));
            i += 1;
        }
        assert(self@.take(n as int) =~= self@);
        v
    }
}

} // verus!
