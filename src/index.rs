//! Integer types that can index a vertex list.
use vstd::prelude::*;
use crate::errors::{Error, ErrorKind};

verus! {

/// An unsigned integer type that can act as an index into a vertex list.
///
/// The largest value of the type is never used as an index, so that it stays
/// free for formats that take it to mean "no index".
pub trait Index: Sized + Copy {
    /// The index as a number.
    spec fn value(&self) -> nat;

    /// The largest value of the type.
    spec fn max_value() -> nat;

    /// The number of bits in the type.
    spec fn bits() -> u8;

    /// Every index type holds at least eight bits and fits in a `u64`.
    proof fn lemma_bounds()
        ensures
            255 <= Self::max_value() <= u64::MAX,
    ;

    /// Makes an index out of a count; fails when the count does not stay
    /// below the largest value of the type.
    fn from_u64(v: u64) -> (r: Result<Self, Error>)
        ensures
            v < Self::max_value() <==> r is Ok,
            r is Ok ==> r->Ok_0.value() == v,
            r is Err ==> r->Err_0 == Error::index_too_small(v, Self::bits()),
    ;

    /// The index as a `u64`.
    fn to_u64(self) -> (r: u64)
        ensures
            r == self.value(),
    ;
}

impl Index for u8 {
    open spec fn value(&self) -> nat {
        *self as nat
    }

    open spec fn max_value() -> nat {
        u8::MAX as nat
    }

    open spec fn bits() -> u8 {
        8
    }

    proof fn lemma_bounds() {
    }

    fn from_u64(v: u64) -> (r: Result<Self, Error>) {
        if v < u8::MAX as u64 {
            Ok(v as u8)
        } else {
            Err(Error::new(ErrorKind::IndexTooSmall(v, 8)))
        }
    }

    fn to_u64(self) -> (r: u64) {
        self as u64
    }
}

impl Index for u16 {
    open spec fn value(&self) -> nat {
        *self as nat
    }

    open spec fn max_value() -> nat {
        u16::MAX as nat
    }

    open spec fn bits() -> u8 {
        16
    }

    proof fn lemma_bounds() {
    }

    fn from_u64(v: u64) -> (r: Result<Self, Error>) {
        if v < u16::MAX as u64 {
            Ok(v as u16)
        } else {
            Err(Error::new(ErrorKind::IndexTooSmall(v, 16)))
        }
    }

    fn to_u64(self) -> (r: u64) {
        self as u64
    }
}

impl Index for u32 {
    open spec fn value(&self) -> nat {
        *self as nat
    }

    open spec fn max_value() -> nat {
        u32::MAX as nat
    }

    open spec fn bits() -> u8 {
        32
    }

    proof fn lemma_bounds() {
    }

    fn from_u64(v: u64) -> (r: Result<Self, Error>) {
        if v < u32::MAX as u64 {
            Ok(v as u32)
        } else {
            Err(Error::new(ErrorKind::IndexTooSmall(v, 32)))
        }
    }

    fn to_u64(self) -> (r: u64) {
        self as u64
    }
}

impl Index for u64 {
    open spec fn value(&self) -> nat {
        *self as nat
    }

    open spec fn max_value() -> nat {
        u64::MAX as nat
    }

    open spec fn bits() -> u8 {
        64
    }

    proof fn lemma_bounds() {
    }

    fn from_u64(v: u64) -> (r: Result<Self, Error>) {
        if v < u64::MAX {
            Ok(v)
        } else {
            Err(Error::new(ErrorKind::IndexTooSmall(v, 64)))
        }
    }

    fn to_u64(self) -> (r: u64) {
        self
    }
}

} // verus!
