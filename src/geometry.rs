//! Geometric type definitions.
//!
//! Coordinates and color channels are single-precision floats held as their
//! IEEE-754 bit patterns (`f32::to_bits`), so that they are plain integers
//! with an exact equality and a total order.
use vstd::prelude::*;
use core::cmp::Ordering;

verus! {

/// A 3-dimensional vector; each coordinate is the bit pattern of an `f32`.
#[derive(Clone, Copy, Debug, PartialEq, Eq, Structural, Hash)]
pub struct Vector(pub u32, pub u32, pub u32);

/// A color; each channel is the bit pattern of an `f32`.
#[derive(Clone, Copy, Debug, PartialEq, Eq, Structural, Hash)]
pub struct Color(pub u32, pub u32, pub u32);

/// A vertex: something with a position, an exact equality and a total order.
///
/// The order only gives merged vertex lists a canonical layout; it carries
/// no geometric meaning.
pub trait Vertex: Sized {
    /// Whether `self` comes strictly before `other`.
    spec fn precedes(&self, other: &Self) -> bool;

    /// `precedes` is a strict total order.
    proof fn lemma_total_order(a: Self, b: Self, c: Self)
        ensures
            !a.precedes(&a),
            a.precedes(&b) && b.precedes(&c) ==> a.precedes(&c),
            a == b || a.precedes(&b) || b.precedes(&a),
    ;

    /// The position of the vertex.
    spec fn spec_position(&self) -> Vector;

    /// Gets the position of the vertex.
    fn position(&self) -> (r: Vector)
        ensures
            r == self.spec_position(),
    ;

    /// Compares two vertices in the order of `precedes`.
    fn compare(&self, other: &Self) -> (r: Ordering)
        ensures
            (r == Ordering::Less) == self.precedes(other),
            (r == Ordering::Equal) == (*self == *other),
            (r == Ordering::Greater) == other.precedes(self),
    ;

    /// An equal copy of the vertex.
    fn duplicate(&self) -> (r: Self)
        ensures
            r == *self,
    ;
}

/// A triangle.
#[derive(Debug, PartialEq)]
pub struct Triangle<V> {
    /// The vertices that make up the triangle.
    pub vertices: [V; 3],
}

/// Where a coordinate stands in the IEEE-754 total order, as an unsigned key:
/// negative values have all bits flipped, the others get the sign bit set.
pub open spec fn coord_key(bits: u32) -> u32 {
    if bits & 0x8000_0000u32 != 0u32 {
        !bits
    } else {
        bits | 0x8000_0000u32
    }
}

/// Distinct coordinates have distinct keys.
pub proof fn lemma_coord_key_injective(a: u32, b: u32)
    ensures
        coord_key(a) == coord_key(b) ==> a == b,
{
    assert(a & 0x8000_0000u32 != 0u32 && b & 0x8000_0000u32 != 0u32 && !a == !b ==> a == b)
        by (bit_vector);
    assert(a & 0x8000_0000u32 == 0u32 && b & 0x8000_0000u32 == 0u32
        && a | 0x8000_0000u32 == b | 0x8000_0000u32 ==> a == b) by (bit_vector);
    assert(a & 0x8000_0000u32 != 0u32 && b & 0x8000_0000u32 == 0u32 ==> !a != b | 0x8000_0000u32)
        by (bit_vector);
    assert(a & 0x8000_0000u32 == 0u32 && b & 0x8000_0000u32 != 0u32 ==> a | 0x8000_0000u32 != !b)
        by (bit_vector);
}

/// The order key of a coordinate.
fn order_key(bits: u32) -> (r: u32)
    ensures
        r == coord_key(bits),
{
    if bits & 0x8000_0000u32 != 0 {
        !bits
    } else {
        bits | 0x8000_0000u32
    }
}

/// Lexicographic order of vectors over the keys of their coordinates.
pub open spec fn vector_precedes(a: Vector, b: Vector) -> bool {
    let (a0, a1, a2) = (coord_key(a.0), coord_key(a.1), coord_key(a.2));
    let (b0, b1, b2) = (coord_key(b.0), coord_key(b.1), coord_key(b.2));
    a0 < b0 || (a0 == b0 && (a1 < b1 || (a1 == b1 && a2 < b2)))
}

impl Vertex for Vector {
    /// A vector is its own position.
    open spec fn spec_position(&self) -> Vector {
        *self
    }

    open spec fn precedes(&self, other: &Self) -> bool {
        vector_precedes(*self, *other)
    }

    proof fn lemma_total_order(a: Self, b: Self, c: Self) {
        lemma_coord_key_injective(a.0, b.0);
        lemma_coord_key_injective(a.1, b.1);
        lemma_coord_key_injective(a.2, b.2);
    }

    fn position(&self) -> (r: Vector) {
        *self
    }

    fn compare(&self, other: &Self) -> (r: Ordering) {
        proof {
            lemma_coord_key_injective(self.0, other.0);
            lemma_coord_key_injective(self.1, other.1);
            lemma_coord_key_injective(self.2, other.2);
        }
        let (a0, a1, a2) = (order_key(self.0), order_key(self.1), order_key(self.2));
        let (b0, b1, b2) = (order_key(other.0), order_key(other.1), order_key(other.2));
        if a0 < b0 || (a0 == b0 && (a1 < b1 || (a1 == b1 && a2 < b2))) {
            Ordering::Less
        } else if a0 == b0 && a1 == b1 && a2 == b2 {
            Ordering::Equal
        } else {
            Ordering::Greater
        }
    }

    fn duplicate(&self) -> (r: Self) {
        *self
    }
}

} // verus!
