//! Loaders for model formats.
use vstd::prelude::*;
use crate::errors::Error;
use crate::geometry::Vertex;
use crate::index::Index;
use crate::model::{builds, Model};

pub mod wavefront;

verus! {

/// A model format: something that can describe the indices and vertices of
/// a model and build it for any vertex type that converts from its own.
pub trait Format: Sized {
    /// The vertex type of the format.
    type Vertex;

    /// The index list of the model, as numbers.
    spec fn format_indices(&self) -> Seq<nat>;

    /// The vertices of the model, in the format's own type.
    spec fn format_vertices(&self) -> Seq<Self::Vertex>;

    /// Builds the model, converting each vertex with `From`.
    fn build_model<V: Vertex + From<Self::Vertex>, I: Index>(self) -> (r: Result<Model<V, I>, Error>)
        ensures
            builds::<Self::Vertex, V, I>(self.format_indices(), self.format_vertices(), r),
    ;
}

} // verus!
