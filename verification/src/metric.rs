//! Distance metrics, and what a vector index is built with.
use vstd::prelude::*;
use crate::text::{text_eq, Text};

verus! {

/// How two vectors are compared.
#[derive(Clone, Copy, Debug, PartialEq, Eq, Structural)]
pub enum DistanceMetric {
    /// The cosine of the angle.
    Cosine,
    /// The inner product.
    DotProduct,
    /// The straight-line distance.
    Euclidean,
    /// The distance in the Poincaré ball.
    Poincare,
}

/// The metric of a name.
pub open spec fn metric_named(name: Text) -> Option<DistanceMetric> {
    if name == "cosine"@ {
        Some(DistanceMetric::Cosine)
    } else if name == "dot_product"@ {
        Some(DistanceMetric::DotProduct)
    } else if name == "euclidean"@ {
        Some(DistanceMetric::Euclidean)
    } else if name == "poincare"@ {
        Some(DistanceMetric::Poincare)
    } else {
        None
    }
}

/// The name a store's scores go by: its own metric's, else `cosine`.
pub open spec fn metric_or_cosine(metric: Option<Text>) -> Text {
    match metric {
        Some(name) => name,
        None => "cosine"@,
    }
}

impl DistanceMetric {
    /// The metric of a name.
    pub fn from_name(name: &str) -> (metric: Option<DistanceMetric>)
        ensures
            metric == metric_named(name@),
    {
        if text_eq(name, "cosine") {
            Some(DistanceMetric::Cosine)
        } else if text_eq(name, "dot_product") {
            Some(DistanceMetric::DotProduct)
        } else if text_eq(name, "euclidean") {
            Some(DistanceMetric::Euclidean)
        } else if text_eq(name, "poincare") {
            Some(DistanceMetric::Poincare)
        } else {
            None
        }
    }

    /// Whether a graph index can rank by the metric.
    pub fn indexable(&self) -> (yes: bool)
        ensures
            yes == (*self != DistanceMetric::Poincare),
    {
        *self != DistanceMetric::Poincare
    }
}

/// How a vector index is linked and searched.
#[derive(Clone, Copy, Debug, PartialEq, Eq, Structural)]
pub struct HnswParams {
    /// The neighbours of a vector above the lowest layer.
    pub m: usize,
    /// The candidates kept while the index is built.
    pub ef_construction: usize,
    /// The candidates kept while the index is searched.
    pub ef_search: usize,
}

/// The neighbours of a vector when nothing else is asked for.
pub const DEFAULT_M: usize = 16;

/// The candidates kept while building when nothing else is asked for.
pub const DEFAULT_EF_CONSTRUCTION: usize = 200;

/// The candidates kept while searching when nothing else is asked for.
pub const DEFAULT_EF_SEARCH: usize = 64;

impl Default for HnswParams {
    fn default() -> (params: HnswParams)
        ensures
            params.m == DEFAULT_M,
            params.ef_construction == DEFAULT_EF_CONSTRUCTION,
            params.ef_search == DEFAULT_EF_SEARCH,
    {
        HnswParams {
            m: DEFAULT_M,
            ef_construction: DEFAULT_EF_CONSTRUCTION,
            ef_search: DEFAULT_EF_SEARCH,
        }
    }
}

/// A built vector index: what it was built with. The vectors it covers are
/// those the store's freshness says it covers.
#[derive(Clone, Copy, Debug, PartialEq, Eq, Structural)]
pub struct VectorIndex {
    /// The metric it ranks by.
    pub metric: DistanceMetric,
    /// How it is linked and searched.
    pub params: HnswParams,
    /// What its layers were drawn from.
    pub seed: u64,
}

} // verus!
