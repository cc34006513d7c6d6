//! What the consumers of queries answer.
use vstd::prelude::*;
use crate::proto::Query;

verus! {

/// Answer of the consumer of one query.
#[derive(Debug)]
pub enum QueryConsumingResult {
    /// The query was handled; the bytes are the answer.
    Consumed(Vec<u8>),
    /// The query is not for this consumer, which hands it back.
    Rejected(Query),
}

/// Answer of the consumer of a bundle of queries.
#[derive(Debug)]
pub enum QueryBundleConsumingResult {
    /// The bundle was handled; the bytes are the answer.
    Consumed(Vec<u8>),
    /// The bundle is not for this consumer, which hands it back.
    Rejected(Vec<Query>),
}

/// How far a consumer got with a bundle of queries.
#[derive(Debug)]
pub enum QueryBundleStep {
    /// The bundle is dealt with.
    Done(QueryBundleConsumingResult),
    /// The query is for the subscriber with the handle `subscriber`, whose
    /// answer decides.
    Delegate { subscriber: usize, query: Query },
}

} // verus!
