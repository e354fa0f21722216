//! The search capability, and the backends that offer it.

use vstd::prelude::*;
use crate::model::{outcome_of, Outcome, SearchError, SearchResults};
use crate::stub::ElasticsearchStub;

verus! {

/// What every backend offers: an answer to a query.
///
/// A backend finds the results itself and has them ranked when it returns
/// them. It accepts every query, the empty one too.
pub trait Search: Send + Sync {
    /// Whether the backend may end the query in `outcome`. A backend that
    /// says nothing of itself may end a query in any way.
    open spec fn answers(&self, query: Seq<char>, outcome: Outcome) -> bool {
        true
    }

    /// Runs the query.
    fn search(&self, query: &str) -> (result: Result<SearchResults, SearchError>)
        ensures
            self.answers(query@, outcome_of(result)),
    ;
}

/// The backends that can be registered.
pub enum Provider {
    /// The backend that answers every query with one fixed result.
    Stub(ElasticsearchStub),
    /// A backend that asks a search engine. What it does lies outside this
    /// library, and it is known by the capability alone.
    Remote(Box<dyn Search>),
}

impl Search for Provider {
    open spec fn answers(&self, query: Seq<char>, outcome: Outcome) -> bool {
        match self {
            Provider::Stub(stub) => stub.answers(query, outcome),
            Provider::Remote(remote) => remote.answers(query, outcome),
        }
    }

    /// Hands the query to the backend and its answer back, untouched.
    fn search(&self, query: &str) -> (result: Result<SearchResults, SearchError>) {
        match self {
            Provider::Stub(stub) => stub.search(query),
            Provider::Remote(remote) => remote.search(query),
        }
    }
}

} // verus!
