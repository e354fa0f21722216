//! The place where the one backend of a process is registered and found.
//!
//! A registry is made empty. A backend is registered in it once, at startup,
//! and every query afterwards is handed to that backend. The registry is an
//! ordinary value: whoever serves queries is given it.

use vstd::prelude::*;
use once_cell::sync::OnceCell;
use crate::model::{failure, outcome_of, Outcome, SearchError, SearchResults};
use crate::provider::{Provider, Search};

verus! {

/// `once_cell::sync::OnceCell`, a cell that is written at most once.
#[verifier::external_type_specification]
#[verifier::external_body]
#[verifier::reject_recursive_types(T)]
pub struct ExOnceCell<T>(OnceCell<T>);

/// What a cell holds: nothing, or the backend that was put into it.
pub uninterp spec fn held(cell: OnceCell<Provider>) -> Option<Provider>;

/// `OnceCell::new` makes a cell that holds nothing.
#[verifier::external_body]
fn empty_cell() -> (cell: OnceCell<Provider>)
    ensures
        held(cell) is None,
{
    OnceCell::new()
}

/// `OnceCell::set` fills a cell that holds nothing and returns `Ok`. A cell
/// that holds something is left as it is, and the value comes back in `Err`.
///
/// `set` writes through a shared reference. The cell is taken by `&mut` here,
/// so that what it holds before and after the call are two values, and nobody
/// else can fill it meanwhile.
#[verifier::external_body]
fn fill_cell(cell: &mut OnceCell<Provider>, backend: Provider) -> (filled: Result<(), Provider>)
    ensures
        match held(*old(cell)) {
            None => filled is Ok && held(*final(cell)) == Some(backend),
            Some(_) => filled is Err && filled->Err_0 == backend && held(*final(cell)) == held(
                *old(cell),
            ),
        },
{
    cell.set(backend)
}

/// `OnceCell::get` lends what the cell holds.
#[verifier::external_body]
fn cell_content(cell: &OnceCell<Provider>) -> (content: Option<&Provider>)
    ensures
        match content {
            Some(backend) => held(*cell) == Some(*backend),
            None => held(*cell) is None,
        },
{
    cell.get()
}

/// The message of the error that a query gets while no backend is registered.
pub open spec fn no_provider() -> Seq<char> {
    "no provider registered"@
}

/// The message of the error that a second registration gets.
pub open spec fn already_registered() -> Seq<char> {
    "Search implementation is already set!"@
}

/// Whether a registry in which `before` is registered takes a backend: only
/// while nothing is registered.
pub open spec fn accepts(before: Option<Provider>) -> bool {
    before is None
}

/// What is registered after `backend` was offered to a registry in which
/// `before` was registered: the first backend stays.
pub open spec fn registered(before: Option<Provider>, backend: Provider) -> Option<Provider> {
    match before {
        None => Some(backend),
        Some(first) => Some(first),
    }
}

/// Whether a query to a registry in which `slot` is registered may end in
/// `outcome`: as the backend ends it, or in the error for the missing backend.
pub open spec fn dispatches(slot: Option<Provider>, query: Seq<char>, outcome: Outcome) -> bool {
    match slot {
        None => outcome == failure(no_provider()),
        Some(backend) => backend.answers(query, outcome),
    }
}

/// The slot for the one backend.
pub struct Registry {
    slot: OnceCell<Provider>,
}

impl Registry {
    /// The backend that is registered, if one is.
    pub closed spec fn provider(&self) -> Option<Provider> {
        held(self.slot)
    }

    /// A registry in which nothing is registered.
    pub fn new() -> (registry: Registry)
        ensures
            registry.provider() is None,
    {
        Registry { slot: empty_cell() }
    }

    /// Whether a backend is registered.
    pub fn is_registered(&self) -> (yes: bool)
        ensures
            yes == self.provider() is Some,
    {
        cell_content(&self.slot).is_some()
    }
}

/// Registers the backend, unless one is registered already: then the registry
/// stays as it is, and the call fails.
pub fn set_search_impl(registry: &mut Registry, backend: Provider) -> (result: Result<
    (),
    SearchError,
>)
    ensures
        result is Ok <==> accepts(old(registry).provider()),
        result matches Err(error) ==> error@ == already_registered(),
        final(registry).provider() == registered(old(registry).provider(), backend),
{
    match fill_cell(&mut registry.slot, backend) {
        Ok(()) => Ok(()),
        Err(_) => Err(SearchError::Internal("Search implementation is already set!".to_string())),
    }
}

/// What a query returns: the answer of the backend as it came, error or not,
/// or the error for the missing backend where there was none to answer.
pub fn forward_answer(answer: Option<Result<SearchResults, SearchError>>) -> (result: Result<
    SearchResults,
    SearchError,
>)
    ensures
        answer matches Some(given) ==> result == given,
        answer is None ==> outcome_of(result) == failure(no_provider()),
{
    match answer {
        Some(given) => given,
        None => Err(SearchError::Internal("no provider registered".to_string())),
    }
}

/// Hands the query to the registered backend and its answer back, untouched.
/// While no backend is registered the query fails at once.
pub fn search(registry: &Registry, query: &str) -> (result: Result<SearchResults, SearchError>)
    ensures
        dispatches(registry.provider(), query@, outcome_of(result)),
        registry.provider() is None ==> outcome_of(result) == failure(no_provider()),
{
    let answer = match cell_content(&registry.slot) {
        Some(backend) => Some(backend.search(query)),
        None => None,
    };
    forward_answer(answer)
}

/// Registration is exclusive: of two backends that are offered to an empty
/// registry the first is registered and the second is not, and every query
/// afterwards ends as the first backend ends it.
pub proof fn lemma_registration_exclusive(
    first: Provider,
    second: Provider,
    query: Seq<char>,
    outcome: Outcome,
)
    ensures
        accepts(None),
        registered(None, first) == Some(first),
        !accepts(registered(None, first)),
        registered(registered(None, first), second) == Some(first),
        dispatches(registered(registered(None, first), second), query, outcome) == first.answers(
            query,
            outcome,
        ),
{
}

/// Without a backend every query ends in the same error.
pub proof fn lemma_missing_provider(query: Seq<char>, outcome: Outcome)
    ensures
        dispatches(None, query, outcome) <==> outcome == failure(no_provider()),
{
}

} // verus!
