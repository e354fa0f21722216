//! A small search front end's core: a backend-agnostic result model, a
//! write-once provider registry, and the rendering of highlighted snippets
//! into marked-up text.
//!
//! Every executable function carries a contract over the mathematical views of
//! its arguments, and the laws that relate several functions are stated as
//! proof functions next to them.

pub mod engine;
pub mod highlight;
pub mod model;
pub mod presentation;
pub mod provider;
pub mod ranges;
pub mod registry;
pub mod stub;
pub mod text;

pub use engine::{
    hit_from_fields, results_from_hits, results_from_response, search_request, HitFields,
    SearchRequest,
};
pub use highlight::snippet_to_html;
pub use model::{SearchError, SearchResult, SearchResults, Snippet, Snippets};
pub use presentation::{
    search_page, snippets_to_html, to_search_result_view, to_search_results_view, SearchPage,
    SearchResultView, SearchResultsTemplate, SearchResultsView,
};
pub use provider::{Provider, Search};
pub use ranges::sort_by_start;
pub use registry::{forward_answer, search, set_search_impl, Registry};
pub use stub::ElasticsearchStub;
