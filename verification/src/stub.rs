//! A backend for trying things out: it knows one result and returns it for
//! every query.

use vstd::prelude::*;
use crate::model::{
    success,
    Outcome,
    ResultModel,
    SearchError,
    SearchResult,
    SearchResults,
    Snippets,
    SnippetsModel,
};
use crate::provider::Search;

verus! {

/// The backend that answers every query with one fixed result.
#[derive(Debug, PartialEq, Eq)]
pub struct ElasticsearchStub {}

/// The one result that the stub knows.
pub open spec fn stub_result() -> ResultModel {
    ResultModel {
        title: "a stubbed title"@,
        url: "https://notneeded.net/stubbed/blah"@,
        snippets: SnippetsModel::Fragments(seq!["a stubbed snippet"@]),
    }
}

impl Default for ElasticsearchStub {
    fn default() -> (stub: ElasticsearchStub)
        ensures
            stub == (ElasticsearchStub {  }),
    {
        ElasticsearchStub {  }
    }
}

impl Search for ElasticsearchStub {
    open spec fn answers(&self, query: Seq<char>, outcome: Outcome) -> bool {
        outcome == success(seq![stub_result()])
    }

    fn search(&self, query: &str) -> (result: Result<SearchResults, SearchError>) {
        let mut fragments: Vec<String> = Vec::new();
        fragments.push("a stubbed snippet".to_string());
        let hit = SearchResult {
            title: "a stubbed title".to_string(),
            url: "https://notneeded.net/stubbed/blah".to_string(),
            snippets: Snippets::Fragments(fragments),
        };
        assert(fragments.deep_view() =~= seq!["a stubbed snippet"@]);
        let mut results: Vec<SearchResult> = Vec::new();
        results.push(hit);
        let found = SearchResults { results };
        assert(found@ =~= seq![stub_result()]);
        Ok(found)
    }
}

} // verus!
