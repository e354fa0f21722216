//! The result model: what a provider hands back for one query.

use vstd::prelude::*;

verus! {

/// An excerpt of a document together with the byte ranges of it that matched.
///
/// Each range is a half-open interval `[start, end)` of byte offsets into
/// `content`. Ranges may come in any order and may overlap.
#[derive(Debug, PartialEq, Eq)]
pub struct Snippet {
    pub content: String,
    pub highlighted: Vec<(usize, usize)>,
}

/// The two shapes in which a backend reports where a document matched.
#[derive(Debug, PartialEq, Eq)]
pub enum Snippets {
    /// One excerpt with the offsets of the matches in it.
    Offsets(Snippet),
    /// Excerpts in which the backend has already embedded the markup.
    Fragments(Vec<String>),
}

/// One hit.
#[derive(Debug, PartialEq, Eq)]
pub struct SearchResult {
    pub title: String,
    pub url: String,
    pub snippets: Snippets,
}

/// The hits of one query, best first.
#[derive(Debug, PartialEq, Eq)]
pub struct SearchResults {
    pub results: Vec<SearchResult>,
}

/// The one kind of failure: something went wrong behind the search interface.
#[derive(Debug, PartialEq, Eq)]
pub enum SearchError {
    Internal(String),
}

/// The mathematical value of a [`Snippet`].
pub struct SnippetModel {
    pub content: Seq<char>,
    pub highlighted: Seq<(usize, usize)>,
}

/// The mathematical value of a [`Snippets`].
pub enum SnippetsModel {
    Offsets(SnippetModel),
    Fragments(Seq<Seq<char>>),
}

/// The mathematical value of a [`SearchResult`].
pub struct ResultModel {
    pub title: Seq<char>,
    pub url: Seq<char>,
    pub snippets: SnippetsModel,
}

/// How a query ended, as a mathematical value: the hits in ranking order, or
/// the message of the failure.
pub type Outcome = Result<Seq<ResultModel>, Seq<char>>;

impl View for Snippet {
    type V = SnippetModel;

    open spec fn view(&self) -> SnippetModel {
        SnippetModel { content: self.content@, highlighted: self.highlighted@ }
    }
}

impl View for Snippets {
    type V = SnippetsModel;

    open spec fn view(&self) -> SnippetsModel {
        match self {
            Snippets::Offsets(snippet) => SnippetsModel::Offsets(snippet@),
            Snippets::Fragments(fragments) => SnippetsModel::Fragments(fragments.deep_view()),
        }
    }
}

impl View for SearchResult {
    type V = ResultModel;

    open spec fn view(&self) -> ResultModel {
        ResultModel { title: self.title@, url: self.url@, snippets: self.snippets@ }
    }
}

impl DeepView for SearchResult {
    type V = ResultModel;

    open spec fn deep_view(&self) -> ResultModel {
        self@
    }
}

impl View for SearchResults {
    type V = Seq<ResultModel>;

    open spec fn view(&self) -> Seq<ResultModel> {
        self.results.deep_view()
    }
}

impl View for SearchError {
    type V = Seq<char>;

    /// An error is its message.
    open spec fn view(&self) -> Seq<char> {
        match self {
            SearchError::Internal(message) => message@,
        }
    }
}

/// The outcome of a query that found `results`.
pub open spec fn success(results: Seq<ResultModel>) -> Outcome {
    Ok(results)
}

/// The outcome of a query that failed with `message`.
pub open spec fn failure(message: Seq<char>) -> Outcome {
    Err(message)
}

/// The mathematical value of what a search returned.
pub open spec fn outcome_of(result: Result<SearchResults, SearchError>) -> Outcome {
    match result {
        Ok(results) => Ok(results@),
        Err(error) => Err(error@),
    }
}

/// The words that go before the message when an error is shown.
pub open spec fn error_prefix() -> Seq<char> {
    "Search error: "@
}

impl SearchError {
    /// The text of the error as it is shown to a reader: the prefix, then the
    /// message.
    pub fn to_string(&self) -> (text: String)
        ensures
            text@ == error_prefix() + self@,
    {
        match self {
            SearchError::Internal(message) => {
                let mut text = "Search error: ".to_string();
                text.append(message.as_str());
                text
            },
        }
    }
}

} // verus!
