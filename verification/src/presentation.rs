//! The view adapter: from what was found to what is shown.
//!
//! One item is made for each result, in the same order. The title and the URL
//! are plain text, which whoever shows them escapes. The snippets are markup:
//! a snippet with offsets is rendered, fragments that the backend has marked
//! up are handed on as they are.

use vstd::prelude::*;
use vstd::string::StringExecFns;
use crate::highlight::{highlighted_html, snippet_to_html};
use crate::model::{
    error_prefix,
    outcome_of,
    Outcome,
    ResultModel,
    SearchError,
    SearchResult,
    SearchResults,
    Snippets,
    SnippetsModel,
};

verus! {

/// One result as it is shown.
#[derive(Debug, PartialEq, Eq)]
pub struct SearchResultView {
    pub title: String,
    pub url: String,
    /// Markup, to be shown as it is.
    pub snippets_html: Vec<String>,
}

/// The results of a query as they are shown, best first.
#[derive(Debug, PartialEq, Eq)]
pub struct SearchResultsView {
    pub results: Vec<SearchResultView>,
}

/// What the page of results is filled in from.
#[derive(Debug, PartialEq, Eq)]
pub struct SearchResultsTemplate {
    pub data: SearchResultsView,
}

/// The mathematical value of a [`SearchResultView`].
pub struct ItemModel {
    pub title: Seq<char>,
    pub url: Seq<char>,
    pub snippets_html: Seq<Seq<char>>,
}

impl View for SearchResultView {
    type V = ItemModel;

    open spec fn view(&self) -> ItemModel {
        ItemModel {
            title: self.title@,
            url: self.url@,
            snippets_html: self.snippets_html.deep_view(),
        }
    }
}

impl DeepView for SearchResultView {
    type V = ItemModel;

    open spec fn deep_view(&self) -> ItemModel {
        self@
    }
}

impl View for SearchResultsView {
    type V = Seq<ItemModel>;

    open spec fn view(&self) -> Seq<ItemModel> {
        self.results.deep_view()
    }
}

impl View for SearchResultsTemplate {
    type V = Seq<ItemModel>;

    open spec fn view(&self) -> Seq<ItemModel> {
        self.data@
    }
}

/// The markup of the snippets of one result.
pub open spec fn rendered_snippets(snippets: SnippetsModel) -> Seq<Seq<char>> {
    match snippets {
        SnippetsModel::Offsets(snippet) => seq![
            highlighted_html(snippet.content, snippet.highlighted),
        ],
        SnippetsModel::Fragments(fragments) => fragments,
    }
}

/// The item that is shown for a result.
pub open spec fn item_of(result: ResultModel) -> ItemModel {
    ItemModel {
        title: result.title,
        url: result.url,
        snippets_html: rendered_snippets(result.snippets),
    }
}

/// The items that are shown for the results, one for each, in their order.
pub open spec fn items_of(results: Seq<ResultModel>) -> Seq<ItemModel> {
    Seq::new(results.len(), |i: int| item_of(results[i]))
}

/// Renders the snippets of one result. Fragments come out as they went in.
pub fn snippets_to_html(snippets: &Snippets) -> (html: Vec<String>)
    ensures
        html.deep_view() == rendered_snippets(snippets@),
        snippets@ matches SnippetsModel::Fragments(fragments) ==> html.deep_view() == fragments,
{
    match snippets {
        Snippets::Offsets(snippet) => {
            let mut html: Vec<String> = Vec::new();
            html.push(snippet_to_html(snippet));
            html
        },
        Snippets::Fragments(fragments) => {
            let mut html: Vec<String> = Vec::new();
            let mut done: usize = 0;
            while done < fragments.len()
                invariant
                    done <= fragments.len(),
                    html.len() == done,
                    forall|k: int| 0 <= k < done ==> html@[k]@ == fragments@[k]@,
                decreases fragments.len() - done,
            {
                html.push(fragments[done].clone());
                done += 1;
            }
            html
        },
    }
}

/// Makes the item that is shown for one result.
pub fn to_search_result_view(result: &SearchResult) -> (item: SearchResultView)
    ensures
        item@ == item_of(result@),
        result@.snippets matches SnippetsModel::Fragments(fragments) ==> item@.snippets_html
            == fragments,
{
    SearchResultView {
        title: result.title.clone(),
        url: result.url.clone(),
        snippets_html: snippets_to_html(&result.snippets),
    }
}

/// Makes what is shown for the results of a query: one item for each result,
/// in the order of the results.
pub fn to_search_results_view(sr: &SearchResults) -> (view: SearchResultsView)
    ensures
        view@.len() == sr@.len(),
        forall|i: int| 0 <= i < sr@.len() ==> view@[i] == item_of(#[trigger] sr@[i]),
        view@ == items_of(sr@),
{
    let mut results: Vec<SearchResultView> = Vec::new();
    let mut done: usize = 0;
    while done < sr.results.len()
        invariant
            done <= sr.results.len(),
            results.len() == done,
            forall|k: int| 0 <= k < done ==> results@[k]@ == item_of(sr.results@[k]@),
        decreases sr.results.len() - done,
    {
        results.push(to_search_result_view(&sr.results[done]));
        done += 1;
    }
    SearchResultsView { results }
}

/// What is sent back for a query: the page of results, or the text that is
/// shown in its place when the search failed.
#[derive(Debug, PartialEq, Eq)]
pub enum SearchPage {
    Results(SearchResultsTemplate),
    Failed(String),
}

/// The mathematical value of a [`SearchPage`].
pub enum PageModel {
    Results(Seq<ItemModel>),
    Failed(Seq<char>),
}

impl View for SearchPage {
    type V = PageModel;

    open spec fn view(&self) -> PageModel {
        match self {
            SearchPage::Results(template) => PageModel::Results(template@),
            SearchPage::Failed(text) => PageModel::Failed(text@),
        }
    }
}

/// The words that go before the error when a failed search is shown.
pub open spec fn failure_notice() -> Seq<char> {
    "Search failed: "@
}

/// The page for the outcome of a query.
pub open spec fn page_of(outcome: Outcome) -> PageModel {
    match outcome {
        Ok(results) => PageModel::Results(items_of(results)),
        Err(message) => PageModel::Failed(failure_notice() + (error_prefix() + message)),
    }
}

/// Makes the page for what a search returned: the view of the results, or
/// the error behind the words that tell of the failure.
pub fn search_page(found: &Result<SearchResults, SearchError>) -> (page: SearchPage)
    ensures
        page@ == page_of(outcome_of(*found)),
{
    match found {
        Ok(results) => SearchPage::Results(
            SearchResultsTemplate { data: to_search_results_view(results) },
        ),
        Err(error) => {
            let mut text = "Search failed: ".to_string();
            text.append(error.to_string().as_str());
            SearchPage::Failed(text)
        },
    }
}

} // verus!
