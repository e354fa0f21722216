use html_search::{
    search_page, snippets_to_html, to_search_result_view, to_search_results_view, SearchError,
    SearchPage, SearchResult, SearchResultView, SearchResults, SearchResultsTemplate,
    SearchResultsView, Snippet, Snippets,
};

fn with_offsets(title: &str, content: &str, highlighted: Vec<(usize, usize)>) -> SearchResult {
    SearchResult {
        title: title.to_string(),
        url: format!("https://example.org/{}", title),
        snippets: Snippets::Offsets(Snippet { content: content.to_string(), highlighted }),
    }
}

fn with_fragments(title: &str, fragments: Vec<&str>) -> SearchResult {
    SearchResult {
        title: title.to_string(),
        url: format!("https://example.org/{}", title),
        snippets: Snippets::Fragments(fragments.into_iter().map(|f| f.to_string()).collect()),
    }
}

#[test]
fn the_view_keeps_the_order_of_the_results() {
    let results = SearchResults {
        results: vec![
            with_offsets("third", "ccc", vec![]),
            with_offsets("first", "aaa", vec![(0, 1)]),
            with_fragments("second", vec!["<mark>b</mark>bb"]),
            with_offsets("first", "aaa", vec![(0, 1)]),
        ],
    };
    let view = to_search_results_view(&results);
    let titles: Vec<&str> = view.results.iter().map(|item| item.title.as_str()).collect();
    assert_eq!(titles, vec!["third", "first", "second", "first"]);
    assert_eq!(view.results.len(), results.results.len());
    for (item, result) in view.results.iter().zip(results.results.iter()) {
        assert_eq!(*item, to_search_result_view(result));
    }
}

#[test]
fn no_results_give_an_empty_view() {
    let view = to_search_results_view(&SearchResults { results: vec![] });
    assert_eq!(view, SearchResultsView { results: vec![] });
}

#[test]
fn fragments_pass_through_unchanged() {
    let fragments = vec!["a <mark>hit</mark> here", "", "<mark>é</mark>€ & <b>", "plain"];
    let html = snippets_to_html(&Snippets::Fragments(
        fragments.iter().map(|f| f.to_string()).collect(),
    ));
    assert_eq!(html, fragments);
    assert_eq!(snippets_to_html(&Snippets::Fragments(vec![])), Vec::<String>::new());
}

#[test]
fn a_snippet_with_offsets_is_rendered() {
    let html = snippets_to_html(&Snippets::Offsets(Snippet {
        content: "hello world".to_string(),
        highlighted: vec![(0, 5)],
    }));
    assert_eq!(html, vec!["<mark>hello</mark> world"]);
}

#[test]
fn an_item_holds_the_title_the_url_and_the_markup() {
    let item = to_search_result_view(&with_offsets("t & t", "abcdef", vec![(3, 4), (0, 1)]));
    assert_eq!(
        item,
        SearchResultView {
            title: "t & t".to_string(),
            url: "https://example.org/t & t".to_string(),
            snippets_html: vec!["<mark>a</mark>bc<mark>d</mark>ef".to_string()],
        }
    );
    let item = to_search_result_view(&with_fragments("f", vec!["<mark>x</mark>", "y"]));
    assert_eq!(
        item,
        SearchResultView {
            title: "f".to_string(),
            url: "https://example.org/f".to_string(),
            snippets_html: vec!["<mark>x</mark>".to_string(), "y".to_string()],
        }
    );
}

#[test]
fn the_view_does_not_change_the_results() {
    let results = SearchResults { results: vec![with_offsets("a", "abc", vec![(2, 3), (0, 1)])] };
    let _ = to_search_results_view(&results);
    assert_eq!(
        results,
        SearchResults { results: vec![with_offsets("a", "abc", vec![(2, 3), (0, 1)])] }
    );
}

#[test]
fn the_page_of_a_search_that_found_something_holds_the_view() {
    let results = SearchResults { results: vec![with_fragments("f", vec!["<mark>x</mark>"])] };
    let view = to_search_results_view(&results);
    assert_eq!(
        search_page(&Ok(results)),
        SearchPage::Results(SearchResultsTemplate { data: view })
    );
}

#[test]
fn the_page_of_a_search_that_failed_tells_the_error() {
    let failed = Err(SearchError::Internal("no provider registered".to_string()));
    assert_eq!(
        search_page(&failed),
        SearchPage::Failed("Search failed: Search error: no provider registered".to_string())
    );
}
