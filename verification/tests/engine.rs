use html_search::{
    hit_from_fields, results_from_hits, results_from_response, search_request, HitFields,
    SearchError, SearchRequest, SearchResult, SearchResults, Snippets,
};
use serde_json::Value;

fn parse(text: &str) -> Value {
    serde_json::from_str(text).unwrap()
}

fn internal(message: &str) -> SearchError {
    SearchError::Internal(message.to_string())
}

fn hit(title: &str, url: &str, fragments: Vec<&str>) -> SearchResult {
    SearchResult {
        title: title.to_string(),
        url: url.to_string(),
        snippets: Snippets::Fragments(fragments.into_iter().map(|f| f.to_string()).collect()),
    }
}

#[test]
fn the_request_asks_for_marked_fragments_of_the_body() {
    assert_eq!(
        search_request("wombat OR quoll"),
        SearchRequest {
            index: "parks-australia".to_string(),
            allow_no_indices: true,
            query: "wombat OR quoll".to_string(),
            default_field: "body".to_string(),
            source_fields: vec!["title".to_string(), "url".to_string()],
            highlight_field: "body".to_string(),
            pre_tag: "<mark>".to_string(),
            post_tag: "</mark>".to_string(),
            fragment_size: 150,
            number_of_fragments: 3,
        }
    );
    assert_eq!(search_request("").query, "");
}

#[test]
fn an_answer_becomes_results_in_its_order() {
    let body = parse(
        r#"{
            "took": 3,
            "hits": {
                "total": {"value": 2},
                "hits": [
                    {
                        "_id": "7",
                        "_source": {"title": "Kakadu", "url": "https://parks/kakadu"},
                        "highlight": {"body": ["a <mark>park</mark>", "more <mark>parks</mark>"]}
                    },
                    {
                        "_id": "2",
                        "_source": {"url": "https://parks/uluru", "title": "Uluru"},
                        "highlight": {"body": []}
                    }
                ]
            }
        }"#,
    );
    assert_eq!(
        results_from_response(&body),
        Ok(SearchResults {
            results: vec![
                hit("Kakadu", "https://parks/kakadu", vec!["a <mark>park</mark>", "more <mark>parks</mark>"]),
                hit("Uluru", "https://parks/uluru", vec![]),
            ],
        })
    );
}

#[test]
fn an_answer_without_hits_gives_no_results() {
    let body = parse(r#"{"hits": {"hits": []}}"#);
    assert_eq!(results_from_response(&body), Ok(SearchResults { results: vec![] }));
}

#[test]
fn an_answer_without_a_list_of_hits_is_an_error() {
    let error = Err(internal("malformed response: no list of hits"));
    assert_eq!(results_from_response(&parse(r#"{}"#)), error);
    assert_eq!(results_from_response(&parse(r#"null"#)), error);
    assert_eq!(results_from_response(&parse(r#"[1, 2]"#)), error);
    assert_eq!(results_from_response(&parse(r#"{"hits": []}"#)), error);
    assert_eq!(results_from_response(&parse(r#"{"hits": {"hits": {}}}"#)), error);
    assert_eq!(results_from_response(&parse(r#"{"hits": {"hits": "none"}}"#)), error);
    assert_eq!(results_from_response(&parse(r#"{"error": {"hits": {"hits": []}}}"#)), error);
}

#[test]
fn a_hit_without_a_title_is_an_error() {
    let error = Err(internal("malformed response: a hit without a title"));
    let body = parse(r#"{"hits": {"hits": [{"_source": {"url": "u"}, "highlight": {"body": []}}]}}"#);
    assert_eq!(results_from_response(&body), error);
    let body = parse(r#"{"hits": {"hits": [{"_source": {"title": 7, "url": "u"}, "highlight": {"body": []}}]}}"#);
    assert_eq!(results_from_response(&body), error);
    let body = parse(r#"{"hits": {"hits": [{"highlight": {"body": []}}]}}"#);
    assert_eq!(results_from_response(&body), error);
    let body = parse(r#"{"hits": {"hits": ["Kakadu"]}}"#);
    assert_eq!(results_from_response(&body), error);
}

#[test]
fn a_hit_without_a_url_is_an_error() {
    let error = Err(internal("malformed response: a hit without a URL"));
    let body = parse(r#"{"hits": {"hits": [{"_source": {"title": "t"}, "highlight": {"body": []}}]}}"#);
    assert_eq!(results_from_response(&body), error);
    let body = parse(r#"{"hits": {"hits": [{"_source": {"title": "t", "url": null}, "highlight": {"body": []}}]}}"#);
    assert_eq!(results_from_response(&body), error);
}

#[test]
fn a_hit_without_fragments_is_an_error() {
    let error = Err(internal("malformed response: a hit without highlighted fragments"));
    let body = parse(r#"{"hits": {"hits": [{"_source": {"title": "t", "url": "u"}}]}}"#);
    assert_eq!(results_from_response(&body), error);
    let body = parse(r#"{"hits": {"hits": [{"_source": {"title": "t", "url": "u"}, "highlight": {"title": ["x"]}}]}}"#);
    assert_eq!(results_from_response(&body), error);
    let body = parse(r#"{"hits": {"hits": [{"_source": {"title": "t", "url": "u"}, "highlight": {"body": "x"}}]}}"#);
    assert_eq!(results_from_response(&body), error);
}

#[test]
fn a_fragment_that_is_not_text_is_an_error() {
    let error = Err(internal("malformed response: a highlighted fragment that is not text"));
    let body = parse(r#"{"hits": {"hits": [{"_source": {"title": "t", "url": "u"}, "highlight": {"body": ["x", 5]}}]}}"#);
    assert_eq!(results_from_response(&body), error);
    let body = parse(r#"{"hits": {"hits": [{"_source": {"title": "t", "url": "u"}, "highlight": {"body": [["x"]]}}]}}"#);
    assert_eq!(results_from_response(&body), error);
}

#[test]
fn the_first_bad_hit_decides() {
    let body = parse(
        r#"{"hits": {"hits": [
            {"_source": {"title": "t", "url": "u"}, "highlight": {"body": ["x"]}},
            {"_source": {"title": "t"}, "highlight": {"body": ["x"]}},
            {"_source": {"url": "u"}, "highlight": {"body": ["x"]}}
        ]}}"#,
    );
    assert_eq!(
        results_from_response(&body),
        Err(internal("malformed response: a hit without a URL"))
    );
}

#[test]
fn what_is_missing_first_decides() {
    let nothing = HitFields { title: None, url: None, fragments: None };
    assert_eq!(
        hit_from_fields(&nothing),
        Err(internal("malformed response: a hit without a title"))
    );
    let titled = HitFields { title: Some("t".to_string()), url: None, fragments: None };
    assert_eq!(hit_from_fields(&titled), Err(internal("malformed response: a hit without a URL")));
    let located =
        HitFields { title: Some("t".to_string()), url: Some("u".to_string()), fragments: None };
    assert_eq!(
        hit_from_fields(&located),
        Err(internal("malformed response: a hit without highlighted fragments"))
    );
    let broken = HitFields {
        title: Some("t".to_string()),
        url: Some("u".to_string()),
        fragments: Some(vec![Some("a".to_string()), None, Some("c".to_string())]),
    };
    assert_eq!(
        hit_from_fields(&broken),
        Err(internal("malformed response: a highlighted fragment that is not text"))
    );
}

#[test]
fn a_complete_hit_is_a_result() {
    let fields = HitFields {
        title: Some("t".to_string()),
        url: Some("u".to_string()),
        fragments: Some(vec![Some("<mark>a</mark>".to_string()), Some("b".to_string())]),
    };
    assert_eq!(hit_from_fields(&fields), Ok(hit("t", "u", vec!["<mark>a</mark>", "b"])));
    let bare = HitFields {
        title: Some(String::new()),
        url: Some(String::new()),
        fragments: Some(vec![]),
    };
    assert_eq!(hit_from_fields(&bare), Ok(hit("", "", vec![])));
}

#[test]
fn hits_become_results_in_their_order() {
    let fields = |title: &str| HitFields {
        title: Some(title.to_string()),
        url: Some("u".to_string()),
        fragments: Some(vec![Some(title.to_string())]),
    };
    assert_eq!(results_from_hits(&vec![]), Ok(SearchResults { results: vec![] }));
    assert_eq!(
        results_from_hits(&vec![fields("b"), fields("a"), fields("c")]),
        Ok(SearchResults {
            results: vec![hit("b", "u", vec!["b"]), hit("a", "u", vec!["a"]), hit("c", "u", vec!["c"])],
        })
    );
    let untitled = HitFields { title: None, url: Some("u".to_string()), fragments: Some(vec![]) };
    let unlocated = HitFields { title: Some("t".to_string()), url: None, fragments: Some(vec![]) };
    assert_eq!(
        results_from_hits(&vec![fields("a"), unlocated, untitled]),
        Err(internal("malformed response: a hit without a URL"))
    );
}
