//! The search engine's side of a remote backend: what it is asked for a
//! query, and how its answer becomes results.
//!
//! The request and the answer travel as JSON. Sending and receiving are not
//! done here. A backend builds the request with [`search_request`], sends it,
//! and hands the body of the answer to [`results_from_response`].
//!
//! An answer is not trusted to have the expected shape. Where it has not, the
//! query fails with an error that says what is missing; nothing panics.

use vstd::prelude::*;
use serde_json::Value;
use crate::highlight::{mark_close, mark_open};
use crate::model::{
    failure,
    outcome_of,
    success,
    Outcome,
    ResultModel,
    SearchError,
    SearchResult,
    SearchResults,
    Snippets,
    SnippetsModel,
};

verus! {

/// What the engine is asked for one query.
#[derive(Debug, PartialEq, Eq)]
pub struct SearchRequest {
    /// The index that is searched.
    pub index: String,
    /// Whether it is an error that the index does not exist.
    pub allow_no_indices: bool,
    /// The query, as it was typed.
    pub query: String,
    /// The field in which the words of the query are looked for.
    pub default_field: String,
    /// The fields of a document that are returned.
    pub source_fields: Vec<String>,
    /// The field from which the fragments are taken.
    pub highlight_field: String,
    /// What the engine writes before a match in a fragment.
    pub pre_tag: String,
    /// What the engine writes behind a match in a fragment.
    pub post_tag: String,
    /// The size of a fragment, in characters.
    pub fragment_size: u64,
    /// The greatest number of fragments for one document.
    pub number_of_fragments: u64,
}

/// The mathematical value of a [`SearchRequest`].
pub struct RequestModel {
    pub index: Seq<char>,
    pub allow_no_indices: bool,
    pub query: Seq<char>,
    pub default_field: Seq<char>,
    pub source_fields: Seq<Seq<char>>,
    pub highlight_field: Seq<char>,
    pub pre_tag: Seq<char>,
    pub post_tag: Seq<char>,
    pub fragment_size: u64,
    pub number_of_fragments: u64,
}

impl View for SearchRequest {
    type V = RequestModel;

    open spec fn view(&self) -> RequestModel {
        RequestModel {
            index: self.index@,
            allow_no_indices: self.allow_no_indices,
            query: self.query@,
            default_field: self.default_field@,
            source_fields: self.source_fields.deep_view(),
            highlight_field: self.highlight_field@,
            pre_tag: self.pre_tag@,
            post_tag: self.post_tag@,
            fragment_size: self.fragment_size,
            number_of_fragments: self.number_of_fragments,
        }
    }
}

/// The request for a query: the words are looked for in the body of the
/// documents of the one index, the title and the URL of each document found
/// are returned, and with them up to three fragments of its body in which the
/// matches stand between the marks that the renderer writes.
pub open spec fn request_for(query: Seq<char>) -> RequestModel {
    RequestModel {
        index: "parks-australia"@,
        allow_no_indices: true,
        query,
        default_field: "body"@,
        source_fields: seq!["title"@, "url"@],
        highlight_field: "body"@,
        pre_tag: mark_open(),
        post_tag: mark_close(),
        fragment_size: 150,
        number_of_fragments: 3,
    }
}

/// Builds the request for a query. Every query is accepted, the empty one too.
pub fn search_request(query: &str) -> (request: SearchRequest)
    ensures
        request@ == request_for(query@),
{
    let mut source_fields: Vec<String> = Vec::new();
    source_fields.push("title".to_string());
    source_fields.push("url".to_string());
    proof {
        reveal_strlit("<mark>");
        reveal_strlit("</mark>");
        assert("<mark>"@ =~= mark_open());
        assert("</mark>"@ =~= mark_close());
        assert(source_fields.deep_view() =~= seq!["title"@, "url"@]);
    }
    SearchRequest {
        index: "parks-australia".to_string(),
        allow_no_indices: true,
        query: query.to_string(),
        default_field: "body".to_string(),
        source_fields,
        highlight_field: "body".to_string(),
        pre_tag: "<mark>".to_string(),
        post_tag: "</mark>".to_string(),
        fragment_size: 150,
        number_of_fragments: 3,
    }
}

/// What was found of one hit in an answer. A field is `None` where the answer
/// does not hold it or holds something else than text in its place.
#[derive(Debug, PartialEq, Eq)]
pub struct HitFields {
    pub title: Option<String>,
    pub url: Option<String>,
    /// The fragments, or `None` where the answer holds no list of them.
    pub fragments: Option<Vec<Option<String>>>,
}

/// The mathematical value of a [`HitFields`].
pub struct HitFieldsModel {
    pub title: Option<Seq<char>>,
    pub url: Option<Seq<char>>,
    pub fragments: Option<Seq<Option<Seq<char>>>>,
}

/// The mathematical value of a field that may be missing.
pub open spec fn text_of(field: Option<String>) -> Option<Seq<char>> {
    match field {
        Some(text) => Some(text@),
        None => None,
    }
}

impl View for HitFields {
    type V = HitFieldsModel;

    open spec fn view(&self) -> HitFieldsModel {
        HitFieldsModel {
            title: text_of(self.title),
            url: text_of(self.url),
            fragments: match self.fragments {
                Some(list) => Some(Seq::new(list@.len(), |i: int| text_of(list@[i]))),
                None => None,
            },
        }
    }
}

impl DeepView for HitFields {
    type V = HitFieldsModel;

    open spec fn deep_view(&self) -> HitFieldsModel {
        self@
    }
}

/// The message of the error for an answer without a list of hits.
pub open spec fn no_hits() -> Seq<char> {
    "malformed response: no list of hits"@
}

/// The message of the error for a hit without a title.
pub open spec fn no_title() -> Seq<char> {
    "malformed response: a hit without a title"@
}

/// The message of the error for a hit without a URL.
pub open spec fn no_url() -> Seq<char> {
    "malformed response: a hit without a URL"@
}

/// The message of the error for a hit without a list of fragments.
pub open spec fn no_fragments() -> Seq<char> {
    "malformed response: a hit without highlighted fragments"@
}

/// The message of the error for a fragment that is not text.
pub open spec fn bad_fragment() -> Seq<char> {
    "malformed response: a highlighted fragment that is not text"@
}

/// Whether each fragment of the list is text.
pub open spec fn all_text(fragments: Seq<Option<Seq<char>>>) -> bool {
    forall|i: int| 0 <= i < fragments.len() ==> fragments[i] is Some
}

/// The result that a hit stands for, or the message of the error for what is
/// missing first: the title, the URL, the list of fragments, a fragment.
pub open spec fn hit_result(fields: HitFieldsModel) -> Result<ResultModel, Seq<char>> {
    if fields.title is None {
        Err(no_title())
    } else if fields.url is None {
        Err(no_url())
    } else if fields.fragments is None {
        Err(no_fragments())
    } else if !all_text(fields.fragments->0) {
        Err(bad_fragment())
    } else {
        Ok(
            ResultModel {
                title: fields.title->0,
                url: fields.url->0,
                snippets: SnippetsModel::Fragments(
                    Seq::new(fields.fragments->0.len(), |i: int| fields.fragments->0[i]->0),
                ),
            },
        )
    }
}

/// The outcome for a list of hits: the results that they stand for, in their
/// order, or the error of the first hit that stands for none.
pub open spec fn hits_outcome(hits: Seq<HitFieldsModel>) -> Outcome
    decreases hits.len(),
{
    if hits.len() == 0 {
        success(Seq::empty())
    } else {
        match hits_outcome(hits.drop_last()) {
            Err(message) => Err(message),
            Ok(results) => match hit_result(hits.last()) {
                Err(message) => Err(message),
                Ok(result) => Ok(results.push(result)),
            },
        }
    }
}

/// Hits that all stand for a result give those results, one for each hit, in
/// the order of the hits.
pub proof fn lemma_hits_in_order(hits: Seq<HitFieldsModel>)
    requires
        forall|i: int| 0 <= i < hits.len() ==> hit_result(#[trigger] hits[i]) is Ok,
    ensures
        hits_outcome(hits) == success(Seq::new(hits.len(), |i: int| hit_result(hits[i])->Ok_0)),
    decreases hits.len(),
{
    let all = Seq::new(hits.len(), |i: int| hit_result(hits[i])->Ok_0);
    if hits.len() == 0 {
        assert(all =~= Seq::empty());
    } else {
        let front = hits.drop_last();
        lemma_hits_in_order(front);
        assert(Seq::new(front.len(), |i: int| hit_result(front[i])->Ok_0).push(
            hit_result(hits.last())->Ok_0,
        ) =~= all);
    }
}

/// The first hit that stands for no result decides the outcome, whatever
/// comes behind it.
pub proof fn lemma_first_bad_hit(hits: Seq<HitFieldsModel>, first: int)
    requires
        0 <= first < hits.len(),
        hit_result(hits[first]) is Err,
        forall|i: int| 0 <= i < first ==> hit_result(#[trigger] hits[i]) is Ok,
    ensures
        hits_outcome(hits) == failure(hit_result(hits[first])->Err_0),
    decreases hits.len(),
{
    let front = hits.drop_last();
    if first == hits.len() - 1 {
        lemma_hits_in_order(front);
    } else {
        lemma_first_bad_hit(front, first);
    }
}

/// The mathematical value of what was made of one hit.
pub open spec fn hit_outcome_of(result: Result<SearchResult, SearchError>) -> Result<
    ResultModel,
    Seq<char>,
> {
    match result {
        Ok(hit) => Ok(hit@),
        Err(error) => Err(error@),
    }
}

/// Makes the result that a hit stands for: its title, its URL and its
/// fragments, which the engine has marked up. A hit of which one of them is
/// missing is an error.
pub fn hit_from_fields(fields: &HitFields) -> (result: Result<SearchResult, SearchError>)
    ensures
        hit_outcome_of(result) == hit_result(fields@),
{
    let title = match &fields.title {
        Some(title) => title.clone(),
        None => {
            return Err(
                SearchError::Internal("malformed response: a hit without a title".to_string()),
            );
        },
    };
    let url = match &fields.url {
        Some(url) => url.clone(),
        None => {
            return Err(
                SearchError::Internal("malformed response: a hit without a URL".to_string()),
            );
        },
    };
    let list = match &fields.fragments {
        Some(list) => list,
        None => {
            return Err(
                SearchError::Internal(
                    "malformed response: a hit without highlighted fragments".to_string(),
                ),
            );
        },
    };
    let ghost found = fields@.fragments->0;
    let mut fragments: Vec<String> = Vec::new();
    let mut done: usize = 0;
    while done < list.len()
        invariant
            done <= list.len(),
            fields@.title is Some,
            fields@.url is Some,
            fields@.fragments == Some(found),
            found.len() == list@.len(),
            forall|i: int| 0 <= i < list@.len() ==> found[i] == text_of(list@[i]),
            fragments.len() == done,
            forall|i: int| 0 <= i < done ==> #[trigger] found[i] == Some(fragments@[i]@),
        decreases list.len() - done,
    {
        match &list[done] {
            Some(fragment) => {
                fragments.push(fragment.clone());
            },
            None => {
                assert(found[done as int] is None);
                return Err(
                    SearchError::Internal(
                        "malformed response: a highlighted fragment that is not text".to_string(),
                    ),
                );
            },
        }
        done += 1;
    }
    assert(fragments.deep_view() =~= Seq::new(found.len(), |i: int| found[i]->0));
    Ok(SearchResult { title, url, snippets: Snippets::Fragments(fragments) })
}

/// Makes the results that the hits stand for, in the order of the hits. The
/// first hit that stands for none makes the whole answer an error.
pub fn results_from_hits(hits: &Vec<HitFields>) -> (result: Result<SearchResults, SearchError>)
    ensures
        outcome_of(result) == hits_outcome(hits.deep_view()),
{
    let ghost models = hits.deep_view();
    let mut results: Vec<SearchResult> = Vec::new();
    let mut done: usize = 0;
    assert(results.deep_view() =~= Seq::empty());
    while done < hits.len()
        invariant
            done <= hits.len(),
            models == hits.deep_view(),
            hits_outcome(models.take(done as int)) == success(results.deep_view()),
        decreases hits.len() - done,
    {
        proof {
            let taken = models.take(done as int + 1);
            assert(taken.drop_last() =~= models.take(done as int));
        }
        match hit_from_fields(&hits[done]) {
            Ok(hit) => {
                let ghost before = results.deep_view();
                results.push(hit);
                assert(results.deep_view() =~= before.push(hit@));
            },
            Err(error) => {
                proof {
                    lemma_bad_hit_stays(models, done as int + 1);
                }
                return Err(error);
            },
        }
        done += 1;
    }
    assert(models.take(done as int) =~= models);
    Ok(SearchResults { results })
}

/// An error among the first hits is the outcome of all the hits.
proof fn lemma_bad_hit_stays(hits: Seq<HitFieldsModel>, seen: int)
    requires
        0 <= seen <= hits.len(),
        hits_outcome(hits.take(seen)) is Err,
    ensures
        hits_outcome(hits) == hits_outcome(hits.take(seen)),
    decreases hits.len() - seen,
{
    if seen == hits.len() {
        assert(hits.take(seen) =~= hits);
    } else {
        assert(hits.take(seen + 1).drop_last() =~= hits.take(seen));
        lemma_bad_hit_stays(hits, seen + 1);
    }
}

/// `serde_json::Value`, a JSON value. Nothing is known of what is inside one
/// but what the three functions below tell.
#[verifier::external_type_specification]
#[verifier::external_body]
pub struct ExValue(Value);

/// What stands under `key` in a JSON value: what indexing the value by the
/// key gives.
pub uninterp spec fn json_member(value: Value, key: Seq<char>) -> Value;

/// The items of a JSON value that is an array: what `Value::as_array` gives.
pub uninterp spec fn json_items(value: Value) -> Option<Seq<Value>>;

/// The text of a JSON value that is a string: what `Value::as_str` gives.
pub uninterp spec fn json_text(value: Value) -> Option<Seq<char>>;

/// Indexing a `Value` by a key (`Index::index`) lends what stands under the
/// key. It does not panic: where nothing stands under the key, what it lends
/// is a null.
#[verifier::external_body]
fn member<'a>(value: &'a Value, key: &str) -> (found: &'a Value)
    ensures
        *found == json_member(*value, key@),
{
    &value[key]
}

/// `Value::as_array` lends the items of an array, and is `None` for every
/// other value.
#[verifier::external_body]
fn items(value: &Value) -> (found: Option<&Vec<Value>>)
    ensures
        match found {
            Some(list) => json_items(*value) == Some(list@),
            None => json_items(*value) is None,
        },
{
    value.as_array()
}

/// `Value::as_str` lends the text of a string, and is `None` for every other
/// value.
#[verifier::external_body]
fn text(value: &Value) -> (found: Option<&str>)
    ensures
        match found {
            Some(text) => json_text(*value) == Some(text@),
            None => json_text(*value) is None,
        },
{
    value.as_str()
}

/// What an answer holds of one hit.
pub open spec fn hit_fields(hit: Value) -> HitFieldsModel {
    HitFieldsModel {
        title: json_text(json_member(json_member(hit, "_source"@), "title"@)),
        url: json_text(json_member(json_member(hit, "_source"@), "url"@)),
        fragments: match json_items(json_member(json_member(hit, "highlight"@), "body"@)) {
            Some(list) => Some(Seq::new(list.len(), |i: int| json_text(list[i]))),
            None => None,
        },
    }
}

/// The hits that an answer holds, or `None` where it holds no list of them.
pub open spec fn response_hits(body: Value) -> Option<Seq<HitFieldsModel>> {
    match json_items(json_member(json_member(body, "hits"@), "hits"@)) {
        Some(list) => Some(Seq::new(list.len(), |i: int| hit_fields(list[i]))),
        None => None,
    }
}

/// The outcome of a query that the engine has answered with `body`.
pub open spec fn response_outcome(body: Value) -> Outcome {
    match response_hits(body) {
        Some(hits) => hits_outcome(hits),
        None => failure(no_hits()),
    }
}

/// Reads a value that should be text.
fn read_text(value: &Value) -> (found: Option<String>)
    ensures
        text_of(found) == json_text(*value),
{
    match text(value) {
        Some(text) => Some(text.to_string()),
        None => None,
    }
}

/// Reads what an answer holds of one hit.
fn read_hit(hit: &Value) -> (fields: HitFields)
    ensures
        fields@ == hit_fields(*hit),
{
    let source = member(hit, "_source");
    let title = read_text(member(source, "title"));
    let url = read_text(member(source, "url"));
    let fragments = match items(member(member(hit, "highlight"), "body")) {
        Some(list) => {
            let mut fragments: Vec<Option<String>> = Vec::new();
            let mut done: usize = 0;
            while done < list.len()
                invariant
                    done <= list.len(),
                    fragments.len() == done,
                    forall|i: int|
                        0 <= i < done ==> text_of(#[trigger] fragments@[i]) == json_text(list@[i]),
                decreases list.len() - done,
            {
                fragments.push(read_text(&list[done]));
                done += 1;
            }
            assert(Seq::new(fragments@.len(), |i: int| text_of(fragments@[i])) =~= Seq::new(
                list@.len(),
                |i: int| json_text(list@[i]),
            ));
            Some(fragments)
        },
        None => None,
    };
    HitFields { title, url, fragments }
}

/// Reads the hits of an answer.
fn read_hits(body: &Value) -> (hits: Option<Vec<HitFields>>)
    ensures
        match hits {
            Some(list) => response_hits(*body) == Some(list.deep_view()),
            None => response_hits(*body) is None,
        },
{
    match items(member(member(body, "hits"), "hits")) {
        Some(list) => {
            let mut hits: Vec<HitFields> = Vec::new();
            let mut done: usize = 0;
            while done < list.len()
                invariant
                    done <= list.len(),
                    hits.len() == done,
                    forall|i: int| 0 <= i < done ==> (#[trigger] hits@[i])@ == hit_fields(list@[i]),
                decreases list.len() - done,
            {
                hits.push(read_hit(&list[done]));
                done += 1;
            }
            Some(hits)
        },
        None => None,
    }
}

/// Turns the body of the engine's answer into results: one for each hit,
/// in the engine's order, with the title and the URL of the document and the
/// fragments as the engine has marked them up. An answer of another shape is
/// an error.
pub fn results_from_response(body: &Value) -> (result: Result<SearchResults, SearchError>)
    ensures
        outcome_of(result) == response_outcome(*body),
{
    match read_hits(body) {
        Some(hits) => results_from_hits(&hits),
        None => Err(SearchError::Internal("malformed response: no list of hits".to_string())),
    }
}

} // verus!
