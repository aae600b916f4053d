//! One attempt of a REST call: the request that is sent, and the
//! classification, parsing and narrowing of what came back.
use crate::retry::{law_same_outcome_every_time, lemma_run_extend, run, RetryPolicy};
use crate::json::{parse_tree, parsed_tree, render, rendered_text};
use crate::value::{law_walk_keeps_well_formed, navigate, take_path, walk, well_formed, NavigationStep, StructuredValue};
use vstd::prelude::*;

verus! {

/// How many attempts a fetch makes before it gives up.
pub const MAX_ATTEMPTS: usize = 10;

/// The header that announces a JSON body.
pub const CONTENT_TYPE_HEADER: &'static str = "Content-Type";

/// The value of the content-type header.
pub const CONTENT_TYPE_JSON: &'static str = "application/json";

/// The header that carries the access token.
pub const ACCESS_TOKEN_HEADER: &'static str = "X-Shopify-Access-Token";

/// Why an attempt failed.
#[derive(Debug, PartialEq, Eq)]
pub enum ApiError {
    /// The call could not be completed; the transport's description.
    Transport(String),
    /// A response came back, but its body could not be read as text.
    ResponseBroken,
    /// The body is not valid JSON; the parser's diagnostic.
    JsonParseError(String),
    /// The body parsed, but not into the wanted shape; the text of the
    /// value that was being examined.
    NotWantedJsonFormat(String),
}

/// The model of an `ApiError`, with text as character sequences.
pub enum ApiFailure {
    Transport(Seq<char>),
    ResponseBroken,
    JsonParse(Seq<char>),
    NotWanted(Seq<char>),
}

impl View for ApiError {
    type V = ApiFailure;

    open spec fn view(&self) -> ApiFailure {
        match self {
            ApiError::Transport(m) => ApiFailure::Transport(m@),
            ApiError::ResponseBroken => ApiFailure::ResponseBroken,
            ApiError::JsonParseError(d) => ApiFailure::JsonParse(d@),
            ApiError::NotWantedJsonFormat(t) => ApiFailure::NotWanted(t@),
        }
    }
}

/// What the transport made of one request.
#[derive(Debug, PartialEq, Eq)]
pub enum TransportOutcome {
    /// The call could not be completed.
    Failed(String),
    /// A response came back whose body could not be read as text.
    Unreadable,
    /// The response body.
    Body(String),
}

/// A REST request: the endpoint path, its query parameters (unique keys) and,
/// for `Post` and `Put`, the body.
#[derive(Debug, PartialEq)]
pub enum ShopifyAPIRestType {
    Get(String, Vec<(String, String)>),
    Post(String, Vec<(String, String)>, StructuredValue),
    Put(String, Vec<(String, String)>, StructuredValue),
    Delete(String, Vec<(String, String)>),
}

/// The HTTP method of a request.
#[derive(Debug, PartialEq, Eq, Clone, Copy)]
pub enum Method {
    Get,
    Post,
    Put,
    Delete,
}

/// Everything the transport needs to send one request.
#[derive(Debug, PartialEq, Eq)]
pub struct RequestPlan {
    pub method: Method,
    pub endpoint: String,
    pub query: Vec<(String, String)>,
    pub headers: Vec<(String, String)>,
    pub body: Option<String>,
}

/// The character-sequence model of a list of string pairs.
pub open spec fn pairs_view(p: Seq<(String, String)>) -> Seq<(Seq<char>, Seq<char>)> {
    p.map_values(|e: (String, String)| (e.0@, e.1@))
}

/// The model of an optional path.
pub open spec fn path_view(path: Option<Vec<NavigationStep>>) -> Option<Seq<NavigationStep>> {
    match path {
        Some(p) => Some(p@),
        None => None,
    }
}

/// The model of a result whose error is an `ApiError`.
pub open spec fn result_view<T>(r: Result<T, ApiError>) -> Result<T, ApiFailure> {
    match r {
        Ok(v) => Ok(v),
        Err(e) => Err(e@),
    }
}

/// The method, endpoint, query and body text that a descriptor stands for.
pub open spec fn descriptor_parts(d: ShopifyAPIRestType) -> (Method, Seq<char>, Seq<(Seq<char>, Seq<char>)>, Option<Seq<char>>) {
    match d {
        ShopifyAPIRestType::Get(e, q) => (Method::Get, e@, pairs_view(q@), None),
        ShopifyAPIRestType::Post(e, q, b) => (Method::Post, e@, pairs_view(q@), Some(rendered_text(b))),
        ShopifyAPIRestType::Put(e, q, b) => (Method::Put, e@, pairs_view(q@), Some(rendered_text(b))),
        ShopifyAPIRestType::Delete(e, q) => (Method::Delete, e@, pairs_view(q@), None),
    }
}

/// Narrows a parsed tree along an optional path.
pub open spec fn narrow_spec(tree: StructuredValue, path: Option<Seq<NavigationStep>>) -> Result<StructuredValue, ApiFailure> {
    match path {
        None => Ok(tree),
        Some(p) => match walk(tree, p) {
            Some(v) => Ok(v),
            None => Err(ApiFailure::NotWanted(rendered_text(tree))),
        },
    }
}

/// What one attempt yields from the transport's outcome, before the final decode.
pub open spec fn attempt_spec(outcome: TransportOutcome, path: Option<Seq<NavigationStep>>) -> Result<StructuredValue, ApiFailure> {
    match outcome {
        TransportOutcome::Failed(m) => Err(ApiFailure::Transport(m@)),
        TransportOutcome::Unreadable => Err(ApiFailure::ResponseBroken),
        TransportOutcome::Body(text) => match parsed_tree(text@) {
            Err(d) => Err(ApiFailure::JsonParse(d)),
            Ok(tree) => narrow_spec(tree, path),
        },
    }
}

/// Whether `plan` is the request that `descriptor` stands for.
pub open spec fn plans(plan: RequestPlan, descriptor: ShopifyAPIRestType, access_token: Seq<char>) -> bool {
    &&& (plan.method, plan.endpoint@, pairs_view(plan.query@), match plan.body {
        Some(b) => Some(b@),
        None => None,
    }) == descriptor_parts(descriptor)
    &&& pairs_view(plan.headers@) == seq![
        (CONTENT_TYPE_HEADER@, CONTENT_TYPE_JSON@),
        (ACCESS_TOKEN_HEADER@, access_token),
    ]
}

fn copy_pairs(p: &Vec<(String, String)>) -> (r: Vec<(String, String)>)
    ensures
        pairs_view(r@) == pairs_view(p@),
{
    let mut r: Vec<(String, String)> = Vec::new();
    let mut i: usize = 0;
    while i < p.len()
        invariant
            i <= p@.len(),
            r@.len() == i,
            forall|j: int| 0 <= j < i ==> (#[trigger] r@[j]).0@ == p@[j].0@ && r@[j].1@ == p@[j].1@,
        decreases p@.len() - i,
    {
        r.push((p[i].0.clone(), p[i].1.clone()));
        i = i + 1;
    }
    assert(pairs_view(r@) =~= pairs_view(p@));
    r
}

/// The request that `descriptor` stands for, with the JSON content type and
/// the access token attached as headers.
pub fn plan_request(descriptor: &ShopifyAPIRestType, access_token: &str) -> (r: RequestPlan)
    ensures
        plans(r, *descriptor, access_token@),
{
    let mut headers: Vec<(String, String)> = Vec::new();
    headers.push((CONTENT_TYPE_HEADER.to_owned(), CONTENT_TYPE_JSON.to_owned()));
    headers.push((ACCESS_TOKEN_HEADER.to_owned(), access_token.to_owned()));
    assert(pairs_view(headers@) =~= seq![
        (CONTENT_TYPE_HEADER@, CONTENT_TYPE_JSON@),
        (ACCESS_TOKEN_HEADER@, access_token@),
    ]);
    match descriptor {
        ShopifyAPIRestType::Get(e, q) => RequestPlan {
            method: Method::Get,
            endpoint: e.clone(),
            query: copy_pairs(q),
            headers,
            body: None,
        },
        ShopifyAPIRestType::Post(e, q, b) => RequestPlan {
            method: Method::Post,
            endpoint: e.clone(),
            query: copy_pairs(q),
            headers,
            body: Some(render(b)),
        },
        ShopifyAPIRestType::Put(e, q, b) => RequestPlan {
            method: Method::Put,
            endpoint: e.clone(),
            query: copy_pairs(q),
            headers,
            body: Some(render(b)),
        },
        ShopifyAPIRestType::Delete(e, q) => RequestPlan {
            method: Method::Delete,
            endpoint: e.clone(),
            query: copy_pairs(q),
            headers,
            body: None,
        },
    }
}

/// Narrows a parsed tree to the sub-value that `path` reaches; without a path
/// the whole tree. Where the path does not resolve, the error carries the
/// text of the whole tree.
pub fn narrow(tree: StructuredValue, path: &Option<Vec<NavigationStep>>) -> (r: Result<StructuredValue, ApiError>)
    ensures
        result_view(r) == narrow_spec(tree, path_view(*path)),
        well_formed(tree) && r is Ok ==> well_formed(r->Ok_0),
{
    match path {
        None => Ok(tree),
        Some(p) => {
            let found = navigate(&tree, p.as_slice()).is_ok();
            if found {
                proof {
                    if well_formed(tree) {
                        law_walk_keeps_well_formed(tree, p@);
                    }
                }
                Ok(take_path(tree, p.as_slice()))
            } else {
                Err(ApiError::NotWantedJsonFormat(render(&tree)))
            }
        },
    }
}

/// Classifies what the transport made of an attempt, parses the body and
/// narrows it along `path`.
pub fn interpret(outcome: TransportOutcome, path: &Option<Vec<NavigationStep>>) -> (r: Result<StructuredValue, ApiError>)
    ensures
        result_view(r) == attempt_spec(outcome, path_view(*path)),
        r is Ok ==> well_formed(r->Ok_0),
{
    match outcome {
        TransportOutcome::Failed(m) => Err(ApiError::Transport(m)),
        TransportOutcome::Unreadable => Err(ApiError::ResponseBroken),
        TransportOutcome::Body(text) => match parse_tree(text.as_str()) {
            Err(d) => Err(ApiError::JsonParseError(d)),
            Ok(tree) => narrow(tree, path),
        },
    }
}

/// A type that can be read out of a `StructuredValue`.
pub trait FromStructured: Sized {
    /// The value that `v` stands for, or `None` where `v` has another shape.
    fn from_structured(v: &StructuredValue) -> Option<Self>;
}

/// Runs one attempt through to the caller's type: classification, parsing
/// and narrowing as `interpret` does them, then the decode. A value that does
/// not decode gives `NotWantedJsonFormat` with its own text.
pub fn decode_attempt<T: FromStructured>(outcome: TransportOutcome, path: &Option<Vec<NavigationStep>>) -> (r: Result<T, ApiError>)
    ensures
        match attempt_spec(outcome, path_view(*path)) {
            Err(f) => r matches Err(e) && e@ == f,
            Ok(v) => r is Ok || (r matches Err(e) && e@ == ApiFailure::NotWanted(rendered_text(v))),
        },
{
    match interpret(outcome, path) {
        Err(e) => Err(e),
        Ok(v) => match T::from_structured(&v) {
            Some(t) => Ok(t),
            None => Err(ApiError::NotWantedJsonFormat(render(&v))),
        },
    }
}

/// What successive attempts yield, one per transport outcome.
pub open spec fn attempts_of(outcomes: Seq<TransportOutcome>, path: Option<Seq<NavigationStep>>) -> Seq<Result<StructuredValue, ApiFailure>> {
    outcomes.map_values(|o: TransportOutcome| attempt_spec(o, path))
}

/// Fetches with retries: sends the request that `descriptor` stands for
/// through `transport`, up to `MAX_ATTEMPTS` times, until an attempt yields a
/// value. The result is that value, or the error of the last attempt. Each
/// attempt gets the same request.
pub fn fetch<F>(descriptor: &ShopifyAPIRestType, access_token: &str, path: &Option<Vec<NavigationStep>>, transport: F) -> (r: Result<StructuredValue, ApiError>)
    where
        F: Fn(&RequestPlan) -> TransportOutcome,
    requires
        forall|p: &RequestPlan| #[trigger] transport.requires((p,)),
    ensures
        exists|plan: RequestPlan, outcomes: Seq<TransportOutcome>|
            #![trigger plans(plan, *descriptor, access_token@), attempts_of(outcomes, path_view(*path))]
        {
            &&& plans(plan, *descriptor, access_token@)
            &&& forall|i: int| 0 <= i < outcomes.len() ==> transport.ensures((&plan,), #[trigger] outcomes[i])
            &&& run(MAX_ATTEMPTS as nat, attempts_of(outcomes, path_view(*path))) == (outcomes.len(), Some(result_view(r)))
        },
        r is Ok ==> well_formed(r->Ok_0),
{
    let plan = plan_request(descriptor, access_token);
    let mut policy = RetryPolicy::new(MAX_ATTEMPTS);
    let ghost mut outcomes: Seq<TransportOutcome> = Seq::empty();
    loop
        invariant
            policy.well_formed(),
            policy.max_attempts == MAX_ATTEMPTS,
            policy.may_attempt(),
            outcomes.len() == policy.attempts_made,
            plans(plan, *descriptor, access_token@),
            forall|p: &RequestPlan| #[trigger] transport.requires((p,)),
            forall|i: int| 0 <= i < outcomes.len() ==> transport.ensures((&plan,), #[trigger] outcomes[i]),
            run(MAX_ATTEMPTS as nat, attempts_of(outcomes, path_view(*path))).1 is None,
        decreases policy.max_attempts - policy.attempts_made,
    {
        let outcome = transport(&plan);
        let ghost o = outcome;
        let attempt = interpret(outcome, path);
        let ghost before = outcomes;
        proof {
            outcomes = outcomes.push(o);
        }
        let decided = policy.record(attempt);
        proof {
            lemma_run_extend(MAX_ATTEMPTS as nat, attempts_of(before, path_view(*path)), attempt_spec(o, path_view(*path)));
            assert(attempts_of(outcomes, path_view(*path)) =~= attempts_of(before, path_view(*path)).push(attempt_spec(o, path_view(*path))));
        }
        match decided {
            Some(r) => {
                return r;
            },
            None => {},
        }
    }
}

/// Fetches with retries into the caller's type: as `fetch`, but an attempt
/// succeeds only where its value also decodes, so a value that does not
/// decode is retried like any other failure.
pub fn fetch_as<T: FromStructured, F>(descriptor: &ShopifyAPIRestType, access_token: &str, path: &Option<Vec<NavigationStep>>, transport: F) -> (r: Result<T, ApiError>)
    where
        F: Fn(&RequestPlan) -> TransportOutcome,
    requires
        forall|p: &RequestPlan| #[trigger] transport.requires((p,)),
    ensures
        exists|plan: RequestPlan, outcomes: Seq<TransportOutcome>|
            #![trigger plans(plan, *descriptor, access_token@), outcomes.len()]
        {
            &&& plans(plan, *descriptor, access_token@)
            &&& 1 <= outcomes.len() <= MAX_ATTEMPTS
            &&& forall|i: int| 0 <= i < outcomes.len() ==> transport.ensures((&plan,), #[trigger] outcomes[i])
            &&& outcomes.len() < MAX_ATTEMPTS ==> r is Ok
            &&& r matches Err(e) ==> match attempt_spec(outcomes.last(), path_view(*path)) {
                Err(f) => e@ == f,
                Ok(v) => e@ == ApiFailure::NotWanted(rendered_text(v)),
            }
        },
{
    let plan = plan_request(descriptor, access_token);
    let mut policy = RetryPolicy::new(MAX_ATTEMPTS);
    let ghost mut outcomes: Seq<TransportOutcome> = Seq::empty();
    loop
        invariant
            policy.well_formed(),
            policy.max_attempts == MAX_ATTEMPTS,
            policy.may_attempt(),
            outcomes.len() == policy.attempts_made,
            plans(plan, *descriptor, access_token@),
            forall|p: &RequestPlan| #[trigger] transport.requires((p,)),
            forall|i: int| 0 <= i < outcomes.len() ==> transport.ensures((&plan,), #[trigger] outcomes[i]),
        decreases policy.max_attempts - policy.attempts_made,
    {
        let outcome = transport(&plan);
        let ghost o = outcome;
        let attempt = decode_attempt::<T>(outcome, path);
        proof {
            outcomes = outcomes.push(o);
        }
        let decided = policy.record(attempt);
        match decided {
            Some(r) => {
                assert(outcomes.last() == o);
                return r;
            },
            None => {},
        }
    }
}

/// Fetching against a transport that answers every request the same way
/// gives the result of one attempt on that answer, after one attempt when it
/// is a value and after `MAX_ATTEMPTS` when it is an error. Two fetches with
/// the same descriptor against the same answer therefore give the same result.
pub proof fn law_fetch_repeatable(
    answer: TransportOutcome,
    path: Option<Seq<NavigationStep>>,
    outcomes: Seq<TransportOutcome>,
    r: Result<StructuredValue, ApiFailure>,
)
    requires
        forall|i: int| 0 <= i < outcomes.len() ==> #[trigger] outcomes[i] == answer,
        run(MAX_ATTEMPTS as nat, attempts_of(outcomes, path)) == (outcomes.len(), Some(r)),
    ensures
        r == attempt_spec(answer, path),
        outcomes.len() == if r is Ok { 1nat } else { MAX_ATTEMPTS as nat },
{
    let a = attempts_of(outcomes, path);
    assert forall|i: int| 0 <= i < a.len() implies #[trigger] a[i] == attempt_spec(answer, path) by {
        assert(outcomes[i] == answer);
    }
    law_same_outcome_every_time(MAX_ATTEMPTS as nat, a, attempt_spec(answer, path));
}

} // verus!
