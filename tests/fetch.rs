use std::cell::Cell;

use shopify_api::pipeline::{
    decode_attempt, fetch, fetch_as, interpret, plan_request, ApiError, FromStructured, Method, RequestPlan,
    ShopifyAPIRestType, TransportOutcome, MAX_ATTEMPTS,
};
use shopify_api::value::{NavigationStep, StructuredValue};

#[derive(Debug, PartialEq)]
struct Product {
    id: u64,
    title: String,
}

impl FromStructured for Product {
    fn from_structured(v: &StructuredValue) -> Option<Product> {
        let StructuredValue::Mapping(entries) = v else {
            return None;
        };
        let mut id = None;
        let mut title = None;
        for (k, x) in entries {
            match (k.as_str(), x) {
                ("id", StructuredValue::Number(n)) => id = n.as_u64(),
                ("title", StructuredValue::Str(s)) => title = Some(s.clone()),
                _ => {}
            }
        }
        Some(Product { id: id?, title: title? })
    }
}

fn products_get() -> ShopifyAPIRestType {
    ShopifyAPIRestType::Get("products.json".to_string(), vec![])
}

fn first_product_path() -> Option<Vec<NavigationStep>> {
    Some(vec![NavigationStep::Key("products".to_string()), NavigationStep::Index(0)])
}

fn body(s: &str) -> TransportOutcome {
    TransportOutcome::Body(s.to_string())
}

#[test]
fn scenario_first_product_is_decoded() {
    let r: Result<Product, ApiError> =
        decode_attempt(body(r#"{"products":[{"id":1,"title":"Hello"}]}"#), &first_product_path());
    assert_eq!(r, Ok(Product { id: 1, title: "Hello".to_string() }));
}

#[test]
fn scenario_first_product_through_fetch() {
    let calls = Cell::new(0usize);
    let r = fetch(&products_get(), "token", &first_product_path(), |_p: &RequestPlan| {
        calls.set(calls.get() + 1);
        body(r#"{"products":[{"id":1,"title":"Hello"}]}"#)
    });
    let v = r.unwrap();
    assert_eq!(Product::from_structured(&v), Some(Product { id: 1, title: "Hello".to_string() }));
    assert_eq!(calls.get(), 1);
}

#[test]
fn scenario_empty_products_is_not_wanted() {
    let calls = Cell::new(0usize);
    let r = fetch(&products_get(), "token", &first_product_path(), |_p: &RequestPlan| {
        calls.set(calls.get() + 1);
        body(r#"{"products":[]}"#)
    });
    assert_eq!(r, Err(ApiError::NotWantedJsonFormat(r#"{"products":[]}"#.to_string())));
    assert_eq!(calls.get(), MAX_ATTEMPTS);
}

#[test]
fn scenario_not_json_is_a_parse_error() {
    for path in [None, first_product_path()] {
        let r = interpret(body("not json"), &path);
        assert!(matches!(r, Err(ApiError::JsonParseError(_))));
        let r = fetch(&products_get(), "token", &path, |_p: &RequestPlan| body("not json"));
        assert!(matches!(r, Err(ApiError::JsonParseError(_))));
    }
}

#[test]
fn scenario_delete_returns_empty_mapping() {
    let d = ShopifyAPIRestType::Delete("products/7.json".to_string(), vec![]);
    let r = fetch(&d, "token", &None, |p: &RequestPlan| {
        assert_eq!(p.method, Method::Delete);
        body("{}")
    });
    assert_eq!(r, Ok(StructuredValue::Mapping(vec![])));
}

#[test]
fn fetch_is_repeatable() {
    let run = || fetch(&products_get(), "token", &first_product_path(), |_p: &RequestPlan| {
        body(r#"{"products":[{"id":1,"title":"Hello"}]}"#)
    });
    assert_eq!(run(), run());
    let fail = || fetch(&products_get(), "token", &first_product_path(), |_p: &RequestPlan| {
        body(r#"{"products":[]}"#)
    });
    assert_eq!(fail(), fail());
}

#[test]
fn fetch_retries_until_success() {
    let calls = Cell::new(0usize);
    let r = fetch(&products_get(), "token", &None, |_p: &RequestPlan| {
        calls.set(calls.get() + 1);
        if calls.get() < 4 {
            TransportOutcome::Failed(format!("attempt {}", calls.get()))
        } else {
            body("[true,null]")
        }
    });
    assert_eq!(
        r,
        Ok(StructuredValue::Sequence(vec![StructuredValue::Bool(true), StructuredValue::Null]))
    );
    assert_eq!(calls.get(), 4);
}

#[test]
fn fetch_returns_last_error_after_all_attempts() {
    let calls = Cell::new(0usize);
    let r = fetch(&products_get(), "token", &None, |_p: &RequestPlan| {
        calls.set(calls.get() + 1);
        TransportOutcome::Failed(format!("attempt {}", calls.get()))
    });
    assert_eq!(r, Err(ApiError::Transport("attempt 10".to_string())));
    assert_eq!(calls.get(), 10);
}

#[test]
fn unreadable_body_is_response_broken() {
    assert_eq!(interpret(TransportOutcome::Unreadable, &None), Err(ApiError::ResponseBroken));
}

#[test]
fn transport_failure_is_kept_verbatim() {
    assert_eq!(
        interpret(TransportOutcome::Failed("dns".to_string()), &None),
        Err(ApiError::Transport("dns".to_string()))
    );
}

#[test]
fn body_is_parsed_and_narrowed() {
    let path = Some(vec![NavigationStep::Index(1), NavigationStep::Key("a".to_string())]);
    assert_eq!(
        interpret(body(r#"[0, {"a": "x"}]"#), &path),
        Ok(StructuredValue::Str("x".to_string()))
    );
}

#[test]
fn not_wanted_carries_whole_document() {
    let path = Some(vec![NavigationStep::Key("b".to_string())]);
    assert_eq!(
        interpret(body(r#"{ "a" : [1, 2] }"#), &path),
        Err(ApiError::NotWantedJsonFormat(r#"{"a":[1,2]}"#.to_string()))
    );
}

#[test]
fn failed_decode_is_not_wanted() {
    let r: Result<Product, ApiError> = decode_attempt(body(r#"{"products":[{"id":"one"}]}"#), &first_product_path());
    assert_eq!(r, Err(ApiError::NotWantedJsonFormat(r#"{"id":"one"}"#.to_string())));
}

#[test]
fn plan_attaches_headers_and_body() {
    let b = StructuredValue::Mapping(vec![(
        "product".to_string(),
        StructuredValue::Mapping(vec![("title".to_string(), StructuredValue::Str("New".to_string()))]),
    )]);
    let d = ShopifyAPIRestType::Put(
        "products/1.json".to_string(),
        vec![("limit".to_string(), "5".to_string())],
        b,
    );
    let p = plan_request(&d, "secret");
    assert_eq!(
        p,
        RequestPlan {
            method: Method::Put,
            endpoint: "products/1.json".to_string(),
            query: vec![("limit".to_string(), "5".to_string())],
            headers: vec![
                ("Content-Type".to_string(), "application/json".to_string()),
                ("X-Shopify-Access-Token".to_string(), "secret".to_string()),
            ],
            body: Some(r#"{"product":{"title":"New"}}"#.to_string()),
        }
    );
}

#[test]
fn plan_of_get_has_no_body() {
    let p = plan_request(&products_get(), "k");
    assert_eq!(p.method, Method::Get);
    assert_eq!(p.body, None);
    assert_eq!(p.endpoint, "products.json");
}

#[test]
fn every_attempt_gets_the_same_request() {
    let seen: std::cell::RefCell<Vec<Option<String>>> = std::cell::RefCell::new(vec![]);
    let d = ShopifyAPIRestType::Post("products.json".to_string(), vec![], StructuredValue::Bool(false));
    let _ = fetch(&d, "k", &None, |p: &RequestPlan| {
        seen.borrow_mut().push(p.body.clone());
        TransportOutcome::Unreadable
    });
    assert_eq!(seen.borrow().len(), MAX_ATTEMPTS);
    assert!(seen.borrow().iter().all(|b| b.as_deref() == Some("false")));
}

#[test]
fn fetch_as_decodes_first_product() {
    let r: Result<Product, ApiError> = fetch_as(&products_get(), "token", &first_product_path(), |_p: &RequestPlan| {
        body(r#"{"products":[{"id":1,"title":"Hello"}]}"#)
    });
    assert_eq!(r, Ok(Product { id: 1, title: "Hello".to_string() }));
}

#[test]
fn fetch_as_retries_values_that_do_not_decode() {
    let calls = Cell::new(0usize);
    let r: Result<Product, ApiError> = fetch_as(&products_get(), "token", &first_product_path(), |_p: &RequestPlan| {
        calls.set(calls.get() + 1);
        if calls.get() < 3 {
            body(r#"{"products":[{"id":1}]}"#)
        } else {
            body(r#"{"products":[{"id":3,"title":"Third"}]}"#)
        }
    });
    assert_eq!(r, Ok(Product { id: 3, title: "Third".to_string() }));
    assert_eq!(calls.get(), 3);
}

#[test]
fn fetch_as_reports_last_decode_failure() {
    let r: Result<Product, ApiError> = fetch_as(&products_get(), "token", &first_product_path(), |_p: &RequestPlan| {
        body(r#"{"products":[{"id":1}]}"#)
    });
    assert_eq!(r, Err(ApiError::NotWantedJsonFormat(r#"{"id":1}"#.to_string())));
}
