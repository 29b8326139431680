use groceries::errors::{QueryError, WriteError};
use groceries::items::GroceryItem;
use groceries::router::{
    connection_target, handle_request, plan_request, render_delete_outcome, render_list_outcome,
    render_upsert_outcome, Method, RequestPlan, Response, PAYLOAD_LIMIT,
};
use groceries::store::GroceryMgr;

fn listing_of(mgr: &mut GroceryMgr) -> String {
    match handle_request(mgr, Method::Get, &vec![]) {
        Response::Listing(t) => t,
        _ => panic!("a GET must answer with a listing"),
    }
}

#[test]
fn get_lists_the_collection() {
    let mut mgr = GroceryMgr::new();
    assert_eq!(listing_of(&mut mgr), "[]");
    let resp = handle_request(
        &mut mgr,
        Method::Post,
        &b"{\"name\":\"apples\",\"quantity\":3}".to_vec(),
    );
    assert!(matches!(resp, Response::Created));
    assert_eq!(listing_of(&mut mgr), "[{\"name\":\"apples\",\"quantity\":3}]");
}

#[test]
fn post_and_put_have_the_same_effect() {
    let body = b"{\"name\":\"milk\",\"quantity\":2}".to_vec();
    let mut via_post = GroceryMgr::new();
    let mut via_put = GroceryMgr::new();
    let r1 = handle_request(&mut via_post, Method::Post, &body);
    let r2 = handle_request(&mut via_put, Method::Put, &body);
    assert!(matches!(r1, Response::Created));
    assert!(matches!(r2, Response::Created));
    assert_eq!(listing_of(&mut via_post), listing_of(&mut via_put));
}

#[test]
fn oversized_body_is_rejected_and_changes_nothing() {
    let mut mgr = GroceryMgr::new();
    let mut body = b"{\"name\":\"apples\",\"quantity\":3}".to_vec();
    body.resize(PAYLOAD_LIMIT + 1, b' ');
    let resp = handle_request(&mut mgr, Method::Post, &body);
    assert!(matches!(resp, Response::PayloadTooLarge));
    assert_eq!(listing_of(&mut mgr), "[]");
}

#[test]
fn body_at_the_limit_is_still_decoded() {
    let mut body = b"{\"name\":\"apples\",\"quantity\":3}".to_vec();
    while body.len() < PAYLOAD_LIMIT {
        body.insert(0, b' ');
    }
    assert!(matches!(plan_request(Method::Post, &body), RequestPlan::DoUpsert(_)));
}

#[test]
fn malformed_body_is_rejected_and_changes_nothing() {
    let mut mgr = GroceryMgr::new();
    let resp = handle_request(&mut mgr, Method::Post, &b"{\"quantity\":3}".to_vec());
    assert!(matches!(resp, Response::BadPayload));
    assert_eq!(listing_of(&mut mgr), "[]");
}

#[test]
fn delete_route_removes_and_confirms() {
    let mut mgr = GroceryMgr::new();
    handle_request(&mut mgr, Method::Post, &b"{\"name\":\"pears\",\"quantity\":4}".to_vec());
    let resp = handle_request(&mut mgr, Method::Delete, &b"{\"name\":\"pears\"}".to_vec());
    assert!(matches!(resp, Response::Deleted));
    assert_eq!(listing_of(&mut mgr), "[]");
}

#[test]
fn delete_of_absent_name_still_confirms() {
    let mut mgr = GroceryMgr::new();
    handle_request(&mut mgr, Method::Post, &b"{\"name\":\"apples\",\"quantity\":1}".to_vec());
    let resp = handle_request(&mut mgr, Method::Delete, &b"{\"name\":\"kiwis\"}".to_vec());
    assert!(matches!(resp, Response::Deleted));
    assert_eq!(listing_of(&mut mgr), "[{\"name\":\"apples\",\"quantity\":1}]");
}

#[test]
fn delete_ignores_unknown_members() {
    let mut mgr = GroceryMgr::new();
    handle_request(&mut mgr, Method::Post, &b"{\"name\":\"a\",\"quantity\":1}".to_vec());
    let resp = handle_request(
        &mut mgr,
        Method::Delete,
        &b"{\"name\":\"a\",\"quantity\":1}".to_vec(),
    );
    assert!(matches!(resp, Response::Deleted));
    assert_eq!(listing_of(&mut mgr), "[]");
}

#[test]
fn delete_with_malformed_body_is_rejected() {
    let mut mgr = GroceryMgr::new();
    let resp = handle_request(&mut mgr, Method::Delete, &b"{\"quantity\":1}".to_vec());
    assert!(matches!(resp, Response::BadPayload));
}

#[test]
fn overflowing_upsert_surfaces_a_store_failure() {
    let mut mgr = GroceryMgr::new();
    handle_request(
        &mut mgr,
        Method::Post,
        &b"{\"name\":\"bulk\",\"quantity\":2147483647}".to_vec(),
    );
    let resp = handle_request(&mut mgr, Method::Post, &b"{\"name\":\"bulk\",\"quantity\":1}".to_vec());
    assert!(matches!(resp, Response::StoreFailure));
    assert_eq!(listing_of(&mut mgr), "[{\"name\":\"bulk\",\"quantity\":2147483647}]");
}

#[test]
fn plan_get_never_reads_the_body() {
    assert!(matches!(plan_request(Method::Get, &b"not json".to_vec()), RequestPlan::DoList));
}

#[test]
fn statuses_and_bodies() {
    assert_eq!(Response::Created.status(), 201);
    assert_eq!(Response::Deleted.status(), 200);
    assert_eq!(Response::PayloadTooLarge.status(), 413);
    assert_eq!(Response::BadPayload.status(), 400);
    assert_eq!(Response::StoreFailure.status(), 500);
    assert_eq!(Response::Listing("[]".to_string()).status(), 200);
    assert_eq!(Response::Created.body_text(), "Added items to the grocery list");
    assert_eq!(Response::Deleted.body_text(), "Removed item from grocery list");
    assert_eq!(Response::Listing("[]".to_string()).body_text(), "[]");
}

#[test]
fn store_outcomes_collapse_to_generic_failures() {
    assert!(matches!(
        render_list_outcome(Err(QueryError::StoreUnavailable)),
        Response::StoreFailure
    ));
    assert!(matches!(
        render_list_outcome(Err(QueryError::MalformedDocument)),
        Response::StoreFailure
    ));
    assert!(matches!(
        render_upsert_outcome(Err(WriteError::StoreUnavailable)),
        Response::StoreFailure
    ));
    assert!(matches!(render_upsert_outcome(Ok(())), Response::Created));
    assert!(matches!(
        render_delete_outcome(Err(WriteError::StoreUnavailable)),
        Response::StoreFailure
    ));
    assert!(matches!(render_delete_outcome(Ok(())), Response::Deleted));
    let items = vec![GroceryItem { name: "a".to_string(), quantity: 1 }];
    match render_list_outcome(Ok(items)) {
        Response::Listing(t) => assert_eq!(t, "[{\"name\":\"a\",\"quantity\":1}]"),
        _ => panic!("a successful listing must render"),
    }
}

#[test]
fn connection_target_requires_an_argument() {
    assert!(connection_target(&vec![]).is_none());
    assert!(connection_target(&vec!["prog".to_string()]).is_none());
    assert_eq!(
        connection_target(&vec!["prog".to_string(), "db://host".to_string()]),
        Some("db://host".to_string())
    );
}

#[test]
fn repeated_post_accumulates_over_http() {
    let mut mgr = GroceryMgr::new();
    handle_request(&mut mgr, Method::Post, &b"{\"name\":\"apples\",\"quantity\":3}".to_vec());
    handle_request(&mut mgr, Method::Put, &b"{\"name\":\"apples\",\"quantity\":2}".to_vec());
    assert_eq!(listing_of(&mut mgr), "[{\"name\":\"apples\",\"quantity\":5}]");
}

#[test]
fn get_twice_returns_identical_listings() {
    let mut mgr = GroceryMgr::new();
    handle_request(&mut mgr, Method::Post, &b"{\"name\":\"rice\",\"quantity\":1}".to_vec());
    handle_request(&mut mgr, Method::Post, &b"{\"name\":\"beans\",\"quantity\":2}".to_vec());
    assert_eq!(listing_of(&mut mgr), listing_of(&mut mgr));
}
