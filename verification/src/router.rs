//! Route dispatch: the four method bindings on the one collection path,
//! payload checking, and the translation of store outcomes into responses.
//!
//! POST and PUT deliberately run the same increment-upsert: the equivalence
//! is part of the service's interface, not an oversight to correct.

use vstd::prelude::*;
use vstd::string::StringExecFns;
use crate::codec::{parse_grocery_item, parse_grocery_id, spec_parse_item, spec_parse_id};
use crate::errors::{QueryError, WriteError};
use crate::items::{GroceryItem, GroceryId, recs_of};
use crate::model::{model_upsert, model_delete, upsert_fits};
use crate::render::{render_items, spec_render};
use crate::store::GroceryMgr;

verus! {

/// Largest accepted request body, in bytes; longer ones are rejected before
/// any decoding.
pub const PAYLOAD_LIMIT: usize = 16384;

/// The HTTP methods the collection path answers.
#[derive(Clone, Copy, PartialEq, Eq, Structural, Debug)]
pub enum Method {
    Get,
    Post,
    Put,
    Delete,
}

/// What the service answers: a rendered listing, a write confirmation, or a
/// failure class. Client-caused failures and store failures stay apart.
pub enum Response {
    Listing(String),
    Created,
    Deleted,
    PayloadTooLarge,
    BadPayload,
    StoreFailure,
}

impl Response {
    /// The HTTP status this response goes out with.
    pub open spec fn spec_status(&self) -> u16 {
        match self {
            Response::Listing(_) => 200,
            Response::Created => 201,
            Response::Deleted => 200,
            Response::PayloadTooLarge => 413,
            Response::BadPayload => 400,
            Response::StoreFailure => 500,
        }
    }

    /// The body text this response goes out with.
    pub open spec fn spec_body(&self) -> Seq<char> {
        match self {
            Response::Listing(t) => t@,
            Response::Created => "Added items to the grocery list"@,
            Response::Deleted => "Removed item from grocery list"@,
            Response::PayloadTooLarge => "request body too large"@,
            Response::BadPayload => "malformed request body"@,
            Response::StoreFailure => "store operation failed"@,
        }
    }

    /// The HTTP status code.
    pub fn status(&self) -> (s: u16)
        ensures
            s == self.spec_status(),
    {
        match self {
            Response::Listing(_) => 200,
            Response::Created => 201,
            Response::Deleted => 200,
            Response::PayloadTooLarge => 413,
            Response::BadPayload => 400,
            Response::StoreFailure => 500,
        }
    }

    /// The body text.
    pub fn body_text(&self) -> (t: String)
        ensures
            t@ == self.spec_body(),
    {
        match self {
            Response::Listing(t) => t.clone(),
            Response::Created => String::from_str("Added items to the grocery list"),
            Response::Deleted => String::from_str("Removed item from grocery list"),
            Response::PayloadTooLarge => String::from_str("request body too large"),
            Response::BadPayload => String::from_str("malformed request body"),
            Response::StoreFailure => String::from_str("store operation failed"),
        }
    }
}

/// What a request asks of the store, or the rejection it earned instead.
pub enum RequestPlan {
    Reject(Response),
    DoList,
    DoUpsert(GroceryItem),
    DoDelete(GroceryId),
}

/// Bind one request to a store intent: reads never touch the body, writes
/// have it checked against the size limit and decoded before any store call.
pub fn plan_request(method: Method, body: &Vec<u8>) -> (p: RequestPlan)
    ensures
        method is Get ==> p is DoList,
        (method is Post || method is Put) ==> (if body@.len() > PAYLOAD_LIMIT {
            p == RequestPlan::Reject(Response::PayloadTooLarge)
        } else {
            match spec_parse_item(body@) {
                Some(r) => p matches RequestPlan::DoUpsert(it) && it@.name == r.0 && it@.qty
                    == r.1,
                None => p == RequestPlan::Reject(Response::BadPayload),
            }
        }),
        method is Delete ==> (if body@.len() > PAYLOAD_LIMIT {
            p == RequestPlan::Reject(Response::PayloadTooLarge)
        } else {
            match spec_parse_id(body@) {
                Some(n) => p matches RequestPlan::DoDelete(id) && id@ == n,
                None => p == RequestPlan::Reject(Response::BadPayload),
            }
        }),
{
    match method {
        Method::Get => RequestPlan::DoList,
        Method::Post | Method::Put => {
            if body.len() > PAYLOAD_LIMIT {
                RequestPlan::Reject(Response::PayloadTooLarge)
            } else {
                match parse_grocery_item(body) {
                    Some(it) => RequestPlan::DoUpsert(it),
                    None => RequestPlan::Reject(Response::BadPayload),
                }
            }
        },
        Method::Delete => {
            if body.len() > PAYLOAD_LIMIT {
                RequestPlan::Reject(Response::PayloadTooLarge)
            } else {
                match parse_grocery_id(body) {
                    Some(id) => RequestPlan::DoDelete(id),
                    None => RequestPlan::Reject(Response::BadPayload),
                }
            }
        },
    }
}

/// A listing outcome as a response: the items rendered, or a generic store
/// failure that leaks no detail.
pub fn render_list_outcome(r: Result<Vec<GroceryItem>, QueryError>) -> (resp: Response)
    ensures
        r matches Ok(items) ==> resp matches Response::Listing(t) && t@ == spec_render(
            recs_of(items@),
        ),
        r is Err ==> resp is StoreFailure,
{
    match r {
        Ok(items) => Response::Listing(render_items(&items)),
        Err(_) => Response::StoreFailure,
    }
}

/// An upsert outcome as a response.
pub fn render_upsert_outcome(r: Result<(), WriteError>) -> (resp: Response)
    ensures
        r is Ok ==> resp is Created,
        r is Err ==> resp is StoreFailure,
{
    match r {
        Ok(_) => Response::Created,
        Err(_) => Response::StoreFailure,
    }
}

/// A delete outcome as a response; a delete that matched nothing still
/// confirms.
pub fn render_delete_outcome(r: Result<(), WriteError>) -> (resp: Response)
    ensures
        r is Ok ==> resp is Deleted,
        r is Err ==> resp is StoreFailure,
{
    match r {
        Ok(_) => Response::Deleted,
        Err(_) => Response::StoreFailure,
    }
}

/// One whole request against the collection model: dispatch, validation,
/// store operation and response, with the store's state accounted for in
/// every case.
pub fn handle_request(mgr: &mut GroceryMgr, method: Method, body: &Vec<u8>) -> (resp: Response)
    requires
        old(mgr).wf(),
    ensures
        final(mgr).wf(),
        method is Get ==> final(mgr)@ == old(mgr)@ && (resp matches Response::Listing(t) && t@
            == spec_render(old(mgr)@)),
        (method is Post || method is Put) ==> (if body@.len() > PAYLOAD_LIMIT {
            resp is PayloadTooLarge && final(mgr)@ == old(mgr)@
        } else {
            match spec_parse_item(body@) {
                Some(r) => (if upsert_fits(old(mgr)@, r.0, r.1) {
                    resp is Created && final(mgr)@ == model_upsert(old(mgr)@, r.0, r.1)
                } else {
                    resp is StoreFailure && final(mgr)@ == old(mgr)@
                }),
                None => resp is BadPayload && final(mgr)@ == old(mgr)@,
            }
        }),
        method is Delete ==> (if body@.len() > PAYLOAD_LIMIT {
            resp is PayloadTooLarge && final(mgr)@ == old(mgr)@
        } else {
            match spec_parse_id(body@) {
                Some(n) => resp is Deleted && final(mgr)@ == model_delete(old(mgr)@, n),
                None => resp is BadPayload && final(mgr)@ == old(mgr)@,
            }
        }),
{
    match plan_request(method, body) {
        RequestPlan::Reject(resp) => resp,
        RequestPlan::DoList => {
            let items = mgr.db_find_groceries();
            proof {
                assert(recs_of(items@) == mgr@);
            }
            render_list_outcome(Ok(items))
        },
        RequestPlan::DoUpsert(it) => {
            let r = mgr.db_upsert_groceries(it);
            render_upsert_outcome(r)
        },
        RequestPlan::DoDelete(id) => {
            let r = mgr.db_delete_groceries(id);
            render_delete_outcome(r)
        },
    }
}

/// The connection target handed on the command line, when one is there: the
/// first argument after the program's own name.
pub fn connection_target(args: &Vec<String>) -> (r: Option<String>)
    ensures
        match r {
            Some(u) => args@.len() >= 2 && u@ == args@[1]@,
            None => args@.len() < 2,
        },
{
    if args.len() < 2 {
        None
    } else {
        Some(args[1].clone())
    }
}

} // verus!
