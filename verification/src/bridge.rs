//! The seam between the runtime and any embedded interpreter.

use crate::http::{Header, PylonResponse, ResponseView, add_header, header_texts, one_header};
use crate::json::Json;
use crate::text::{cat3, debug_quoted, decimal, decimal_text, quoted};
use vstd::prelude::*;

verus! {

/// Used when an application declares no Python handlers at all: a pure
/// declaration-only service, which is a supported and very fast mode.
#[derive(Debug)]
pub struct NoBridge;

impl NoBridge {
    /// There is no interpreter to call a handler in.
    pub fn call(&self, handler: u32) -> (r: Result<PylonResponse, String>)
        ensures
            r matches Err(e) && e@ == "route requires Python handler "@ + decimal(handler as nat)
                + ", but this runtime was built without an interpreter"@,
    {
        Err(
            cat3(
                "route requires Python handler ",
                decimal_text(handler as u64).as_str(),
                ", but this runtime was built without an interpreter",
            ),
        )
    }

    /// There is no interpreter to run a behaviour in.
    pub fn call_behaviour(&self, name: &str) -> (r: Result<Json, String>)
        ensures
            r matches Err(e) && e@ == "behaviour "@ + debug_quoted(name@)
                + " requires an interpreter, but this runtime was built without one"@,
    {
        Err(
            cat3(
                "behaviour ",
                quoted(name).as_str(),
                " requires an interpreter, but this runtime was built without one",
            ),
        )
    }

    /// How many interpreter workers are live.
    pub fn workers(&self) -> (r: usize)
        ensures
            r == 0,
    {
        0
    }
}

/// The response that a handler delivered, with its headers behind the content type.
pub fn delivered(status: u16, body: Vec<u8>, content_type: &str, headers: &Vec<(String, String)>) -> (r: PylonResponse)
    ensures
        r@ == (ResponseView {
            status,
            headers: seq![("content-type"@, content_type@)] + header_texts(headers@),
            body: body@,
        }),
{
    let ghost first: Seq<Header> = seq![("content-type"@, content_type@)];
    let ghost all = header_texts(headers@);
    let mut list = one_header("content-type", content_type);
    let mut i: usize = 0;
    assert(first + all.take(0) =~= first);
    while i < headers.len()
        invariant
            i <= headers@.len(),
            all == header_texts(headers@),
            header_texts(list@) == first + all.take(i as int),
        decreases headers.len() - i,
    {
        add_header(&mut list, headers[i].0.as_str(), headers[i].1.as_str());
        assert(first + all.take(i + 1) =~= (first + all.take(i as int)).push(all[i as int]));
        i = i + 1;
    }
    assert(all.take(all.len() as int) =~= all);
    PylonResponse { status, headers: list, body }
}

} // verus!
