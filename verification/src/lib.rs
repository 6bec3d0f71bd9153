//! A minimal HTTP server runtime core: a wire-level request parser, an
//! insertion-ordered router with `:name` path parameters, a middleware
//! dispatch chain with one-shot response semantics, a CORS policy
//! middleware, and models of the worker-pool and task-executor engines.

use vstd::prelude::*;

mod cors;
mod dispatch;
mod executor;
mod glote;
mod request;
mod response;
mod router;
mod strmap;
mod strutil;
mod wire;
mod workerpool;

pub use cors::Cors;
pub use dispatch::{apply_action, apply_actions, run_handlers, Action, Middleware};
pub use executor::{Executor, Task};
pub use glote::{respond_not_found, serve_static, static_file_path, Glote};
pub use request::{parse_path_params, parse_query, Request};
pub use response::Response;
pub use router::{Route, Router};
pub use strmap::StrMap;
pub use strutil::u64_to_string;
pub use wire::{content_length_of, parse_raw_request};
pub use workerpool::{JobOutcome, Worker, WorkerPool};

verus! {

/// The status line reason phrase for each known status code.
pub open spec fn spec_status_text(code: u16) -> Seq<char> {
    if code == 200 {
        "OK"@
    } else if code == 201 {
        "Created"@
    } else if code == 204 {
        "No Content"@
    } else if code == 301 {
        "Moved Permanently"@
    } else if code == 302 {
        "Found"@
    } else if code == 400 {
        "Bad Request"@
    } else if code == 401 {
        "Unauthorized"@
    } else if code == 403 {
        "Forbidden"@
    } else if code == 404 {
        "Not Found"@
    } else if code == 405 {
        "Method Not Allowed"@
    } else if code == 500 {
        "Internal Server Error"@
    } else if code == 502 {
        "Bad Gateway"@
    } else if code == 503 {
        "Service Unavailable"@
    } else {
        "Unknown"@
    }
}

/// Reason phrase sent on the status line for a status code.
pub fn get_status_text(code: u16) -> (r: &'static str)
    ensures
        r@ == spec_status_text(code),
{
    match code {
        200 => "OK",
        201 => "Created",
        204 => "No Content",
        301 => "Moved Permanently",
        302 => "Found",
        400 => "Bad Request",
        401 => "Unauthorized",
        403 => "Forbidden",
        404 => "Not Found",
        405 => "Method Not Allowed",
        500 => "Internal Server Error",
        502 => "Bad Gateway",
        503 => "Service Unavailable",
        _ => "Unknown",
    }
}

} // verus!
