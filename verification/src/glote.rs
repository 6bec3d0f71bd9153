//! The server: the route table, the global middleware list and the static
//! asset root, with the per-request match-and-dispatch step. Binding a
//! socket, accepting connections and scheduling jobs stay with the embedder;
//! everything that decides or computes is here.

use vstd::prelude::*;

use crate::dispatch::{run_handlers, spec_run_from, Action, Middleware};
use crate::request::Request;
use crate::response::{spec_head_chars, Response, ResponseView};
use crate::router::{spec_first_match, Route, Router};
use crate::strutil::{spec_trim_start, trim_start_char};
use vstd::utf8::encode_utf8;

verus! {

/// What the static-file fallback serves for a request path: the path,
/// stripped of leading slashes (empty defaulting to `index.html`), resolved
/// under the asset root.
pub open spec fn spec_static_file_path(dir: Seq<char>, req_path: Seq<char>) -> Seq<char> {
    let p0 = spec_trim_start(req_path, '/');
    let p = if p0.len() == 0 {
        "index.html"@
    } else {
        p0
    };
    if dir.len() == 0 {
        p
    } else if dir[dir.len() - 1] == '/' {
        dir + p
    } else {
        dir + "/"@ + p
    }
}

/// Resolves a request path under the static asset root.
pub fn static_file_path(dir: &str, req_path: &str) -> (r: String)
    ensures
        r@ == spec_static_file_path(dir@, req_path@),
{
    let trimmed = trim_start_char(req_path, '/');
    let dlen = dir.unicode_len();
    let mut out = String::from_str(dir);
    if dlen > 0 && dir.get_char(dlen - 1) != '/' {
        out.append("/");
    }
    if trimmed.is_empty() {
        out.append("index.html");
    } else {
        out.append(trimmed);
    }
    proof {
        assert(out@ =~= spec_static_file_path(dir@, req_path@));
    }
    out
}

/// The content type that the file-extension table gives for a path,
/// `text/plain` when the extension is unknown.
pub uninterp spec fn mime_of(path: Seq<char>) -> Seq<char>;

/// Relies on mime_guess::from_path(..).first_or_text_plain(): a table lookup
/// on the path's extension alone, falling back to text/plain.
#[verifier::external_body]
fn guess_mime(path: &str) -> (r: String)
    ensures
        r@ == mime_of(path@),
{
    let m = mime_guess::from_path(path).first_or_text_plain();
    let s: &str = m.as_ref();
    s.to_string()
}

/// Answers a static-file hit: status 200 and the file bytes, under the
/// content type guessed from the file path's extension.
pub fn serve_static(res: &mut Response, file_path: &str, contents: &[u8])
    requires
        old(res).wf(),
    ensures
        final(res).wf(),
        old(res)@.stopped ==> final(res)@ == (ResponseView { status: 200, ..old(res)@ }),
        !old(res)@.stopped ==> final(res)@ == (ResponseView {
            status: 200,
            stopped: true,
            output: old(res)@.output + encode_utf8(
                spec_head_chars(200, mime_of(file_path@), contents@.len()),
            ) + contents@,
            ..old(res)@
        }),
{
    res.status(200);
    let mime = guess_mime(file_path);
    res.send_bytes(contents, mime.as_str());
}

/// Answers the no-route, no-file case: status 404 with a plain body.
pub fn respond_not_found(res: &mut Response)
    requires
        old(res).wf(),
    ensures
        final(res).wf(),
        old(res)@.stopped ==> final(res)@ == (ResponseView { status: 404, ..old(res)@ }),
        !old(res)@.stopped ==> final(res)@ == (ResponseView {
            status: 404,
            stopped: true,
            output: old(res)@.output + crate::response::spec_send_bytes(
                404,
                "text/html; charset=UTF-8"@,
                "404 Not Found"@,
            ),
            ..old(res)@
        }),
{
    res.status(404);
    res.send("404 Not Found");
}

/// The server: routes and global middleware are registered before serving
/// starts and are read-only thereafter.
pub struct Glote {
    pub router: Router,
    pub middleware: Vec<Middleware>,
    pub static_path: Option<String>,
}

impl Glote {
    /// Every chain the server could run fits in a length: a machine limit,
    /// not a rule of the protocol.
    pub open spec fn spec_chain_fits(&self) -> bool {
        forall|j: int|
            0 <= j < self.router@.len() ==> self.middleware@.len() + (
            #[trigger] self.router@[j]).middleware@.len() <= usize::MAX
    }

    /// A server with no routes, no middleware and no static root.
    pub fn new() -> (r: Glote)
        ensures
            r.router@ == Seq::<Route>::empty(),
            r.middleware@ == Seq::<Middleware>::empty(),
            r.static_path is None,
            r.spec_chain_fits(),
    {
        Glote { router: Router::new(), middleware: Vec::new(), static_path: None }
    }

    /// Sets the static asset root used when no route matches.
    pub fn static_path(&mut self, path: &str)
        ensures
            final(self).router == old(self).router,
            final(self).middleware == old(self).middleware,
            final(self).static_path.deep_view() == Some(path@),
    {
        self.static_path = Some(String::from_str(path));
    }

    /// Appends a global middleware; it runs before every route's own list.
    pub fn use_middleware(&mut self, middleware: Middleware)
        ensures
            final(self).router == old(self).router,
            final(self).middleware@ == old(self).middleware@.push(middleware),
            final(self).static_path == old(self).static_path,
    {
        self.middleware.push(middleware);
    }

    fn add_route(&mut self, method: &str, path: &str, middleware: Vec<Middleware>, handler: Vec<
        Action,
    >)
        ensures
            final(self).router@.len() == old(self).router@.len() + 1,
            forall|j: int|
                0 <= j < old(self).router@.len() ==> final(self).router@[j] == old(
                    self,
                ).router@[j],
            final(self).router@.last().method@ == method@,
            final(self).router@.last().pattern@ == path@,
            final(self).router@.last().middleware@ == middleware@,
            final(self).router@.last().handler@ == handler@,
            final(self).middleware == old(self).middleware,
            final(self).static_path == old(self).static_path,
    {
        let route = Route {
            method: String::from_str(method),
            pattern: String::from_str(path),
            middleware,
            handler,
        };
        self.router.add(route);
    }

    /// Registers a GET route without middleware of its own.
    pub fn get(&mut self, path: &str, handler: Vec<Action>)
        ensures
            final(self).router@.len() == old(self).router@.len() + 1,
            forall|j: int|
                0 <= j < old(self).router@.len() ==> final(self).router@[j] == old(
                    self,
                ).router@[j],
            final(self).router@.last().method@ == "GET"@,
            final(self).router@.last().pattern@ == path@,
            final(self).router@.last().middleware@ == Seq::<Middleware>::empty(),
            final(self).router@.last().handler@ == handler@,
            final(self).middleware == old(self).middleware,
            final(self).static_path == old(self).static_path,
    {
        let empty_middleware: Vec<Middleware> = Vec::new();
        self.add_route("GET", path, empty_middleware, handler);
    }

    /// Registers a GET route with its own middleware list.
    pub fn get_with_middleware(&mut self, path: &str, middleware: Vec<Middleware>, handler: Vec<
        Action,
    >)
        ensures
            final(self).router@.len() == old(self).router@.len() + 1,
            forall|j: int|
                0 <= j < old(self).router@.len() ==> final(self).router@[j] == old(
                    self,
                ).router@[j],
            final(self).router@.last().method@ == "GET"@,
            final(self).router@.last().pattern@ == path@,
            final(self).router@.last().middleware@ == middleware@,
            final(self).router@.last().handler@ == handler@,
            final(self).middleware == old(self).middleware,
            final(self).static_path == old(self).static_path,
    {
        self.add_route("GET", path, middleware, handler);
    }

    /// Registers a POST route without middleware of its own.
    pub fn post(&mut self, path: &str, handler: Vec<Action>)
        ensures
            final(self).router@.len() == old(self).router@.len() + 1,
            forall|j: int|
                0 <= j < old(self).router@.len() ==> final(self).router@[j] == old(
                    self,
                ).router@[j],
            final(self).router@.last().method@ == "POST"@,
            final(self).router@.last().pattern@ == path@,
            final(self).router@.last().middleware@ == Seq::<Middleware>::empty(),
            final(self).router@.last().handler@ == handler@,
            final(self).middleware == old(self).middleware,
            final(self).static_path == old(self).static_path,
    {
        let empty_middleware: Vec<Middleware> = Vec::new();
        self.add_route("POST", path, empty_middleware, handler);
    }

    /// Registers a POST route with its own middleware list.
    pub fn post_with_middleware(&mut self, path: &str, middleware: Vec<Middleware>, handler: Vec<
        Action,
    >)
        ensures
            final(self).router@.len() == old(self).router@.len() + 1,
            forall|j: int|
                0 <= j < old(self).router@.len() ==> final(self).router@[j] == old(
                    self,
                ).router@[j],
            final(self).router@.last().method@ == "POST"@,
            final(self).router@.last().pattern@ == path@,
            final(self).router@.last().middleware@ == middleware@,
            final(self).router@.last().handler@ == handler@,
            final(self).middleware == old(self).middleware,
            final(self).static_path == old(self).static_path,
    {
        self.add_route("POST", path, middleware, handler);
    }

    /// Registers a PUT route without middleware of its own.
    pub fn put(&mut self, path: &str, handler: Vec<Action>)
        ensures
            final(self).router@.len() == old(self).router@.len() + 1,
            forall|j: int|
                0 <= j < old(self).router@.len() ==> final(self).router@[j] == old(
                    self,
                ).router@[j],
            final(self).router@.last().method@ == "PUT"@,
            final(self).router@.last().pattern@ == path@,
            final(self).router@.last().middleware@ == Seq::<Middleware>::empty(),
            final(self).router@.last().handler@ == handler@,
            final(self).middleware == old(self).middleware,
            final(self).static_path == old(self).static_path,
    {
        let empty_middleware: Vec<Middleware> = Vec::new();
        self.add_route("PUT", path, empty_middleware, handler);
    }

    /// Registers a PUT route with its own middleware list.
    pub fn put_with_middleware(&mut self, path: &str, middleware: Vec<Middleware>, handler: Vec<
        Action,
    >)
        ensures
            final(self).router@.len() == old(self).router@.len() + 1,
            forall|j: int|
                0 <= j < old(self).router@.len() ==> final(self).router@[j] == old(
                    self,
                ).router@[j],
            final(self).router@.last().method@ == "PUT"@,
            final(self).router@.last().pattern@ == path@,
            final(self).router@.last().middleware@ == middleware@,
            final(self).router@.last().handler@ == handler@,
            final(self).middleware == old(self).middleware,
            final(self).static_path == old(self).static_path,
    {
        self.add_route("PUT", path, middleware, handler);
    }

    /// Registers a DELETE route without middleware of its own.
    pub fn delete(&mut self, path: &str, handler: Vec<Action>)
        ensures
            final(self).router@.len() == old(self).router@.len() + 1,
            forall|j: int|
                0 <= j < old(self).router@.len() ==> final(self).router@[j] == old(
                    self,
                ).router@[j],
            final(self).router@.last().method@ == "DELETE"@,
            final(self).router@.last().pattern@ == path@,
            final(self).router@.last().middleware@ == Seq::<Middleware>::empty(),
            final(self).router@.last().handler@ == handler@,
            final(self).middleware == old(self).middleware,
            final(self).static_path == old(self).static_path,
    {
        let empty_middleware: Vec<Middleware> = Vec::new();
        self.add_route("DELETE", path, empty_middleware, handler);
    }

    /// Registers a DELETE route with its own middleware list.
    pub fn delete_with_middleware(&mut self, path: &str, middleware: Vec<Middleware>, handler: Vec<
        Action,
    >)
        ensures
            final(self).router@.len() == old(self).router@.len() + 1,
            forall|j: int|
                0 <= j < old(self).router@.len() ==> final(self).router@[j] == old(
                    self,
                ).router@[j],
            final(self).router@.last().method@ == "DELETE"@,
            final(self).router@.last().pattern@ == path@,
            final(self).router@.last().middleware@ == middleware@,
            final(self).router@.last().handler@ == handler@,
            final(self).middleware == old(self).middleware,
            final(self).static_path == old(self).static_path,
    {
        self.add_route("DELETE", path, middleware, handler);
    }

    /// Matches the request against the route table and, on a hit, runs the
    /// dispatch chain — global middleware, then the route's own, then the
    /// handler — on a parameter-attached copy of the request. On a miss the
    /// response is untouched; the embedder then tries the static root and
    /// falls back to 404.
    pub fn handle_request(&self, req: &Request, res: &mut Response) -> (matched: bool)
        requires
            req.wf(),
            old(res).wf(),
            self.spec_chain_fits(),
        ensures
            final(res).wf(),
            matched == (spec_first_match(self.router@, req.method@, req.path@) is Some),
            match spec_first_match(self.router@, req.method@, req.path@) {
                Some(i) => final(res)@ == spec_run_from(
                    self.middleware@ + self.router@[i].middleware@,
                    self.router@[i].handler@,
                    req.headers@,
                    0,
                    old(res)@,
                ),
                None => final(res)@ == old(res)@,
            },
    {
        match self.router.match_route(req.method.as_str(), req.path.as_str()) {
            Some((i, params)) => {
                let req_with_params = req.with_params(params);
                let route = self.router.route_at(i);
                proof {
                    assert(self.router@[i as int] == *route);
                }
                run_handlers(&self.middleware, &route.middleware, &route.handler, &req_with_params, res);
                true
            },
            None => false,
        }
    }
}

} // verus!
