//! The CORS policy middleware: an allow-list of origins, checked against the
//! request's `origin` header before the rest of the chain may run.

use vstd::prelude::*;

use crate::response::{spec_send_bytes, Response, ResponseView};
use crate::strutil::str_eq;

verus! {

/// The `origin` header of a request, or the empty string when absent.
pub open spec fn spec_origin_of(req_headers: Map<Seq<char>, Seq<char>>) -> Seq<char> {
    if req_headers.contains_key("origin"@) {
        req_headers["origin"@]
    } else {
        Seq::empty()
    }
}

/// Whether the allow-list admits `origin`: a `*` entry admits everything.
pub open spec fn spec_cors_allows(allow: Seq<Seq<char>>, origin: Seq<char>) -> bool {
    allow.contains("*"@) || allow.contains(origin)
}

/// The response after the CORS middleware ran on a request with the given
/// headers: a 401 with a plain-text body when the origin is rejected, the two
/// CORS headers otherwise.
pub open spec fn spec_cors_response(
    allow: Seq<Seq<char>>,
    req_headers: Map<Seq<char>, Seq<char>>,
    r: ResponseView,
) -> ResponseView {
    let origin = spec_origin_of(req_headers);
    if !spec_cors_allows(allow, origin) {
        let r1 = ResponseView { status: 401, ..r };
        let r2 = ResponseView { headers: r1.headers.insert("Content-Type"@, "text/plain"@), ..r1 };
        if r2.stopped {
            r2
        } else {
            ResponseView {
                stopped: true,
                output: r2.output + spec_send_bytes(
                    r2.status,
                    "text/html; charset=UTF-8"@,
                    "Unauthorized origin"@,
                ),
                ..r2
            }
        }
    } else {
        let ao = if allow.contains("*"@) {
            "*"@
        } else {
            origin
        };
        ResponseView {
            headers: r.headers.insert("Access-Control-Allow-Origin"@, ao).insert(
                "Access-Control-Allow-Methods"@,
                "GET, POST, OPTIONS"@,
            ),
            ..r
        }
    }
}

/// Whether the CORS middleware lets the chain continue.
pub open spec fn spec_cors_proceeds(
    allow: Seq<Seq<char>>,
    req_headers: Map<Seq<char>, Seq<char>>,
) -> bool {
    spec_cors_allows(allow, spec_origin_of(req_headers))
}

fn contains_str(v: &Vec<String>, s: &str) -> (r: bool)
    ensures
        r == v.deep_view().contains(s@),
{
    let n = v.len();
    let mut i: usize = 0;
    while i < n
        invariant
            n == v@.len(),
            i <= n,
            forall|j: int| 0 <= j < i ==> v.deep_view()[j] != s@,
        decreases n - i,
    {
        proof {
            assert(v.deep_view()[i as int] == v@[i as int]@);
        }
        if str_eq(v[i].as_str(), s) {
            return true;
        }
        i += 1;
    }
    proof {
        if v.deep_view().contains(s@) {
            let j = choose|j: int| 0 <= j < v.deep_view().len() && v.deep_view()[j] == s@;
            assert(v.deep_view()[j] == s@);
        }
    }
    false
}

/// A CORS policy: the origins that may reach the chain behind it.
pub struct Cors {
    allow_origins: Vec<String>,
}

impl Cors {
    /// The allowed origins, as character sequences.
    pub closed spec fn allow(&self) -> Seq<Seq<char>> {
        self.allow_origins.deep_view()
    }

    /// A policy admitting exactly the listed origins; a single `"*"` entry
    /// admits every origin.
    pub fn new(allow_origins: &[&str]) -> (r: Cors)
        ensures
            r.allow() == allow_origins.deep_view(),
    {
        let n = allow_origins.len();
        let mut v: Vec<String> = Vec::new();
        let mut i: usize = 0;
        while i < n
            invariant
                n == allow_origins@.len(),
                i <= n,
                v.deep_view() =~= allow_origins.deep_view().take(i as int),
            decreases n - i,
        {
            let ghost dv = v.deep_view();
            proof {
                assert(allow_origins.deep_view()[i as int] == allow_origins@[i as int]@);
            }
            v.push(String::from_str(allow_origins[i]));
            proof {
                assert(v.deep_view() =~= dv.push(allow_origins@[i as int]@));
                assert(v.deep_view() =~= allow_origins.deep_view().take(i as int + 1));
            }
            i += 1;
        }
        proof {
            assert(allow_origins.deep_view().take(n as int) =~= allow_origins.deep_view());
        }
        Cors { allow_origins: v }
    }

    /// Applies the policy to one exchange: a request from an unlisted origin
    /// is answered 401 with a plain-text body and the chain must stop; an
    /// admitted request gets the two CORS headers and the chain may continue.
    pub fn cors_middleware(&self, req: &crate::request::Request, res: &mut Response) -> (proceed:
        bool)
        requires
            req.wf(),
            old(res).wf(),
        ensures
            final(res).wf(),
            final(res)@ == spec_cors_response(self.allow(), req.headers@, old(res)@),
            proceed == spec_cors_proceeds(self.allow(), req.headers@),
    {
        let origin = match req.headers.get("origin") {
            Some(v) => v.clone(),
            None => String::new(),
        };
        proof {
            assert(origin@ == spec_origin_of(req.headers@));
        }
        let allow_all = contains_str(&self.allow_origins, "*");
        if !allow_all && !contains_str(&self.allow_origins, origin.as_str()) {
            res.status(401);
            res.set_header("Content-Type", "text/plain");
            res.send("Unauthorized origin");
            false
        } else {
            let allow_origin = if allow_all {
                "*"
            } else {
                origin.as_str()
            };
            res.set_header("Access-Control-Allow-Origin", allow_origin);
            res.set_header("Access-Control-Allow-Methods", "GET, POST, OPTIONS");
            true
        }
    }
}

} // verus!
