//! The middleware dispatch chain: an ordered list of stages run as nested
//! continuations over one shared response. Before every stage (and before
//! the handler) the engine checks the response's `stopped` flag and skips the
//! stage if a body was already written, so short-circuiting and calling a
//! continuation more than once are both safe.

use vstd::prelude::*;

use crate::cors::{spec_cors_proceeds, spec_cors_response, Cors};
use crate::request::Request;
use crate::response::{spec_send_bytes, Response, ResponseView};

verus! {

/// One thing a middleware or handler does to the response.
pub enum Action {
    /// Set the status code of the next body write.
    SetStatus(u16),
    /// Bind a response header.
    SetHeader(String, String),
    /// Drop a response header.
    RemoveHeader(String),
    /// Write the text as an HTML body and stop the response.
    Send(String),
    /// Write already JSON-encoded text as a JSON body and stop the response.
    SendJson(String),
}

/// What one action does to a response.
pub open spec fn spec_apply_action(a: Action, r: ResponseView) -> ResponseView {
    match a {
        Action::SetStatus(c) => ResponseView { status: c, ..r },
        Action::SetHeader(k, v) => ResponseView { headers: r.headers.insert(k@, v@), ..r },
        Action::RemoveHeader(k) => ResponseView { headers: r.headers.remove(k@), ..r },
        Action::Send(b) => if r.stopped {
            r
        } else {
            ResponseView {
                stopped: true,
                output: r.output + spec_send_bytes(r.status, "text/html; charset=UTF-8"@, b@),
                ..r
            }
        },
        Action::SendJson(b) => if r.stopped {
            r
        } else {
            ResponseView {
                stopped: true,
                output: r.output + spec_send_bytes(
                    r.status,
                    "application/json; charset=UTF-8"@,
                    b@,
                ),
                ..r
            }
        },
    }
}

/// What a list of actions does, first action first.
pub open spec fn spec_apply_actions(acts: Seq<Action>, r: ResponseView) -> ResponseView
    decreases acts.len(),
{
    if acts.len() == 0 {
        r
    } else {
        spec_apply_actions(acts.drop_first(), spec_apply_action(acts[0], r))
    }
}

/// One stage of the chain.
pub enum Middleware {
    /// A middleware given as data: actions before the continuation, how many
    /// times the continuation is invoked (zero short-circuits, more than one
    /// is allowed and harmless), and actions after it returns.
    Script { pre: Vec<Action>, calls_next: u64, post: Vec<Action> },
    /// The CORS policy middleware: its continuation runs only for an
    /// admitted origin.
    Cors(Cors),
}

/// The response after the chain runs from stage `i`: a stopped response is
/// left alone, past the last stage the handler's actions run, and a stage
/// otherwise runs with a continuation standing for the stages after it.
pub open spec fn spec_run_from(
    mws: Seq<Middleware>,
    handler: Seq<Action>,
    req_headers: Map<Seq<char>, Seq<char>>,
    i: int,
    r: ResponseView,
) -> ResponseView
    decreases mws.len() - i, 0nat, 0nat,
{
    if r.stopped {
        r
    } else if i < 0 || i >= mws.len() {
        spec_apply_actions(handler, r)
    } else {
        match mws[i] {
            Middleware::Script { pre, calls_next, post } => {
                let r1 = spec_apply_actions(pre@, r);
                let r2 = spec_run_times(mws, handler, req_headers, i + 1, r1, calls_next as nat);
                spec_apply_actions(post@, r2)
            },
            Middleware::Cors(c) => {
                let r1 = spec_cors_response(c.allow(), req_headers, r);
                if spec_cors_proceeds(c.allow(), req_headers) {
                    spec_run_from(mws, handler, req_headers, i + 1, r1)
                } else {
                    r1
                }
            },
        }
    }
}

/// The continuation for stage `i`, invoked `k` times in sequence.
pub open spec fn spec_run_times(
    mws: Seq<Middleware>,
    handler: Seq<Action>,
    req_headers: Map<Seq<char>, Seq<char>>,
    i: int,
    r: ResponseView,
    k: nat,
) -> ResponseView
    decreases mws.len() - i, k, 1nat,
{
    if k == 0 {
        r
    } else {
        spec_run_times(
            mws,
            handler,
            req_headers,
            i,
            spec_run_from(mws, handler, req_headers, i, r),
            (k - 1) as nat,
        )
    }
}

proof fn lemma_run_times_snoc(
    mws: Seq<Middleware>,
    handler: Seq<Action>,
    req_headers: Map<Seq<char>, Seq<char>>,
    i: int,
    r: ResponseView,
    k: nat,
)
    ensures
        spec_run_times(mws, handler, req_headers, i, r, k + 1) == spec_run_from(
            mws,
            handler,
            req_headers,
            i,
            spec_run_times(mws, handler, req_headers, i, r, k),
        ),
    decreases k,
{
    if k == 0 {
        let f = spec_run_from(mws, handler, req_headers, i, r);
        assert(spec_run_times(mws, handler, req_headers, i, r, 1) == spec_run_times(
            mws,
            handler,
            req_headers,
            i,
            f,
            0,
        ));
        assert(spec_run_times(mws, handler, req_headers, i, f, 0) == f);
    }
    if k > 0 {
        lemma_run_times_snoc(
            mws,
            handler,
            req_headers,
            i,
            spec_run_from(mws, handler, req_headers, i, r),
            (k - 1) as nat,
        );
    }
}

/// Performs one action on the response.
pub fn apply_action(a: &Action, res: &mut Response)
    requires
        old(res).wf(),
    ensures
        final(res).wf(),
        final(res)@ == spec_apply_action(*a, old(res)@),
{
    match a {
        Action::SetStatus(c) => res.status(*c),
        Action::SetHeader(k, v) => res.set_header(k.as_str(), v.as_str()),
        Action::RemoveHeader(k) => res.remove_header(k.as_str()),
        Action::Send(b) => res.send(b.as_str()),
        Action::SendJson(b) => res.json(b.as_str()),
    }
}

/// Performs a list of actions on the response, first action first.
pub fn apply_actions(acts: &Vec<Action>, res: &mut Response)
    requires
        old(res).wf(),
    ensures
        final(res).wf(),
        final(res)@ == spec_apply_actions(acts@, old(res)@),
{
    let n = acts.len();
    let mut i: usize = 0;
    proof {
        assert(acts@.skip(0) =~= acts@);
    }
    while i < n
        invariant
            n == acts@.len(),
            i <= n,
            res.wf(),
            spec_apply_actions(acts@, old(res)@) == spec_apply_actions(
                acts@.skip(i as int),
                res@,
            ),
        decreases n - i,
    {
        proof {
            assert(acts@.skip(i as int).len() > 0);
            assert(acts@.skip(i as int)[0] == acts@[i as int]);
            assert(acts@.skip(i as int).drop_first() =~= acts@.skip(i as int + 1));
        }
        apply_action(&acts[i], res);
        i += 1;
    }
    proof {
        assert(acts@.skip(n as int).len() == 0);
    }
}

/// Runs the chain from stage `i` on. The global list and the route's own
/// list are read as one chain, global stages first.
fn run_from(
    global: &Vec<Middleware>,
    route_mws: &Vec<Middleware>,
    handler: &Vec<Action>,
    req: &Request,
    res: &mut Response,
    i: usize,
)
    requires
        old(res).wf(),
        req.wf(),
        global@.len() + route_mws@.len() <= usize::MAX,
        i <= global@.len() + route_mws@.len(),
    ensures
        final(res).wf(),
        final(res)@ == spec_run_from(
            global@ + route_mws@,
            handler@,
            req.headers@,
            i as int,
            old(res)@,
        ),
    decreases global@.len() + route_mws@.len() - i,
{
    let ghost mws = global@ + route_mws@;
    let ghost reqh = req.headers@;
    if res.is_stopped() {
        return ;
    }
    let total = global.len() + route_mws.len();
    if i == total {
        apply_actions(handler, res);
        return ;
    }
    let mw = if i < global.len() {
        &global[i]
    } else {
        &route_mws[i - global.len()]
    };
    proof {
        if i < global@.len() {
            assert(mws[i as int] == global@[i as int]);
        } else {
            assert(mws[i as int] == route_mws@[i as int - global@.len()]);
        }
    }
    match mw {
        Middleware::Script { pre, calls_next, post } => {
            apply_actions(pre, res);
            let ghost r1 = res@;
            let cn: u64 = *calls_next;
            let mut k: u64 = 0;
            while k < cn
                invariant
                    res.wf(),
                    req.wf(),
                    k <= cn,
                    i < global@.len() + route_mws@.len() <= usize::MAX,
                    mws == global@ + route_mws@,
                    reqh == req.headers@,
                    res@ == spec_run_times(mws, handler@, reqh, i as int + 1, r1, k as nat),
                decreases cn - k,
            {
                proof {
                    lemma_run_times_snoc(mws, handler@, reqh, i as int + 1, r1, k as nat);
                }
                run_from(global, route_mws, handler, req, res, i + 1);
                k += 1;
            }
            apply_actions(post, res);
        },
        Middleware::Cors(c) => {
            let proceed = c.cors_middleware(req, res);
            if proceed {
                run_from(global, route_mws, handler, req, res, i + 1);
            }
        },
    }
}

/// Runs global middleware, then the route's own middleware, then the
/// handler, as nested continuations around one request/response pair.
pub fn run_handlers(
    global: &Vec<Middleware>,
    route_mws: &Vec<Middleware>,
    handler: &Vec<Action>,
    req: &Request,
    res: &mut Response,
)
    requires
        old(res).wf(),
        req.wf(),
        global@.len() + route_mws@.len() <= usize::MAX,
    ensures
        final(res).wf(),
        final(res)@ == spec_run_from(
            global@ + route_mws@,
            handler@,
            req.headers@,
            0,
            old(res)@,
        ),
{
    run_from(global, route_mws, handler, req, res, 0);
}

} // verus!

verus! {

/// A middleware that never invokes its continuation.
pub open spec fn spec_short_circuits(m: Middleware) -> bool {
    match m {
        Middleware::Script { pre, calls_next, post } => calls_next == 0,
        Middleware::Cors(_) => false,
    }
}

/// A stopped response is left exactly as it is by any run of the chain: the
/// engine checks the flag before every stage and the handler.
pub proof fn lemma_stopped_response_is_frozen(
    mws: Seq<Middleware>,
    handler: Seq<Action>,
    req_headers: Map<Seq<char>, Seq<char>>,
    i: int,
    r: ResponseView,
)
    requires
        r.stopped,
    ensures
        spec_run_from(mws, handler, req_headers, i, r) == r,
{
}

/// Actions never reset the stopped flag, and no byte reaches the output of a
/// stopped response: the status or headers may still change, a body cannot.
pub proof fn lemma_actions_keep_stopped(acts: Seq<Action>, r: ResponseView)
    requires
        r.stopped,
    ensures
        spec_apply_actions(acts, r).stopped,
        spec_apply_actions(acts, r).output == r.output,
    decreases acts.len(),
{
    if acts.len() > 0 {
        let r1 = spec_apply_action(acts[0], r);
        assert(r1.stopped && r1.output == r.output);
        lemma_actions_keep_stopped(acts.drop_first(), r1);
    }
}

/// Invoking a continuation a second time after the first invocation wrote a
/// body changes nothing: the stopped flag is already true.
pub proof fn lemma_second_continuation_call_is_noop(
    mws: Seq<Middleware>,
    handler: Seq<Action>,
    req_headers: Map<Seq<char>, Seq<char>>,
    i: int,
    r: ResponseView,
)
    requires
        spec_run_from(mws, handler, req_headers, i, r).stopped,
    ensures
        spec_run_times(mws, handler, req_headers, i, r, 2) == spec_run_from(
            mws,
            handler,
            req_headers,
            i,
            r,
        ),
{
    let f = spec_run_from(mws, handler, req_headers, i, r);
    lemma_run_times_snoc(mws, handler, req_headers, i, r, 1);
    lemma_run_times_snoc(mws, handler, req_headers, i, r, 0);
    assert(spec_run_times(mws, handler, req_headers, i, r, 0) == r);
    assert(spec_run_times(mws, handler, req_headers, i, r, 1) == f);
    lemma_stopped_response_is_frozen(mws, handler, req_headers, i, f);
}

proof fn lemma_short_circuit_from(
    mws1: Seq<Middleware>,
    h1: Seq<Action>,
    mws2: Seq<Middleware>,
    h2: Seq<Action>,
    req_headers: Map<Seq<char>, Seq<char>>,
    j: int,
    i: int,
    r: ResponseView,
)
    requires
        0 <= j <= i,
        i < mws1.len(),
        i < mws2.len(),
        forall|t: int| 0 <= t <= i ==> mws1[t] == mws2[t],
        spec_short_circuits(mws1[i]),
    ensures
        spec_run_from(mws1, h1, req_headers, j, r) == spec_run_from(mws2, h2, req_headers, j, r),
    decreases i - j, 0nat, 0nat,
{
    if r.stopped {
    } else if j == i {
        match mws1[i] {
            Middleware::Script { pre, calls_next, post } => {
                let r1 = spec_apply_actions(pre@, r);
                assert(spec_run_times(mws1, h1, req_headers, i + 1, r1, 0) == r1);
                assert(spec_run_times(mws2, h2, req_headers, i + 1, r1, 0) == r1);
            },
            Middleware::Cors(_) => {},
        }
    } else {
        match mws1[j] {
            Middleware::Script { pre, calls_next, post } => {
                let r1 = spec_apply_actions(pre@, r);
                lemma_short_circuit_times(
                    mws1,
                    h1,
                    mws2,
                    h2,
                    req_headers,
                    j + 1,
                    i,
                    r1,
                    calls_next as nat,
                );
            },
            Middleware::Cors(c) => {
                let r1 = spec_cors_response(c.allow(), req_headers, r);
                if spec_cors_proceeds(c.allow(), req_headers) {
                    lemma_short_circuit_from(mws1, h1, mws2, h2, req_headers, j + 1, i, r1);
                }
            },
        }
    }
}

proof fn lemma_short_circuit_times(
    mws1: Seq<Middleware>,
    h1: Seq<Action>,
    mws2: Seq<Middleware>,
    h2: Seq<Action>,
    req_headers: Map<Seq<char>, Seq<char>>,
    j: int,
    i: int,
    r: ResponseView,
    k: nat,
)
    requires
        0 <= j <= i,
        i < mws1.len(),
        i < mws2.len(),
        forall|t: int| 0 <= t <= i ==> mws1[t] == mws2[t],
        spec_short_circuits(mws1[i]),
    ensures
        spec_run_times(mws1, h1, req_headers, j, r, k) == spec_run_times(
            mws2,
            h2,
            req_headers,
            j,
            r,
            k,
        ),
    decreases i - j, k, 1nat,
{
    if k > 0 {
        lemma_short_circuit_from(mws1, h1, mws2, h2, req_headers, j, i, r);
        let f = spec_run_from(mws1, h1, req_headers, j, r);
        lemma_short_circuit_times(mws1, h1, mws2, h2, req_headers, j, i, f, (k - 1) as nat);
    }
}

/// A stage that never invokes its continuation hides everything after it:
/// the run's outcome does not depend on the later stages or on the handler,
/// so none of them can act.
pub proof fn lemma_short_circuit_stops_chain(
    mws: Seq<Middleware>,
    h1: Seq<Action>,
    h2: Seq<Action>,
    req_headers: Map<Seq<char>, Seq<char>>,
    i: int,
    r: ResponseView,
)
    requires
        0 <= i < mws.len(),
        spec_short_circuits(mws[i]),
    ensures
        spec_run_from(mws, h1, req_headers, 0, r) == spec_run_from(
            mws.take(i + 1),
            h2,
            req_headers,
            0,
            r,
        ),
{
    assert forall|t: int| 0 <= t <= i implies mws.take(i + 1)[t] == mws[t] by {}
    lemma_short_circuit_from(mws, h1, mws.take(i + 1), h2, req_headers, 0, i, r);
}

} // verus!

verus! {

/// `b` holds everything `a` had written, unchanged, possibly followed by
/// more.
pub open spec fn spec_output_extends(a: ResponseView, b: ResponseView) -> bool {
    b.output.len() >= a.output.len() && b.output.take(a.output.len() as int) == a.output
}

proof fn lemma_extends_trans(a: ResponseView, b: ResponseView, c: ResponseView)
    requires
        spec_output_extends(a, b),
        spec_output_extends(b, c),
    ensures
        spec_output_extends(a, c),
{
    assert(c.output.take(a.output.len() as int) =~= c.output.take(b.output.len() as int).take(
        a.output.len() as int,
    ));
    assert(b.output.take(a.output.len() as int) == a.output);
}

proof fn lemma_action_output_monotone(a: Action, r: ResponseView)
    ensures
        spec_output_extends(r, spec_apply_action(a, r)),
        r.stopped ==> spec_apply_action(a, r).stopped,
{
    assert(r.output.take(r.output.len() as int) =~= r.output);
    let f = spec_apply_action(a, r);
    if f.output != r.output {
        assert(f.output.take(r.output.len() as int) =~= r.output);
    }
}

proof fn lemma_actions_output_monotone(acts: Seq<Action>, r: ResponseView)
    ensures
        spec_output_extends(r, spec_apply_actions(acts, r)),
        r.stopped ==> spec_apply_actions(acts, r).stopped,
    decreases acts.len(),
{
    assert(r.output.take(r.output.len() as int) =~= r.output);
    if acts.len() > 0 {
        let r1 = spec_apply_action(acts[0], r);
        lemma_action_output_monotone(acts[0], r);
        lemma_actions_output_monotone(acts.drop_first(), r1);
        lemma_extends_trans(r, r1, spec_apply_actions(acts.drop_first(), r1));
    }
}

proof fn lemma_cors_output_monotone(
    allow: Seq<Seq<char>>,
    req_headers: Map<Seq<char>, Seq<char>>,
    r: ResponseView,
)
    ensures
        spec_output_extends(r, spec_cors_response(allow, req_headers, r)),
        r.stopped ==> spec_cors_response(allow, req_headers, r).stopped,
{
    assert(r.output.take(r.output.len() as int) =~= r.output);
    let f = spec_cors_response(allow, req_headers, r);
    if f.output != r.output {
        assert(f.output.take(r.output.len() as int) =~= r.output);
    }
}

/// No chain run ever removes or rewrites bytes already on the wire, and a
/// response once stopped stays stopped: every path — short circuits, faults
/// of policy, repeated continuations — only appends.
pub proof fn lemma_run_only_appends(
    mws: Seq<Middleware>,
    handler: Seq<Action>,
    req_headers: Map<Seq<char>, Seq<char>>,
    i: int,
    r: ResponseView,
)
    ensures
        spec_output_extends(r, spec_run_from(mws, handler, req_headers, i, r)),
        r.stopped ==> spec_run_from(mws, handler, req_headers, i, r).stopped,
    decreases mws.len() - i, 0nat, 0nat,
{
    assert(r.output.take(r.output.len() as int) =~= r.output);
    if r.stopped {
    } else if i < 0 || i >= mws.len() {
        lemma_actions_output_monotone(handler, r);
    } else {
        match mws[i] {
            Middleware::Script { pre, calls_next, post } => {
                let r1 = spec_apply_actions(pre@, r);
                lemma_actions_output_monotone(pre@, r);
                let r2 = spec_run_times(mws, handler, req_headers, i + 1, r1, calls_next as nat);
                lemma_run_times_only_appends(
                    mws,
                    handler,
                    req_headers,
                    i + 1,
                    r1,
                    calls_next as nat,
                );
                lemma_actions_output_monotone(post@, r2);
                lemma_extends_trans(r, r1, r2);
                lemma_extends_trans(r, r2, spec_apply_actions(post@, r2));
            },
            Middleware::Cors(c) => {
                let r1 = spec_cors_response(c.allow(), req_headers, r);
                lemma_cors_output_monotone(c.allow(), req_headers, r);
                if spec_cors_proceeds(c.allow(), req_headers) {
                    lemma_run_only_appends(mws, handler, req_headers, i + 1, r1);
                    lemma_extends_trans(r, r1, spec_run_from(mws, handler, req_headers, i + 1, r1));
                }
            },
        }
    }
}

proof fn lemma_run_times_only_appends(
    mws: Seq<Middleware>,
    handler: Seq<Action>,
    req_headers: Map<Seq<char>, Seq<char>>,
    i: int,
    r: ResponseView,
    k: nat,
)
    ensures
        spec_output_extends(r, spec_run_times(mws, handler, req_headers, i, r, k)),
        r.stopped ==> spec_run_times(mws, handler, req_headers, i, r, k).stopped,
    decreases mws.len() - i, k, 1nat,
{
    assert(r.output.take(r.output.len() as int) =~= r.output);
    if k > 0 {
        let f = spec_run_from(mws, handler, req_headers, i, r);
        lemma_run_only_appends(mws, handler, req_headers, i, r);
        lemma_run_times_only_appends(mws, handler, req_headers, i, f, (k - 1) as nat);
        lemma_extends_trans(r, f, spec_run_times(mws, handler, req_headers, i, f, (k - 1) as nat));
    }
}

} // verus!
