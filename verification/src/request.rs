//! One in-flight request: the parsed request line, headers, query string and
//! body, plus the path parameters a matched route pattern binds.

use vstd::prelude::*;

use crate::strmap::StrMap;
use crate::strutil::{
    find_char, join_with, line_tokens, spec_find, spec_join, spec_line_tokens, spec_lower,
    spec_split, spec_split_once2, spec_trim, split_char, split_once_pair, starts_with_char,
    str_eq, to_lowercase_ascii, trim_char,
};

verus! {

/// The query map a query string describes: `&`-separated `key=value` pairs,
/// pairs without `=` dropped, later pairs winning.
pub open spec fn spec_query_map(s: Seq<char>) -> Map<Seq<char>, Seq<char>> {
    spec_query_fold(spec_split(s, '&'))
}

/// Folds query pairs left to right.
pub open spec fn spec_query_fold(pieces: Seq<Seq<char>>) -> Map<Seq<char>, Seq<char>>
    decreases pieces.len(),
{
    if pieces.len() == 0 {
        Map::empty()
    } else {
        let m = spec_query_fold(pieces.drop_last());
        let p = pieces.last();
        match spec_find(p, '=') {
            Some(i) => m.insert(p.take(i as int), p.skip(i as int + 1)),
            None => m,
        }
    }
}

/// Parses an `&`-separated `key=value` query string; pairs missing `=` are
/// dropped and a repeated key keeps its last value.
pub fn parse_query(query_line: &str) -> (r: StrMap)
    ensures
        r@ == spec_query_map(query_line@),
        r.wf(),
{
    let pieces = split_char(query_line, '&');
    let n = pieces.len();
    let mut r = StrMap::new();
    let mut i: usize = 0;
    proof {
        assert(spec_query_fold(pieces.deep_view().take(0)) =~= Map::<Seq<char>, Seq<char>>::empty());
    }
    while i < n
        invariant
            n == pieces@.len(),
            pieces.deep_view() == spec_split(query_line@, '&'),
            i <= n,
            r.wf(),
            r@ == spec_query_fold(pieces.deep_view().take(i as int)),
        decreases n - i,
    {
        let ghost pdv = pieces.deep_view();
        proof {
            assert(pdv.take(i as int + 1).drop_last() =~= pdv.take(i as int));
            assert(pdv.take(i as int + 1).last() == pdv[i as int]);
            assert(pdv[i as int] == pieces@[i as int]@);
        }
        let p = &pieces[i];
        let plen = p.as_str().unicode_len();
        match find_char(p.as_str(), '=') {
            Some(pos) => {
                proof {
                    crate::strutil::lemma_find_properties(p@, '=');
                }
                let key = p.as_str().substring_char(0, pos);
                let val = p.as_str().substring_char(pos + 1, plen);
                proof {
                    assert(key@ =~= p@.take(pos as int));
                    assert(val@ =~= p@.skip(pos as int + 1));
                }
                r.insert(key, val);
            },
            None => {},
        }
        i += 1;
    }
    proof {
        assert(pieces.deep_view().take(n as int) =~= pieces.deep_view());
    }
    r
}

/// The segments of a path or pattern: surrounding slashes dropped, then split
/// on `/` (so `/` and the empty path both give one empty segment).
pub open spec fn spec_segments(s: Seq<char>) -> Seq<Seq<char>> {
    spec_split(spec_trim(s, '/'), '/')
}

/// The segments of a path, with leading and trailing slashes ignored.
pub fn split_segments(s: &str) -> (r: Vec<String>)
    ensures
        r.deep_view() == spec_segments(s@),
{
    split_char(trim_char(s, '/'), '/')
}

/// A pattern segment that binds rather than compares.
pub open spec fn spec_is_param(seg: Seq<char>) -> bool {
    seg.len() > 0 && seg[0] == ':'
}

/// Whether pattern segments accept path segments: same count, and every
/// non-parameter segment equal.
pub open spec fn spec_segments_match(pat: Seq<Seq<char>>, act: Seq<Seq<char>>) -> bool {
    &&& pat.len() == act.len()
    &&& forall|i: int|
        0 <= i < pat.len() ==> (spec_is_param(#[trigger] pat[i]) || pat[i] == act[i])
}

/// The bindings the parameter segments collect, later segments winning.
pub open spec fn spec_params_map(pat: Seq<Seq<char>>, act: Seq<Seq<char>>) -> Map<
    Seq<char>,
    Seq<char>,
>
    decreases pat.len(),
{
    if pat.len() == 0 || act.len() == 0 {
        Map::empty()
    } else {
        let m = spec_params_map(pat.drop_last(), act.drop_last());
        if spec_is_param(pat.last()) {
            m.insert(pat.last().skip(1), act.last())
        } else {
            m
        }
    }
}

/// What matching `actual_path` against `route_pattern` yields: the bound
/// parameters on a match, nothing otherwise.
pub open spec fn spec_path_match(pattern: Seq<char>, path: Seq<char>) -> Option<
    Map<Seq<char>, Seq<char>>,
> {
    let pat = spec_segments(pattern);
    let act = spec_segments(path);
    if spec_segments_match(pat, act) {
        Some(spec_params_map(pat, act))
    } else {
        None
    }
}

/// Walks `route_pattern` and `actual_path` segment by segment: `:name`
/// segments bind the path segment under `name`, other segments must match
/// exactly, and a segment-count mismatch is a non-match.
pub fn parse_path_params(route_pattern: &str, actual_path: &str) -> (r: Option<StrMap>)
    ensures
        match r {
            Some(m) => m.wf() && spec_path_match(route_pattern@, actual_path@) == Some(m@),
            None => spec_path_match(route_pattern@, actual_path@) is None,
        },
{
    let pats = split_segments(route_pattern);
    let acts = split_segments(actual_path);
    let n = pats.len();
    if n != acts.len() {
        proof {
            assert(pats.deep_view().len() == pats@.len());
            assert(acts.deep_view().len() == acts@.len());
        }
        return None;
    }
    let mut params = StrMap::new();
    let mut i: usize = 0;
    proof {
        assert(spec_params_map(pats.deep_view().take(0), acts.deep_view().take(0))
            =~= Map::<Seq<char>, Seq<char>>::empty());
    }
    while i < n
        invariant
            n == pats@.len() == acts@.len(),
            pats.deep_view() == spec_segments(route_pattern@),
            acts.deep_view() == spec_segments(actual_path@),
            i <= n,
            params.wf(),
            params@ == spec_params_map(
                pats.deep_view().take(i as int),
                acts.deep_view().take(i as int),
            ),
            forall|j: int|
                0 <= j < i ==> (spec_is_param(#[trigger] pats.deep_view()[j])
                    || pats.deep_view()[j] == acts.deep_view()[j]),
        decreases n - i,
    {
        let ghost pdv = pats.deep_view();
        let ghost adv = acts.deep_view();
        proof {
            assert(pdv.take(i as int + 1).drop_last() =~= pdv.take(i as int));
            assert(adv.take(i as int + 1).drop_last() =~= adv.take(i as int));
            assert(pdv.take(i as int + 1).last() == pdv[i as int]);
            assert(adv.take(i as int + 1).last() == adv[i as int]);
            assert(pdv[i as int] == pats@[i as int]@);
            assert(adv[i as int] == acts@[i as int]@);
        }
        let pat = &pats[i];
        let act = &acts[i];
        if starts_with_char(pat.as_str(), ':') {
            let name = pat.as_str().substring_char(1, pat.as_str().unicode_len());
            proof {
                assert(name@ =~= pat@.skip(1));
            }
            params.insert(name, act.as_str());
        } else if !str_eq(pat.as_str(), act.as_str()) {
            proof {
                assert(!(spec_is_param(pdv[i as int]) || pdv[i as int] == adv[i as int]));
                assert(!spec_segments_match(pdv, adv));
            }
            return None;
        }
        i += 1;
    }
    proof {
        let pdv = pats.deep_view();
        let adv = acts.deep_view();
        assert(pdv.take(n as int) =~= pdv);
        assert(adv.take(n as int) =~= adv);
        assert(spec_segments_match(pdv, adv));
    }
    Some(params)
}

/// A pattern always matches itself: literal segments are equal and parameter
/// segments bind. Every registered route is therefore reachable under its own
/// pattern.
pub proof fn lemma_pattern_self_match(pattern: Seq<char>)
    ensures
        spec_path_match(pattern, pattern) is Some,
{
    let pat = spec_segments(pattern);
    assert(spec_segments_match(pat, pat));
}

/// A segment-count mismatch never matches.
pub proof fn lemma_segment_count_mismatch(pattern: Seq<char>, path: Seq<char>)
    requires
        spec_segments(pattern).len() != spec_segments(path).len(),
    ensures
        spec_path_match(pattern, path) is None,
{
}

} // verus!

verus! {

/// Index of the first empty line, or the line count if none is empty; the
/// blank line that separates headers from the body.
pub open spec fn spec_first_empty(lines: Seq<Seq<char>>) -> nat
    decreases lines.len(),
{
    if lines.len() == 0 {
        0
    } else if lines[0].len() == 0 {
        0
    } else {
        1 + spec_first_empty(lines.drop_first())
    }
}

pub proof fn lemma_first_empty_witness(lines: Seq<Seq<char>>, k: int)
    requires
        0 <= k <= lines.len(),
        forall|j: int| 0 <= j < k ==> (#[trigger] lines[j]).len() != 0,
        k == lines.len() || lines[k].len() == 0,
    ensures
        spec_first_empty(lines) == k,
    decreases k,
{
    if k > 0 {
        assert forall|j: int| 0 <= j < k - 1 implies (#[trigger] lines.drop_first()[j]).len()
            != 0 by {
            assert(lines.drop_first()[j] == lines[j + 1]);
        }
        if k < lines.len() {
            assert(lines.drop_first()[k - 1] == lines[k]);
        }
        lemma_first_empty_witness(lines.drop_first(), k - 1);
    }
}

/// The header map of the lines before the blank separator: each line holding
/// `": "` binds its lower-cased name to the value text, later lines winning;
/// other lines are ignored.
pub open spec fn spec_headers_map(lines: Seq<Seq<char>>) -> Map<Seq<char>, Seq<char>>
    decreases lines.len(),
{
    if lines.len() == 0 {
        Map::empty()
    } else {
        let m = spec_headers_map(lines.drop_last());
        match spec_split_once2(lines.last(), ':', ' ') {
            Some(kv) => m.insert(spec_lower(kv.0), kv.1),
            None => m,
        }
    }
}

/// The body the lines after the request line describe: every line after the
/// first empty one, joined with a line feed; no such line means no body.
pub open spec fn spec_body_of(rest: Seq<Seq<char>>) -> Option<Seq<char>> {
    let he = spec_first_empty(rest) as int;
    if he + 1 < rest.len() {
        Some(spec_join(rest.skip(he + 1), '\n'))
    } else {
        None
    }
}

/// The path part of a request target: what stands before the first `?`.
pub open spec fn spec_target_path(target: Seq<char>) -> Seq<char> {
    match spec_find(target, '?') {
        Some(i) => target.take(i as int),
        None => target,
    }
}

/// The query map of a request target: what stands after the first `?`.
pub open spec fn spec_target_query(target: Seq<char>) -> Map<Seq<char>, Seq<char>> {
    match spec_find(target, '?') {
        Some(i) => spec_query_map(target.skip(i as int + 1)),
        None => Map::empty(),
    }
}

/// What parsing a line list yields: the request-line tokens give method and
/// target, the lines up to the first empty one give the headers, and the
/// lines after it give the body.
pub open spec fn spec_request_from_lines(lines: Seq<Seq<char>>, r: Request) -> bool
    recommends
        lines.len() > 0,
        spec_line_tokens(lines[0]).len() >= 2,
{
    let toks = spec_line_tokens(lines[0]);
    let target = toks[1];
    let rest = lines.skip(1);
    &&& r.wf()
    &&& r.method@ == toks[0]
    &&& r.path@ == spec_target_path(target)
    &&& r.query@ == spec_target_query(target)
    &&& r.path_params@ == Map::<Seq<char>, Seq<char>>::empty()
    &&& r.headers@ == spec_headers_map(rest.take(spec_first_empty(rest) as int))
    &&& r.body.deep_view() == spec_body_of(rest)
}

/// One parsed request. The wire reader builds it; the router attaches path
/// parameters to a copy; middleware and the handler read it.
pub struct Request {
    pub method: String,
    pub path: String,
    pub path_params: StrMap,
    pub query: StrMap,
    pub body: Option<String>,
    pub headers: StrMap,
}

impl Request {
    /// The three maps each hold every key once.
    pub open spec fn wf(&self) -> bool {
        self.path_params.wf() && self.query.wf() && self.headers.wf()
    }

    /// Parses the lines of one request: the first line is `METHOD TARGET
    /// [VERSION]`, the following lines up to the first empty one are
    /// headers, and anything after that is the body.
    pub fn new(req: &[String]) -> (r: Request)
        requires
            req@.len() > 0,
            spec_line_tokens(req.deep_view()[0]).len() >= 2,
        ensures
            spec_request_from_lines(req.deep_view(), r),
    {
        let ghost lines = req.deep_view();
        proof {
            assert(lines[0] == req@[0]@);
        }
        let toks = line_tokens(&req[0]);
        let method = toks[0].clone();
        let target = &toks[1];
        proof {
            assert(toks.deep_view()[0] == toks@[0]@);
            assert(toks.deep_view()[1] == toks@[1]@);
        }
        let tlen = target.as_str().unicode_len();
        let (path, query) = match find_char(target.as_str(), '?') {
            Some(pos) => {
                proof {
                    crate::strutil::lemma_find_properties(target@, '?');
                }
                let p = target.as_str().substring_char(0, pos);
                let q = target.as_str().substring_char(pos + 1, tlen);
                proof {
                    assert(p@ =~= target@.take(pos as int));
                    assert(q@ =~= target@.skip(pos as int + 1));
                }
                (String::from_str(p), parse_query(q))
            },
            None => (target.clone(), StrMap::new()),
        };
        let mut headers = StrMap::new();
        let mut body_lines: Vec<String> = Vec::new();
        let mut is_body = false;
        let ghost rest = lines.skip(1);
        let n = req.len();
        let mut i: usize = 1;
        proof {
            assert(spec_headers_map(rest.take(0)) =~= Map::<Seq<char>, Seq<char>>::empty());
        }
        while i < n
            invariant
                n == req@.len(),
                rest == lines.skip(1),
                lines == req.deep_view(),
                rest.len() == n - 1,
                1 <= i <= n,
                headers.wf(),
                !is_body ==> {
                    &&& forall|j: int| 0 <= j < i - 1 ==> (#[trigger] rest[j]).len() != 0
                    &&& headers@ == spec_headers_map(rest.take(i - 1))
                    &&& body_lines@.len() == 0
                },
                is_body ==> {
                    &&& spec_first_empty(rest) < i - 1
                    &&& headers@ == spec_headers_map(
                        rest.take(spec_first_empty(rest) as int),
                    )
                    &&& body_lines.deep_view() == rest.subrange(
                        spec_first_empty(rest) as int + 1,
                        i - 1,
                    )
                },
            decreases n - i,
        {
            proof {
                assert(rest[i - 1] == lines[i as int]);
                assert(lines[i as int] == req@[i as int]@);
            }
            let line = &req[i];
            if is_body {
                let ghost bdv = body_lines.deep_view();
                body_lines.push(line.clone());
                proof {
                    assert(body_lines.deep_view() =~= bdv.push(line@));
                    assert(body_lines.deep_view() =~= rest.subrange(
                        spec_first_empty(rest) as int + 1,
                        i as int,
                    ));
                }
                i += 1;
                continue;
            }
            if line.as_str().is_empty() {
                proof {
                    lemma_first_empty_witness(rest, i - 1);
                    assert(body_lines.deep_view() =~= rest.subrange(i as int, i as int));
                }
                is_body = true;
                i += 1;
                continue;
            }
            proof {
                assert(rest.take(i as int).drop_last() =~= rest.take(i - 1));
                assert(rest.take(i as int).last() == rest[i - 1]);
            }
            match split_once_pair(line.as_str(), ':', ' ') {
                Some((k, v)) => {
                    let lk = to_lowercase_ascii(k);
                    headers.insert(lk.as_str(), v);
                },
                None => {},
            }
            i += 1;
        }
        proof {
            if !is_body {
                lemma_first_empty_witness(rest, rest.len() as int);
                assert(rest.take(rest.len() as int) =~= rest);
            }
        }
        let body = if body_lines.is_empty() {
            proof {
                if is_body {
                    assert(rest.subrange(
                        spec_first_empty(rest) as int + 1,
                        rest.len() as int,
                    ).len() == 0);
                }
            }
            None
        } else {
            proof {
                assert(body_lines.deep_view() =~= rest.skip(spec_first_empty(rest) as int + 1));
            }
            Some(join_with(&body_lines, '\n'))
        };
        Request { method, path, path_params: StrMap::new(), query, body, headers }
    }

    /// The query value stored under `key`, if any.
    pub fn query(&self, key: &str) -> (r: Option<&String>)
        requires
            self.wf(),
        ensures
            match r {
                Some(v) => self.query@.contains_key(key@) && v@ == self.query@[key@],
                None => !self.query@.contains_key(key@),
            },
    {
        self.query.get(key)
    }

    /// The path parameter bound under `key`, if any.
    pub fn params(&self, key: &str) -> (r: Option<&String>)
        requires
            self.wf(),
        ensures
            match r {
                Some(v) => self.path_params@.contains_key(key@) && v@ == self.path_params@[key@],
                None => !self.path_params@.contains_key(key@),
            },
    {
        self.path_params.get(key)
    }

    /// The route-specific copy of this request, with the given path
    /// parameters attached; the request itself stays parameter-free.
    pub fn with_params(&self, params: StrMap) -> (r: Request)
        requires
            self.wf(),
            params.wf(),
        ensures
            r.wf(),
            r.method@ == self.method@,
            r.path@ == self.path@,
            r.path_params@ == params@,
            r.query@ == self.query@,
            r.body.deep_view() == self.body.deep_view(),
            r.headers@ == self.headers@,
    {
        let body = match &self.body {
            Some(b) => Some(b.clone()),
            None => None,
        };
        Request {
            method: self.method.clone(),
            path: self.path.clone(),
            path_params: params,
            query: self.query.duplicate(),
            body,
            headers: self.headers.duplicate(),
        }
    }
}

} // verus!

verus! {

/// On a match, every parameter segment of the pattern has its name bound:
/// the parameter map is fully populated (and empty exactly when the pattern
/// has no parameter segments).
pub proof fn lemma_params_map_is_fully_populated(pat: Seq<Seq<char>>, act: Seq<Seq<char>>)
    requires
        pat.len() == act.len(),
    ensures
        forall|i: int|
            0 <= i < pat.len() && spec_is_param(#[trigger] pat[i]) ==> spec_params_map(
                pat,
                act,
            ).contains_key(pat[i].skip(1)),
    decreases pat.len(),
{
    if pat.len() > 0 {
        lemma_params_map_is_fully_populated(pat.drop_last(), act.drop_last());
        assert forall|i: int|
            0 <= i < pat.len() && spec_is_param(#[trigger] pat[i]) implies spec_params_map(
            pat,
            act,
        ).contains_key(pat[i].skip(1)) by {
            if i < pat.len() - 1 {
                assert(pat.drop_last()[i] == pat[i]);
                assert(spec_params_map(pat.drop_last(), act.drop_last()).contains_key(
                    pat[i].skip(1),
                ));
            }
        }
    }
}

} // verus!
