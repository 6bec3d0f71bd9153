//! The wire reader: turns the raw bytes of one connection into a request.
//! Header lines run up to the first empty line (CRLF- or LF-terminated);
//! a `content-length` header then fixes how many body bytes follow. The
//! blocking reads, retries and backoff live with the embedder; everything
//! from bytes to a `Request` is here.

use vstd::prelude::*;

use crate::request::{spec_request_from_lines, Request};
use crate::strutil::{
    line_tokens, parse_usize, spec_line_tokens, spec_lower, spec_parse_usize, spec_split,
    spec_split_once2, split_char, split_once_pair, str_eq, to_lowercase_ascii,
};

verus! {

/// Position of the first occurrence of `b` in `s`, if any.
pub open spec fn spec_find_byte(s: Seq<u8>, b: u8) -> Option<nat>
    decreases s.len(),
{
    if s.len() == 0 {
        None
    } else if s[0] == b {
        Some(0nat)
    } else {
        match spec_find_byte(s.drop_first(), b) {
            Some(i) => Some((i + 1) as nat),
            None => None,
        }
    }
}

proof fn lemma_find_byte_from_witness(s: Seq<u8>, b: u8, i: int)
    requires
        0 <= i < s.len(),
        s[i] == b,
        forall|j: int| 0 <= j < i ==> s[j] != b,
    ensures
        spec_find_byte(s, b) == Some(i as nat),
    decreases s.len(),
{
    if i > 0 {
        lemma_find_byte_from_witness(s.drop_first(), b, i - 1);
    }
}

proof fn lemma_find_byte_none(s: Seq<u8>, b: u8)
    requires
        forall|j: int| 0 <= j < s.len() ==> s[j] != b,
    ensures
        spec_find_byte(s, b) is None,
    decreases s.len(),
{
    if s.len() > 0 {
        lemma_find_byte_none(s.drop_first(), b);
    }
}

/// First position of `b` in `s` at or after `from`, or `None`.
fn find_byte_from(s: &[u8], from: usize, b: u8) -> (r: Option<usize>)
    requires
        from <= s@.len(),
    ensures
        match r {
            Some(i) => from <= i && spec_find_byte(s@.skip(from as int), b) == Some(
                (i - from) as nat,
            ) && i < s@.len(),
            None => spec_find_byte(s@.skip(from as int), b) is None,
        },
{
    let n = s.len();
    let mut i: usize = from;
    while i < n
        invariant
            from <= i <= n == s@.len(),
            forall|j: int| from <= j < i ==> s@[j] != b,
        decreases n - i,
    {
        if s[i] == b {
            proof {
                let suf = s@.skip(from as int);
                assert(suf[i - from] == s@[i as int]);
                assert forall|j: int| 0 <= j < i - from implies suf[j] != b by {
                    assert(suf[j] == s@[j + from]);
                }
                lemma_find_byte_from_witness(suf, b, i - from);
            }
            return Some(i);
        }
        i += 1;
    }
    proof {
        let suf = s@.skip(from as int);
        assert forall|j: int| 0 <= j < suf.len() implies suf[j] != b by {
            assert(suf[j] == s@[j + from]);
        }
        lemma_find_byte_none(suf, b);
    }
    None
}

/// A line's bytes with one trailing carriage return removed, as a
/// CRLF-terminated line leaves them.
pub open spec fn spec_strip_cr(line: Seq<u8>) -> Seq<u8> {
    if line.len() > 0 && line[line.len() - 1] == 13 {
        line.drop_last()
    } else {
        line
    }
}

/// The header section of a raw request: the lines before the first empty
/// line, and the bytes after it (where a body may start). A missing final
/// newline ends the section as reaching the end of the stream would.
pub open spec fn spec_header_split(raw: Seq<u8>) -> (Seq<Seq<u8>>, Seq<u8>)
    decreases raw.len(),
{
    if raw.len() == 0 {
        (Seq::empty(), Seq::empty())
    } else {
        match spec_find_byte(raw, 10) {
            None => {
                let line = spec_strip_cr(raw);
                if line.len() == 0 {
                    (Seq::empty(), Seq::empty())
                } else {
                    (seq![line], Seq::empty())
                }
            },
            Some(i) => {
                if i >= raw.len() {
                    (Seq::empty(), Seq::empty())
                } else {
                    let line = spec_strip_cr(raw.take(i as int));
                    let rest = raw.skip(i as int + 1);
                    if line.len() == 0 {
                        (Seq::empty(), rest)
                    } else {
                        let r = spec_header_split(rest);
                        (seq![line] + r.0, r.1)
                    }
                }
            },
        }
    }
}

/// What `String::from_utf8_lossy` decodes the bytes to.
pub uninterp spec fn lossy_utf8_of(b: Seq<u8>) -> Seq<char>;

/// Bytes that are all ASCII.
pub open spec fn spec_ascii_bytes(b: Seq<u8>) -> bool {
    forall|i: int| 0 <= i < b.len() ==> (#[trigger] b[i]) < 128
}

/// ASCII bytes read as characters.
pub open spec fn spec_ascii_chars_of(b: Seq<u8>) -> Seq<char> {
    b.map_values(|x: u8| x as char)
}

/// Relies on String::from_utf8_lossy: the decoding depends on the bytes
/// alone, and ASCII bytes — being valid UTF-8 — decode to themselves.
#[verifier::external_body]
fn utf8_lossy(b: &[u8]) -> (r: String)
    ensures
        r@ == lossy_utf8_of(b@),
        spec_ascii_bytes(b@) ==> r@ == spec_ascii_chars_of(b@),
{
    String::from_utf8_lossy(b).into_owned()
}

/// A line of text with one trailing carriage return removed.
pub open spec fn spec_strip_cr_chars(p: Seq<char>) -> Seq<char> {
    if p.len() > 0 && p[p.len() - 1] == '\r' {
        p.drop_last()
    } else {
        p
    }
}

/// The lines of a text, as `str::lines` yields them: split at line feeds,
/// one trailing carriage return per line removed, no final empty line.
pub open spec fn spec_str_lines(s: Seq<char>) -> Seq<Seq<char>> {
    let ps = spec_split(s, '\n');
    let ps2 = if ps.len() > 0 && ps.last().len() == 0 {
        ps.drop_last()
    } else {
        ps
    };
    ps2.map_values(|p: Seq<char>| spec_strip_cr_chars(p))
}

/// Splits a text into lines, as `str::lines` does.
fn str_lines(s: &str) -> (r: Vec<String>)
    ensures
        r.deep_view() == spec_str_lines(s@),
{
    let mut pieces = split_char(s, '\n');
    let ghost ps = pieces.deep_view();
    if pieces.len() > 0 && pieces[pieces.len() - 1].as_str().is_empty() {
        proof {
            assert(ps[ps.len() - 1] == pieces@[ps.len() - 1]@);
        }
        pieces.pop();
    }
    let ghost ps2 = if ps.len() > 0 && ps.last().len() == 0 {
        ps.drop_last()
    } else {
        ps
    };
    proof {
        assert(pieces.deep_view() =~= ps2);
    }
    let n = pieces.len();
    let mut r: Vec<String> = Vec::new();
    let mut i: usize = 0;
    while i < n
        invariant
            n == pieces@.len(),
            pieces.deep_view() == ps2,
            i <= n,
            r.deep_view() =~= ps2.take(i as int).map_values(
                |p: Seq<char>| spec_strip_cr_chars(p),
            ),
        decreases n - i,
    {
        let ghost dv = r.deep_view();
        proof {
            assert(ps2[i as int] == pieces@[i as int]@);
        }
        let p = &pieces[i];
        let plen = p.as_str().unicode_len();
        let stripped = if plen > 0 && p.as_str().get_char(plen - 1) == '\r' {
            let t = p.as_str().substring_char(0, plen - 1);
            proof {
                assert(t@ =~= p@.drop_last());
            }
            String::from_str(t)
        } else {
            p.clone()
        };
        r.push(stripped);
        proof {
            assert(r.deep_view() =~= dv.push(spec_strip_cr_chars(ps2[i as int])));
            assert(ps2.take(i as int + 1).map_values(|p: Seq<char>| spec_strip_cr_chars(p))
                =~= ps2.take(i as int).map_values(|p: Seq<char>| spec_strip_cr_chars(p)).push(
                spec_strip_cr_chars(ps2[i as int]),
            ));
        }
        i += 1;
    }
    proof {
        assert(ps2.take(n as int) =~= ps2);
    }
    r
}

/// A line that names the content length: lower-cased, it starts with
/// `content-length:`.
pub open spec fn spec_is_cl_line(line: Seq<char>) -> bool {
    spec_lower(line).len() >= 15 && spec_lower(line).take(15) == "content-length:"@
}

/// Index of the first content-length line, if any.
pub open spec fn spec_first_cl(lines: Seq<Seq<char>>) -> Option<nat>
    decreases lines.len(),
{
    if lines.len() == 0 {
        None
    } else if spec_is_cl_line(lines[0]) {
        Some(0nat)
    } else {
        match spec_first_cl(lines.drop_first()) {
            Some(i) => Some((i + 1) as nat),
            None => None,
        }
    }
}

proof fn lemma_first_cl_from_witness(lines: Seq<Seq<char>>, i: int)
    requires
        0 <= i < lines.len(),
        spec_is_cl_line(lines[i]),
        forall|j: int| 0 <= j < i ==> !spec_is_cl_line(#[trigger] lines[j]),
    ensures
        spec_first_cl(lines) == Some(i as nat),
    decreases i,
{
    if i > 0 {
        assert forall|j: int| 0 <= j < i - 1 implies !spec_is_cl_line(
            #[trigger] lines.drop_first()[j],
        ) by {
            assert(lines.drop_first()[j] == lines[j + 1]);
        }
        assert(lines.drop_first()[i - 1] == lines[i]);
        lemma_first_cl_from_witness(lines.drop_first(), i - 1);
    }
}

proof fn lemma_first_cl_none(lines: Seq<Seq<char>>)
    requires
        forall|j: int| 0 <= j < lines.len() ==> !spec_is_cl_line(#[trigger] lines[j]),
    ensures
        spec_first_cl(lines) is None,
    decreases lines.len(),
{
    if lines.len() > 0 {
        assert forall|j: int| 0 <= j < lines.drop_first().len() implies !spec_is_cl_line(
            #[trigger] lines.drop_first()[j],
        ) by {
            assert(lines.drop_first()[j] == lines[j + 1]);
        }
        lemma_first_cl_none(lines.drop_first());
    }
}

/// The length a content-length line declares: the text between the first
/// `": "` and the next one (or the line's end), read as a decimal integer.
pub open spec fn spec_cl_of_line(line: Seq<char>) -> Option<usize> {
    match spec_split_once2(line, ':', ' ') {
        None => None,
        Some(kv) => {
            let piece = match crate::strutil::spec_find_pair(kv.1, ':', ' ') {
                Some(j) => kv.1.take(j as int),
                None => kv.1,
            };
            spec_parse_usize(piece)
        },
    }
}

/// The body length the header lines declare, if any: the first line that
/// starts (case-folded) with `content-length:` decides.
pub open spec fn spec_content_length(lines: Seq<Seq<char>>) -> Option<usize> {
    match spec_first_cl(lines) {
        None => None,
        Some(i) => spec_cl_of_line(lines[i as int]),
    }
}

fn is_cl_line(line: &str) -> (r: bool)
    ensures
        r == spec_is_cl_line(line@),
{
    let lower = to_lowercase_ascii(line);
    let n = lower.as_str().unicode_len();
    if n < 15 {
        proof {
            reveal_strlit("content-length:");
        }
        return false;
    }
    let prefix = lower.as_str().substring_char(0, 15);
    proof {
        assert(prefix@ =~= spec_lower(line@).take(15));
    }
    str_eq(prefix, "content-length:")
}

/// Finds the declared content length among the header lines, as the first
/// `content-length:` line (case-insensitive) read as a decimal number.
pub fn content_length_of(lines: &Vec<String>) -> (r: Option<usize>)
    ensures
        r == spec_content_length(lines.deep_view()),
{
    let n = lines.len();
    let mut i: usize = 0;
    while i < n
        invariant
            n == lines@.len(),
            i <= n,
            forall|j: int|
                0 <= j < i ==> !spec_is_cl_line(#[trigger] lines.deep_view()[j]),
        decreases n - i,
    {
        proof {
            assert(lines.deep_view()[i as int] == lines@[i as int]@);
        }
        let line = &lines[i];
        if is_cl_line(line.as_str()) {
            proof {
                lemma_first_cl_from_witness(lines.deep_view(), i as int);
            }
            return match split_once_pair(line.as_str(), ':', ' ') {
                None => None,
                Some((_, rest)) => {
                    let piece = match split_once_pair(rest, ':', ' ') {
                        Some((p, _)) => p,
                        None => rest,
                    };
                    parse_usize(piece)
                },
            };
        }
        i += 1;
    }
    proof {
        lemma_first_cl_none(lines.deep_view());
    }
    None
}

} // verus!

verus! {

/// The line list a raw request describes: header lines, one empty separator
/// line, then the body's text lines — or nothing, when no header line
/// arrived before the blank line or the declared body was cut short.
pub open spec fn spec_raw_request_lines(raw: Seq<u8>) -> Option<Seq<Seq<char>>> {
    let hl = spec_header_split(raw).0;
    let rem = spec_header_split(raw).1;
    if hl.len() == 0 {
        None
    } else {
        let head_strs = hl.map_values(|b: Seq<u8>| lossy_utf8_of(b));
        match spec_content_length(head_strs) {
            Some(cl) => if rem.len() >= cl {
                Some(
                    head_strs + seq![Seq::<char>::empty()] + spec_str_lines(
                        lossy_utf8_of(rem.take(cl as int)),
                    ),
                )
            } else {
                None
            },
            None => Some(head_strs + seq![Seq::<char>::empty()]),
        }
    }
}

/// Reads one request off the raw bytes of a connection: header lines up to
/// the first empty line, then — when a `content-length` header declares one
/// — exactly that many body bytes. Nothing comes back when the stream
/// closed before a header line, when the body is shorter than declared, or
/// when the request line misses its method or target.
pub fn parse_raw_request(raw: &[u8]) -> (r: Option<Request>)
    ensures
        match spec_raw_request_lines(raw@) {
            None => r is None,
            Some(lines) => {
                if spec_line_tokens(lines[0]).len() >= 2 {
                    match r {
                        Some(req) => spec_request_from_lines(lines, req),
                        None => false,
                    }
                } else {
                    r is None
                }
            },
        },
{
    let ghost gsplit = spec_header_split(raw@);
    let ghost lossy = |b: Seq<u8>| lossy_utf8_of(b);
    let n = raw.len();
    let mut lines: Vec<String> = Vec::new();
    let ghost mut coll: Seq<Seq<u8>> = Seq::empty();
    let mut pos: usize = 0;
    let mut rem_start: usize = n;
    let mut scanning = true;
    proof {
        assert(raw@.skip(0) =~= raw@);
        assert(coll + spec_header_split(raw@.skip(0)).0 =~= gsplit.0);
        assert(lines.deep_view() =~= coll.map_values(lossy));
    }
    while scanning
        invariant
            n == raw@.len(),
            pos <= n,
            rem_start <= n,
            lossy == (|b: Seq<u8>| lossy_utf8_of(b)),
            gsplit == spec_header_split(raw@),
            !scanning ==> gsplit.0 == coll && gsplit.1 =~= raw@.skip(rem_start as int),
            scanning ==> gsplit.0 == coll + spec_header_split(raw@.skip(pos as int)).0
                && gsplit.1 == spec_header_split(raw@.skip(pos as int)).1,
            lines.deep_view() == coll.map_values(lossy),
        decreases (if scanning {
            1int
        } else {
            0int
        }), n - pos,
    {
        let ghost suf = raw@.skip(pos as int);
        match find_byte_from(raw, pos, 10) {
            None => {
                let mut end = n;
                if end > pos && raw[end - 1] == 13 {
                    end -= 1;
                }
                proof {
                    assert(spec_strip_cr(suf) =~= raw@.subrange(pos as int, end as int));
                }
                if end == pos {
                    proof {
                        assert(spec_header_split(suf).0 =~= Seq::<Seq<u8>>::empty());
                        assert(spec_header_split(suf).1 =~= Seq::<u8>::empty());
                        assert(gsplit.0 =~= coll);
                        assert(gsplit.1 =~= raw@.skip(n as int));
                    }
                    scanning = false;
                    rem_start = n;
                } else {
                    let lb: &[u8] = &raw[pos..end];
                    let ls = utf8_lossy(lb);
                    let ghost lbs = raw@.subrange(pos as int, end as int);
                    let ghost dv = lines.deep_view();
                    lines.push(ls);
                    proof {
                        assert(lb@ == lbs);
                        assert(lines.deep_view() =~= dv.push(lossy_utf8_of(lbs)));
                        assert(spec_header_split(suf).0 =~= seq![lbs]);
                        assert(spec_header_split(suf).1 =~= Seq::<u8>::empty());
                        coll = coll.push(lbs);
                        assert(lines.deep_view() =~= coll.map_values(lossy));
                        assert(gsplit.0 =~= coll);
                        assert(gsplit.1 =~= raw@.skip(n as int));
                    }
                    scanning = false;
                    rem_start = n;
                }
            },
            Some(nl) => {
                let mut end = nl;
                if end > pos && raw[end - 1] == 13 {
                    end -= 1;
                }
                proof {
                    assert(suf.take(nl - pos) =~= raw@.subrange(pos as int, nl as int));
                    assert(spec_strip_cr(suf.take(nl - pos)) =~= raw@.subrange(
                        pos as int,
                        end as int,
                    ));
                    assert(suf.skip(nl - pos + 1) =~= raw@.skip(nl as int + 1));
                }
                if end == pos {
                    proof {
                        assert(spec_header_split(suf).0 =~= Seq::<Seq<u8>>::empty());
                        assert(spec_header_split(suf).1 == suf.skip(nl - pos + 1));
                        assert(gsplit.0 =~= coll);
                        assert(gsplit.1 =~= raw@.skip(nl as int + 1));
                    }
                    scanning = false;
                    rem_start = nl + 1;
                } else {
                    let lb: &[u8] = &raw[pos..end];
                    let ls = utf8_lossy(lb);
                    let ghost lbs = raw@.subrange(pos as int, end as int);
                    let ghost dv = lines.deep_view();
                    lines.push(ls);
                    proof {
                        assert(lb@ == lbs);
                        assert(lines.deep_view() =~= dv.push(lossy_utf8_of(lbs)));
                        let rest = suf.skip(nl - pos + 1);
                        assert(spec_header_split(suf).0 == seq![lbs] + spec_header_split(rest).0);
                        assert(spec_header_split(suf).1 == spec_header_split(rest).1);
                        coll = coll.push(lbs);
                        assert(lines.deep_view() =~= coll.map_values(lossy));
                        assert(gsplit.0 =~= coll + spec_header_split(raw@.skip(nl as int + 1)).0);
                        assert(spec_header_split(rest) == spec_header_split(
                            raw@.skip(nl as int + 1),
                        ));
                    }
                    pos = nl + 1;
                }
            },
        }
    }
    if lines.is_empty() {
        proof {
            assert(coll.map_values(lossy).len() == 0);
            assert(gsplit.0.len() == 0);
        }
        return None;
    }
    let ghost head_strs = gsplit.0.map_values(lossy);
    proof {
        assert(head_strs == lines.deep_view());
        assert(head_strs.len() > 0);
    }
    let cl_opt = content_length_of(&lines);
    let mut all = lines;
    let ghost hdv = all.deep_view();
    all.push(String::new());
    proof {
        assert(all.deep_view() =~= hdv.push(Seq::<char>::empty()));
        assert(hdv.push(Seq::<char>::empty()) =~= hdv + seq![Seq::<char>::empty()]);
    }
    match cl_opt {
        Some(cl) => {
            if n - rem_start < cl {
                proof {
                    assert(gsplit.1.len() < cl);
                }
                return None;
            }
            let body_bytes: &[u8] = &raw[rem_start..rem_start + cl];
            let body = utf8_lossy(body_bytes);
            let mut body_lines = str_lines(body.as_str());
            let ghost bdv = body_lines.deep_view();
            let ghost adv = all.deep_view();
            proof {
                assert(body_bytes@ =~= gsplit.1.take(cl as int));
                assert(bdv == spec_str_lines(lossy_utf8_of(gsplit.1.take(cl as int))));
            }
            all.append(&mut body_lines);
            proof {
                assert(all.deep_view() =~= adv + bdv);
                assert(all.deep_view() =~= head_strs + seq![Seq::<char>::empty()]
                    + spec_str_lines(lossy_utf8_of(gsplit.1.take(cl as int))));
            }
        },
        None => {},
    }
    let ghost glines = spec_raw_request_lines(raw@)->Some_0;
    proof {
        assert(spec_raw_request_lines(raw@) is Some);
        assert(glines == all.deep_view());
        assert(glines[0] == head_strs[0]);
    }
    let toks = line_tokens(all[0].as_str());
    proof {
        assert(all.deep_view()[0] == all@[0]@);
    }
    if toks.len() < 2 {
        return None;
    }
    let slice = all.as_slice();
    proof {
        assert(slice.deep_view() =~= all.deep_view());
    }
    let req = Request::new(slice);
    Some(req)
}

} // verus!
