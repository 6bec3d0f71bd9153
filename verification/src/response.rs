//! One in-flight response: status code, header map, the bytes written so far,
//! and the one-way `stopped` flag that admits at most one body write.

use vstd::prelude::*;
use vstd::utf8::encode_utf8;

use crate::get_status_text;
use crate::spec_status_text;
use crate::strmap::StrMap;
use crate::strutil::{spec_dec_chars, u64_to_string};

verus! {

/// The abstract state of a response.
pub struct ResponseView {
    pub status: u16,
    pub headers: Map<Seq<char>, Seq<char>>,
    pub stopped: bool,
    pub output: Seq<u8>,
}

/// The full head written before a body: status line, the content type, the
/// content length in bytes, and the blank separator line.
pub open spec fn spec_head_chars(status: u16, content_type: Seq<char>, len: nat) -> Seq<char> {
    "HTTP/1.1 "@ + spec_dec_chars(status as nat) + " "@ + spec_status_text(status)
        + "\r\nContent-Type: "@ + content_type + "\r\nContent-Length: "@ + spec_dec_chars(len)
        + "\r\n\r\n"@
}

/// The bytes one `send` of `body` with `content_type` appends.
pub open spec fn spec_send_bytes(status: u16, content_type: Seq<char>, body: Seq<char>) -> Seq<
    u8,
> {
    encode_utf8(spec_head_chars(status, content_type, encode_utf8(body).len()) + body)
}

fn extend_from_bytes(out: &mut Vec<u8>, b: &[u8])
    ensures
        final(out)@ == old(out)@ + b@,
{
    let n = b.len();
    let mut i: usize = 0;
    proof {
        assert(out@ =~= old(out)@ + b@.take(0));
    }
    while i < n
        invariant
            n == b@.len(),
            i <= n,
            out@ == old(out)@ + b@.take(i as int),
        decreases n - i,
    {
        out.push(b[i]);
        proof {
            assert(old(out)@ + b@.take(i as int + 1) =~= (old(out)@ + b@.take(i as int)).push(
                b@[i as int],
            ));
        }
        i += 1;
    }
    proof {
        assert(b@.take(n as int) =~= b@);
    }
}

fn build_head(status: u16, content_type: &str, len: usize) -> (r: String)
    ensures
        r@ == spec_head_chars(status, content_type@, len as nat),
{
    let mut h = String::from_str("HTTP/1.1 ");
    let code = u64_to_string(status as u64);
    h.append(code.as_str());
    h.append(" ");
    h.append(get_status_text(status));
    h.append("\r\nContent-Type: ");
    h.append(content_type);
    h.append("\r\nContent-Length: ");
    let l = u64_to_string(len as u64);
    h.append(l.as_str());
    h.append("\r\n\r\n");
    proof {
        assert(h@ =~= spec_head_chars(status, content_type@, len as nat));
    }
    h
}

/// The mutable half of one exchange. Writes accumulate in `output`, the
/// caller's byte sink; the `stopped` flag turns true with the first body
/// write and never back, so a later write is a no-op.
pub struct Response {
    status: u16,
    headers: StrMap,
    stopped: bool,
    output: Vec<u8>,
}

impl View for Response {
    type V = ResponseView;

    closed spec fn view(&self) -> ResponseView {
        ResponseView {
            status: self.status,
            headers: self.headers@,
            stopped: self.stopped,
            output: self.output@,
        }
    }
}

impl Response {
    /// The header map holds every name once.
    pub closed spec fn wf(&self) -> bool {
        self.headers.wf()
    }

    /// A fresh response: status 200, no headers, nothing written.
    pub fn new() -> (r: Response)
        ensures
            r.wf(),
            r@ == (ResponseView {
                status: 200,
                headers: Map::empty(),
                stopped: false,
                output: Seq::empty(),
            }),
    {
        Response { status: 200, headers: StrMap::new(), stopped: false, output: Vec::new() }
    }

    /// Sets the status code sent with the next body write.
    pub fn status(&mut self, code: u16)
        requires
            old(self).wf(),
        ensures
            final(self).wf(),
            final(self)@ == (ResponseView { status: code, ..old(self)@ }),
    {
        self.status = code;
    }

    /// Binds a response header; an earlier value of the same name is
    /// overwritten.
    pub fn set_header(&mut self, key: &str, value: &str)
        requires
            old(self).wf(),
        ensures
            final(self).wf(),
            final(self)@ == (ResponseView {
                headers: old(self)@.headers.insert(key@, value@),
                ..old(self)@
            }),
    {
        self.headers.insert(key, value);
    }

    /// Drops a response header if present.
    pub fn remove_header(&mut self, key: &str)
        requires
            old(self).wf(),
        ensures
            final(self).wf(),
            final(self)@ == (ResponseView {
                headers: old(self)@.headers.remove(key@),
                ..old(self)@
            }),
    {
        self.headers.remove(key);
    }

    /// Whether a body has been written; once true it never resets.
    pub fn is_stopped(&self) -> (r: bool)
        ensures
            r == self@.stopped,
    {
        self.stopped
    }

    /// The header value stored under `key`, if any.
    pub fn header(&self, key: &str) -> (r: Option<&String>)
        requires
            self.wf(),
        ensures
            match r {
                Some(v) => self@.headers.contains_key(key@) && v@ == self@.headers[key@],
                None => !self@.headers.contains_key(key@),
            },
    {
        self.headers.get(key)
    }

    /// The status code the next body write would send.
    pub fn status_code(&self) -> (r: u16)
        ensures
            r == self@.status,
    {
        self.status
    }

    /// The bytes written so far.
    pub fn output(&self) -> (r: &Vec<u8>)
        ensures
            r@ == self@.output,
    {
        &self.output
    }

    /// Writes head and raw body bytes under the given content type, then
    /// stops the response; nothing happens if it was already stopped.
    pub fn send_bytes(&mut self, bytes: &[u8], content_type: &str)
        requires
            old(self).wf(),
        ensures
            final(self).wf(),
            old(self)@.stopped ==> final(self)@ == old(self)@,
            !old(self)@.stopped ==> final(self)@ == (ResponseView {
                stopped: true,
                output: old(self)@.output + encode_utf8(
                    spec_head_chars(old(self)@.status, content_type@, bytes@.len()),
                ) + bytes@,
                ..old(self)@
            }),
    {
        if self.stopped {
            return ;
        }
        let head = build_head(self.status, content_type, bytes.len());
        extend_from_bytes(&mut self.output, head.as_str().as_bytes());
        extend_from_bytes(&mut self.output, bytes);
        self.stopped = true;
    }

    /// Writes the body as `text/html`, then stops the response; nothing
    /// happens if it was already stopped.
    pub fn send(&mut self, body: &str)
        requires
            old(self).wf(),
        ensures
            final(self).wf(),
            old(self)@.stopped ==> final(self)@ == old(self)@,
            !old(self)@.stopped ==> final(self)@ == (ResponseView {
                stopped: true,
                output: old(self)@.output + spec_send_bytes(
                    old(self)@.status,
                    "text/html; charset=UTF-8"@,
                    body@,
                ),
                ..old(self)@
            }),
    {
        self.send_with_type(body, "text/html; charset=UTF-8");
    }

    /// Writes an already JSON-encoded body as `application/json`, then stops
    /// the response; nothing happens if it was already stopped.
    pub fn json(&mut self, body: &str)
        requires
            old(self).wf(),
        ensures
            final(self).wf(),
            old(self)@.stopped ==> final(self)@ == old(self)@,
            !old(self)@.stopped ==> final(self)@ == (ResponseView {
                stopped: true,
                output: old(self)@.output + spec_send_bytes(
                    old(self)@.status,
                    "application/json; charset=UTF-8"@,
                    body@,
                ),
                ..old(self)@
            }),
    {
        self.send_with_type(body, "application/json; charset=UTF-8");
    }

    fn send_with_type(&mut self, body: &str, content_type: &str)
        requires
            old(self).wf(),
        ensures
            final(self).wf(),
            old(self)@.stopped ==> final(self)@ == old(self)@,
            !old(self)@.stopped ==> final(self)@ == (ResponseView {
                stopped: true,
                output: old(self)@.output + spec_send_bytes(
                    old(self)@.status,
                    content_type@,
                    body@,
                ),
                ..old(self)@
            }),
    {
        if self.stopped {
            return ;
        }
        let mut whole = build_head(self.status, content_type, body.as_bytes().len());
        whole.append(body);
        extend_from_bytes(&mut self.output, whole.as_str().as_bytes());
        self.stopped = true;
    }
}

} // verus!
