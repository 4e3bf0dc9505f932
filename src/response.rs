use crate::error::Error;
use crate::header::{first_sep, header_of, header_text, HTTPHeader};
use crate::payload::{gzip_of, HTTPPayload};
use crate::request::{blank_from, header_end, parsed_headers};
use crate::status::{status_line, status_text, HTTPStatus, HTTPStatusCode};
use crate::text::{
    decimal, decimal_string, lemma_decimal_single_line, lemma_split_lines_join,
    lemma_split_single_line, single_line, split_lines, str_eq,
};
use vstd::prelude::*;
use vstd::string::*;
use vstd::utf8::encode_utf8;

verus! {

/// A response: status line, ordered headers and an optional body.
#[derive(Debug)]
pub struct HTTPResponse {
    pub status: HTTPStatus,
    pub payload: Option<HTTPPayload>,
    pub headers: Vec<HTTPHeader>,
}

/// The views of a list of headers.
pub open spec fn header_views(hs: Seq<HTTPHeader>) -> Seq<(Seq<char>, Seq<char>)> {
    hs.map_values(|h: HTTPHeader| h@)
}

/// Each header as `"name: value\r\n"`, in order.
pub open spec fn headers_block(hs: Seq<(Seq<char>, Seq<char>)>) -> Seq<char>
    decreases hs.len(),
{
    if hs.len() == 0 {
        Seq::empty()
    } else {
        headers_block(hs.drop_last()) + header_text(hs.last()) + "\r\n"@
    }
}

/// Whether the headers carry `Content-Encoding: gzip`.
pub open spec fn declares_gzip(hs: Seq<(Seq<char>, Seq<char>)>) -> bool {
    exists|i: int| 0 <= i < hs.len() && hs[i] == ("Content-Encoding"@, "gzip"@)
}

/// Everything a response puts before its body, for a body of `len` bytes.
pub open spec fn head_text(r: HTTPResponse, len: nat) -> Seq<char> {
    status_line(r.status.status_code, r.status.version@) + "\r\n"@ + headers_block(
        header_views(r.headers@),
    ) + "Content-Length: "@ + decimal(len) + "\r\n\r\n"@
}

/// The wire form of a response that carries `body` as its body bytes.
pub open spec fn framed(r: HTTPResponse, body: Seq<u8>) -> Seq<u8> {
    encode_utf8(head_text(r, body.len())) + body
}

/// The body bytes that go on the wire, given what gzip yields for the payload.
pub open spec fn wire_body(r: HTTPResponse) -> Seq<u8> {
    match r.payload {
        None => Seq::empty(),
        Some(p) => if declares_gzip(header_views(r.headers@)) {
            gzip_of(encode_utf8(p@))
        } else {
            encode_utf8(p@)
        },
    }
}

/// The lowercase hexadecimal digit for `d < 16`.
pub open spec fn hex_digit(d: u8) -> char {
    if d < 10 {
        (('0' as u8) + d) as char
    } else {
        (('a' as u8) + (d - 10) as u8) as char
    }
}

/// Each byte as two lowercase hexadecimal digits, high nibble first.
pub open spec fn hex_of(b: Seq<u8>) -> Seq<char>
    decreases b.len(),
{
    if b.len() == 0 {
        Seq::empty()
    } else {
        hex_of(b.drop_last()) + seq![hex_digit(b.last() / 16), hex_digit(b.last() % 16)]
    }
}

/// Relies on `hex::encode`: two lowercase hexadecimal digits per byte, in order.
#[verifier::external_body]
fn to_hex(data: &Vec<u8>) -> (r: String)
    ensures
        r@ == hex_of(data@),
{
    hex::encode(data)
}

/// The readable text form of a response: status line, headers and a blank line, then
/// the body as text, or as hexadecimal when it is sent gzip-compressed. No
/// `Content-Length` is added.
pub open spec fn text_form(r: HTTPResponse) -> Seq<char> {
    status_line(r.status.status_code, r.status.version@) + "\r\n"@ + headers_block(
        header_views(r.headers@),
    ) + "\r\n"@ + match r.payload {
        None => Seq::empty(),
        Some(p) => if declares_gzip(header_views(r.headers@)) {
            hex_of(gzip_of(encode_utf8(p@)))
        } else {
            p@
        },
    }
}

impl HTTPResponse {
    pub fn new(status: HTTPStatus, headers: Vec<HTTPHeader>, payload: Option<HTTPPayload>) -> (r:
        Self)
        ensures
            r.status == status,
            r.headers == headers,
            r.payload == payload,
    {
        Self { status, payload, headers }
    }

    /// Whether one of the headers is `Content-Encoding: gzip`.
    pub fn wants_gzip(&self) -> (r: bool)
        ensures
            r == declares_gzip(header_views(self.headers@)),
    {
        let mut i: usize = 0;
        while i < self.headers.len()
            invariant
                i <= self.headers@.len(),
                forall|j: int|
                    0 <= j < i ==> header_views(self.headers@)[j] != ("Content-Encoding"@, "gzip"@),
            decreases self.headers@.len() - i,
        {
            let h = &self.headers[i];
            if str_eq(h.name.as_str(), "Content-Encoding") && str_eq(h.value.as_str(), "gzip") {
                assert(header_views(self.headers@)[i as int] == ("Content-Encoding"@, "gzip"@));
                return true;
            }
            i = i + 1;
        }
        false
    }

    /// The wire form with `body` as the body bytes: status line, headers in their
    /// stored order, a `Content-Length` of the body's length, a blank line, the body.
    pub fn frame(&self, body: &Vec<u8>) -> (r: Vec<u8>)
        ensures
            r@ == framed(*self, body@),
    {
        let mut text = self.render_head();
        text.append("Content-Length: ");
        let len = decimal_string(body.len());
        text.append(len.as_str());
        text.append("\r\n\r\n");
        let mut out = text.as_str().as_bytes_vec();
        let ghost head = out@;
        let mut k: usize = 0;
        while k < body.len()
            invariant
                k <= body@.len(),
                out@ == head + body@.subrange(0, k as int),
            decreases body@.len() - k,
        {
            out.push(body[k]);
            assert(body@.subrange(0, k as int + 1) =~= body@.subrange(0, k as int).push(body@[k as int]));
            k = k + 1;
        }
        assert(body@.subrange(0, k as int) =~= body@);
        out
    }

    /// The status line and the headers, each followed by a line break, in stored order.
    fn render_head(&self) -> (r: String)
        ensures
            r@ == status_line(self.status.status_code, self.status.version@) + "\r\n"@
                + headers_block(header_views(self.headers@)),
    {
        let mut text = self.status.to_string();
        text.append("\r\n");
        let mut i: usize = 0;
        while i < self.headers.len()
            invariant
                i <= self.headers@.len(),
                text@ == status_line(self.status.status_code, self.status.version@) + "\r\n"@
                    + headers_block(header_views(self.headers@.subrange(0, i as int))),
            decreases self.headers@.len() - i,
        {
            let line = self.headers[i].to_string();
            text.append(line.as_str());
            text.append("\r\n");
            proof {
                let hs = header_views(self.headers@.subrange(0, i as int + 1));
                assert(hs.drop_last() =~= header_views(self.headers@.subrange(0, i as int)));
                assert(hs.last() == self.headers@[i as int]@);
            }
            i = i + 1;
        }
        assert(self.headers@.subrange(0, i as int) =~= self.headers@);
        text
    }

    /// The readable text form, for logging.
    pub fn to_string(&self) -> (r: String)
        ensures
            r@ == text_form(*self),
    {
        let mut text = self.render_head();
        text.append("\r\n");
        match &self.payload {
            None => {
                assert(text@ =~= text_form(*self));
                text
            },
            Some(p) => {
                if self.wants_gzip() {
                    let z = match p.compress() {
                        Ok(z) => z,
                        Err(_) => {
                            assert(false);
                            Vec::new()
                        },
                    };
                    let h = to_hex(&z);
                    text.append(h.as_str());
                    text
                } else {
                    text.append(p.content.as_str());
                    text
                }
            },
        }
    }

    /// Encodes the response for the wire. When a `Content-Encoding: gzip` header is
    /// present the payload is sent gzip-compressed; a missing payload is an empty body.
    pub fn encode(&self) -> (r: Vec<u8>)
        ensures
            r@ == framed(*self, wire_body(*self)),
    {
        match &self.payload {
            None => {
                let empty: Vec<u8> = Vec::new();
                self.frame(&empty)
            },
            Some(p) => {
                if self.wants_gzip() {
                    let z = match p.compress() {
                        Ok(z) => z,
                        Err(_) => {
                            assert(false);
                            Vec::new()
                        },
                    };
                    self.frame(&z)
                } else {
                    let raw = p.as_bytes();
                    self.frame(&raw)
                }
            },
        }
    }
}

/// A header reads back as itself when its name holds no `": "`.
proof fn lemma_header_reads_back(h: (Seq<char>, Seq<char>))
    requires
        first_sep(h.0, 0) == -1,
    ensures
        header_of(header_text(h)) == Some(h),
{
    reveal_strlit(": ");
    let t = header_text(h);
    lemma_sep_after_name(h, 0);
    assert(t.subrange(0, h.0.len() as int) =~= h.0);
    assert(t.subrange((h.0.len() + 2) as int, t.len() as int) =~= h.1);
}

/// Scanning a rendered header from inside its name finds the separator right after it.
proof fn lemma_sep_after_name(h: (Seq<char>, Seq<char>), i: int)
    requires
        0 <= i <= h.0.len(),
        first_sep(h.0, i) == -1,
    ensures
        first_sep(header_text(h), i) == h.0.len(),
    decreases h.0.len() - i,
{
    reveal_strlit(": ");
    let t = header_text(h);
    if i < h.0.len() {
        if i + 1 < h.0.len() {
            assert(first_sep(h.0, i + 1) == -1);
        }
        assert(!(t[i] == ':' && t[i + 1] == ' '));
        lemma_sep_after_name(h, i + 1);
    }
}

/// Rendered headers followed by `c` split into one line per header, then the lines of `c`.
proof fn lemma_header_lines(hs: Seq<(Seq<char>, Seq<char>)>, c: Seq<char>)
    requires
        forall|i: int| 0 <= i < hs.len() ==> single_line(#[trigger] header_text(hs[i])),
    ensures
        split_lines(headers_block(hs) + c) == hs.map_values(|h: (Seq<char>, Seq<char>)| header_text(h))
            + split_lines(c),
    decreases hs.len(),
{
    if hs.len() == 0 {
        assert(headers_block(hs) + c =~= c);
        assert(hs.map_values(|h: (Seq<char>, Seq<char>)| header_text(h)) =~= Seq::<Seq<char>>::empty());
        assert(split_lines(c) =~= Seq::<Seq<char>>::empty() + split_lines(c));
    } else {
        let front = hs.drop_last();
        let l = header_text(hs.last());
        assert(single_line(header_text(hs[hs.len() - 1])));
        let rest = l + "\r\n"@ + c;
        assert(headers_block(hs) + c =~= headers_block(front) + rest);
        assert forall|i: int| 0 <= i < front.len() implies single_line(
            #[trigger] header_text(front[i]),
        ) by {
            assert(front[i] == hs[i]);
        }
        lemma_header_lines(front, rest);
        lemma_split_lines_join(l, c);
        lemma_split_single_line(l);
        assert(hs.map_values(|h: (Seq<char>, Seq<char>)| header_text(h)) =~= front.map_values(
            |h: (Seq<char>, Seq<char>)| header_text(h),
        ).push(l));
        assert(split_lines(headers_block(hs) + c) =~= hs.map_values(
            |h: (Seq<char>, Seq<char>)| header_text(h),
        ) + split_lines(c));
    }
}

/// No status line holds a line break when its version holds none.
proof fn lemma_status_single_line(code: HTTPStatusCode, version: Seq<char>)
    requires
        single_line(version),
    ensures
        single_line(status_line(code, version)),
{
    reveal_strlit("HTTP/");
    reveal_strlit(" ");
    reveal_strlit("200 OK");
    reveal_strlit("201 Created");
    reveal_strlit("404 Not Found");
    reveal_strlit("500 Internal Server Error");
    assert(single_line(status_text(code)));
}

/// A response whose version, header names and header values hold no line break, and
/// whose header names hold no `": "`, can be read back from its wire form.
pub open spec fn readable(r: HTTPResponse) -> bool {
    &&& single_line(r.status.version@)
    &&& forall|i: int|
        0 <= i < r.headers@.len() ==> {
            let h = #[trigger] header_views(r.headers@)[i];
            single_line(h.0) && single_line(h.1) && first_sep(h.0, 0) == -1
        }
}

/// Encoding a response and reading it back line by line recovers it: the first line is
/// its status line, the header block parses to its headers in order followed by the
/// `Content-Length` of the body, and the body bytes follow the head unchanged.
/// The headers a reader finds in the head of a response with a body of `len` bytes.
pub open spec fn sent_headers(r: HTTPResponse, len: nat) -> Seq<(Seq<char>, Seq<char>)> {
    header_views(r.headers@).push(("Content-Length"@, decimal(len)))
}

/// The head of a readable response splits into its status line, one line per sent
/// header, and two empty lines; every sent header name is free of `": "`.
proof fn lemma_head_lines(r: HTTPResponse, len: nat)
    requires
        readable(r),
    ensures
        split_lines(head_text(r, len)) == seq![status_line(r.status.status_code, r.status.version@)]
            + sent_headers(r, len).map_values(|h: (Seq<char>, Seq<char>)| header_text(h)) + seq![
            Seq::<char>::empty(),
            Seq::<char>::empty(),
        ],
        forall|i: int|
            0 <= i < sent_headers(r, len).len() ==> first_sep(
                #[trigger] sent_headers(r, len)[i].0,
                0,
            ) == -1,
{
    reveal_strlit("Content-Length: ");
    reveal_strlit("Content-Length");
    reveal_strlit(": ");
    reveal_strlit("\r\n\r\n");
    reveal_strlit("\r\n");
    let head = head_text(r, len);
    let sl = status_line(r.status.status_code, r.status.version@);
    let cl = ("Content-Length"@, decimal(len));
    let hv = header_views(r.headers@);
    let hs = sent_headers(r, len);
    let crlf = "\r\n"@;
    assert(headers_block(hs) =~= headers_block(hv) + "Content-Length"@ + ": "@ + decimal(len)
        + crlf) by {
        assert(hs.drop_last() =~= hv);
    }
    assert(head =~= sl + crlf + (headers_block(hs) + crlf));
    lemma_decimal_single_line(len);
    assert forall|i: int| 0 <= i < hs.len() implies single_line(#[trigger] header_text(hs[i]))
        && first_sep(hs[i].0, 0) == -1 by {
        if i < hv.len() {
            assert(hs[i] == hv[i]);
        } else {
            assert(hs[i] == cl);
            lemma_no_sep_in_literal();
        }
    }
    lemma_status_single_line(r.status.status_code, r.status.version@);
    lemma_split_single_line(sl);
    lemma_header_lines(hs, crlf);
    lemma_split_lines_join(Seq::empty(), Seq::empty());
    assert(Seq::<char>::empty() + crlf + Seq::<char>::empty() =~= crlf);
    lemma_split_lines_join(sl, headers_block(hs) + crlf);
    assert(split_lines(head) =~= seq![sl] + hs.map_values(
        |h: (Seq<char>, Seq<char>)| header_text(h),
    ) + seq![Seq::<char>::empty(), Seq::<char>::empty()]);
}

/// Encoding a response and reading it back line by line recovers it: the first line is
/// its status line, the header block parses to its headers in order followed by the
/// `Content-Length` of the body, and the body bytes follow the head unchanged.
pub proof fn lemma_response_round_trip(r: HTTPResponse, body: Seq<u8>)
    requires
        readable(r),
    ensures
        split_lines(head_text(r, body.len()))[0] == status_line(
            r.status.status_code,
            r.status.version@,
        ),
        parsed_headers(head_text(r, body.len())) == sent_headers(r, body.len()),
        framed(r, body).subrange(
            encode_utf8(head_text(r, body.len())).len() as int,
            framed(r, body).len() as int,
        ) == body,
{
    let head = head_text(r, body.len());
    let hs = sent_headers(r, body.len());
    lemma_head_lines(r, body.len());
    let lines = split_lines(head);
    assert forall|j: int| 1 <= j <= hs.len() implies lines[j].len() > 0 by {
        reveal_strlit(": ");
        assert(lines[j] == header_text(hs[j - 1]));
    }
    lemma_blank_after_headers(lines, hs.len() as int, 1);
    assert forall|i: int| 0 <= i < hs.len() implies header_of(lines[i + 1])->Some_0 == hs[i] by {
        assert(lines[i + 1] == header_text(hs[i]));
        assert(first_sep(hs[i].0, 0) == -1);
        lemma_header_reads_back(hs[i]);
    }
    assert(parsed_headers(head) =~= hs);
    let f = framed(r, body);
    assert(f.subrange(encode_utf8(head).len() as int, f.len() as int) =~= body);
}

/// `Content-Length` holds no `": "`.
proof fn lemma_no_sep_in_literal()
    ensures
        first_sep("Content-Length"@, 0) == -1,
{
    reveal_strlit("Content-Length");
    let s = "Content-Length"@;
    assert(first_sep(s, 13) == -1);
    assert(first_sep(s, 12) == -1);
    assert(first_sep(s, 11) == -1);
    assert(first_sep(s, 10) == -1);
    assert(first_sep(s, 9) == -1);
    assert(first_sep(s, 8) == -1);
    assert(first_sep(s, 7) == -1);
    assert(first_sep(s, 6) == -1);
    assert(first_sep(s, 5) == -1);
    assert(first_sep(s, 4) == -1);
    assert(first_sep(s, 3) == -1);
    assert(first_sep(s, 2) == -1);
    assert(first_sep(s, 1) == -1);
}

/// With lines `1..=n` non-empty and line `n + 1` empty, the header block ends at `n + 1`.
proof fn lemma_blank_after_headers(lines: Seq<Seq<char>>, n: int, j: int)
    requires
        1 <= j <= n + 1,
        n + 1 < lines.len(),
        lines[n + 1].len() == 0,
        forall|k: int| 1 <= k <= n ==> lines[k].len() > 0,
    ensures
        blank_from(lines, j) == n + 1,
    decreases n + 1 - j,
{
    if j <= n {
        lemma_blank_after_headers(lines, n, j + 1);
    }
}

} // verus!
