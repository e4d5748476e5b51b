use vstd::prelude::*;
use vstd::string::StringExecFns;
use crate::text::{
    chars_of, contains, contains_chars, decode_utf8_lossy, occurs_at, first_line, first_line_of, nth_word, parse_decimal,
    parse_unsigned, utf8_lossy, words,
};

verus! {

/// The largest response, in bytes, that a probe reads; a response that
/// fills it is refused.
pub const MAX_RESPONSE_SIZE: usize = 10485760;

/// What a probe learned from the response.
#[derive(Debug)]
pub struct ProbeResponse {
    pub status_code: u16,
    pub content_hash: String,
    pub content_matched: Option<bool>,
}

/// Why a response could not be read.
#[derive(Debug, Clone, Copy, PartialEq, Eq)]
pub enum HttpError {
    /// The response filled the whole read buffer.
    TooLarge,
    /// No `\r\n\r\n` separates the headers from the body.
    MissingSeparator,
    /// The status line has no second word.
    MalformedStatusLine,
    /// The status line's second word is not a status code.
    InvalidStatusCode,
}

/// The BLAKE3 hash of `data`, in the hexadecimal form that `blake3::Hash`
/// displays. Named, not written out.
pub uninterp spec fn blake3_hex(data: Seq<u8>) -> Seq<char>;

/// The request a probe sends: `GET /` on `domain`, asking the server to
/// close the connection after the response.
pub open spec fn probe_request(domain: Seq<char>) -> Seq<char> {
    "GET / HTTP/1.1\r\nHost: "@ + domain + "\r\nUser-Agent: rust-uptimeapi\r\nConnection: close\r\n\r\n"@
}

/// Builds the request a probe sends to `domain`.
pub fn build_request(domain: &str) -> (r: String)
    ensures
        r@ == probe_request(domain@),
{
    let mut request = "GET / HTTP/1.1\r\nHost: ".to_owned();
    request.append(domain);
    request.append("\r\nUser-Agent: rust-uptimeapi\r\nConnection: close\r\n\r\n");
    request
}

/// Whether `c` is a lowercase hexadecimal digit.
pub open spec fn is_lower_hex(c: char) -> bool {
    ('0' <= c && c <= '9') || ('a' <= c && c <= 'f')
}

/// Hashes `data` with `blake3::hash` and formats the hash with its
/// `Display` impl. The contract states the name of the result and what the
/// crate's source shows of its form: `Hash::to_hex` writes the 32 bytes as
/// 64 lowercase hexadecimal digits.
#[verifier::external_body]
fn blake3_hash_hex(data: &[u8]) -> (hex: String)
    ensures
        hex@ == blake3_hex(data@),
        hex@.len() == 64,
        forall|i: int| 0 <= i < hex@.len() ==> is_lower_hex(#[trigger] hex@[i]),
{
    blake3::hash(data).to_string()
}

/// Whether the four bytes at `i` are `\r\n\r\n`.
pub open spec fn separator_at(buf: Seq<u8>, i: int) -> bool {
    &&& 0 <= i
    &&& i + 4 <= buf.len()
    &&& buf[i] == 13u8
    &&& buf[i + 1] == 10u8
    &&& buf[i + 2] == 13u8
    &&& buf[i + 3] == 10u8
}

/// The first position at or after `i` where `\r\n\r\n` starts, if any.
pub open spec fn header_end(buf: Seq<u8>, i: int) -> Option<int>
    decreases buf.len() - i,
{
    if i < 0 || i + 4 > buf.len() {
        None
    } else if separator_at(buf, i) {
        Some(i)
    } else {
        header_end(buf, i + 1)
    }
}

/// The status code that the header bytes announce: the second
/// whitespace-separated word of the first line of their lossy UTF-8 text,
/// read as a `u16`.
pub open spec fn status_code_of(header: Seq<u8>) -> Result<u16, HttpError> {
    status_code_in(utf8_lossy(header))
}

/// The status code that header text announces: the second
/// whitespace-separated word of its first line, read as a `u16`.
pub open spec fn status_code_in(text: Seq<char>) -> Result<u16, HttpError> {
    match first_line(text) {
        None => Err(HttpError::MalformedStatusLine),
        Some(line) => if words(line).len() < 2 {
            Err(HttpError::MalformedStatusLine)
        } else {
            match parse_unsigned(words(line)[1], 65535) {
                None => Err(HttpError::InvalidStatusCode),
                Some(code) => Ok(code as u16),
            }
        },
    }
}

/// Whether the body's lossy UTF-8 text contains the expected content, if
/// any is expected.
pub open spec fn content_match(body: Seq<u8>, expected: Option<Seq<char>>) -> Option<bool> {
    match expected {
        None => None,
        Some(e) => Some(contains(utf8_lossy(body), e)),
    }
}

/// The characters of an optional string slice.
pub open spec fn opt_str_view(s: Option<&str>) -> Option<Seq<char>> {
    match s {
        None => None,
        Some(t) => Some(t@),
    }
}

/// Whether `r` is what reading the raw response `buf` gives when `expected`
/// content is looked for: headers and body split at the first `\r\n\r\n`,
/// the status code from the status line, the BLAKE3 hash of the body and
/// whether the body contains the expected content. A body that is valid
/// UTF-8 is searched as the text it encodes.
pub open spec fn parse_outcome(buf: Seq<u8>, expected: Option<Seq<char>>, r: Result<ProbeResponse, HttpError>) -> bool {
    match header_end(buf, 0) {
        None => r == Err::<ProbeResponse, HttpError>(HttpError::MissingSeparator),
        Some(p) => match status_code_of(buf.take(p)) {
            Err(e) => r == Err::<ProbeResponse, HttpError>(e),
            Ok(code) => {
                &&& r is Ok
                &&& r->Ok_0.status_code == code
                &&& r->Ok_0.content_hash@ == blake3_hex(buf.skip(p + 4))
                &&& r->Ok_0.content_matched == content_match(buf.skip(p + 4), expected)
                &&& (expected is Some && vstd::utf8::valid_utf8(buf.skip(p + 4))
                    ==> r->Ok_0.content_matched == Some(contains(vstd::utf8::decode_utf8(buf.skip(p + 4)), expected->Some_0)))
            },
        },
    }
}

/// Copies `v[start..end]`.
fn copy_bytes(v: &Vec<u8>, start: usize, end: usize) -> (r: Vec<u8>)
    requires
        start <= end <= v@.len(),
    ensures
        r@ == v@.subrange(start as int, end as int),
{
    let mut r: Vec<u8> = Vec::new();
    let mut k = start;
    while k < end
        invariant
            start <= k <= end <= v@.len(),
            r@ == v@.subrange(start as int, k as int),
        decreases end - k,
    {
        r.push(v[k]);
        assert(v@.subrange(start as int, k + 1) =~= v@.subrange(start as int, k as int).push(v@[k as int]));
        k = k + 1;
    }
    r
}

proof fn lemma_header_end_bounds(buf: Seq<u8>, i: int)
    ensures
        header_end(buf, i) matches Some(p) ==> i <= p && separator_at(buf, p),
    decreases buf.len() - i,
{
    if !(i < 0 || i + 4 > buf.len()) && !separator_at(buf, i) {
        lemma_header_end_bounds(buf, i + 1);
    }
}

/// The position of the first `\r\n\r\n` in `buf`, if any.
fn find_header_end(buf: &Vec<u8>) -> (r: Option<usize>)
    ensures
        r is Some <==> header_end(buf@, 0) is Some,
        r matches Some(p) ==> p == header_end(buf@, 0)->Some_0 && p + 4 <= buf@.len(),
{
    proof {
        lemma_header_end_bounds(buf@, 0);
    }
    let n = buf.len();
    if n < 4 {
        return None;
    }
    let mut i: usize = 0;
    while i <= n - 4
        invariant
            n == buf@.len(),
            4 <= n,
            i <= n - 3,
            header_end(buf@, 0) == header_end(buf@, i as int),
        decreases n - i,
    {
        if buf[i] == 13 && buf[i + 1] == 10 && buf[i + 2] == 13 && buf[i + 3] == 10 {
            return Some(i);
        }
        i = i + 1;
    }
    None
}

/// Reads the status code from the text of the headers.
pub fn status_code_from_text(text: &Vec<char>) -> (r: Result<u16, HttpError>)
    ensures
        r == status_code_in(text@),
{
    let line = match first_line_of(text) {
        Some(line) => line,
        None => return Err(HttpError::MalformedStatusLine),
    };
    let word = match nth_word(&line, 1) {
        Some(word) => word,
        None => return Err(HttpError::MalformedStatusLine),
    };
    match parse_decimal(&word, 65535) {
        Some(code) => Ok(code as u16),
        None => Err(HttpError::InvalidStatusCode),
    }
}

/// Splits a raw response at the first `\r\n\r\n`, reads the status code from
/// the status line, hashes the body with BLAKE3 and, when content is
/// expected, tells whether the body contains it.
pub fn parse_response(response_buf: Vec<u8>, expected_content: Option<&str>) -> (r: Result<ProbeResponse, HttpError>)
    ensures
        parse_outcome(response_buf@, opt_str_view(expected_content), r),
{
    let pos = match find_header_end(&response_buf) {
        Some(p) => p,
        None => return Err(HttpError::MissingSeparator),
    };
    let n = response_buf.len();
    let header_bytes = copy_bytes(&response_buf, 0, pos);
    let body = copy_bytes(&response_buf, pos + 4, n);
    assert(header_bytes@ =~= response_buf@.take(pos as int));
    assert(body@ =~= response_buf@.skip(pos + 4));

    let header_text = decode_utf8_lossy(header_bytes.as_slice());
    let status_code = match status_code_from_text(&header_text) {
        Ok(code) => code,
        Err(e) => return Err(e),
    };

    let content_matched = match expected_content {
        Some(content) => {
            let body_text = decode_utf8_lossy(body.as_slice());
            let wanted = chars_of(content);
            Some(contains_chars(&body_text, &wanted))
        },
        None => None,
    };

    let content_hash = blake3_hash_hex(body.as_slice());
    Ok(ProbeResponse { status_code, content_hash, content_matched })
}

/// Reads what a probe received: a response that filled the whole read
/// buffer is refused, any other is parsed.
pub fn read_probe_response(response_buf: Vec<u8>, expected_content: Option<&str>) -> (r: Result<ProbeResponse, HttpError>)
    ensures
        response_buf@.len() == MAX_RESPONSE_SIZE ==> r == Err::<ProbeResponse, HttpError>(HttpError::TooLarge),
        response_buf@.len() != MAX_RESPONSE_SIZE ==> parse_outcome(response_buf@, opt_str_view(expected_content), r),
{
    if response_buf.len() == MAX_RESPONSE_SIZE {
        return Err(HttpError::TooLarge);
    }
    parse_response(response_buf, expected_content)
}

/// The body of a response depends on nothing before the separator: two
/// responses whose bodies are equal get the same content hash, whatever
/// their status lines and headers.
pub proof fn lemma_hash_depends_on_body_only(
    buf1: Seq<u8>,
    buf2: Seq<u8>,
    expected: Option<Seq<char>>,
    r1: Result<ProbeResponse, HttpError>,
    r2: Result<ProbeResponse, HttpError>,
)
    requires
        parse_outcome(buf1, expected, r1),
        parse_outcome(buf2, expected, r2),
        r1 is Ok,
        r2 is Ok,
        buf1.skip(header_end(buf1, 0)->Some_0 + 4) == buf2.skip(header_end(buf2, 0)->Some_0 + 4),
    ensures
        r1->Ok_0.content_hash@ == r2->Ok_0.content_hash@,
        r1->Ok_0.content_matched == r2->Ok_0.content_matched,
{
}

proof fn lemma_encode_utf8_concat(c1: Seq<char>, c2: Seq<char>)
    ensures
        vstd::utf8::encode_utf8(c1 + c2) == vstd::utf8::encode_utf8(c1) + vstd::utf8::encode_utf8(c2),
    decreases c1.len(),
{
    if c1.len() == 0 {
        assert(c1 + c2 =~= c2);
        assert(vstd::utf8::encode_utf8(c1) + vstd::utf8::encode_utf8(c2) =~= vstd::utf8::encode_utf8(c2));
    } else {
        lemma_encode_utf8_concat(c1.drop_first(), c2);
        assert((c1 + c2).drop_first() =~= c1.drop_first() + c2);
        assert((c1 + c2)[0] == c1[0]);
        assert(vstd::utf8::encode_utf8(c1 + c2) =~= vstd::utf8::encode_utf8(c1) + vstd::utf8::encode_utf8(c2));
    }
}

/// Valid UTF-8 pieces put one after another decode to their texts put one
/// after another.
proof fn lemma_decode_utf8_concat(b1: Seq<u8>, b2: Seq<u8>)
    requires
        vstd::utf8::valid_utf8(b1),
        vstd::utf8::valid_utf8(b2),
    ensures
        vstd::utf8::valid_utf8(b1 + b2),
        vstd::utf8::decode_utf8(b1 + b2) == vstd::utf8::decode_utf8(b1) + vstd::utf8::decode_utf8(b2),
{
    vstd::utf8::valid_utf8_concat(b1, b2);
    let c1 = vstd::utf8::decode_utf8(b1);
    let c2 = vstd::utf8::decode_utf8(b2);
    vstd::utf8::decode_utf8_encode_utf8(b1);
    vstd::utf8::decode_utf8_encode_utf8(b2);
    lemma_encode_utf8_concat(c1, c2);
    vstd::utf8::encode_utf8_decode_utf8(c1 + c2);
}

/// The expected content is looked for in the whole body: a response whose
/// body is valid UTF-8 counts as a match exactly when the expected text
/// stands at some position of the text that the body encodes.
pub proof fn lemma_content_found_at_some_position(buf: Seq<u8>, e: Seq<char>, r: Result<ProbeResponse, HttpError>)
    requires
        parse_outcome(buf, Some(e), r),
        r is Ok,
        vstd::utf8::valid_utf8(buf.skip(header_end(buf, 0)->Some_0 + 4)),
    ensures
        ({
            let text = vstd::utf8::decode_utf8(buf.skip(header_end(buf, 0)->Some_0 + 4));
            r->Ok_0.content_matched == Some(true) <==> exists|i: int|
                0 <= i && i + e.len() <= text.len() && #[trigger] text.subrange(i, i + e.len()) == e
        }),
{
    let text = vstd::utf8::decode_utf8(buf.skip(header_end(buf, 0)->Some_0 + 4));
    assert(r->Ok_0.content_matched == Some(contains(text, e)));
    if contains(text, e) {
        let i = choose|i: int| occurs_at(text, e, i);
        assert(0 <= i && i + e.len() <= text.len() && text.subrange(i, i + e.len()) == e);
    }
    if exists|i: int| 0 <= i && i + e.len() <= text.len() && #[trigger] text.subrange(i, i + e.len()) == e {
        let i = choose|i: int| 0 <= i && i + e.len() <= text.len() && #[trigger] text.subrange(i, i + e.len()) == e;
        assert(occurs_at(text, e, i));
    }
}

/// Where the expected content stands in the body does not matter: a body
/// that matches still matches when more text is put before it, after it, or
/// both, however long the body grows.
pub proof fn lemma_match_survives_surrounding_text(
    buf1: Seq<u8>,
    buf2: Seq<u8>,
    before: Seq<u8>,
    after: Seq<u8>,
    e: Seq<char>,
    r1: Result<ProbeResponse, HttpError>,
    r2: Result<ProbeResponse, HttpError>,
)
    requires
        parse_outcome(buf1, Some(e), r1),
        parse_outcome(buf2, Some(e), r2),
        r1 is Ok,
        r2 is Ok,
        buf2.skip(header_end(buf2, 0)->Some_0 + 4) == before + buf1.skip(header_end(buf1, 0)->Some_0 + 4) + after,
        vstd::utf8::valid_utf8(before),
        vstd::utf8::valid_utf8(buf1.skip(header_end(buf1, 0)->Some_0 + 4)),
        vstd::utf8::valid_utf8(after),
        r1->Ok_0.content_matched == Some(true),
    ensures
        r2->Ok_0.content_matched == Some(true),
{
    let body = buf1.skip(header_end(buf1, 0)->Some_0 + 4);
    lemma_decode_utf8_concat(before, body);
    lemma_decode_utf8_concat(before + body, after);
    let t0 = vstd::utf8::decode_utf8(before);
    let t1 = vstd::utf8::decode_utf8(body);
    let t2 = vstd::utf8::decode_utf8(after);
    let whole = vstd::utf8::decode_utf8(before + body + after);
    assert(whole == t0 + t1 + t2);
    let i = choose|i: int| occurs_at(t1, e, i);
    let j = t0.len() + i;
    assert(whole.subrange(j, j + e.len()) =~= t1.subrange(i, i + e.len()));
    assert(occurs_at(whole, e, j));
}

} // verus!
