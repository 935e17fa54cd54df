//! Path of Building share codes: URL-safe base64 of zlib-compressed XML,
//! with raw XML passed through unchanged.

use vstd::prelude::*;

use crate::pob::{PobError, PobErrorView};
use crate::text::{
    chars_of, char_utf8_len_exec, copy_range, is_ascii_ws, is_ascii_ws_exec, lemma_utf8_len_push,
    owned, starts_with, starts_with_chars, string_of, trim, trim_bounds, trim_start,
    trim_start_index, utf8_len,
};

verus! {

/// Largest inflated build accepted, in bytes.
pub const MAX_INFLATED_BYTES: u64 = 67108864;

/// Largest pasted input accepted, in bytes, checked before any decoding.
pub const MAX_INPUT_BYTES: usize = 2097152;

// ---------------------------------------------------------------------
// Outside calls
// ---------------------------------------------------------------------

/// What `base64`'s padded URL-safe engine decodes `code` to, or the
/// message of its error.
pub uninterp spec fn url_safe_decode_of(code: Seq<char>) -> Result<Seq<u8>, Seq<char>>;

/// What `base64`'s unpadded URL-safe engine decodes `code` to, or the
/// message of its error.
pub uninterp spec fn url_safe_no_pad_decode_of(code: Seq<char>) -> Result<Seq<u8>, Seq<char>>;

/// The bytes that zlib-inflating `bytes` yields, read to the end through
/// a `limit`-byte window, or the message of the read error.
pub uninterp spec fn zlib_inflate_of(bytes: Seq<u8>, limit: u64) -> Result<Seq<u8>, Seq<char>>;

/// `bytes` read as UTF-8, or the message of the decoding error.
pub uninterp spec fn utf8_decode_of(bytes: Seq<u8>) -> Result<Seq<char>, Seq<char>>;

/// `base64::engine::general_purpose::URL_SAFE.decode`. The decoding and
/// its error message are left to the name.
#[verifier::external_body]
fn decode_url_safe(code: &str) -> (r: Result<Vec<u8>, String>)
    ensures
        (match r {
            Ok(b) => url_safe_decode_of(code@) == Ok::<Seq<u8>, Seq<char>>(b@),
            Err(m) => url_safe_decode_of(code@) == Err::<Seq<u8>, Seq<char>>(m@),
        }),
{
    match base64::Engine::decode(&base64::engine::general_purpose::URL_SAFE, code) {
        Ok(b) => Ok(b),
        Err(e) => Err(e.to_string()),
    }
}

/// `base64::engine::general_purpose::URL_SAFE_NO_PAD.decode`. The
/// decoding and its error message are left to the name.
#[verifier::external_body]
fn decode_url_safe_no_pad(code: &str) -> (r: Result<Vec<u8>, String>)
    ensures
        (match r {
            Ok(b) => url_safe_no_pad_decode_of(code@) == Ok::<Seq<u8>, Seq<char>>(b@),
            Err(m) => url_safe_no_pad_decode_of(code@) == Err::<Seq<u8>, Seq<char>>(m@),
        }),
{
    match base64::Engine::decode(&base64::engine::general_purpose::URL_SAFE_NO_PAD, code) {
        Ok(b) => Ok(b),
        Err(e) => Err(e.to_string()),
    }
}

/// `flate2::read::ZlibDecoder` over `bytes`, read to the end through
/// `Read::take(limit)`. Stated: the outcome is a function of the
/// arguments, and at most `limit` bytes come back (`take`'s promise). The
/// inflated bytes themselves are left to the name.
#[verifier::external_body]
fn inflate_at_most(bytes: &[u8], limit: u64) -> (r: Result<Vec<u8>, String>)
    ensures
        (match r {
            Ok(b) => zlib_inflate_of(bytes@, limit) == Ok::<Seq<u8>, Seq<char>>(b@),
            Err(m) => zlib_inflate_of(bytes@, limit) == Err::<Seq<u8>, Seq<char>>(m@),
        }),
        r matches Ok(b) ==> b@.len() <= limit,
{
    let mut buf = Vec::new();
    let mut window = std::io::Read::take(flate2::read::ZlibDecoder::new(bytes), limit);
    match std::io::Read::read_to_end(&mut window, &mut buf) {
        Ok(_) => Ok(buf),
        Err(e) => Err(e.to_string()),
    }
}

/// `reader` read to the end through `Read::take(limit)`. Stated: at most
/// `limit` bytes come back. What a reader yields is its own affair.
#[verifier::external_body]
fn read_at_most<R: std::io::Read>(reader: R, limit: u64) -> (r: Result<Vec<u8>, String>)
    ensures
        r matches Ok(b) ==> b@.len() <= limit,
{
    let mut buf = Vec::new();
    let mut window = std::io::Read::take(reader, limit);
    match std::io::Read::read_to_end(&mut window, &mut buf) {
        Ok(_) => Ok(buf),
        Err(e) => Err(e.to_string()),
    }
}

/// `String::from_utf8`. The decoding and its error message are left to
/// the name.
#[verifier::external_body]
fn utf8_string(bytes: Vec<u8>) -> (r: Result<String, String>)
    ensures
        (match r {
            Ok(s) => utf8_decode_of(bytes@) == Ok::<Seq<char>, Seq<char>>(s@),
            Err(m) => utf8_decode_of(bytes@) == Err::<Seq<char>, Seq<char>>(m@),
        }),
{
    match String::from_utf8(bytes) {
        Ok(s) => Ok(s),
        Err(e) => Err(e.to_string()),
    }
}

// ---------------------------------------------------------------------
// Specification
// ---------------------------------------------------------------------

pub open spec fn text_result(r: Result<String, PobError>) -> Result<Seq<char>, PobErrorView> {
    match r {
        Ok(s) => Ok(s@),
        Err(e) => Err(e.deep_view()),
    }
}

pub open spec fn bytes_result(r: Result<Vec<u8>, PobError>) -> Result<Seq<u8>, PobErrorView> {
    match r {
        Ok(b) => Ok(b@),
        Err(e) => Err(e.deep_view()),
    }
}

/// `s` with every ASCII whitespace character taken out.
pub open spec fn without_ascii_ws(s: Seq<char>) -> Seq<char>
    decreases s.len(),
{
    if s.len() == 0 {
        s
    } else if is_ascii_ws(s.last()) {
        without_ascii_ws(s.drop_last())
    } else {
        without_ascii_ws(s.drop_last()).push(s.last())
    }
}

/// The padded alphabet first; when it fails, the unpadded one, whose
/// error is the one reported.
pub open spec fn base64_spec(code: Seq<char>) -> Result<Seq<u8>, PobErrorView> {
    match url_safe_decode_of(code) {
        Ok(b) => Ok(b),
        Err(_) => match url_safe_no_pad_decode_of(code) {
            Ok(b) => Ok(b),
            Err(m) => Err(PobErrorView::Decode(m)),
        },
    }
}

/// A read through a `limit + 1`-byte window, refused when it filled the
/// window.
pub open spec fn capped_spec(read: Result<Seq<u8>, Seq<char>>, limit: u64) -> Result<Seq<u8>, PobErrorView> {
    match read {
        Err(m) => Err(PobErrorView::Decode(m)),
        Ok(b) => if b.len() > limit {
            Err(PobErrorView::Decode("build too large"@))
        } else {
            Ok(b)
        },
    }
}

/// Decoded text, accepted when it starts with `<` after leading whitespace.
pub open spec fn xml_text_spec(decoded: Result<Seq<char>, Seq<char>>) -> Result<Seq<char>, PobErrorView> {
    match decoded {
        Err(m) => Err(PobErrorView::Decode(m)),
        Ok(x) => if starts_with(trim_start(x), "<"@) {
            Ok(x)
        } else {
            Err(PobErrorView::Decode("decoded content does not look like XML"@))
        },
    }
}

pub open spec fn inflate_spec(bytes: Seq<u8>) -> Result<Seq<char>, PobErrorView> {
    match capped_spec(zlib_inflate_of(bytes, (MAX_INFLATED_BYTES + 1) as u64), MAX_INFLATED_BYTES) {
        Err(e) => Err(e),
        Ok(b) => xml_text_spec(utf8_decode_of(b)),
    }
}

/// What a pasted share code (or raw XML) decodes to.
pub open spec fn decode_spec(code: Seq<char>) -> Result<Seq<char>, PobErrorView> {
    let t = trim(code);
    if t.len() == 0 {
        Err(PobErrorView::NotACode)
    } else if utf8_len(t) > MAX_INPUT_BYTES {
        Err(PobErrorView::Decode("input too large"@))
    } else if starts_with(t, "http"@) {
        Err(PobErrorView::UrlNotSupported)
    } else if starts_with(t, "<"@) {
        Ok(code)
    } else {
        match base64_spec(without_ascii_ws(t)) {
            Err(e) => Err(e),
            Ok(b) => inflate_spec(b),
        }
    }
}

// ---------------------------------------------------------------------
// Implementation
// ---------------------------------------------------------------------

/// Whether the UTF-8 encoding of `v[lo..hi]` is longer than `max` bytes.
fn utf8_longer_than(v: &Vec<char>, lo: usize, hi: usize, max: usize) -> (b: bool)
    requires
        lo <= hi <= v.len(),
    ensures
        b == (utf8_len(v@.subrange(lo as int, hi as int)) > max),
{
    let ghost s = v@.subrange(lo as int, hi as int);
    let mut k: usize = lo;
    let mut n: u128 = 0;
    while k < hi
        invariant
            lo <= k <= hi <= v.len(),
            s == v@.subrange(lo as int, hi as int),
            n == utf8_len(v@.subrange(lo as int, k as int)),
            n <= 4 * (k - lo),
        decreases hi - k,
    {
        let w = char_utf8_len_exec(v[k]);
        proof {
            assert(v@.subrange(lo as int, k + 1) =~= v@.subrange(lo as int, k as int).push(v@[k as int]));
            lemma_utf8_len_push(v@.subrange(lo as int, k as int), v@[k as int]);
        }
        n = n + w as u128;
        k += 1;
    }
    n > max as u128
}

/// `v[lo..hi]` without its ASCII whitespace.
fn strip_ascii_ws(v: &Vec<char>, lo: usize, hi: usize) -> (out: Vec<char>)
    requires
        lo <= hi <= v.len(),
    ensures
        out@ == without_ascii_ws(v@.subrange(lo as int, hi as int)),
{
    let mut out: Vec<char> = Vec::new();
    let mut k: usize = lo;
    while k < hi
        invariant
            lo <= k <= hi <= v.len(),
            out@ == without_ascii_ws(v@.subrange(lo as int, k as int)),
        decreases hi - k,
    {
        let c = v[k];
        proof {
            let t = v@.subrange(lo as int, k + 1);
            assert(t.drop_last() =~= v@.subrange(lo as int, k as int));
            assert(t.last() == c);
        }
        if !is_ascii_ws_exec(c) {
            out.push(c);
        }
        k += 1;
    }
    out
}

/// A read made through a `limit + 1`-byte window, refused with
/// "build too large" when the window filled, i.e. the source held more
/// than `limit` bytes.
pub fn capped(read: Result<Vec<u8>, String>, limit: u64) -> (r: Result<Vec<u8>, PobError>)
    ensures
        bytes_result(r) == capped_spec(
            match read {
                Ok(b) => Ok::<Seq<u8>, Seq<char>>(b@),
                Err(m) => Err::<Seq<u8>, Seq<char>>(m@),
            },
            limit,
        ),
{
    match read {
        Err(m) => Err(PobError::Decode(m)),
        Ok(b) => {
            if b.len() as u64 > limit {
                Err(PobError::Decode(owned("build too large")))
            } else {
                Ok(b)
            }
        },
    }
}

/// Decoded text accepted as XML when, after leading whitespace, it starts
/// with `<`; a decoding error becomes `PobError::Decode` with its message.
pub fn xml_text(decoded: Result<String, String>) -> (r: Result<String, PobError>)
    ensures
        text_result(r) == xml_text_spec(
            match decoded {
                Ok(s) => Ok::<Seq<char>, Seq<char>>(s@),
                Err(m) => Err::<Seq<char>, Seq<char>>(m@),
            },
        ),
{
    match decoded {
        Err(m) => Err(PobError::Decode(m)),
        Ok(x) => {
            let v = chars_of(x.as_str());
            let a = trim_start_index(&v, 0, v.len());
            let rest = copy_range(&v, a, v.len());
            let lt = chars_of("<");
            proof {
                assert(v@.subrange(0, v@.len() as int) =~= v@);
            }
            if starts_with_chars(&rest, &lt) {
                Ok(x)
            } else {
                Err(PobError::Decode(owned("decoded content does not look like XML")))
            }
        },
    }
}

/// How many bytes to read to tell whether a source holds more than
/// `limit`: one past the limit.
pub fn read_window(limit: u64) -> (w: u64)
    requires
        limit < u64::MAX,
    ensures
        w == limit + 1,
{
    limit + 1
}

/// Everything `reader` yields, refused with "build too large" when that is
/// more than `limit` bytes; at most `read_window(limit)` bytes are ever
/// read, and what came back is judged by `capped`.
pub fn read_capped<R: std::io::Read>(reader: R, limit: u64) -> (r: Result<Vec<u8>, PobError>)
    requires
        limit < u64::MAX,
    ensures
        r matches Ok(b) ==> b@.len() <= limit,
        r matches Err(e) ==> e is Decode,
{
    let window = read_window(limit);
    let read = read_at_most(reader, window);
    capped(read, limit)
}

fn decode_base64(code: &str) -> (r: Result<Vec<u8>, PobError>)
    ensures
        bytes_result(r) == base64_spec(code@),
{
    match decode_url_safe(code) {
        Ok(b) => Ok(b),
        Err(_) => match decode_url_safe_no_pad(code) {
            Ok(b) => Ok(b),
            Err(m) => Err(PobError::Decode(m)),
        },
    }
}

fn inflate(bytes: &[u8]) -> (r: Result<String, PobError>)
    ensures
        text_result(r) == inflate_spec(bytes@),
{
    let window = read_window(MAX_INFLATED_BYTES);
    let read = inflate_at_most(bytes, window);
    match capped(read, MAX_INFLATED_BYTES) {
        Err(e) => Err(e),
        Ok(b) => xml_text(utf8_string(b)),
    }
}

/// Decodes a pasted share code to its build XML. Raw XML (starting with
/// `<` once trimmed) comes back exactly as given; URLs and empty or
/// oversized input are refused before any decoding; line wrapping inside
/// a code is ignored.
pub fn decode_share_code(code: &str) -> (r: Result<String, PobError>)
    ensures
        text_result(r) == decode_spec(code@),
{
    let v = chars_of(code);
    let (a, b) = trim_bounds(&v, 0, v.len());
    proof {
        assert(v@.subrange(0, v@.len() as int) =~= v@);
    }
    if a == b {
        return Err(PobError::NotACode);
    }
    if utf8_longer_than(&v, a, b, MAX_INPUT_BYTES) {
        return Err(PobError::Decode(owned("input too large")));
    }
    let t = copy_range(&v, a, b);
    if starts_with_chars(&t, &chars_of("http")) {
        return Err(PobError::UrlNotSupported);
    }
    if starts_with_chars(&t, &chars_of("<")) {
        return Ok(owned(code));
    }
    let stripped = string_of(&strip_ascii_ws(&v, a, b));
    match decode_base64(stripped.as_str()) {
        Err(e) => Err(e),
        Ok(bytes) => inflate(bytes.as_slice()),
    }
}

} // verus!
