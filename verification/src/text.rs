//! Character-level text helpers shared by the parsers.
//!
//! Text is handled as `Seq<char>` in specifications and as `Vec<char>` in
//! executable code; `String`s are converted at the edges with `chars_of`
//! and `string_of`.

use vstd::prelude::*;

verus! {

// ---------------------------------------------------------------------
// Specifications
// ---------------------------------------------------------------------

/// Unicode `White_Space`, the set `char::is_whitespace` and `str::trim` use.
pub open spec fn is_ws(c: char) -> bool {
    ||| ('\t' <= c && c <= '\r')
    ||| c == ' '
    ||| c == '\u{85}'
    ||| c == '\u{a0}'
    ||| c == '\u{1680}'
    ||| ('\u{2000}' <= c && c <= '\u{200a}')
    ||| c == '\u{2028}'
    ||| c == '\u{2029}'
    ||| c == '\u{202f}'
    ||| c == '\u{205f}'
    ||| c == '\u{3000}'
}

/// ASCII whitespace as `char::is_ascii_whitespace` defines it.
pub open spec fn is_ascii_ws(c: char) -> bool {
    c == ' ' || c == '\t' || c == '\n' || c == '\u{0c}' || c == '\r'
}

pub open spec fn is_digit(c: char) -> bool {
    '0' <= c && c <= '9'
}

/// `s` with leading whitespace removed (`str::trim_start`).
pub open spec fn trim_start(s: Seq<char>) -> Seq<char>
    decreases s.len(),
{
    if s.len() > 0 && is_ws(s[0]) {
        trim_start(s.drop_first())
    } else {
        s
    }
}

/// `s` with trailing whitespace removed (`str::trim_end`).
pub open spec fn trim_end(s: Seq<char>) -> Seq<char>
    decreases s.len(),
{
    if s.len() > 0 && is_ws(s.last()) {
        trim_end(s.drop_last())
    } else {
        s
    }
}

/// `s` with whitespace removed at both ends (`str::trim`).
pub open spec fn trim(s: Seq<char>) -> Seq<char> {
    trim_end(trim_start(s))
}

/// Whether `pat` occurs in `s` starting at index `i`.
pub open spec fn occurs_at(s: Seq<char>, i: int, pat: Seq<char>) -> bool {
    0 <= i && i + pat.len() <= s.len() && s.subrange(i, i + pat.len()) == pat
}

/// The first index at or after `i` where `pat` occurs in `s`.
pub open spec fn find_from(s: Seq<char>, pat: Seq<char>, i: int) -> Option<int>
    decreases s.len() + 1 - i,
{
    if i < 0 || i + pat.len() > s.len() {
        None
    } else if occurs_at(s, i, pat) {
        Some(i)
    } else {
        find_from(s, pat, i + 1)
    }
}

/// The first index where `pat` occurs in `s` (`str::find`).
pub open spec fn find(s: Seq<char>, pat: Seq<char>) -> Option<int> {
    find_from(s, pat, 0)
}

/// The last index before `hi` where `c` occurs in `s` (`str::rfind`).
pub open spec fn rfind_before(s: Seq<char>, c: char, hi: int) -> Option<int>
    decreases hi,
{
    if hi <= 0 {
        None
    } else if s[hi - 1] == c {
        Some(hi - 1)
    } else {
        rfind_before(s, c, hi - 1)
    }
}

pub open spec fn rfind_char(s: Seq<char>, c: char) -> Option<int> {
    rfind_before(s, c, s.len() as int)
}

/// The last index at or before `i` where `pat` occurs in `s`.
pub open spec fn rfind_at_most(s: Seq<char>, pat: Seq<char>, i: int) -> Option<int>
    decreases i + 1,
{
    if i < 0 {
        None
    } else if occurs_at(s, i, pat) {
        Some(i)
    } else {
        rfind_at_most(s, pat, i - 1)
    }
}

/// The last index where `pat` occurs in `s` (`str::rfind`).
pub open spec fn rfind(s: Seq<char>, pat: Seq<char>) -> Option<int> {
    rfind_at_most(s, pat, s.len() - pat.len())
}

pub open spec fn starts_with(s: Seq<char>, pat: Seq<char>) -> bool {
    pat.len() <= s.len() && s.take(pat.len() as int) == pat
}

pub open spec fn ends_with(s: Seq<char>, pat: Seq<char>) -> bool {
    pat.len() <= s.len() && s.skip(s.len() - pat.len()) == pat
}

/// The value of a string of decimal digits.
pub open spec fn digits_value(s: Seq<char>) -> nat
    decreases s.len(),
{
    if s.len() == 0 {
        0
    } else {
        digits_value(s.drop_last()) * 10 + ((s.last() as int - '0' as int) as nat)
    }
}

pub open spec fn all_digits(s: Seq<char>) -> bool {
    forall|i: int| 0 <= i < s.len() ==> is_digit(#[trigger] s[i])
}

/// What `str::parse` yields for an unsigned integer type whose largest
/// value is `max`: an optional `+`, then one or more decimal digits whose
/// value does not exceed `max`.
pub open spec fn parse_unsigned(s: Seq<char>, max: nat) -> Option<nat> {
    let d = if s.len() > 0 && s[0] == '+' {
        s.drop_first()
    } else {
        s
    };
    if d.len() == 0 || !all_digits(d) || digits_value(d) > max {
        None
    } else {
        Some(digits_value(d))
    }
}

pub open spec fn digit_char(d: nat) -> char {
    (d + '0' as nat) as char
}

/// The decimal representation of `n`, as `format!("{n}")` writes it.
pub open spec fn decimal(n: nat) -> Seq<char>
    decreases n,
{
    if n < 10 {
        seq![digit_char(n)]
    } else {
        decimal(n / 10).push(digit_char(n % 10))
    }
}

/// Number of bytes of the UTF-8 encoding of `c` (`char::len_utf8`).
pub open spec fn char_utf8_len(c: char) -> nat {
    if (c as u32) < 0x80 {
        1
    } else if (c as u32) < 0x800 {
        2
    } else if (c as u32) < 0x10000 {
        3
    } else {
        4
    }
}

/// Number of bytes of the UTF-8 encoding of `s` (`str::len`).
pub open spec fn utf8_len(s: Seq<char>) -> nat
    decreases s.len(),
{
    if s.len() == 0 {
        0
    } else {
        utf8_len(s.drop_last()) + char_utf8_len(s.last())
    }
}

/// The prefix of `s` whose UTF-8 encoding is exactly `n` bytes long, when
/// one exists (`str::get(..n)`).
pub open spec fn byte_prefix(s: Seq<char>, n: nat) -> Option<Seq<char>> {
    if exists|k: int| 0 <= k <= s.len() && utf8_len(#[trigger] s.take(k)) == n {
        Some(s.take(choose|k: int| 0 <= k <= s.len() && utf8_len(#[trigger] s.take(k)) == n))
    } else {
        None
    }
}

// ---------------------------------------------------------------------
// Lemmas
// ---------------------------------------------------------------------

pub proof fn lemma_trim_start_step(s: Seq<char>, i: int, hi: int)
    requires
        0 <= i < hi <= s.len(),
        is_ws(s[i]),
    ensures
        trim_start(s.subrange(i, hi)) == trim_start(s.subrange(i + 1, hi)),
{
    assert(s.subrange(i, hi).drop_first() =~= s.subrange(i + 1, hi));
}

pub proof fn lemma_trim_end_step(s: Seq<char>, lo: int, j: int)
    requires
        0 <= lo < j <= s.len(),
        is_ws(s[j - 1]),
    ensures
        trim_end(s.subrange(lo, j)) == trim_end(s.subrange(lo, j - 1)),
{
    assert(s.subrange(lo, j).drop_last() =~= s.subrange(lo, j - 1));
}

pub proof fn lemma_utf8_len_push(s: Seq<char>, c: char)
    ensures
        utf8_len(s.push(c)) == utf8_len(s) + char_utf8_len(c),
{
    assert(s.push(c).drop_last() =~= s);
}

pub proof fn lemma_utf8_len_monotone(s: Seq<char>, a: int, b: int)
    requires
        0 <= a <= b <= s.len(),
    ensures
        utf8_len(s.take(a)) + (b - a) <= utf8_len(s.take(b)),
    decreases b - a,
{
    if a < b {
        lemma_utf8_len_monotone(s, a, b - 1);
        assert(s.take(b) =~= s.take(b - 1).push(s[b - 1]));
        lemma_utf8_len_push(s.take(b - 1), s[b - 1]);
    }
}

pub proof fn lemma_digits_value_push(s: Seq<char>, c: char)
    ensures
        digits_value(s.push(c)) == digits_value(s) * 10 + ((c as int - '0' as int) as nat),
{
    assert(s.push(c).drop_last() =~= s);
}

// ---------------------------------------------------------------------
// Executable helpers
// ---------------------------------------------------------------------

/// The characters of `s`, in order.
pub fn chars_of(s: &str) -> (out: Vec<char>)
    ensures
        out@ == s@,
{
    let mut out: Vec<char> = Vec::new();
    for c in it: s.chars()
        invariant
            out@ == it.seq().take(it.index() as int),
    {
        out.push(c);
    }
    out
}

/// `String::push`: the string gains `c` at its end, as its documentation
/// states.
#[verifier::external_body]
pub(crate) fn push_char(s: &mut String, c: char)
    ensures
        final(s)@ == old(s)@.push(c),
{
    s.push(c);
}

/// The string made of the characters `v[lo..hi]`.
pub fn string_of_range(v: &Vec<char>, lo: usize, hi: usize) -> (s: String)
    requires
        lo <= hi <= v.len(),
    ensures
        s@ == v@.subrange(lo as int, hi as int),
{
    let mut s = String::new();
    let mut i = lo;
    while i < hi
        invariant
            lo <= i <= hi <= v.len(),
            s@ == v@.subrange(lo as int, i as int),
        decreases hi - i,
    {
        push_char(&mut s, v[i]);
        assert(v@.subrange(lo as int, i + 1) =~= v@.subrange(lo as int, i as int).push(v@[i as int]));
        i += 1;
    }
    s
}

/// The string made of the characters of `v`.
pub fn string_of(v: &Vec<char>) -> (s: String)
    ensures
        s@ == v@,
{
    let s = string_of_range(v, 0, v.len());
    assert(v@.subrange(0, v@.len() as int) =~= v@);
    s
}

/// The characters `v[lo..hi]` as a new vector.
pub fn copy_range(v: &Vec<char>, lo: usize, hi: usize) -> (out: Vec<char>)
    requires
        lo <= hi <= v.len(),
    ensures
        out@ == v@.subrange(lo as int, hi as int),
{
    let mut out: Vec<char> = Vec::new();
    let mut i = lo;
    while i < hi
        invariant
            lo <= i <= hi <= v.len(),
            out@ == v@.subrange(lo as int, i as int),
        decreases hi - i,
    {
        out.push(v[i]);
        assert(v@.subrange(lo as int, i + 1) =~= v@.subrange(lo as int, i as int).push(v@[i as int]));
        i += 1;
    }
    out
}

/// Appends the characters of `src` to `dst`.
pub fn append_chars(dst: &mut Vec<char>, src: &Vec<char>)
    ensures
        final(dst)@ == old(dst)@ + src@,
{
    let mut i: usize = 0;
    while i < src.len()
        invariant
            i <= src.len(),
            dst@ == old(dst)@ + src@.take(i as int),
        decreases src.len() - i,
    {
        dst.push(src[i]);
        assert(src@.take(i + 1) =~= src@.take(i as int).push(src@[i as int]));
        i += 1;
    }
    assert(src@.take(src.len() as int) =~= src@);
}

/// Appends the characters of `s` to `dst`.
pub fn append_str(dst: &mut Vec<char>, s: &str)
    ensures
        final(dst)@ == old(dst)@ + s@,
{
    let cs = chars_of(s);
    append_chars(dst, &cs);
}

/// The characters of `s` as a new `String` (`str::to_string`).
pub fn owned(s: &str) -> (out: String)
    ensures
        out@ == s@,
{
    let cs = chars_of(s);
    string_of(&cs)
}

/// `char::is_whitespace`.
pub fn is_ws_exec(c: char) -> (b: bool)
    ensures
        b == is_ws(c),
{
    ('\t' <= c && c <= '\r') || c == ' ' || c == '\u{85}' || c == '\u{a0}' || c == '\u{1680}'
        || ('\u{2000}' <= c && c <= '\u{200a}') || c == '\u{2028}' || c == '\u{2029}'
        || c == '\u{202f}' || c == '\u{205f}' || c == '\u{3000}'
}

/// `char::is_ascii_whitespace`.
pub fn is_ascii_ws_exec(c: char) -> (b: bool)
    ensures
        b == is_ascii_ws(c),
{
    c == ' ' || c == '\t' || c == '\n' || c == '\u{0c}' || c == '\r'
}

/// Start of `trim_start(v[lo..hi])`.
pub fn trim_start_index(v: &Vec<char>, lo: usize, hi: usize) -> (k: usize)
    requires
        lo <= hi <= v.len(),
    ensures
        lo <= k <= hi,
        trim_start(v@.subrange(lo as int, hi as int)) == v@.subrange(k as int, hi as int),
        forall|j: int| lo <= j < k ==> is_ws(#[trigger] v@[j]),
        k < hi ==> !is_ws(v@[k as int]),
{
    let mut i = lo;
    while i < hi && is_ws_exec(v[i])
        invariant
            lo <= i <= hi <= v.len(),
            trim_start(v@.subrange(lo as int, hi as int)) == trim_start(v@.subrange(i as int, hi as int)),
            forall|j: int| lo <= j < i ==> is_ws(#[trigger] v@[j]),
        decreases hi - i,
    {
        proof {
            lemma_trim_start_step(v@, i as int, hi as int);
        }
        i += 1;
    }
    i
}

/// End of `trim_end(v[lo..hi])`.
pub fn trim_end_index(v: &Vec<char>, lo: usize, hi: usize) -> (k: usize)
    requires
        lo <= hi <= v.len(),
    ensures
        lo <= k <= hi,
        trim_end(v@.subrange(lo as int, hi as int)) == v@.subrange(lo as int, k as int),
        forall|j: int| k <= j < hi ==> is_ws(#[trigger] v@[j]),
        lo < k ==> !is_ws(v@[k - 1]),
{
    let mut j = hi;
    while j > lo && is_ws_exec(v[j - 1])
        invariant
            lo <= j <= hi <= v.len(),
            trim_end(v@.subrange(lo as int, hi as int)) == trim_end(v@.subrange(lo as int, j as int)),
            forall|t: int| j <= t < hi ==> is_ws(#[trigger] v@[t]),
        decreases j - lo,
    {
        proof {
            lemma_trim_end_step(v@, lo as int, j as int);
        }
        j -= 1;
    }
    j
}

/// Bounds of `trim(v[lo..hi])`.
pub fn trim_bounds(v: &Vec<char>, lo: usize, hi: usize) -> (r: (usize, usize))
    requires
        lo <= hi <= v.len(),
    ensures
        lo <= r.0 <= r.1 <= hi,
        trim(v@.subrange(lo as int, hi as int)) == v@.subrange(r.0 as int, r.1 as int),
{
    let a = trim_start_index(v, lo, hi);
    let b = trim_end_index(v, a, hi);
    (a, b)
}

/// Whether `pat` occurs in `v` at index `i`.
pub fn match_at(v: &Vec<char>, i: usize, pat: &Vec<char>) -> (b: bool)
    ensures
        b == occurs_at(v@, i as int, pat@),
{
    if pat.len() > v.len() || i > v.len() - pat.len() {
        return false;
    }
    let mut k: usize = 0;
    while k < pat.len()
        invariant
            i + pat.len() <= v.len(),
            k <= pat.len(),
            forall|t: int| 0 <= t < k ==> v@[i + t] == pat@[t],
        decreases pat.len() - k,
    {
        if v[i + k] != pat[k] {
            assert(v@.subrange(i as int, i + pat.len())[k as int] != pat@[k as int]);
            return false;
        }
        k += 1;
    }
    assert(v@.subrange(i as int, i + pat.len()) =~= pat@);
    true
}

/// The first index at or after `from` where `pat` occurs in `v`.
pub fn find_chars(v: &Vec<char>, pat: &Vec<char>, from: usize) -> (r: Option<usize>)
    ensures
        r matches Some(i) ==> find_from(v@, pat@, from as int) == Some(i as int) && occurs_at(v@, i as int, pat@) && from <= i,
        r is None ==> find_from(v@, pat@, from as int) is None,
{
    if pat.len() > v.len() {
        return None;
    }
    let last = v.len() - pat.len();
    let mut i = from;
    while i <= last
        invariant
            last == v.len() - pat.len(),
            from <= i,
            find_from(v@, pat@, from as int) == find_from(v@, pat@, i as int),
        decreases last + 1 - i,
    {
        if match_at(v, i, pat) {
            return Some(i);
        }
        if i == last {
            assert(find_from(v@, pat@, i + 1) is None);
            return None;
        }
        i += 1;
    }
    None
}

/// The last index before `hi` where `c` occurs in `v`.
pub fn rfind_char_before(v: &Vec<char>, c: char, hi: usize) -> (r: Option<usize>)
    requires
        hi <= v.len(),
    ensures
        r matches Some(i) ==> rfind_before(v@, c, hi as int) == Some(i as int) && i < hi && v@[i as int] == c,
        r is None ==> rfind_before(v@, c, hi as int) is None,
{
    let mut j = hi;
    while j > 0
        invariant
            j <= hi <= v.len(),
            rfind_before(v@, c, hi as int) == rfind_before(v@, c, j as int),
        decreases j,
    {
        if v[j - 1] == c {
            return Some(j - 1);
        }
        j -= 1;
    }
    None
}

/// The last index where `pat` occurs in `v`.
pub fn rfind_chars(v: &Vec<char>, pat: &Vec<char>) -> (r: Option<usize>)
    ensures
        r matches Some(i) ==> rfind(v@, pat@) == Some(i as int) && occurs_at(v@, i as int, pat@),
        r is None ==> rfind(v@, pat@) is None,
{
    if pat.len() > v.len() {
        return None;
    }
    let mut i = v.len() - pat.len();
    loop
        invariant
            i + pat.len() <= v.len(),
            rfind(v@, pat@) == rfind_at_most(v@, pat@, i as int),
        decreases i,
    {
        if match_at(v, i, pat) {
            return Some(i);
        }
        if i == 0 {
            assert(rfind_at_most(v@, pat@, -1) is None);
            return None;
        }
        i -= 1;
    }
}

/// Whether `v` starts with `pat`.
pub fn starts_with_chars(v: &Vec<char>, pat: &Vec<char>) -> (b: bool)
    ensures
        b == starts_with(v@, pat@),
{
    let b = match_at(v, 0, pat);
    proof {
        if pat@.len() <= v@.len() {
            assert(v@.subrange(0, pat@.len() as int) =~= v@.take(pat@.len() as int));
        }
    }
    b
}

/// Whether `v` ends with `pat`.
pub fn ends_with_chars(v: &Vec<char>, pat: &Vec<char>) -> (b: bool)
    ensures
        b == ends_with(v@, pat@),
{
    if pat.len() > v.len() {
        return false;
    }
    let b = match_at(v, v.len() - pat.len(), pat);
    proof {
        assert(v@.subrange(v@.len() - pat@.len(), v@.len() as int) =~= v@.skip(v@.len() - pat@.len()));
    }
    b
}

/// Parses `v[lo..hi]` as an unsigned integer no larger than `max`, as
/// `str::parse` does for the unsigned type whose largest value is `max`.
#[verifier::loop_isolation(false)]
pub fn parse_unsigned_range(v: &Vec<char>, lo: usize, hi: usize, max: u64) -> (r: Option<u64>)
    requires
        lo <= hi <= v.len(),
    ensures
        r matches Some(n) ==> parse_unsigned(v@.subrange(lo as int, hi as int), max as nat) == Some(n as nat),
        r is None ==> parse_unsigned(v@.subrange(lo as int, hi as int), max as nat) is None,
{
    let ghost s = v@.subrange(lo as int, hi as int);
    let mut start = lo;
    if lo < hi && v[lo] == '+' {
        start = lo + 1;
    }
    let ghost d = v@.subrange(start as int, hi as int);
    proof {
        if lo < hi && v@[lo as int] == '+' {
            assert(s.drop_first() =~= d);
        } else {
            assert(s =~= d);
        }
    }
    if start == hi {
        return None;
    }
    let mut acc: u64 = 0;
    let mut i = start;
    while i < hi
        invariant
            lo <= start <= i <= hi <= v.len(),
            start < hi,
            d == v@.subrange(start as int, hi as int),
            all_digits(v@.subrange(start as int, i as int)),
            acc as nat == digits_value(v@.subrange(start as int, i as int)),
            acc <= max,
        decreases hi - i,
    {
        let c = v[i];
        if !('0' <= c && c <= '9') {
            assert(d[i - start] == c);
            assert(!is_digit(d[i - start]));
            return None;
        }
        let dv = (c as u32 - '0' as u32) as u64;
        let ghost prefix = v@.subrange(start as int, i as int);
        proof {
            assert(v@.subrange(start as int, i + 1) =~= prefix.push(c));
            lemma_digits_value_push(prefix, c);
            assert(all_digits(v@.subrange(start as int, i + 1)));
        }
        if dv > max || acc > (max - dv) / 10 {
            // acc * 10 + dv > max; every longer prefix is at least as large.
            proof {
                assert(acc * 10 + dv > max) by (nonlinear_arith)
                    requires dv > max || acc > (max - dv) / 10;
                assert(d.take(i - start + 1) =~= v@.subrange(start as int, i + 1));
                lemma_digits_value_prefix_bound(d, i - start + 1, max as nat);
            }
            return None;
        }
        proof {
            assert(acc * 10 + dv <= max) by (nonlinear_arith)
                requires acc <= (max - dv) / 10, dv <= 9;
        }
        acc = acc * 10 + dv;
        i += 1;
    }
    assert(v@.subrange(start as int, hi as int) =~= d);
    Some(acc)
}

pub proof fn lemma_digits_value_prefix_bound(d: Seq<char>, k: int, max: nat)
    requires
        0 < k <= d.len(),
        all_digits(d.take(k)),
        digits_value(d.take(k)) > max,
    ensures
        all_digits(d) ==> digits_value(d) > max,
    decreases d.len() - k,
{
    if k < d.len() && all_digits(d) {
        assert(d.take(k + 1) =~= d.take(k).push(d[k]));
        lemma_digits_value_push(d.take(k), d[k]);
        assert(all_digits(d.take(k + 1)));
        lemma_digits_value_prefix_bound(d, k + 1, max);
    } else if k == d.len() {
        assert(d.take(k) =~= d);
    }
}

/// The decimal representation of `n`.
pub fn decimal_chars(n: u64) -> (out: Vec<char>)
    ensures
        out@ == decimal(n as nat),
    decreases n,
{
    if n < 10 {
        let c = char_from_digit(n as u32);
        let mut v: Vec<char> = Vec::new();
        v.push(c);
        assert(v@ =~= seq![digit_char(n as nat)]);
        v
    } else {
        let mut v = decimal_chars(n / 10);
        let c = char_from_digit((n % 10) as u32);
        v.push(c);
        v
    }
}

/// The ASCII digit for `d`.
pub fn char_from_digit(d: u32) -> (c: char)
    requires
        d < 10,
    ensures
        c == digit_char(d as nat),
{
    if d == 0 { '0' }
    else if d == 1 { '1' }
    else if d == 2 { '2' }
    else if d == 3 { '3' }
    else if d == 4 { '4' }
    else if d == 5 { '5' }
    else if d == 6 { '6' }
    else if d == 7 { '7' }
    else if d == 8 { '8' }
    else { '9' }
}

/// `char::len_utf8`.
pub fn char_utf8_len_exec(c: char) -> (n: usize)
    ensures
        n == char_utf8_len(c),
{
    let u = c as u32;
    if u < 0x80 {
        1
    } else if u < 0x800 {
        2
    } else if u < 0x10000 {
        3
    } else {
        4
    }
}

/// `str::get(..n)` on the characters `v`: the prefix whose UTF-8 encoding
/// is exactly `n` bytes, if there is one.
pub fn byte_prefix_len(v: &Vec<char>, n: usize) -> (r: Option<usize>)
    ensures
        r matches Some(k) ==> k <= v.len() && byte_prefix(v@, n as nat) == Some(v@.take(k as int)),
        r is None ==> byte_prefix(v@, n as nat) is None,
{
    let mut k: usize = 0;
    let mut bytes: u128 = 0;
    while k < v.len() && bytes < n as u128
        invariant
            k <= v.len(),
            bytes == utf8_len(v@.take(k as int)),
            bytes <= n + 3,
            forall|j: int| 0 <= j < k ==> utf8_len(#[trigger] v@.take(j)) < n,
        decreases v.len() - k,
    {
        let w = char_utf8_len_exec(v[k]);
        proof {
            assert(v@.take(k + 1) =~= v@.take(k as int).push(v@[k as int]));
            lemma_utf8_len_push(v@.take(k as int), v@[k as int]);
        }
        bytes = bytes + w as u128;
        k += 1;
    }
    if bytes == n as u128 {
        proof {
            lemma_byte_prefix_unique(v@, k as int, n as nat);
        }
        Some(k)
    } else {
        proof {
            assert forall|j: int| 0 <= j <= v@.len() implies utf8_len(#[trigger] v@.take(j)) != n by {
                if j > k {
                    lemma_utf8_len_monotone(v@, k as int, j);
                } else if j == k {
                } else {
                }
            }
        }
        None
    }
}

proof fn lemma_byte_prefix_unique(s: Seq<char>, k: int, n: nat)
    requires
        0 <= k <= s.len(),
        utf8_len(s.take(k)) == n,
    ensures
        byte_prefix(s, n) == Some(s.take(k)),
{
    let c = choose|j: int| 0 <= j <= s.len() && utf8_len(#[trigger] s.take(j)) == n;
    if c < k {
        lemma_utf8_len_monotone(s, c, k);
    } else if c > k {
        lemma_utf8_len_monotone(s, k, c);
    }
}


// ---------------------------------------------------------------------
// Searching for single characters
// ---------------------------------------------------------------------

/// The first index at or after `i` holding `c`.
pub open spec fn char_from(s: Seq<char>, c: char, i: int) -> Option<int>
    decreases s.len() - i,
{
    if i < 0 || i >= s.len() {
        None
    } else if s[i] == c {
        Some(i)
    } else {
        char_from(s, c, i + 1)
    }
}

pub proof fn lemma_char_from(s: Seq<char>, c: char, i: int)
    requires
        0 <= i,
    ensures
        char_from(s, c, i) matches Some(j) ==> i <= j < s.len() && s[j] == c
            && forall|k: int| i <= k < j ==> s[k] != c,
        char_from(s, c, i) is None ==> forall|k: int| i <= k < s.len() ==> s[k] != c,
    decreases s.len() - i,
{
    if i < s.len() && s[i] != c {
        lemma_char_from(s, c, i + 1);
    }
}

/// The first index at or after `from` holding `c`.
pub fn find_char_from(v: &Vec<char>, c: char, from: usize) -> (r: Option<usize>)
    ensures
        r matches Some(j) ==> char_from(v@, c, from as int) == Some(j as int) && from <= j < v.len()
            && v@[j as int] == c,
        r is None ==> char_from(v@, c, from as int) is None,
{
    let mut i = from;
    while i < v.len()
        invariant
            from <= i,
            char_from(v@, c, from as int) == char_from(v@, c, i as int),
        decreases v.len() - i,
    {
        if v[i] == c {
            return Some(i);
        }
        i += 1;
    }
    None
}


/// Whether two strings hold the same characters.
pub fn str_eq(a: &str, b: &str) -> (r: bool)
    ensures
        r == (a@ == b@),
{
    let x = chars_of(a);
    let y = chars_of(b);
    if x.len() != y.len() {
        return false;
    }
    let mut i: usize = 0;
    while i < x.len()
        invariant
            i <= x.len() == y.len(),
            x@ == a@,
            y@ == b@,
            forall|j: int| 0 <= j < i ==> x@[j] == y@[j],
        decreases x.len() - i,
    {
        if x[i] != y[i] {
            return false;
        }
        i += 1;
    }
    assert(x@ =~= y@);
    true
}


// ---------------------------------------------------------------------
// Lines
// ---------------------------------------------------------------------

/// `line` without one trailing `\r` when it was followed by a newline.
pub open spec fn strip_cr(line: Seq<char>, followed: bool) -> Seq<char> {
    if followed && line.len() > 0 && line.last() == '\r' {
        line.drop_last()
    } else {
        line
    }
}

/// The lines of `s` as `str::lines` yields them: split at `\n`, a `\r`
/// right before a `\n` dropped, and no empty line after a final `\n`.
pub open spec fn text_lines_spec(s: Seq<char>) -> Seq<Seq<char>> {
    let parts = crate::fragment::split_on(s, '\n');
    let kept = if parts.last().len() == 0 {
        parts.drop_last()
    } else {
        parts
    };
    Seq::new(kept.len(), |i: int| strip_cr(kept[i], i < parts.len() - 1))
}

/// The lines of `s` (`str::lines`).
pub fn text_lines(s: &str) -> (r: Vec<Vec<char>>)
    ensures
        r.deep_view() == text_lines_spec(s@),
{
    let v = chars_of(s);
    let parts = crate::fragment::split_chars(&v, '\n');
    proof {
        crate::fragment::lemma_parts_view(&parts);
    }
    let n = parts.len();
    let kept = if parts[n - 1].len() == 0 {
        n - 1
    } else {
        n
    };
    let mut out: Vec<Vec<char>> = Vec::new();
    let mut i: usize = 0;
    while i < kept
        invariant
            i <= kept <= n == parts.len(),
            kept == text_lines_spec(s@).len(),
            v@ == s@,
            forall|k: int| 0 <= k < n ==> #[trigger] parts.deep_view()[k] == parts@[k]@,
            parts.deep_view() == crate::fragment::split_on(v@, '\n'),
            out.deep_view() == text_lines_spec(s@).take(i as int),
        decreases kept - i,
    {
        let p = &parts[i];
        let followed = i < n - 1;
        let line = if followed && p.len() > 0 && p[p.len() - 1] == '\r' {
            copy_range(p, 0, p.len() - 1)
        } else {
            copy_range(p, 0, p.len())
        };
        proof {
            assert(p@.subrange(0, p@.len() as int) =~= p@);
            assert(p@.subrange(0, p@.len() - 1) =~= p@.drop_last());
            assert(line@ == text_lines_spec(s@)[i as int]);
        }
        let ghost before = out.deep_view();
        assert(line.deep_view() =~= line@);
        out.push(line);
        proof {
            assert(out.deep_view() =~= before.push(line@));
            assert(out.deep_view() =~= text_lines_spec(s@).take(i + 1));
        }
        i += 1;
    }
    assert(text_lines_spec(s@).take(kept as int) =~= text_lines_spec(s@));
    out
}

} // verus!
