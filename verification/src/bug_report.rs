//! Bug-report links: the issue form, prefilled with the newest diagnostic
//! log lines that fit a budget once percent-encoded.

use vstd::prelude::*;

use crate::text::{append_chars, append_str, chars_of, string_of, text_lines, text_lines_spec, trim, trim_bounds};

verus! {

/// The bug-report issue form.
pub const REPORT_BUG_BASE_URL: &'static str =
    "https://github.com/andrewli8/poe-campaign-copilot/issues/new?template=bug_report.yml";

/// Budget, in bytes, of the percent-encoded `details` value.
pub const ENCODED_DETAILS_BUDGET: usize = 5500;

/// How much of the log's end is read before selection.
pub const LOG_TAIL_BYTES: u64 = 16384;

// ---------------------------------------------------------------------
// Specification
// ---------------------------------------------------------------------

/// The UTF-8 encoding of `c`.
pub open spec fn utf8_bytes(c: char) -> Seq<u8> {
    let n = c as int;
    if n < 0x80 {
        seq![n as u8]
    } else if n < 0x800 {
        seq![(0xC0 + n / 64) as u8, (0x80 + n % 64) as u8]
    } else if n < 0x10000 {
        seq![(0xE0 + n / 4096) as u8, (0x80 + (n / 64) % 64) as u8, (0x80 + n % 64) as u8]
    } else {
        seq![
            (0xF0 + n / 262144) as u8,
            (0x80 + (n / 4096) % 64) as u8,
            (0x80 + (n / 64) % 64) as u8,
            (0x80 + n % 64) as u8,
        ]
    }
}

/// RFC 3986 unreserved: ASCII letters and digits, `-`, `.`, `_`, `~`.
pub open spec fn unreserved(b: u8) -> bool {
    (0x41 <= b <= 0x5A) || (0x61 <= b <= 0x7A) || (0x30 <= b <= 0x39) || b == 0x2D || b == 0x2E
        || b == 0x5F || b == 0x7E
}

pub open spec fn hex_digit(d: u8) -> char {
    if d < 10 {
        ((d + 0x30) as u8) as char
    } else {
        ((d - 10 + 0x41) as u8) as char
    }
}

/// A byte as it appears in a query value.
pub open spec fn pct_byte(b: u8) -> Seq<char> {
    if unreserved(b) {
        seq![b as char]
    } else {
        seq!['%', hex_digit(b / 16), hex_digit(b % 16)]
    }
}

pub open spec fn pct_bytes(bs: Seq<u8>) -> Seq<char>
    decreases bs.len(),
{
    if bs.len() == 0 {
        Seq::empty()
    } else {
        pct_bytes(bs.drop_last()) + pct_byte(bs.last())
    }
}

/// `s` percent-encoded, byte by byte of its UTF-8 encoding.
pub open spec fn pct(s: Seq<char>) -> Seq<char>
    decreases s.len(),
{
    if s.len() == 0 {
        Seq::empty()
    } else {
        pct(s.drop_last()) + pct_bytes(utf8_bytes(s.last()))
    }
}

/// The newest of `cands` whose encoded sizes (plus 3 for an encoded
/// newline each) fit `budget`, in their order, and whether any was left
/// out.
pub open spec fn select_rec(cands: Seq<Seq<char>>, budget: int) -> (Seq<Seq<char>>, bool)
    decreases cands.len(),
{
    if cands.len() == 0 {
        (Seq::empty(), false)
    } else {
        let cost = pct(cands.last()).len() + 3;
        if cost > budget {
            (Seq::empty(), true)
        } else {
            let (kept, omitted) = select_rec(cands.drop_last(), budget - cost);
            (kept.push(cands.last()), omitted)
        }
    }
}

pub open spec fn non_blank(lines: Seq<Seq<char>>) -> Seq<Seq<char>>
    decreases lines.len(),
{
    if lines.len() == 0 {
        lines
    } else if trim(lines.last()).len() > 0 {
        non_blank(lines.drop_last()).push(lines.last())
    } else {
        non_blank(lines.drop_last())
    }
}

/// Lines joined with `\n`.
pub open spec fn join_lines(lines: Seq<Seq<char>>) -> Seq<char>
    decreases lines.len(),
{
    if lines.len() == 0 {
        Seq::empty()
    } else if lines.len() == 1 {
        lines[0]
    } else {
        join_lines(lines.drop_last()) + "\n"@ + lines.last()
    }
}

pub open spec fn select_spec(log: Seq<char>, budget: int) -> (Seq<char>, bool) {
    let (kept, omitted) = select_rec(non_blank(text_lines_spec(log)), budget);
    (join_lines(kept), omitted)
}

pub open spec fn details_spec(version: Seq<char>, log_lines: Seq<char>, omitted: bool) -> Seq<char> {
    "<!-- Review before posting: remove anything you don't want public. Log lines can include file paths with your username. -->\n\nApp version: "@
        + version + "\n\nRecent log (newest last):\n```text\n"@ + (if omitted {
        "… (older lines omitted)\n"@
    } else {
        Seq::empty()
    }) + log_lines + "\n```"@
}

pub open spec fn bug_url_spec(version: Seq<char>, log_tail: Option<Seq<char>>) -> Seq<char> {
    match log_tail {
        None => REPORT_BUG_BASE_URL@,
        Some(log) => if trim(log).len() == 0 {
            REPORT_BUG_BASE_URL@
        } else {
            let (selected, omitted) = select_spec(log, ENCODED_DETAILS_BUDGET as int);
            REPORT_BUG_BASE_URL@ + "&details="@ + pct(details_spec(version, selected, omitted))
        },
    }
}

/// Characters that stand unencoded in a query value this module makes:
/// ASCII letters and digits, `-`, `.`, `_`, `~`, and `%`.
pub open spec fn query_safe(c: char) -> bool {
    ('A' <= c && c <= 'Z') || ('a' <= c && c <= 'z') || ('0' <= c && c <= '9') || c == '-' || c == '.'
        || c == '_' || c == '~' || c == '%'
}

proof fn lemma_pct_byte_safe(b: u8)
    ensures
        forall|i: int| 0 <= i < pct_byte(b).len() ==> query_safe(#[trigger] pct_byte(b)[i]),
{
    if !unreserved(b) {
        let hi = b / 16;
        let lo = b % 16;
        assert(query_safe(hex_digit(hi)));
        assert(query_safe(hex_digit(lo)));
        assert(pct_byte(b) == seq!['%', hex_digit(hi), hex_digit(lo)]);
    }
}

proof fn lemma_pct_bytes_safe(bs: Seq<u8>)
    ensures
        forall|i: int| 0 <= i < pct_bytes(bs).len() ==> query_safe(#[trigger] pct_bytes(bs)[i]),
    decreases bs.len(),
{
    if bs.len() > 0 {
        lemma_pct_bytes_safe(bs.drop_last());
        lemma_pct_byte_safe(bs.last());
        let a = pct_bytes(bs.drop_last());
        let b = pct_byte(bs.last());
        assert forall|i: int| 0 <= i < (a + b).len() implies query_safe(#[trigger] (a + b)[i]) by {
            if i < a.len() {
                assert((a + b)[i] == a[i]);
            } else {
                assert((a + b)[i] == b[i - a.len()]);
            }
        }
    }
}

/// A percent-encoded value holds no character with a meaning in a URL
/// query (no `&`, `=`, `?`, `#`, space or newline): only query-safe ones.
pub proof fn lemma_percent_encoded_is_query_safe(s: Seq<char>)
    ensures
        forall|i: int| 0 <= i < pct(s).len() ==> query_safe(#[trigger] pct(s)[i]),
    decreases s.len(),
{
    if s.len() > 0 {
        lemma_percent_encoded_is_query_safe(s.drop_last());
        lemma_pct_bytes_safe(utf8_bytes(s.last()));
        let a = pct(s.drop_last());
        let b = pct_bytes(utf8_bytes(s.last()));
        assert forall|i: int| 0 <= i < (a + b).len() implies query_safe(#[trigger] (a + b)[i]) by {
            if i < a.len() {
                assert((a + b)[i] == a[i]);
            } else {
                assert((a + b)[i] == b[i - a.len()]);
            }
        }
    }
}

/// The encoded size of lines, each with its encoded newline.
pub open spec fn encoded_cost(lines: Seq<Seq<char>>) -> int
    decreases lines.len(),
{
    if lines.len() == 0 {
        0
    } else {
        encoded_cost(lines.drop_last()) + pct(lines.last()).len() + 3
    }
}

/// The log lines kept for a report are the newest ones, in their order,
/// their encoded size within the budget; lines are left out exactly when
/// not all fit.
pub proof fn lemma_selection_is_newest_within_budget(cands: Seq<Seq<char>>, budget: int)
    requires
        budget >= 0,
    ensures
        ({
            let (kept, omitted) = select_rec(cands, budget);
            &&& encoded_cost(kept) <= budget
            &&& kept.len() <= cands.len()
            &&& kept == cands.subrange(cands.len() - kept.len(), cands.len() as int)
            &&& omitted == (kept.len() < cands.len())
        }),
    decreases cands.len(),
{
    if cands.len() > 0 {
        let cost = pct(cands.last()).len() + 3;
        if cost <= budget {
            lemma_selection_is_newest_within_budget(cands.drop_last(), budget - cost);
            let (k0, o0) = select_rec(cands.drop_last(), budget - cost);
            let kept = k0.push(cands.last());
            assert(kept.drop_last() =~= k0);
            assert(kept =~= cands.subrange(cands.len() - kept.len(), cands.len() as int));
        } else {
            assert(Seq::<Seq<char>>::empty() =~= cands.subrange(cands.len() as int, cands.len() as int));
        }
    } else {
        assert(cands.subrange(0, 0) =~= Seq::<Seq<char>>::empty());
    }
}

proof fn lemma_pct_append(a: Seq<char>, b: Seq<char>)
    ensures
        pct(a + b) == pct(a) + pct(b),
    decreases b.len(),
{
    if b.len() == 0 {
        assert(a + b =~= a);
        assert(pct(a) + pct(b) =~= pct(a));
    } else {
        assert((a + b).drop_last() =~= a + b.drop_last());
        assert((a + b).last() == b.last());
        lemma_pct_append(a, b.drop_last());
    }
}

/// Joined lines encode to no more than their encoded cost.
proof fn lemma_join_cost(lines: Seq<Seq<char>>)
    ensures
        pct(join_lines(lines)).len() <= encoded_cost(lines),
    decreases lines.len(),
{
    if lines.len() == 1 {
        assert(lines.drop_last() =~= Seq::<Seq<char>>::empty());
        assert(encoded_cost(lines.drop_last()) == 0);
        assert(lines.last() == lines[0]);
    } else if lines.len() > 1 {
        lemma_join_cost(lines.drop_last());
        let j = join_lines(lines.drop_last());
        lemma_pct_append(j, "\n"@);
        lemma_pct_append(j + "\n"@, lines.last());
        assert(pct("\n"@).len() == 3) by {
            reveal_strlit("\n");
            let nl = "\n"@;
            assert(nl.len() == 1 && nl[0] == '\n');
            assert(nl.drop_last() =~= Seq::<char>::empty());
            assert(nl.last() == '\n');
            let b = utf8_bytes('\n');
            assert(b =~= seq![10u8]);
            assert(b.drop_last() =~= Seq::<u8>::empty());
            assert(b.last() == 10u8);
            assert(!unreserved(10u8));
            assert(pct_byte(10u8).len() == 3);
            assert(pct_bytes(b) =~= pct_bytes(Seq::<u8>::empty()) + pct_byte(10u8));
            assert(pct(nl) =~= pct(Seq::<char>::empty()) + pct_bytes(b));
        }
        assert(join_lines(lines) == j + "\n"@ + lines.last());
        assert(pct(join_lines(lines)).len() == pct(j).len() + 3 + pct(lines.last()).len());
    }
}

/// A prefilled report link stays within the length of the form's address,
/// `&details=`, the encoded frame around the log (with the omission
/// marker), and the encoded budget for the log itself, however long the
/// log is.
pub proof fn lemma_report_url_bounded(version: Seq<char>, log_tail: Option<Seq<char>>)
    ensures
        bug_url_spec(version, log_tail).len() <= REPORT_BUG_BASE_URL@.len() + "&details="@.len() + pct(
            details_spec(version, Seq::empty(), true),
        ).len() + ENCODED_DETAILS_BUDGET,
{
    if let Some(log) = log_tail {
        if trim(log).len() != 0 {
            let cands = non_blank(text_lines_spec(log));
            let (kept, omitted) = select_rec(cands, ENCODED_DETAILS_BUDGET as int);
            lemma_selection_is_newest_within_budget(cands, ENCODED_DETAILS_BUDGET as int);
            lemma_join_cost(kept);
            let head = "<!-- Review before posting: remove anything you don't want public. Log lines can include file paths with your username. -->\n\nApp version: "@
                + version + "\n\nRecent log (newest last):\n```text\n"@;
            let marker: Seq<char> = if omitted {
                "… (older lines omitted)\n"@
            } else {
                Seq::empty()
            };
            let tail = "\n```"@;
            let sel = join_lines(kept);
            assert(details_spec(version, sel, omitted) =~= head + marker + sel + tail);
            assert(details_spec(version, Seq::empty(), true) =~= head + "… (older lines omitted)\n"@ + tail);
            lemma_pct_append(head + marker + sel, tail);
            lemma_pct_append(head + marker, sel);
            lemma_pct_append(head, marker);
            lemma_pct_append(head + "… (older lines omitted)\n"@, tail);
            lemma_pct_append(head, "… (older lines omitted)\n"@);
            assert(pct(Seq::<char>::empty()) =~= Seq::<char>::empty());
        }
    }
}

// ---------------------------------------------------------------------
// Implementation
// ---------------------------------------------------------------------

fn hex_char(d: u8) -> (c: char)
    requires
        d < 16,
    ensures
        c == hex_digit(d),
{
    if d < 10 {
        (d + 0x30) as char
    } else {
        (d - 10 + 0x41) as char
    }
}

fn push_byte(out: &mut Vec<char>, b: u8)
    ensures
        final(out)@ == old(out)@ + pct_byte(b),
{
    if (0x41 <= b && b <= 0x5A) || (0x61 <= b && b <= 0x7A) || (0x30 <= b && b <= 0x39) || b == 0x2D
        || b == 0x2E || b == 0x5F || b == 0x7E {
        out.push(b as char);
        assert(out@ =~= old(out)@ + pct_byte(b));
    } else {
        out.push('%');
        out.push(hex_char(b / 16));
        out.push(hex_char(b % 16));
        assert(out@ =~= old(out)@ + pct_byte(b));
    }
}

fn char_bytes(c: char) -> (r: Vec<u8>)
    ensures
        r@ == utf8_bytes(c),
{
    let n = c as u32;
    let mut r: Vec<u8> = Vec::new();
    if n < 0x80 {
        r.push(n as u8);
    } else if n < 0x800 {
        r.push((0xC0 + n / 64) as u8);
        r.push((0x80 + n % 64) as u8);
    } else if n < 0x10000 {
        r.push((0xE0 + n / 4096) as u8);
        r.push((0x80 + (n / 64) % 64) as u8);
        r.push((0x80 + n % 64) as u8);
    } else {
        r.push((0xF0 + n / 262144) as u8);
        r.push((0x80 + (n / 4096) % 64) as u8);
        r.push((0x80 + (n / 64) % 64) as u8);
        r.push((0x80 + n % 64) as u8);
    }
    assert(r@ =~= utf8_bytes(c));
    r
}

fn pct_chars(s: &Vec<char>) -> (out: Vec<char>)
    ensures
        out@ == pct(s@),
{
    let mut out: Vec<char> = Vec::new();
    let mut i: usize = 0;
    while i < s.len()
        invariant
            i <= s.len(),
            out@ == pct(s@.take(i as int)),
        decreases s.len() - i,
    {
        proof {
            assert(s@.take(i + 1).drop_last() =~= s@.take(i as int));
        }
        let bs = char_bytes(s[i]);
        let ghost base = out@;
        let mut k: usize = 0;
        assert(pct_bytes(bs@.take(0)) =~= Seq::<char>::empty());
        while k < bs.len()
            invariant
                k <= bs.len(),
                out@ == base + pct_bytes(bs@.take(k as int)),
            decreases bs.len() - k,
        {
            proof {
                assert(bs@.take(k + 1).drop_last() =~= bs@.take(k as int));
            }
            push_byte(&mut out, bs[k]);
            proof {
                assert(out@ =~= base + pct_bytes(bs@.take(k + 1)));
            }
            k += 1;
        }
        proof {
            assert(bs@.take(bs@.len() as int) =~= bs@);
        }
        i += 1;
    }
    assert(s@.take(s@.len() as int) =~= s@);
    out
}

/// `s` percent-encoded as a URL query value: unreserved ASCII passes
/// through, every other UTF-8 byte becomes `%XX`.
pub fn percent_encode(s: &str) -> (r: String)
    ensures
        r@ == pct(s@),
{
    let v = chars_of(s);
    let out = pct_chars(&v);
    string_of(&out)
}

/// The newest non-blank lines of `log` that fit `budget` once encoded, in
/// their order and joined by newlines, and whether older lines were left
/// out.
pub fn select_tail_lines(log: &str, budget: usize) -> (r: (String, bool))
    ensures
        (r.0@, r.1) == select_spec(log@, budget as int),
{
    let lines = text_lines(log);
    let ghost lv = lines.deep_view();
    // Non-blank candidates.
    let mut cands: Vec<Vec<char>> = Vec::new();
    let mut i: usize = 0;
    while i < lines.len()
        invariant
            i <= lines.len(),
            lv == lines.deep_view(),
            cands.deep_view() == non_blank(lv.take(i as int)),
            forall|k: int| 0 <= k < cands.len() ==> #[trigger] cands.deep_view()[k] == cands@[k]@,
        decreases lines.len() - i,
    {
        proof {
            assert(lv.take(i + 1).drop_last() =~= lv.take(i as int));
            assert(lines@[i as int].deep_view() =~= lines@[i as int]@);
        }
        let (a, b) = trim_bounds(&lines[i], 0, lines[i].len());
        proof {
            assert(lines@[i as int]@.subrange(0, lines@[i as int]@.len() as int) =~= lines@[i as int]@);
        }
        if a < b {
            let line = crate::text::copy_range(&lines[i], 0, lines[i].len());
            let ghost before = cands.deep_view();
            assert(line.deep_view() =~= line@);
            cands.push(line);
            proof {
                assert(cands.deep_view() =~= before.push(lv[i as int]));
            }
        }
        i += 1;
    }
    assert(lv.take(lv.len() as int) =~= lv);
    let ghost cv = cands.deep_view();
    // Newest first while the budget lasts.
    let mut spent: usize = 0;
    let mut omitted = false;
    let mut taken: usize = 0;
    let n = cands.len();
    proof {
        assert(cv.take(n as int) =~= cv);
        let (k0, o0) = select_rec(cv, budget as int);
        assert(k0 + cv.skip(n as int) =~= k0);
    }
    while taken < n && !omitted
        invariant
            taken <= n == cands.len(),
            cv == cands.deep_view(),
            forall|k: int| 0 <= k < n ==> #[trigger] cands.deep_view()[k] == cands@[k]@,
            spent <= budget,
            omitted ==> taken < n && pct(cv[n - 1 - taken]).len() + 3 > budget - spent,
            select_rec(cv, budget as int) == {
                let (kept, om) = select_rec(cv.take(n - taken), budget - spent);
                (kept + cv.skip(n - taken), om)
            },
        decreases n - taken + (if omitted { 0int } else { 1int }),
    {
        let idx = n - 1 - taken;
        let enc = pct_chars(&cands[idx]);
        let cost = enc.len();
        proof {
            assert(cv.take(n - taken).drop_last() =~= cv.take(idx as int));
            assert(cv.take(n - taken).last() == cv[idx as int]);
        }
        if cost > budget - spent || budget - spent - cost < 3 {
            omitted = true;
        } else {
            proof {
                let (kept, om) = select_rec(cv.take(idx as int), budget - spent - cost - 3);
                assert(kept.push(cv[idx as int]) + cv.skip(n - taken) =~= kept + cv.skip(idx as int));
            }
            spent = spent + cost + 3;
            taken += 1;
        }
    }
    proof {
        if omitted {
            lemma_select_prefix_cut(cv, n - taken, budget - spent);
            assert(Seq::<Seq<char>>::empty() + cv.skip(n - taken) =~= cv.skip(n - taken));
        } else {
            assert(cv.take(0) =~= Seq::<Seq<char>>::empty());
            assert(Seq::<Seq<char>>::empty() + cv.skip(0) =~= cv.skip(0));
        }
    }
    // Join the kept lines (the last `taken`) oldest first.
    let start = n - taken;
    let mut joined: Vec<char> = Vec::new();
    let mut j = start;
    assert(join_lines(cv.subrange(start as int, start as int)) =~= Seq::<char>::empty());
    while j < n
        invariant
            start <= j <= n == cands.len(),
            cv == cands.deep_view(),
            forall|k: int| 0 <= k < n ==> #[trigger] cands.deep_view()[k] == cands@[k]@,
            joined@ == join_lines(cv.subrange(start as int, j as int)),
        decreases n - j,
    {
        proof {
            assert(cv.subrange(start as int, j + 1).drop_last() =~= cv.subrange(start as int, j as int));
        }
        if j > start {
            append_str(&mut joined, "\n");
        }
        append_chars(&mut joined, &cands[j]);
        proof {
            if j == start {
                assert(cv.subrange(start as int, j + 1) =~= seq![cv[j as int]]);
                assert(joined@ =~= cv[j as int]);
            }
        }
        j += 1;
    }
    proof {
        assert(cv.skip(start as int) =~= cv.subrange(start as int, n as int));
    }
    (string_of(&joined), omitted)
}

proof fn lemma_select_prefix_cut(cv: Seq<Seq<char>>, m: int, budget: int)
    requires
        0 < m <= cv.len(),
        pct(cv[m - 1]).len() + 3 > budget,
    ensures
        select_rec(cv.take(m), budget) == (Seq::<Seq<char>>::empty(), true),
{
    assert(cv.take(m).last() == cv[m - 1]);
}

/// The text prefilled into the form's details field: a review reminder,
/// the app version, and the log lines in a fenced block, marked when older
/// lines were left out.
pub fn details_text(version: &str, log_lines: &str, omitted: bool) -> (r: String)
    ensures
        r@ == details_spec(version@, log_lines@, omitted),
{
    let mut v = chars_of(
        "<!-- Review before posting: remove anything you don't want public. Log lines can include file paths with your username. -->\n\nApp version: ",
    );
    append_str(&mut v, version);
    append_str(&mut v, "\n\nRecent log (newest last):\n```text\n");
    let ghost mid = v@;
    if omitted {
        append_str(&mut v, "… (older lines omitted)\n");
    }
    assert(v@ =~= mid + (if omitted {
        "… (older lines omitted)\n"@
    } else {
        Seq::empty()
    }));
    append_str(&mut v, log_lines);
    append_str(&mut v, "\n```");
    string_of(&v)
}

/// The link for reporting a bug: the plain form without a usable log,
/// else the form with the details field prefilled.
pub fn bug_report_url(version: &str, log_tail: Option<&str>) -> (r: String)
    ensures
        r@ == bug_url_spec(version@, match log_tail {
            Some(l) => Some(l@),
            None => None,
        }),
{
    let log = match log_tail {
        None => {
            return crate::text::owned(REPORT_BUG_BASE_URL);
        },
        Some(l) => l,
    };
    let lv = chars_of(log);
    let (a, b) = trim_bounds(&lv, 0, lv.len());
    assert(lv@.subrange(0, lv@.len() as int) =~= lv@);
    if a == b {
        return crate::text::owned(REPORT_BUG_BASE_URL);
    }
    let (selected, omitted) = select_tail_lines(log, ENCODED_DETAILS_BUDGET);
    let details = details_text(version, selected.as_str(), omitted);
    let enc = percent_encode(details.as_str());
    let mut url = chars_of(REPORT_BUG_BASE_URL);
    append_str(&mut url, "&details=");
    append_str(&mut url, enc.as_str());
    string_of(&url)
}

} // verus!
