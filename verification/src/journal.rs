//! The session journal: which log lines are worth keeping, what of a
//! journal read back is usable, and how far an oversized journal is cut.

use vstd::prelude::*;

use crate::diagnostics::{complete_part, complete_start};
use crate::event::{line_event, parse_line, RawEvent};
use crate::text::{char_utf8_len_exec, chars_of, copy_range, string_of, text_lines, text_lines_spec, trim, trim_bounds, utf8_len};

verus! {

/// A journal larger than this is read from its newest end only.
pub const MAX_JOURNAL_BYTES: u64 = 8388608;

/// An oversized journal is cut down to about this size.
pub const COMPACT_TARGET_BYTES: u64 = 2097152;

/// Whether a log line carries a session event (anything but an unknown
/// line).
pub fn is_significant(line: &str) -> (b: bool)
    ensures
        b == !(line_event(line@) is Unknown),
{
    match parse_line(line) {
        RawEvent::Unknown { .. } => false,
        _ => true,
    }
}

pub open spec fn non_blank_lines(lines: Seq<Seq<char>>) -> Seq<Seq<char>>
    decreases lines.len(),
{
    if lines.len() == 0 {
        lines
    } else if trim(lines.last()).len() > 0 {
        non_blank_lines(lines.drop_last()).push(lines.last())
    } else {
        non_blank_lines(lines.drop_last())
    }
}

/// The lines restored from a journal read back as `text` (`over_cap`: the
/// read began mid-file, so its first line may be torn and is dropped):
/// every non-blank complete line, in order.
pub open spec fn journal_lines_spec(text: Seq<char>, over_cap: bool) -> Seq<Seq<char>> {
    non_blank_lines(text_lines_spec(complete_part(text, over_cap)))
}

/// The lines restored from a journal read back as `text`.
pub fn journal_lines(text: &str, over_cap: bool) -> (r: Vec<String>)
    ensures
        r.deep_view() == journal_lines_spec(text@, over_cap),
{
    let v = chars_of(text);
    let k = complete_start(&v, over_cap);
    let part = copy_range(&v, k, v.len());
    let part_s = string_of(&part);
    let lines = text_lines(part_s.as_str());
    let ghost lv = lines.deep_view();
    let mut out: Vec<String> = Vec::new();
    let mut i: usize = 0;
    while i < lines.len()
        invariant
            i <= lines.len(),
            lv == lines.deep_view(),
            lv == text_lines_spec(complete_part(text@, over_cap)),
            out.deep_view() == non_blank_lines(lv.take(i as int)),
        decreases lines.len() - i,
    {
        proof {
            assert(lv.take(i + 1).drop_last() =~= lv.take(i as int));
            assert(lines@[i as int].deep_view() =~= lines@[i as int]@);
            assert(lines@[i as int]@.subrange(0, lines@[i as int]@.len() as int) =~= lines@[i as int]@);
        }
        let (a, b) = trim_bounds(&lines[i], 0, lines[i].len());
        if a < b {
            let s = string_of(&lines[i]);
            let ghost before = out.deep_view();
            out.push(s);
            proof {
                assert(out.deep_view() =~= before.push(lv[i as int]));
            }
        }
        i += 1;
    }
    assert(lv.take(lv.len() as int) =~= lv);
    out
}

/// The journal lines of a read window of bytes, decoded as UTF-8 with each
/// invalid sequence replaced (`String::from_utf8_lossy`).
pub fn journal_lines_from_bytes(bytes: &[u8], over_cap: bool) -> (r: Vec<String>)
    ensures
        r.deep_view() == journal_lines_spec(crate::input_log::utf8_lossy_of(bytes@), over_cap),
{
    let text = crate::input_log::lossy_string(bytes);
    journal_lines(text.as_str(), over_cap)
}

/// How many of the newest lines fit `budget` bytes, each with its newline.
pub open spec fn keep_count(lines: Seq<Seq<char>>, budget: int) -> nat
    decreases lines.len(),
{
    if lines.len() == 0 {
        0
    } else {
        let next = utf8_len(lines.last()) + 1;
        if next > budget {
            0
        } else {
            1 + keep_count(lines.drop_last(), budget - next)
        }
    }
}

/// Bytes of lines written one per line.
pub open spec fn lines_bytes(lines: Seq<Seq<char>>) -> int
    decreases lines.len(),
{
    if lines.len() == 0 {
        0
    } else {
        lines_bytes(lines.drop_last()) + utf8_len(lines.last()) + 1
    }
}

/// Compaction keeps the longest run of newest lines that fits the target:
/// what is kept fits, and one line more would not.
pub proof fn lemma_compaction_keeps_longest_fitting_suffix(lines: Seq<Seq<char>>, budget: int)
    requires
        budget >= 0,
    ensures
        keep_count(lines, budget) <= lines.len(),
        lines_bytes(lines.subrange(lines.len() - keep_count(lines, budget), lines.len() as int)) <= budget,
        keep_count(lines, budget) < lines.len() ==> lines_bytes(
            lines.subrange(lines.len() - keep_count(lines, budget) - 1, lines.len() as int),
        ) > budget,
    decreases lines.len(),
{
    let n = lines.len() as int;
    if n == 0 {
        assert(lines.subrange(0, 0) =~= Seq::<Seq<char>>::empty());
    } else {
        let next = utf8_len(lines.last()) + 1;
        if next > budget {
            assert(lines.subrange(n, n) =~= Seq::<Seq<char>>::empty());
            assert(lines.subrange(n - 1, n).drop_last() =~= Seq::<Seq<char>>::empty());
        } else {
            let d = lines.drop_last();
            lemma_compaction_keeps_longest_fitting_suffix(d, budget - next);
            let k = keep_count(d, budget - next);
            assert(lines.subrange(n - (k + 1), n).drop_last() =~= d.subrange(d.len() - k, d.len() as int));
            if k < d.len() {
                assert(lines.subrange(n - (k + 1) - 1, n).drop_last() =~= d.subrange(d.len() - k - 1, d.len() as int));
            }
        }
    }
}

/// The size in bytes of `s` plus one, when it is at most `budget`.
fn cost_within(s: &str, budget: u64) -> (r: Option<u64>)
    ensures
        r matches Some(c) ==> c == utf8_len(s@) + 1 && c <= budget,
        r is None ==> utf8_len(s@) + 1 > budget,
{
    let v = chars_of(s);
    if budget == 0 {
        return None;
    }
    let mut acc: u64 = 1;
    let mut i: usize = 0;
    while i < v.len()
        invariant
            i <= v.len(),
            v@ == s@,
            acc == utf8_len(v@.take(i as int)) + 1,
            acc <= budget,
        decreases v.len() - i,
    {
        let c = char_utf8_len_exec(v[i]) as u64;
        proof {
            assert(v@.take(i + 1).drop_last() =~= v@.take(i as int));
            crate::text::lemma_utf8_len_monotone(v@, i + 1, v@.len() as int);
        }
        if c > budget - acc {
            proof {
                assert(v@.take(v@.len() as int) =~= v@);
            }
            return None;
        }
        acc = acc + c;
        i += 1;
    }
    assert(v@.take(v@.len() as int) =~= v@);
    Some(acc)
}

/// Where the kept suffix of `lines` starts when the journal is cut to
/// `target` bytes: the newest lines that fit, each with its newline.
pub fn compact_start(lines: &[String], target: u64) -> (start: usize)
    ensures
        start == lines@.len() - keep_count(lines.deep_view(), target as int),
{
    let ghost lv = lines.deep_view();
    let mut start = lines.len();
    let mut total: u64 = 0;
    let mut done = false;
    assert(lv.take(start as int) =~= lv);
    while start > 0 && !done
        invariant
            start <= lines@.len(),
            lv == lines.deep_view(),
            total <= target,
            !done ==> keep_count(lv, target as int) == (lines@.len() - start) + keep_count(
                lv.take(start as int),
                target - total,
            ),
            done ==> keep_count(lv, target as int) == lines@.len() - start,
        decreases start + (if done { 0int } else { 1int }),
    {
        proof {
            assert(lv.take(start as int).last() == lv[start - 1]);
            assert(lv.take(start as int).drop_last() =~= lv.take(start - 1));
        }
        match cost_within(lines[start - 1].as_str(), target - total) {
            None => {
                done = true;
            },
            Some(c) => {
                total = total + c;
                start -= 1;
            },
        }
    }
    start
}

/// The journal text kept from `start` on: each line with its newline.
pub fn compact_text(lines: &[String], start: usize) -> (s: String)
    requires
        start <= lines@.len(),
    ensures
        s@ == crate::journal::joined_with_newlines(lines.deep_view().skip(start as int)),
{
    let ghost lv = lines.deep_view();
    let mut v: Vec<char> = Vec::new();
    let mut i = start;
    assert(lv.subrange(start as int, start as int) =~= Seq::<Seq<char>>::empty());
    while i < lines.len()
        invariant
            start <= i <= lines@.len(),
            lv == lines.deep_view(),
            v@ == joined_with_newlines(lv.subrange(start as int, i as int)),
        decreases lines@.len() - i,
    {
        proof {
            assert(lv.subrange(start as int, i + 1).drop_last() =~= lv.subrange(start as int, i as int));
        }
        crate::text::append_str(&mut v, lines[i].as_str());
        crate::text::append_str(&mut v, "\n");
        proof {
            assert(v@ =~= joined_with_newlines(lv.subrange(start as int, i as int)) + lines@[i as int]@ + "\n"@);
        }
        i += 1;
    }
    assert(lv.subrange(start as int, lines@.len() as int) =~= lv.skip(start as int));
    string_of(&v)
}

/// Lines each followed by a newline.
pub open spec fn joined_with_newlines(lines: Seq<Seq<char>>) -> Seq<char>
    decreases lines.len(),
{
    if lines.len() == 0 {
        Seq::empty()
    } else {
        joined_with_newlines(lines.drop_last()) + lines.last() + "\n"@
    }
}

} // verus!
