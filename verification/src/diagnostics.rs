//! The diagnostics log: when it rotates, how a line is written, and what
//! of its end is worth keeping.

use vstd::prelude::*;

use crate::text::{append_str, char_from, chars_of, copy_range, decimal, decimal_chars, string_of, trim, trim_bounds};

verus! {

/// The log rotates once it grows past this size.
pub const MAX_LOG_BYTES: u64 = 2097152;

/// Whether a log of `len` bytes is due for rotation.
pub fn should_rotate(len: u64) -> (b: bool)
    ensures
        b == (len > MAX_LOG_BYTES),
{
    len > MAX_LOG_BYTES
}

/// One log line: the timestamp in seconds, a space, the message, a newline.
pub fn format_line(ts_secs: u64, msg: &str) -> (s: String)
    ensures
        s@ == decimal(ts_secs as nat) + " "@ + msg@ + "\n"@,
{
    let mut v = decimal_chars(ts_secs);
    append_str(&mut v, " ");
    append_str(&mut v, msg);
    append_str(&mut v, "\n");
    string_of(&v)
}

/// What is left of a read log text once a possibly torn first line is
/// dropped (when the read started mid-file).
pub open spec fn complete_part(text: Seq<char>, over_cap: bool) -> Seq<char> {
    if over_cap {
        match char_from(text, '\n', 0) {
            Some(i) => text.skip(i + 1),
            None => Seq::empty(),
        }
    } else {
        text
    }
}

pub open spec fn tail_spec(text: Seq<char>, over_cap: bool) -> Option<Seq<char>> {
    let t = trim(complete_part(text, over_cap));
    if t.len() == 0 {
        None
    } else {
        Some(t)
    }
}

/// The complete part of `v`, by index range.
pub fn complete_start(v: &Vec<char>, over_cap: bool) -> (k: usize)
    ensures
        k <= v.len(),
        v@.subrange(k as int, v@.len() as int) == complete_part(v@, over_cap),
{
    if !over_cap {
        assert(v@.subrange(0, v@.len() as int) =~= v@);
        return 0;
    }
    match crate::text::find_char_from(v, '\n', 0) {
        Some(i) => {
            assert(v@.subrange(i + 1, v@.len() as int) =~= v@.skip(i + 1));
            i + 1
        },
        None => {
            assert(v@.subrange(v@.len() as int, v@.len() as int) =~= Seq::<char>::empty());
            v.len()
        },
    }
}

/// The end of a log read back: its complete lines, trimmed; `None` when
/// nothing but blanks is left.
pub fn tail_text(text: &str, over_cap: bool) -> (r: Option<String>)
    ensures
        r matches Some(s) ==> tail_spec(text@, over_cap) == Some(s@),
        r is None ==> tail_spec(text@, over_cap) is None,
{
    let v = chars_of(text);
    let k = complete_start(&v, over_cap);
    let (a, b) = trim_bounds(&v, k, v.len());
    if a == b {
        return None;
    }
    let t = copy_range(&v, a, b);
    Some(string_of(&t))
}

/// The tail of a read window of log bytes, decoded as UTF-8 with each
/// invalid sequence replaced (`String::from_utf8_lossy`).
pub fn tail_text_from_bytes(bytes: &[u8], over_cap: bool) -> (r: Option<String>)
    ensures
        r matches Some(s) ==> tail_spec(crate::input_log::utf8_lossy_of(bytes@), over_cap) == Some(s@),
        r is None ==> tail_spec(crate::input_log::utf8_lossy_of(bytes@), over_cap) is None,
{
    let text = crate::input_log::lossy_string(bytes);
    tail_text(text.as_str(), over_cap)
}

} // verus!
