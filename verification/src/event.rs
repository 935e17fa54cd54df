//! Parses English Client.txt lines into typed events. Total: unknown
//! lines become fingerprinted `Unknown` events, never errors.

use vstd::prelude::*;

use crate::text::{
    byte_prefix_len, chars_of, copy_range, ends_with_chars, find_chars, parse_unsigned_range,
    rfind_char_before, rfind_chars, starts_with_chars, string_of, trim_bounds,
};
use crate::text;

verus! {

#[derive(Debug, Clone, PartialEq)]
pub enum RawEvent {
    AreaGenerated { area_id: String, area_level: u8, seed: u64, at: String },
    AreaEnteredName { display_name: String, at: String },
    LevelUp { character: String, class: String, level: u16, at: String },
    Slain { character: String, at: String },
    Unknown { fingerprint: String, at: String },
}

/// `RawEvent` with its text fields as character sequences.
pub enum RawEventView {
    AreaGenerated { area_id: Seq<char>, area_level: u8, seed: u64, at: Seq<char> },
    AreaEnteredName { display_name: Seq<char>, at: Seq<char> },
    LevelUp { character: Seq<char>, class: Seq<char>, level: u16, at: Seq<char> },
    Slain { character: Seq<char>, at: Seq<char> },
    Unknown { fingerprint: Seq<char>, at: Seq<char> },
}

impl View for RawEvent {
    type V = RawEventView;

    open spec fn view(&self) -> RawEventView {
        match self {
            RawEvent::AreaGenerated { area_id, area_level, seed, at } => RawEventView::AreaGenerated {
                area_id: area_id@,
                area_level: *area_level,
                seed: *seed,
                at: at@,
            },
            RawEvent::AreaEnteredName { display_name, at } => RawEventView::AreaEnteredName {
                display_name: display_name@,
                at: at@,
            },
            RawEvent::LevelUp { character, class, level, at } => RawEventView::LevelUp {
                character: character@,
                class: class@,
                level: *level,
                at: at@,
            },
            RawEvent::Slain { character, at } => RawEventView::Slain { character: character@, at: at@ },
            RawEvent::Unknown { fingerprint, at } => RawEventView::Unknown {
                fingerprint: fingerprint@,
                at: at@,
            },
        }
    }
}

/// `s` with every ASCII digit replaced by `#`.
pub open spec fn fingerprint_of(s: Seq<char>) -> Seq<char> {
    Seq::new(s.len(), |i: int| if text::is_digit(s[i]) { '#' } else { s[i] })
}

/// The line's timestamp: its first 19 bytes, or empty when the line has no
/// character boundary there.
pub open spec fn timestamp_of(line: Seq<char>) -> Seq<char> {
    match text::byte_prefix(line, 19) {
        Some(p) => p,
        None => Seq::empty(),
    }
}

/// `You have entered NAME.` -> `NAME`.
pub open spec fn entered_name(rest: Seq<char>) -> Option<Seq<char>> {
    let p = "You have entered "@;
    let t = rest.skip(p.len() as int);
    if text::starts_with(rest, p) && t.len() > 0 && t.last() == '.' {
        Some(t.drop_last())
    } else {
        None
    }
}

/// `CHARACTER (CLASS) is now level N` -> `(CHARACTER, CLASS, N)`.
pub open spec fn level_up_of(rest: Seq<char>) -> Option<(Seq<char>, Seq<char>, u16)> {
    let p = " is now level "@;
    let q = " ("@;
    match text::find(rest, p) {
        None => None,
        Some(idx) => {
            let who = rest.take(idx);
            let level_str = rest.skip(idx + p.len());
            match (text::rfind(who, q), text::rfind_char(who, ')')) {
                (Some(open), Some(close)) => {
                    if close == who.len() - 1 && open + q.len() < close {
                        match text::parse_unsigned(text::trim(level_str), 0xffff) {
                            Some(level) => Some(
                                (who.take(open), who.subrange(open + q.len(), close), level as u16),
                            ),
                            None => None,
                        }
                    } else {
                        None
                    }
                },
                _ => None,
            }
        },
    }
}

/// `CHARACTER has been slain.` -> `CHARACTER`.
pub open spec fn slain_of(rest: Seq<char>) -> Option<Seq<char>> {
    let p = " has been slain."@;
    if text::ends_with(rest, p) {
        Some(rest.take(rest.len() - p.len()))
    } else {
        None
    }
}

/// `LEVEL area "AREA_ID" with seed SEED` -> `(AREA_ID, LEVEL, SEED)`.
pub open spec fn generated_of(rest: Seq<char>) -> Option<(Seq<char>, u8, u64)> {
    let p1 = " area \""@;
    let p2 = " with seed "@;
    match text::find(rest, p1) {
        None => None,
        Some(i) => {
            let level_str = rest.take(i);
            let r2 = rest.skip(i + p1.len());
            match text::find(r2, seq!['"']) {
                None => None,
                Some(j) => {
                    let area_id = r2.take(j);
                    let r3 = r2.skip(j + 1);
                    if text::starts_with(r3, p2) {
                        match (
                            text::parse_unsigned(text::trim(level_str), 0xff),
                            text::parse_unsigned(text::trim(r3.skip(p2.len() as int)), 0xffff_ffff_ffff_ffff),
                        ) {
                            (Some(level), Some(seed)) => Some((area_id, level as u8, seed as u64)),
                            _ => None,
                        }
                    } else {
                        None
                    }
                },
            }
        },
    }
}

/// The event a Client.txt line records.
pub open spec fn line_event(line: Seq<char>) -> RawEventView {
    let at = timestamp_of(line);
    let unknown = RawEventView::Unknown { fingerprint: fingerprint_of(line), at };
    match text::find(line, "] "@) {
        None => unknown,
        Some(b) => {
            let msg = line.skip(b + "] "@.len());
            if text::starts_with(msg, ": "@) {
                let rest = msg.skip(": "@.len() as int);
                if let Some(name) = entered_name(rest) {
                    RawEventView::AreaEnteredName { display_name: name, at }
                } else if let Some((character, class, level)) = level_up_of(rest) {
                    RawEventView::LevelUp { character, class, level, at }
                } else if let Some(character) = slain_of(rest) {
                    RawEventView::Slain { character, at }
                } else {
                    unknown
                }
            } else if text::starts_with(msg, "Generating level "@) {
                match generated_of(msg.skip("Generating level "@.len() as int)) {
                    Some((area_id, area_level, seed)) => RawEventView::AreaGenerated {
                        area_id,
                        area_level,
                        seed,
                        at,
                    },
                    None => unknown,
                }
            } else {
                unknown
            }
        },
    }
}

/// `message` with every ASCII digit masked as `#`.
pub fn fingerprint(message: &str) -> (out: String)
    ensures
        out@ == fingerprint_of(message@),
{
    let cs = chars_of(message);
    let mut out: Vec<char> = Vec::new();
    let mut i: usize = 0;
    while i < cs.len()
        invariant
            i <= cs.len(),
            cs@ == message@,
            out@ == fingerprint_of(message@).take(i as int),
        decreases cs.len() - i,
    {
        let c = cs[i];
        if '0' <= c && c <= '9' {
            out.push('#');
        } else {
            out.push(c);
        }
        assert(fingerprint_of(message@).take(i + 1) =~= fingerprint_of(message@).take(i as int).push(
            out@.last(),
        ));
        i += 1;
    }
    assert(fingerprint_of(message@).take(cs.len() as int) =~= fingerprint_of(message@));
    string_of(&out)
}

fn entered_name_exec(rest: &Vec<char>) -> (r: Option<Vec<char>>)
    ensures
        r matches Some(v) ==> entered_name(rest@) == Some(v@),
        r is None ==> entered_name(rest@) is None,
{
    let p = chars_of("You have entered ");
    if !starts_with_chars(rest, &p) {
        return None;
    }
    let n = rest.len();
    if n > p.len() && rest[n - 1] == '.' {
        let out = copy_range(rest, p.len(), n - 1);
        assert(out@ =~= rest@.skip(p@.len() as int).drop_last());
        Some(out)
    } else {
        None
    }
}

fn level_up_exec(rest: &Vec<char>) -> (r: Option<(Vec<char>, Vec<char>, u16)>)
    ensures
        r matches Some(t) ==> level_up_of(rest@) == Some((t.0@, t.1@, t.2)),
        r is None ==> level_up_of(rest@) is None,
{
    let p = chars_of(" is now level ");
    let q = chars_of(" (");
    let idx = match find_chars(rest, &p, 0) {
        None => return None,
        Some(i) => i,
    };
    let who = copy_range(rest, 0, idx);
    assert(who@ =~= rest@.take(idx as int));
    let open = match rfind_chars(&who, &q) {
        None => return None,
        Some(o) => o,
    };
    let close = match rfind_char_before(&who, ')', who.len()) {
        None => return None,
        Some(c) => c,
    };
    if !(close == who.len() - 1 && open + q.len() < close) {
        return None;
    }
    assert(text::occurs_at(rest@, idx as int, p@));
    assert(idx + p@.len() <= rest@.len());
    let start = idx + p.len();
    let (a, b) = trim_bounds(rest, start, rest.len());
    assert(rest@.subrange(start as int, rest@.len() as int) =~= rest@.skip(start as int));
    let level = match parse_unsigned_range(rest, a, b, 0xffff) {
        None => return None,
        Some(l) => l as u16,
    };
    let character = copy_range(&who, 0, open);
    let class = copy_range(&who, open + q.len(), close);
    assert(character@ =~= who@.take(open as int));
    Some((character, class, level))
}

fn slain_exec(rest: &Vec<char>) -> (r: Option<Vec<char>>)
    ensures
        r matches Some(v) ==> slain_of(rest@) == Some(v@),
        r is None ==> slain_of(rest@) is None,
{
    let p = chars_of(" has been slain.");
    if ends_with_chars(rest, &p) {
        let out = copy_range(rest, 0, rest.len() - p.len());
        assert(out@ =~= rest@.take(rest@.len() - p@.len()));
        Some(out)
    } else {
        None
    }
}

fn generated_exec(rest: &Vec<char>) -> (r: Option<(Vec<char>, u8, u64)>)
    ensures
        r matches Some(t) ==> generated_of(rest@) == Some((t.0@, t.1, t.2)),
        r is None ==> generated_of(rest@) is None,
{
    let p1 = chars_of(" area \"");
    let p2 = chars_of(" with seed ");
    let quote = vec!['"'];
    assert(quote@ =~= seq!['"']);
    let i = match find_chars(rest, &p1, 0) {
        None => return None,
        Some(i) => i,
    };
    assert(text::occurs_at(rest@, i as int, p1@));
    assert(i + p1@.len() <= rest@.len());
    let rest_len = rest.len();
    let start = i + p1.len();
    let r2 = copy_range(rest, start, rest_len);
    assert(r2@ =~= rest@.skip(i + p1@.len()));
    let j = match find_chars(&r2, &quote, 0) {
        None => return None,
        Some(j) => j,
    };
    let r3 = copy_range(&r2, j + 1, r2.len());
    assert(r3@ =~= r2@.skip(j + 1));
    if !starts_with_chars(&r3, &p2) {
        return None;
    }
    let (a, b) = trim_bounds(rest, 0, i);
    assert(rest@.subrange(0, i as int) =~= rest@.take(i as int));
    let level = parse_unsigned_range(rest, a, b, 0xff);
    let (c, d) = trim_bounds(&r3, p2.len(), r3.len());
    assert(r3@.subrange(p2@.len() as int, r3@.len() as int) =~= r3@.skip(p2@.len() as int));
    let seed = parse_unsigned_range(&r3, c, d, 0xffff_ffff_ffff_ffff);
    match (level, seed) {
        (Some(l), Some(s)) => {
            let area_id = copy_range(&r2, 0, j);
            assert(area_id@ =~= r2@.take(j as int));
            Some((area_id, l as u8, s))
        },
        _ => None,
    }
}

/// Parses one Client.txt line.
pub fn parse_line(line: &str) -> (e: RawEvent)
    ensures
        e@ == line_event(line@),
{
    let cs = chars_of(line);
    let at_chars = match byte_prefix_len(&cs, 19) {
        Some(k) => copy_range(&cs, 0, k),
        None => Vec::new(),
    };
    proof {
        if let Some(p) = text::byte_prefix(line@, 19) {
            assert(at_chars@ =~= p);
        } else {
            assert(at_chars@ =~= Seq::<char>::empty());
        }
    }
    let at = string_of(&at_chars);
    let bracket = chars_of("] ");
    let b = match find_chars(&cs, &bracket, 0) {
        None => return RawEvent::Unknown { fingerprint: fingerprint(line), at },
        Some(b) => b,
    };
    let msg = copy_range(&cs, b + bracket.len(), cs.len());
    assert(msg@ =~= line@.skip(b + bracket@.len()));
    let colon = chars_of(": ");
    if starts_with_chars(&msg, &colon) {
        let rest = copy_range(&msg, colon.len(), msg.len());
        assert(rest@ =~= msg@.skip(colon@.len() as int));
        if let Some(name) = entered_name_exec(&rest) {
            return RawEvent::AreaEnteredName { display_name: string_of(&name), at };
        }
        if let Some((character, class, level)) = level_up_exec(&rest) {
            return RawEvent::LevelUp {
                character: string_of(&character),
                class: string_of(&class),
                level,
                at,
            };
        }
        if let Some(character) = slain_exec(&rest) {
            return RawEvent::Slain { character: string_of(&character), at };
        }
        return RawEvent::Unknown { fingerprint: fingerprint(line), at };
    }
    let gen = chars_of("Generating level ");
    if starts_with_chars(&msg, &gen) {
        let rest = copy_range(&msg, gen.len(), msg.len());
        assert(rest@ =~= msg@.skip(gen@.len() as int));
        if let Some((area_id, area_level, seed)) = generated_exec(&rest) {
            return RawEvent::AreaGenerated { area_id: string_of(&area_id), area_level, seed, at };
        }
    }
    RawEvent::Unknown { fingerprint: fingerprint(line), at }
}

} // verus!
