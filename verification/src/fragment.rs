//! Inline fragments of the route language: `{kind|arg|...}` markup mixed
//! with plain text on one route line.

use vstd::prelude::*;

use crate::map::{Dup, dup_vec, vec_eq};
use crate::text::{
    all_digits, append_chars, char_from, chars_of, copy_range, digits_value, find_char_from, lemma_char_from,
    lemma_digits_value_push, string_of, string_of_range, trim, trim_bounds,
};

verus! {

#[derive(Debug, Clone, PartialEq)]
pub enum Fragment {
    Text { value: String },
    Kill { name: String },
    Arena { name: String },
    Area { area_id: String },
    Enter { area_id: String },
    Logout,
    Waypoint,
    WaypointUse { area_id: String },
    WaypointGet,
    PortalSet,
    PortalUse,
    Quest { quest_id: String, reward_offer_ids: Vec<String> },
    QuestText { text: String },
    Generic { text: String },
    RewardQuest { item: String },
    RewardVendor { item: String, cost: Option<String> },
    Trial,
    Ascend { version: String },
    Crafting { area_id: Option<String> },
    Dir { dir_index: u8 },
    Copy { text: String },
}

pub enum FragmentView {
    Text { value: Seq<char> },
    Kill { name: Seq<char> },
    Arena { name: Seq<char> },
    Area { area_id: Seq<char> },
    Enter { area_id: Seq<char> },
    Logout,
    Waypoint,
    WaypointUse { area_id: Seq<char> },
    WaypointGet,
    PortalSet,
    PortalUse,
    Quest { quest_id: Seq<char>, reward_offer_ids: Seq<Seq<char>> },
    QuestText { text: Seq<char> },
    Generic { text: Seq<char> },
    RewardQuest { item: Seq<char> },
    RewardVendor { item: Seq<char>, cost: Option<Seq<char>> },
    Trial,
    Ascend { version: Seq<char> },
    Crafting { area_id: Option<Seq<char>> },
    Dir { dir_index: u8 },
    Copy { text: Seq<char> },
}

impl DeepView for Fragment {
    type V = FragmentView;

    open spec fn deep_view(&self) -> FragmentView {
        match self {
            Fragment::Text { value } => FragmentView::Text { value: value@ },
            Fragment::Kill { name } => FragmentView::Kill { name: name@ },
            Fragment::Arena { name } => FragmentView::Arena { name: name@ },
            Fragment::Area { area_id } => FragmentView::Area { area_id: area_id@ },
            Fragment::Enter { area_id } => FragmentView::Enter { area_id: area_id@ },
            Fragment::Logout => FragmentView::Logout,
            Fragment::Waypoint => FragmentView::Waypoint,
            Fragment::WaypointUse { area_id } => FragmentView::WaypointUse { area_id: area_id@ },
            Fragment::WaypointGet => FragmentView::WaypointGet,
            Fragment::PortalSet => FragmentView::PortalSet,
            Fragment::PortalUse => FragmentView::PortalUse,
            Fragment::Quest { quest_id, reward_offer_ids } => FragmentView::Quest {
                quest_id: quest_id@,
                reward_offer_ids: reward_offer_ids.deep_view(),
            },
            Fragment::QuestText { text } => FragmentView::QuestText { text: text@ },
            Fragment::Generic { text } => FragmentView::Generic { text: text@ },
            Fragment::RewardQuest { item } => FragmentView::RewardQuest { item: item@ },
            Fragment::RewardVendor { item, cost } => FragmentView::RewardVendor {
                item: item@,
                cost: cost.deep_view(),
            },
            Fragment::Trial => FragmentView::Trial,
            Fragment::Ascend { version } => FragmentView::Ascend { version: version@ },
            Fragment::Crafting { area_id } => FragmentView::Crafting { area_id: area_id.deep_view() },
            Fragment::Dir { dir_index } => FragmentView::Dir { dir_index: *dir_index },
            Fragment::Copy { text } => FragmentView::Copy { text: text@ },
        }
    }
}

impl Dup for Fragment {
    fn dup(&self) -> (r: Fragment) {
        match self {
            Fragment::Text { value } => Fragment::Text { value: value.clone() },
            Fragment::Kill { name } => Fragment::Kill { name: name.clone() },
            Fragment::Arena { name } => Fragment::Arena { name: name.clone() },
            Fragment::Area { area_id } => Fragment::Area { area_id: area_id.clone() },
            Fragment::Enter { area_id } => Fragment::Enter { area_id: area_id.clone() },
            Fragment::Logout => Fragment::Logout,
            Fragment::Waypoint => Fragment::Waypoint,
            Fragment::WaypointUse { area_id } => Fragment::WaypointUse { area_id: area_id.clone() },
            Fragment::WaypointGet => Fragment::WaypointGet,
            Fragment::PortalSet => Fragment::PortalSet,
            Fragment::PortalUse => Fragment::PortalUse,
            Fragment::Quest { quest_id, reward_offer_ids } => Fragment::Quest {
                quest_id: quest_id.clone(),
                reward_offer_ids: dup_vec(reward_offer_ids),
            },
            Fragment::QuestText { text } => Fragment::QuestText { text: text.clone() },
            Fragment::Generic { text } => Fragment::Generic { text: text.clone() },
            Fragment::RewardQuest { item } => Fragment::RewardQuest { item: item.clone() },
            Fragment::RewardVendor { item, cost } => Fragment::RewardVendor {
                item: item.clone(),
                cost: cost.dup(),
            },
            Fragment::Trial => Fragment::Trial,
            Fragment::Ascend { version } => Fragment::Ascend { version: version.clone() },
            Fragment::Crafting { area_id } => Fragment::Crafting { area_id: area_id.dup() },
            Fragment::Dir { dir_index } => Fragment::Dir { dir_index: *dir_index },
            Fragment::Copy { text } => Fragment::Copy { text: text.clone() },
        }
    }
}

#[derive(Debug, Clone, PartialEq)]
pub enum FragmentError {
    UnknownKind { line: usize, kind: String },
    InvalidArity { line: usize, kind: String },
    Unterminated { line: usize },
    InvalidDir { line: usize, value: String },
}

pub enum FragmentErrorView {
    UnknownKind { line: usize, kind: Seq<char> },
    InvalidArity { line: usize, kind: Seq<char> },
    Unterminated { line: usize },
    InvalidDir { line: usize, value: Seq<char> },
}

impl DeepView for FragmentError {
    type V = FragmentErrorView;

    open spec fn deep_view(&self) -> FragmentErrorView {
        match self {
            FragmentError::UnknownKind { line, kind } => FragmentErrorView::UnknownKind {
                line: *line,
                kind: kind@,
            },
            FragmentError::InvalidArity { line, kind } => FragmentErrorView::InvalidArity {
                line: *line,
                kind: kind@,
            },
            FragmentError::Unterminated { line } => FragmentErrorView::Unterminated { line: *line },
            FragmentError::InvalidDir { line, value } => FragmentErrorView::InvalidDir {
                line: *line,
                value: value@,
            },
        }
    }
}

impl Dup for FragmentError {
    fn dup(&self) -> (r: FragmentError) {
        match self {
            FragmentError::UnknownKind { line, kind } => FragmentError::UnknownKind {
                line: *line,
                kind: kind.clone(),
            },
            FragmentError::InvalidArity { line, kind } => FragmentError::InvalidArity {
                line: *line,
                kind: kind.clone(),
            },
            FragmentError::Unterminated { line } => FragmentError::Unterminated { line: *line },
            FragmentError::InvalidDir { line, value } => FragmentError::InvalidDir {
                line: *line,
                value: value.clone(),
            },
        }
    }
}

/// The fragment kinds the route language knows.
#[derive(Clone, Copy, PartialEq, Eq, Structural)]
pub enum FragmentKind {
    Kill,
    Arena,
    Area,
    Enter,
    Logout,
    Waypoint,
    WaypointGet,
    Portal,
    Quest,
    QuestText,
    Generic,
    RewardQuest,
    RewardVendor,
    Trial,
    Ascend,
    Crafting,
    Dir,
    Copy,
}

// ---------------------------------------------------------------------
// Specification
// ---------------------------------------------------------------------

pub open spec fn kind_of(k: Seq<char>) -> Option<FragmentKind> {
    if k == "kill"@ {
        Some(FragmentKind::Kill)
    } else if k == "arena"@ {
        Some(FragmentKind::Arena)
    } else if k == "area"@ {
        Some(FragmentKind::Area)
    } else if k == "enter"@ {
        Some(FragmentKind::Enter)
    } else if k == "logout"@ {
        Some(FragmentKind::Logout)
    } else if k == "waypoint"@ {
        Some(FragmentKind::Waypoint)
    } else if k == "waypoint_get"@ {
        Some(FragmentKind::WaypointGet)
    } else if k == "portal"@ {
        Some(FragmentKind::Portal)
    } else if k == "quest"@ {
        Some(FragmentKind::Quest)
    } else if k == "quest_text"@ {
        Some(FragmentKind::QuestText)
    } else if k == "generic"@ {
        Some(FragmentKind::Generic)
    } else if k == "reward_quest"@ {
        Some(FragmentKind::RewardQuest)
    } else if k == "reward_vendor"@ {
        Some(FragmentKind::RewardVendor)
    } else if k == "trial"@ {
        Some(FragmentKind::Trial)
    } else if k == "ascend"@ {
        Some(FragmentKind::Ascend)
    } else if k == "crafting"@ {
        Some(FragmentKind::Crafting)
    } else if k == "dir"@ {
        Some(FragmentKind::Dir)
    } else if k == "copy"@ {
        Some(FragmentKind::Copy)
    } else {
        None
    }
}

/// The pieces of `s` between occurrences of `c`, from index `start` on
/// (`str::split`).
pub open spec fn split_from(s: Seq<char>, c: char, start: int) -> Seq<Seq<char>>
    decreases s.len() - start,
{
    if start < 0 || start > s.len() {
        Seq::empty()
    } else {
        match char_from(s, c, start) {
            None => seq![s.subrange(start, s.len() as int)],
            Some(j) => {
                proof {
                    lemma_char_from(s, c, start);
                }
                seq![s.subrange(start, j)] + split_from(s, c, j + 1)
            },
        }
    }
}

pub open spec fn split_on(s: Seq<char>, c: char) -> Seq<Seq<char>> {
    split_from(s, c, 0)
}

/// All pieces joined end to end (`concat`).
pub open spec fn concat_all(parts: Seq<Seq<char>>) -> Seq<char>
    decreases parts.len(),
{
    if parts.len() == 0 {
        Seq::empty()
    } else {
        concat_all(parts.drop_last()) + parts.last()
    }
}

/// The whole and fractional digits of a decimal number written with an
/// optional sign.
pub open spec fn dir_parts(value: Seq<char>) -> (Seq<char>, Seq<char>) {
    let signed = value.len() > 0 && (value[0] == '-' || value[0] == '+');
    let body = if signed {
        value.drop_first()
    } else {
        value
    };
    match char_from(body, '.', 0) {
        Some(d) => (body.take(d), body.skip(d + 1)),
        None => (body, Seq::<char>::empty()),
    }
}

/// Fragment lists joined end to end.
pub open spec fn concat_frags(ss: Seq<Seq<FragmentView>>) -> Seq<FragmentView>
    decreases ss.len(),
{
    if ss.len() == 0 {
        Seq::empty()
    } else {
        concat_frags(ss.drop_last()) + ss.last()
    }
}

/// The first index at or after `i` holding an exponent mark (`e` or `E`).
pub open spec fn exp_from(s: Seq<char>, i: int) -> Option<int>
    decreases s.len() - i,
{
    if i < 0 || i >= s.len() {
        None
    } else if s[i] == 'e' || s[i] == 'E' {
        Some(i)
    } else {
        exp_from(s, i + 1)
    }
}

/// A number split at its first exponent mark: the mantissa, and the
/// exponent's text when there is one.
pub open spec fn exp_split(value: Seq<char>) -> (Seq<char>, Option<Seq<char>>) {
    match exp_from(value, 0) {
        Some(p) => (value.take(p), Some(value.skip(p + 1))),
        None => (value, None),
    }
}

/// An exponent: an optional sign and one or more digits.
pub open spec fn exp_value(x: Seq<char>) -> Option<int> {
    let signed = x.len() > 0 && (x[0] == '-' || x[0] == '+');
    let d = if signed {
        x.drop_first()
    } else {
        x
    };
    if d.len() == 0 || !all_digits(d) {
        None
    } else if x[0] == '-' {
        Some(-(digits_value(d) as int))
    } else {
        Some(digits_value(d) as int)
    }
}

pub open spec fn all_zeros(d: Seq<char>) -> bool {
    forall|i: int| 0 <= i < d.len() ==> #[trigger] d[i] == '0'
}

/// The digits of the whole number that the digits `d` times `10^shift`
/// make, when that is a whole number: `shift` zeros appended; or, for a
/// negative shift, the digits left once as many trailing zeros are taken
/// off (none at all when every digit is zero and more are taken off than
/// there are).
pub open spec fn shifted_digits(d: Seq<char>, shift: int) -> Option<Seq<char>> {
    if shift >= 0 {
        Some(d + Seq::new(shift as nat, |i: int| '0'))
    } else if -shift <= d.len() && all_zeros(d.skip(d.len() + shift)) {
        Some(d.take(d.len() + shift))
    } else if all_zeros(d) {
        Some(Seq::empty())
    } else {
        None
    }
}

/// A direction written in degrees as a decimal number: an optional sign,
/// digits with an optional fraction, and an optional exponent (`e` or `E`,
/// an optional sign, digits). Yields the whole number of degrees it is, or
/// `None` when it is no number or not a whole one.
pub open spec fn dir_degrees(value: Seq<char>) -> Option<int> {
    let (mant, exp) = exp_split(value);
    let e = match exp {
        Some(x) => exp_value(x),
        None => Some(0),
    };
    let (whole, frac) = dir_parts(mant);
    if e is None || whole.len() + frac.len() == 0 || !all_digits(whole) || !all_digits(frac) {
        None
    } else {
        match shifted_digits(whole + frac, e->0 - frac.len()) {
            None => None,
            Some(ds) => if mant[0] == '-' {
                Some(-(digits_value(ds) as int))
            } else {
                Some(digits_value(ds) as int)
            },
        }
    }
}

/// The compass index (0..8, one per 45 degrees) of a direction in degrees;
/// `None` when the direction is not a multiple of 45 degrees or not a
/// number.
pub open spec fn dir_index_of(value: Seq<char>) -> Option<u8> {
    match dir_degrees(value) {
        Some(deg) => {
            let d = deg % 360;
            if d % 45 == 0 {
                Some((d / 45) as u8)
            } else {
                None
            }
        },
        None => None,
    }
}

/// What `{inner}` on line `line` denotes.
pub open spec fn parse_one_spec(inner: Seq<char>, line: usize) -> Result<
    FragmentView,
    FragmentErrorView,
> {
    let parts = split_on(inner, '|');
    let kind = parts[0];
    let arity = parts.len() - 1;
    let arity_err = Err(FragmentErrorView::InvalidArity { line, kind });
    match kind_of(kind) {
        None => Err(FragmentErrorView::UnknownKind { line, kind }),
        Some(k) => match k {
            FragmentKind::Kill => if arity == 1 {
                Ok(FragmentView::Kill { name: parts[1] })
            } else {
                arity_err
            },
            FragmentKind::Arena => if arity == 1 {
                Ok(FragmentView::Arena { name: parts[1] })
            } else {
                arity_err
            },
            FragmentKind::Area => if arity == 1 {
                Ok(FragmentView::Area { area_id: parts[1] })
            } else {
                arity_err
            },
            FragmentKind::Enter => if arity == 1 {
                Ok(FragmentView::Enter { area_id: parts[1] })
            } else {
                arity_err
            },
            FragmentKind::Logout => if arity == 0 {
                Ok(FragmentView::Logout)
            } else {
                arity_err
            },
            FragmentKind::Waypoint => if arity == 0 {
                Ok(FragmentView::Waypoint)
            } else if arity == 1 {
                Ok(FragmentView::WaypointUse { area_id: parts[1] })
            } else {
                arity_err
            },
            FragmentKind::WaypointGet => if arity == 0 {
                Ok(FragmentView::WaypointGet)
            } else {
                arity_err
            },
            FragmentKind::Portal => if arity == 1 && parts[1] == "set"@ {
                Ok(FragmentView::PortalSet)
            } else if arity == 1 && parts[1] == "use"@ {
                Ok(FragmentView::PortalUse)
            } else {
                arity_err
            },
            FragmentKind::Quest => if arity >= 1 {
                Ok(FragmentView::Quest { quest_id: parts[1], reward_offer_ids: parts.skip(2) })
            } else {
                arity_err
            },
            FragmentKind::QuestText => if arity == 1 {
                Ok(FragmentView::QuestText { text: parts[1] })
            } else {
                arity_err
            },
            FragmentKind::Generic => if arity == 1 {
                Ok(FragmentView::Generic { text: parts[1] })
            } else {
                arity_err
            },
            FragmentKind::RewardQuest => if arity == 1 {
                Ok(FragmentView::RewardQuest { item: parts[1] })
            } else {
                arity_err
            },
            FragmentKind::RewardVendor => if 1 <= arity <= 2 {
                Ok(
                    FragmentView::RewardVendor {
                        item: parts[1],
                        cost: if arity == 2 {
                            Some(parts[2])
                        } else {
                            None
                        },
                    },
                )
            } else {
                arity_err
            },
            FragmentKind::Trial => if arity == 0 {
                Ok(FragmentView::Trial)
            } else {
                arity_err
            },
            FragmentKind::Ascend => if arity == 1 {
                Ok(FragmentView::Ascend { version: parts[1] })
            } else {
                arity_err
            },
            FragmentKind::Crafting => if arity <= 1 {
                Ok(
                    FragmentView::Crafting {
                        area_id: if arity == 1 {
                            Some(parts[1])
                        } else {
                            None
                        },
                    },
                )
            } else {
                arity_err
            },
            FragmentKind::Dir => if arity == 1 {
                match dir_index_of(parts[1]) {
                    Some(d) => Ok(FragmentView::Dir { dir_index: d }),
                    None => Err(FragmentErrorView::InvalidDir { line, value: parts[1] }),
                }
            } else {
                arity_err
            },
            FragmentKind::Copy => if arity >= 1 {
                Ok(FragmentView::Copy { text: concat_all(parts.skip(1)) })
            } else {
                arity_err
            },
        },
    }
}

pub open spec fn is_text_stop(c: char) -> bool {
    c == '{' || c == '#'
}

/// The first index at or after `i` holding `{` or `#`, or the length.
pub open spec fn text_stop(s: Seq<char>, i: int) -> int
    decreases s.len() - i,
{
    if i < 0 || i >= s.len() {
        s.len() as int
    } else if is_text_stop(s[i]) {
        i
    } else {
        text_stop(s, i + 1)
    }
}

pub proof fn lemma_text_stop(s: Seq<char>, i: int)
    requires
        0 <= i <= s.len(),
    ensures
        i <= text_stop(s, i) <= s.len(),
        text_stop(s, i) < s.len() ==> is_text_stop(s[text_stop(s, i)]),
        forall|k: int| i <= k < text_stop(s, i) ==> !is_text_stop(#[trigger] s[k]),
    decreases s.len() - i,
{
    if i < s.len() && !is_text_stop(s[i]) {
        lemma_text_stop(s, i + 1);
    }
}

pub open spec fn prepend_ok(f: FragmentView, r: Result<Seq<FragmentView>, FragmentErrorView>) -> Result<
    Seq<FragmentView>,
    FragmentErrorView,
> {
    match r {
        Ok(t) => Ok(seq![f] + t),
        Err(e) => Err(e),
    }
}

/// The fragments of `s` from index `pos` on: text runs between `{...}`
/// markups become `Text` unless blank, and a `#` outside markup ends the
/// line.
pub open spec fn parse_from(s: Seq<char>, pos: int, line: usize) -> Result<
    Seq<FragmentView>,
    FragmentErrorView,
>
    decreases s.len() - pos,
{
    if pos < 0 || pos >= s.len() || s[pos] == '#' {
        Ok(Seq::empty())
    } else if s[pos] == '{' {
        match char_from(s, '}', pos + 1) {
            None => Err(FragmentErrorView::Unterminated { line }),
            Some(end) => {
                proof {
                    lemma_char_from(s, '}', pos + 1);
                }
                match parse_one_spec(s.subrange(pos + 1, end), line) {
                    Err(e) => Err(e),
                    Ok(f) => prepend_ok(f, parse_from(s, end + 1, line)),
                }
            },
        }
    } else {
        let stop = text_stop(s, pos);
        proof {
            lemma_text_stop(s, pos);
        }
        let chunk = s.subrange(pos, stop);
        if trim(chunk).len() > 0 {
            prepend_ok(FragmentView::Text { value: chunk }, parse_from(s, stop, line))
        } else {
            parse_from(s, stop, line)
        }
    }
}

pub open spec fn parse_fragments_spec(text: Seq<char>, line: usize) -> Result<
    Seq<FragmentView>,
    FragmentErrorView,
> {
    parse_from(text, 0, line)
}

// ---------------------------------------------------------------------
// Implementation
// ---------------------------------------------------------------------

fn literal_is(k: &Vec<char>, lit: &str) -> (b: bool)
    ensures
        b == (k@ == lit@),
{
    let l = chars_of(lit);
    vec_eq(k, &l)
}

fn classify(k: &Vec<char>) -> (r: Option<FragmentKind>)
    ensures
        r == kind_of(k@),
{
    if literal_is(k, "kill") {
        Some(FragmentKind::Kill)
    } else if literal_is(k, "arena") {
        Some(FragmentKind::Arena)
    } else if literal_is(k, "area") {
        Some(FragmentKind::Area)
    } else if literal_is(k, "enter") {
        Some(FragmentKind::Enter)
    } else if literal_is(k, "logout") {
        Some(FragmentKind::Logout)
    } else if literal_is(k, "waypoint") {
        Some(FragmentKind::Waypoint)
    } else if literal_is(k, "waypoint_get") {
        Some(FragmentKind::WaypointGet)
    } else if literal_is(k, "portal") {
        Some(FragmentKind::Portal)
    } else if literal_is(k, "quest") {
        Some(FragmentKind::Quest)
    } else if literal_is(k, "quest_text") {
        Some(FragmentKind::QuestText)
    } else if literal_is(k, "generic") {
        Some(FragmentKind::Generic)
    } else if literal_is(k, "reward_quest") {
        Some(FragmentKind::RewardQuest)
    } else if literal_is(k, "reward_vendor") {
        Some(FragmentKind::RewardVendor)
    } else if literal_is(k, "trial") {
        Some(FragmentKind::Trial)
    } else if literal_is(k, "ascend") {
        Some(FragmentKind::Ascend)
    } else if literal_is(k, "crafting") {
        Some(FragmentKind::Crafting)
    } else if literal_is(k, "dir") {
        Some(FragmentKind::Dir)
    } else if literal_is(k, "copy") {
        Some(FragmentKind::Copy)
    } else {
        None
    }
}

pub proof fn lemma_parts_view(parts: &Vec<Vec<char>>)
    ensures
        forall|i: int| 0 <= i < parts.len() ==> #[trigger] parts.deep_view()[i] == parts@[i]@,
{
    assert forall|i: int| 0 <= i < parts.len() implies #[trigger] parts.deep_view()[i] == parts@[i]@ by {
        assert(parts@[i].deep_view() =~= parts@[i]@);
    }
}

/// `v` split on `c`.
pub fn split_chars(v: &Vec<char>, c: char) -> (parts: Vec<Vec<char>>)
    ensures
        parts.deep_view() == split_on(v@, c),
        parts.len() >= 1,
{
    let mut parts: Vec<Vec<char>> = Vec::new();
    let mut start: usize = 0;
    let mut i: usize = 0;
    while i < v.len()
        invariant
            start <= i <= v.len(),
            split_on(v@, c) == parts.deep_view() + split_from(v@, c, start as int),
            char_from(v@, c, start as int) == char_from(v@, c, i as int),
        decreases v.len() - i,
    {
        if v[i] == c {
            let piece = copy_range(v, start, i);
            let ghost before = parts.deep_view();
            proof {
                lemma_char_from(v@, c, start as int);
                assert(split_from(v@, c, start as int) == seq![v@.subrange(start as int, i as int)]
                    + split_from(v@, c, i + 1));
            }
            parts.push(piece);
            proof {
                lemma_parts_view(&parts);
                assert(parts.deep_view() =~= before.push(piece@));
                assert(parts.deep_view() + split_from(v@, c, i + 1) =~= split_on(v@, c));
            }
            start = i + 1;
        }
        i += 1;
    }
    let piece = copy_range(v, start, v.len());
    let ghost before = parts.deep_view();
    proof {
        assert(split_from(v@, c, start as int) == seq![v@.subrange(start as int, v@.len() as int)]);
    }
    parts.push(piece);
    proof {
        lemma_parts_view(&parts);
        assert(parts.deep_view() =~= before.push(piece@));
        assert(parts.deep_view() =~= split_on(v@, c));
    }
    parts
}

/// The pieces `parts[from..]` as strings.
fn strings_from(parts: &Vec<Vec<char>>, from: usize) -> (out: Vec<String>)
    requires
        from <= parts.len(),
    ensures
        out.deep_view() == parts.deep_view().skip(from as int),
{
    let mut out: Vec<String> = Vec::new();
    let mut i = from;
    while i < parts.len()
        invariant
            from <= i <= parts.len(),
            out.deep_view() == parts.deep_view().subrange(from as int, i as int),
        decreases parts.len() - i,
    {
        let s = string_of(&parts[i]);
        let ghost before = out.deep_view();
        proof {
            lemma_parts_view(parts);
        }
        out.push(s);
        proof {
            assert(out.deep_view() =~= before.push(s@));
            assert(out.deep_view() =~= parts.deep_view().subrange(from as int, i + 1));
        }
        i += 1;
    }
    assert(parts.deep_view().subrange(from as int, parts.len() as int) =~= parts.deep_view().skip(
        from as int,
    ));
    out
}

/// The pieces `parts[from..]` joined end to end.
fn concat_from(parts: &Vec<Vec<char>>, from: usize) -> (out: String)
    requires
        from <= parts.len(),
    ensures
        out@ == concat_all(parts.deep_view().skip(from as int)),
{
    let mut acc: Vec<char> = Vec::new();
    let mut i = from;
    assert(parts.deep_view().subrange(from as int, from as int) =~= Seq::<Seq<char>>::empty());
    while i < parts.len()
        invariant
            from <= i <= parts.len(),
            acc@ == concat_all(parts.deep_view().subrange(from as int, i as int)),
        decreases parts.len() - i,
    {
        proof {
            lemma_parts_view(parts);
            assert(parts.deep_view().subrange(from as int, i + 1).drop_last() =~= parts.deep_view().subrange(
                from as int,
                i as int,
            ));
        }
        crate::text::append_chars(&mut acc, &parts[i]);
        i += 1;
    }
    assert(parts.deep_view().subrange(from as int, parts.len() as int) =~= parts.deep_view().skip(
        from as int,
    ));
    string_of(&acc)
}

proof fn lemma_mod_step(a: nat, d: nat)
    ensures
        (a * 10 + d) % 360 == ((a % 360) * 10 + d) % 360,
{
    let q = a / 360;
    let r = a % 360;
    vstd::arithmetic::div_mod::lemma_fundamental_div_mod(a as int, 360);
    assert(a * 10 + d == 360 * (10 * q) + (r * 10 + d)) by (nonlinear_arith)
        requires
            a == 360 * q + r,
    ;
    vstd::arithmetic::div_mod::lemma_mod_multiples_vanish((10 * q) as int, (r * 10 + d) as int, 360);
}

/// The first exponent mark of `value`.
fn exp_index(value: &Vec<char>) -> (r: Option<usize>)
    ensures
        r matches Some(j) ==> exp_from(value@, 0) == Some(j as int) && j < value.len(),
        r is None ==> exp_from(value@, 0) is None,
{
    let mut i: usize = 0;
    while i < value.len()
        invariant
            i <= value.len(),
            exp_from(value@, 0) == exp_from(value@, i as int),
        decreases value.len() - i,
    {
        if value[i] == 'e' || value[i] == 'E' {
            return Some(i);
        }
        i += 1;
    }
    None
}

/// `e` held within `-cap ..= cap`.
pub open spec fn clamp(e: int, cap: int) -> int {
    if e > cap {
        cap
    } else if e < -cap {
        -cap
    } else {
        e
    }
}

/// The exponent `x` denotes, held within `-cap ..= cap`.
fn exponent_clamped(x: &Vec<char>, cap: u128) -> (r: Option<i128>)
    requires
        cap < 0x1_0000_0000_0000_0000_0000,
    ensures
        match exp_value(x@) {
            None => r is None,
            Some(e) => r == Some(clamp(e, cap as int) as i128),
        },
{
    let n = x.len();
    let signed = n > 0 && (x[0] == '-' || x[0] == '+');
    let negative = n > 0 && x[0] == '-';
    let lo: usize = if signed {
        1
    } else {
        0
    };
    let ghost d = if signed {
        x@.drop_first()
    } else {
        x@
    };
    assert(d =~= x@.subrange(lo as int, n as int));
    if lo == n {
        return None;
    }
    // The digits read so far, their value held at `cap + 1`.
    let mut acc: u128 = 0;
    let mut i = lo;
    while i < n
        invariant
            lo <= i <= n == x.len(),
            d == x@.subrange(lo as int, n as int),
            d == (if x@.len() > 0 && (x@[0] == '-' || x@[0] == '+') {
                x@.drop_first()
            } else {
                x@
            }),
            cap < 0x1_0000_0000_0000_0000_0000,
            all_digits(x@.subrange(lo as int, i as int)),
            acc as int == if digits_value(x@.subrange(lo as int, i as int)) > cap {
                cap + 1
            } else {
                digits_value(x@.subrange(lo as int, i as int)) as int
            },
        decreases n - i,
    {
        let c = x[i];
        if !('0' <= c && c <= '9') {
            assert(d[i - lo] == c);
            return None;
        }
        proof {
            assert(x@.subrange(lo as int, i + 1) =~= x@.subrange(lo as int, i as int).push(c));
            lemma_digits_value_push(x@.subrange(lo as int, i as int), c);
        }
        if acc <= cap {
            acc = acc * 10 + (c as u32 - '0' as u32) as u128;
            if acc > cap {
                acc = cap + 1;
            }
        }
        i += 1;
    }
    assert(x@.subrange(lo as int, n as int) =~= d);
    let mag: u128 = if acc > cap {
        cap
    } else {
        acc
    };
    if negative {
        Some(-(mag as i128))
    } else {
        Some(mag as i128)
    }
}

/// The value of the digits `d[..end]`, modulo 360.
fn digits_mod(d: &Vec<char>, end: usize) -> (m: u32)
    requires
        end <= d.len(),
        all_digits(d@.take(end as int)),
    ensures
        m == digits_value(d@.take(end as int)) % 360,
{
    let mut m: u32 = 0;
    let mut i: usize = 0;
    while i < end
        invariant
            i <= end <= d.len(),
            all_digits(d@.take(end as int)),
            m == digits_value(d@.take(i as int)) % 360,
        decreases end - i,
    {
        let c = d[i];
        proof {
            assert(d@.take(end as int)[i as int] == c);
            assert(d@.take(i + 1) =~= d@.take(i as int).push(c));
            lemma_digits_value_push(d@.take(i as int), c);
            lemma_mod_step(digits_value(d@.take(i as int)), (c as int - '0' as int) as nat);
        }
        m = (m * 10 + (c as u32 - '0' as u32)) % 360;
        i += 1;
    }
    m
}

/// Whether `d[lo..hi]` is all zeros.
fn zeros_between(d: &Vec<char>, lo: usize, hi: usize) -> (b: bool)
    requires
        lo <= hi <= d.len(),
    ensures
        b == all_zeros(d@.subrange(lo as int, hi as int)),
{
    let mut i = lo;
    while i < hi
        invariant
            lo <= i <= hi <= d.len(),
            forall|k: int| lo <= k < i ==> d@[k] == '0',
        decreases hi - i,
    {
        if d[i] != '0' {
            assert(d@.subrange(lo as int, hi as int)[i - lo] == d@[i as int]);
            return false;
        }
        i += 1;
    }
    assert forall|k: int| 0 <= k < hi - lo implies #[trigger] d@.subrange(lo as int, hi as int)[k] == '0' by {
        assert(d@.subrange(lo as int, hi as int)[k] == d@[lo + k]);
    }
    true
}

pub open spec fn with_zeros(d: Seq<char>, k: nat) -> Seq<char> {
    d + Seq::new(k, |i: int| '0')
}

proof fn lemma_with_zeros_step(d: Seq<char>, k: nat)
    ensures
        digits_value(with_zeros(d, k + 1)) == digits_value(with_zeros(d, k)) * 10,
{
    assert(with_zeros(d, k + 1) =~= with_zeros(d, k).push('0'));
    lemma_digits_value_push(with_zeros(d, k), '0');
}

/// Past three zeros, more zeros keep the value modulo 360 (1000 and 10
/// agree modulo 360 once multiplied by a multiple of 1000).
proof fn lemma_with_zeros_stable(d: Seq<char>, k: nat)
    requires
        k >= 3,
    ensures
        digits_value(with_zeros(d, k)) % 360 == digits_value(with_zeros(d, 3)) % 360,
    decreases k,
{
    if k > 3 {
        lemma_with_zeros_stable(d, (k - 1) as nat);
        let k1 = (k - 1) as nat;
        lemma_with_zeros_step(d, k1);
        lemma_with_zeros_step(d, (k1 - 1) as nat);
        lemma_with_zeros_step(d, (k1 - 2) as nat);
        lemma_with_zeros_step(d, (k1 - 3) as nat);
        let v = digits_value(with_zeros(d, (k1 - 3) as nat));
        let w = digits_value(with_zeros(d, k1));
        assert(w == v * 1000);
        assert(digits_value(with_zeros(d, k)) == w * 10);
        assert(w * 10 == 360 * (25 * v) + w) by (nonlinear_arith)
            requires
                w == v * 1000,
        ;
        vstd::arithmetic::div_mod::lemma_mod_multiples_vanish((25 * v) as int, w as int, 360);
    }
}

/// Two shifts that are both three or more, or both take off more digits
/// than there are, make the same outcome modulo 360.
proof fn lemma_shift_far(d: Seq<char>, s1: int, s2: int)
    requires
        (s1 >= 3 && s2 >= 3) || (-s1 > d.len() && -s2 > d.len()),
    ensures
        shifted_digits(d, s1) is None == shifted_digits(d, s2) is None,
        shifted_digits(d, s1) matches Some(a) ==> shifted_digits(d, s2) matches Some(b) && digits_value(a) % 360
            == digits_value(b) % 360,
{
    if s1 >= 3 {
        lemma_with_zeros_stable(d, s1 as nat);
        lemma_with_zeros_stable(d, s2 as nat);
        assert(shifted_digits(d, s1) == Some(with_zeros(d, s1 as nat)));
        assert(shifted_digits(d, s2) == Some(with_zeros(d, s2 as nat)));
    }
}

/// The whole number `d` times `10^shift` is, modulo 360, when it is one.
fn shifted_mod(d: &Vec<char>, shift: i128) -> (r: Option<u32>)
    requires
        all_digits(d@),
        shift > i128::MIN,
    ensures
        match shifted_digits(d@, shift as int) {
            None => r is None,
            Some(ds) => r == Some((digits_value(ds) % 360) as u32),
        },
{
    let n = d.len();
    assert(d@.take(n as int) =~= d@);
    if shift >= 0 {
        let mut m = digits_mod(d, n);
        let k: u32 = if shift < 3 {
            shift as u32
        } else {
            3
        };
        let mut j: u32 = 0;
        assert(with_zeros(d@, 0) =~= d@);
        while j < k
            invariant
                j <= k <= 3,
                m == digits_value(with_zeros(d@, j as nat)) % 360,
            decreases k - j,
        {
            proof {
                lemma_with_zeros_step(d@, j as nat);
                lemma_mod_step(digits_value(with_zeros(d@, j as nat)), 0);
            }
            m = (m * 10) % 360;
            j += 1;
        }
        proof {
            assert(shifted_digits(d@, shift as int) == Some(with_zeros(d@, shift as nat)));
            if shift >= 3 {
                lemma_with_zeros_stable(d@, shift as nat);
            }
        }
        Some(m)
    } else {
        let t: i128 = -shift;
        if t <= n as i128 {
            let start: usize = n - (t as usize);
            assert(d@.skip(n - t) =~= d@.subrange(start as int, n as int));
            if zeros_between(d, start, n) {
                assert(all_digits(d@.take(start as int))) by {
                    assert forall|k: int| 0 <= k < start implies crate::text::is_digit(#[trigger] d@.take(start as int)[k]) by {
                        assert(d@.take(start as int)[k] == d@[k]);
                    }
                }
                return Some(digits_mod(d, start));
            }
        }
        assert(d@.subrange(0, n as int) =~= d@);
        if zeros_between(d, 0, n) {
            assert(digits_value(Seq::<char>::empty()) == 0);
            Some(0)
        } else {
            None
        }
    }
}

/// The digits of a mantissa (its whole digits, then its fraction's) and
/// the length of its fraction; `None` when it has no digits or holds
/// anything else.
fn mantissa_digits(mant: &Vec<char>) -> (r: Option<(Vec<char>, usize)>)
    ensures
        ({
            let (whole, frac) = dir_parts(mant@);
            if whole.len() + frac.len() == 0 || !all_digits(whole) || !all_digits(frac) {
                r is None
            } else {
                r matches Some((dv, f)) && dv@ == whole + frac && f == frac.len() && dv@.len() <= mant@.len()
            }
        }),
{
    let n = mant.len();
    let signed = n > 0 && (mant[0] == '-' || mant[0] == '+');
    let lo: usize = if signed {
        1
    } else {
        0
    };
    let ghost body = if signed {
        mant@.drop_first()
    } else {
        mant@
    };
    assert(body =~= mant@.subrange(lo as int, n as int));
    let bv = copy_range(mant, lo, n);
    let dot = find_char_from(&bv, '.', 0);
    let (whole_end, frac_start) = match dot {
        Some(d) => (d, d + 1),
        None => (bv.len(), bv.len()),
    };
    let ghost whole = bv@.subrange(0, whole_end as int);
    let ghost frac = bv@.subrange(frac_start as int, bv@.len() as int);
    proof {
        match dot {
            Some(d) => {
                assert(whole =~= bv@.take(d as int));
                assert(frac =~= bv@.skip(d + 1));
                assert(char_from(bv@, '.', 0) == Some(d as int));
            },
            None => {
                assert(whole =~= bv@);
                assert(frac =~= Seq::<char>::empty());
                assert(char_from(bv@, '.', 0) is None);
            },
        }
    }
    assert(dir_parts(mant@) == (whole, frac));
    if whole_end + (bv.len() - frac_start) == 0 {
        return None;
    }
    let mut dv = copy_range(&bv, 0, whole_end);
    let fv = copy_range(&bv, frac_start, bv.len());
    append_chars(&mut dv, &fv);
    let mut i: usize = 0;
    while i < dv.len()
        invariant
            i <= dv.len(),
            dv@ == whole + frac,
            dir_parts(mant@) == (whole, frac),
            forall|k: int| 0 <= k < i ==> crate::text::is_digit(#[trigger] dv@[k]),
        decreases dv.len() - i,
    {
        let c = dv[i];
        if !('0' <= c && c <= '9') {
            proof {
                if i < whole.len() {
                    assert(whole[i as int] == c);
                } else {
                    assert(frac[i - whole.len()] == c);
                }
            }
            return None;
        }
        i += 1;
    }
    assert(all_digits(whole)) by {
        assert forall|k: int| 0 <= k < whole.len() implies crate::text::is_digit(#[trigger] whole[k]) by {
            assert(dv@[k] == whole[k]);
        }
    }
    assert(all_digits(frac)) by {
        assert forall|k: int| 0 <= k < frac.len() implies crate::text::is_digit(#[trigger] frac[k]) by {
            assert(dv@[whole.len() + k] == frac[k]);
        }
    }
    let f = bv.len() - frac_start;
    Some((dv, f))
}

/// The compass index of a direction written in degrees.
pub fn dir_index(value: &Vec<char>) -> (r: Option<u8>)
    ensures
        r == dir_index_of(value@),
{
    let n = value.len();
    let cap: u128 = n as u128 + 4;
    let (mant_end, e) = match exp_index(value) {
        Some(p) => {
            let x = copy_range(value, p + 1, n);
            match exponent_clamped(&x, cap) {
                Some(v) => (p, v),
                None => {
                    proof {
                        assert(x@ =~= value@.skip(p + 1));
                    }
                    return None;
                },
            }
        },
        None => (n, 0i128),
    };
    let mant = copy_range(value, 0, mant_end);
    let ghost (gm, gx) = exp_split(value@);
    let ghost ge: int = match gx {
        Some(x) => exp_value(x)->0,
        None => 0,
    };
    proof {
        match gx {
            Some(x) => {
                assert(x =~= value@.skip(mant_end + 1));
                assert(gm =~= mant@);
            },
            None => {
                assert(gm =~= mant@);
            },
        }
    }
    let (dv, f) = match mantissa_digits(&mant) {
        Some(p) => p,
        None => {
            return None;
        },
    };
    let negative = mant.len() > 0 && mant[0] == '-';
    proof {
        assert(e as int == clamp(ge, cap as int));
        assert(dv@.len() <= n);
    }
    let shift: i128 = e - f as i128;
    let ghost true_shift: int = ge - f;
    proof {
        let (whole, frac) = dir_parts(mant@);
        assert(e as int == clamp(ge, cap as int));
        assert(dv@.len() <= n);
        assert(f <= n);
        if ge > cap || ge < -cap {
            lemma_shift_far(dv@, true_shift, shift as int);
        }
    }
    let m = match shifted_mod(&dv, shift) {
        Some(m) => m,
        None => {
            return None;
        },
    };
    let ghost ds = shifted_digits(dv@, true_shift)->0;
    let ghost v = digits_value(ds);
    proof {
        assert(m == v % 360);
        if negative {
            assert(dir_degrees(value@) == Some(-(v as int)));
        } else {
            assert(dir_degrees(value@) == Some(v as int));
        }
    }
    // Euclidean remainder of the signed value.
    let deg: u32 = if negative && m != 0 {
        360 - m
    } else {
        m
    };
    proof {
        if negative {
            vstd::arithmetic::div_mod::lemma_fundamental_div_mod(v as int, 360);
            let q = (v as int) / 360;
            if m != 0 {
                assert(-(v as int) == 360 * (-q - 1) + (360 - m));
                vstd::arithmetic::div_mod::lemma_mod_multiples_vanish(-q - 1, 360 - m as int, 360);
                vstd::arithmetic::div_mod::lemma_small_mod((360 - m) as nat, 360);
            } else {
                assert(-(v as int) == 360 * (-q));
                vstd::arithmetic::div_mod::lemma_mod_multiples_vanish(-q, 0, 360);
            }
            assert((-(v as int)) % 360 == deg);
        }
    }
    if deg % 45 == 0 {
        Some((deg / 45) as u8)
    } else {
        None
    }
}

fn owned_part(parts: &Vec<Vec<char>>, i: usize) -> (s: String)
    requires
        i < parts.len(),
    ensures
        s@ == parts.deep_view()[i as int],
{
    proof {
        lemma_parts_view(parts);
    }
    string_of(&parts[i])
}

/// What the markup `{inner}` on line `line` denotes.
pub fn parse_one(inner: &Vec<char>, line: usize) -> (r: Result<Fragment, FragmentError>)
    ensures
        match r {
            Ok(f) => parse_one_spec(inner@, line) == Ok::<FragmentView, FragmentErrorView>(
                f.deep_view(),
            ),
            Err(e) => parse_one_spec(inner@, line) == Err::<FragmentView, FragmentErrorView>(
                e.deep_view(),
            ),
        },
{
    let parts = split_chars(inner, '|');
    proof {
        lemma_parts_view(&parts);
    }
    let kind = &parts[0];
    let arity = parts.len() - 1;
    let arity_err = FragmentError::InvalidArity { line, kind: string_of(kind) };
    match classify(kind) {
        None => Err(FragmentError::UnknownKind { line, kind: string_of(kind) }),
        Some(k) => match k {
            FragmentKind::Kill => if arity == 1 {
                Ok(Fragment::Kill { name: owned_part(&parts, 1) })
            } else {
                Err(arity_err)
            },
            FragmentKind::Arena => if arity == 1 {
                Ok(Fragment::Arena { name: owned_part(&parts, 1) })
            } else {
                Err(arity_err)
            },
            FragmentKind::Area => if arity == 1 {
                Ok(Fragment::Area { area_id: owned_part(&parts, 1) })
            } else {
                Err(arity_err)
            },
            FragmentKind::Enter => if arity == 1 {
                Ok(Fragment::Enter { area_id: owned_part(&parts, 1) })
            } else {
                Err(arity_err)
            },
            FragmentKind::Logout => if arity == 0 {
                Ok(Fragment::Logout)
            } else {
                Err(arity_err)
            },
            FragmentKind::Waypoint => if arity == 0 {
                Ok(Fragment::Waypoint)
            } else if arity == 1 {
                Ok(Fragment::WaypointUse { area_id: owned_part(&parts, 1) })
            } else {
                Err(arity_err)
            },
            FragmentKind::WaypointGet => if arity == 0 {
                Ok(Fragment::WaypointGet)
            } else {
                Err(arity_err)
            },
            FragmentKind::Portal => if arity == 1 && literal_is(&parts[1], "set") {
                Ok(Fragment::PortalSet)
            } else if arity == 1 && literal_is(&parts[1], "use") {
                Ok(Fragment::PortalUse)
            } else {
                Err(arity_err)
            },
            FragmentKind::Quest => if arity >= 1 {
                Ok(
                    Fragment::Quest {
                        quest_id: owned_part(&parts, 1),
                        reward_offer_ids: strings_from(&parts, 2),
                    },
                )
            } else {
                Err(arity_err)
            },
            FragmentKind::QuestText => if arity == 1 {
                Ok(Fragment::QuestText { text: owned_part(&parts, 1) })
            } else {
                Err(arity_err)
            },
            FragmentKind::Generic => if arity == 1 {
                Ok(Fragment::Generic { text: owned_part(&parts, 1) })
            } else {
                Err(arity_err)
            },
            FragmentKind::RewardQuest => if arity == 1 {
                Ok(Fragment::RewardQuest { item: owned_part(&parts, 1) })
            } else {
                Err(arity_err)
            },
            FragmentKind::RewardVendor => if 1 <= arity && arity <= 2 {
                let cost = if arity == 2 {
                    Some(owned_part(&parts, 2))
                } else {
                    None
                };
                Ok(Fragment::RewardVendor { item: owned_part(&parts, 1), cost })
            } else {
                Err(arity_err)
            },
            FragmentKind::Trial => if arity == 0 {
                Ok(Fragment::Trial)
            } else {
                Err(arity_err)
            },
            FragmentKind::Ascend => if arity == 1 {
                Ok(Fragment::Ascend { version: owned_part(&parts, 1) })
            } else {
                Err(arity_err)
            },
            FragmentKind::Crafting => if arity <= 1 {
                let area_id = if arity == 1 {
                    Some(owned_part(&parts, 1))
                } else {
                    None
                };
                Ok(Fragment::Crafting { area_id })
            } else {
                Err(arity_err)
            },
            FragmentKind::Dir => if arity == 1 {
                match dir_index(&parts[1]) {
                    Some(d) => Ok(Fragment::Dir { dir_index: d }),
                    None => Err(FragmentError::InvalidDir { line, value: owned_part(&parts, 1) }),
                }
            } else {
                Err(arity_err)
            },
            FragmentKind::Copy => if arity >= 1 {
                Ok(Fragment::Copy { text: concat_from(&parts, 1) })
            } else {
                Err(arity_err)
            },
        },
    }
}

/// The fragments of one route line (`line_no` is reported in errors).
pub fn parse_fragments(text: &str, line_no: usize) -> (r: Result<Vec<Fragment>, FragmentError>)
    ensures
        match r {
            Ok(fs) => parse_fragments_spec(text@, line_no) == Ok::<
                Seq<FragmentView>,
                FragmentErrorView,
            >(fs.deep_view()),
            Err(e) => parse_fragments_spec(text@, line_no) == Err::<
                Seq<FragmentView>,
                FragmentErrorView,
            >(e.deep_view()),
        },
{
    let v = chars_of(text);
    let mut out: Vec<Fragment> = Vec::new();
    let mut pos: usize = 0;
    while pos < v.len()
        invariant
            pos <= v.len(),
            v@ == text@,
            parse_fragments_spec(text@, line_no) == (match parse_from(v@, pos as int, line_no) {
                Ok(t) => Ok(out.deep_view() + t),
                Err(e) => Err(e),
            }),
        decreases v.len() - pos,
    {
        if v[pos] == '#' {
            proof {
                assert(out.deep_view() + Seq::<FragmentView>::empty() =~= out.deep_view());
            }
            return Ok(out);
        }
        if v[pos] == '{' {
            match find_char_from(&v, '}', pos + 1) {
                None => {
                    return Err(FragmentError::Unterminated { line: line_no });
                },
                Some(end) => {
                    let inner = copy_range(&v, pos + 1, end);
                    match parse_one(&inner, line_no) {
                        Err(e) => {
                            return Err(e);
                        },
                        Ok(f) => {
                            proof {
                                let t = parse_from(v@, end + 1, line_no);
                                match t {
                                    Ok(tt) => {
                                        assert(out.deep_view().push(f.deep_view()) + tt =~= out.deep_view()
                                            + (seq![f.deep_view()] + tt));
                                    },
                                    Err(_) => {},
                                }
                            }
                            let ghost before = out.deep_view();
                            let ghost fv = f.deep_view();
                            out.push(f);
                            proof {
                                assert(out.deep_view() =~= before.push(fv));
                            }
                            pos = end + 1;
                        },
                    }
                },
            }
        } else {
            let mut stop = pos + 1;
            while stop < v.len() && v[stop] != '{' && v[stop] != '#'
                invariant
                    pos < stop <= v.len(),
                    text_stop(v@, pos as int) == text_stop(v@, stop as int),
                decreases v.len() - stop,
            {
                stop += 1;
            }
            let (a, b) = trim_bounds(&v, pos, stop);
            if a < b {
                let chunk = string_of_range(&v, pos, stop);
                proof {
                    let t = parse_from(v@, stop as int, line_no);
                    match t {
                        Ok(tt) => {
                            assert(out.deep_view().push(FragmentView::Text { value: chunk@ }) + tt =~= out.deep_view()
                                + (seq![FragmentView::Text { value: chunk@ }] + tt));
                        },
                        Err(_) => {},
                    }
                }
                let ghost before = out.deep_view();
                let ghost cv = chunk@;
                out.push(Fragment::Text { value: chunk });
                proof {
                    assert(out.deep_view() =~= before.push(FragmentView::Text { value: cv }));
                }
            }
            pos = stop;
        }
    }
    proof {
        assert(parse_from(v@, pos as int, line_no) == Ok::<Seq<FragmentView>, FragmentErrorView>(
            Seq::empty(),
        ));
        assert(out.deep_view() + Seq::<FragmentView>::empty() =~= out.deep_view());
    }
    Ok(out)
}

} // verus!
