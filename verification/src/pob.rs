//! Leveling build plans imported from Path of Building: the plan types,
//! level ranges read from skill-set titles, and milestones.

use vstd::prelude::*;

use crate::text::{chars_of, parse_unsigned, parse_unsigned_range, trim_end, trim_end_index, trim_start, trim_start_index};

verus! {

#[derive(Debug, Clone, Copy, PartialEq, Eq, Structural)]
pub enum Reliability {
    Explicit,
    Structured,
    Inferred,
    Unsupported,
}

#[derive(Debug, Clone, PartialEq)]
pub struct GemPlan {
    pub name: String,
    pub required_level: Option<u8>,
    pub is_support: Option<bool>,
    pub enabled: bool,
}

pub struct GemPlanView {
    pub name: Seq<char>,
    pub required_level: Option<u8>,
    pub is_support: Option<bool>,
    pub enabled: bool,
}

impl DeepView for GemPlan {
    type V = GemPlanView;

    open spec fn deep_view(&self) -> GemPlanView {
        GemPlanView {
            name: self.name@,
            required_level: self.required_level,
            is_support: self.is_support,
            enabled: self.enabled,
        }
    }
}

#[derive(Debug, Clone, PartialEq)]
pub struct SkillSetPlan {
    pub title: String,
    pub level_range: Option<(u16, u16)>,
    pub gems: Vec<GemPlan>,
}

pub struct SkillSetPlanView {
    pub title: Seq<char>,
    pub level_range: Option<(u16, u16)>,
    pub gems: Seq<GemPlanView>,
}

impl DeepView for SkillSetPlan {
    type V = SkillSetPlanView;

    open spec fn deep_view(&self) -> SkillSetPlanView {
        SkillSetPlanView { title: self.title@, level_range: self.level_range, gems: self.gems.deep_view() }
    }
}

#[derive(Debug, Clone, PartialEq)]
pub struct Milestone {
    pub level: u16,
    pub label: String,
    pub reliability: Reliability,
}

pub struct MilestoneView {
    pub level: u16,
    pub label: Seq<char>,
    pub reliability: Reliability,
}

impl DeepView for Milestone {
    type V = MilestoneView;

    open spec fn deep_view(&self) -> MilestoneView {
        MilestoneView { level: self.level, label: self.label@, reliability: self.reliability }
    }
}

#[derive(Debug, Clone, PartialEq)]
pub struct LevelingBuildPlan {
    pub class_name: String,
    pub ascend_name: Option<String>,
    pub skill_sets: Vec<SkillSetPlan>,
    pub passive_spec_titles: Vec<String>,
    pub notes: Option<String>,
    pub milestones: Vec<Milestone>,
    pub reliability: Reliability,
}

pub struct LevelingBuildPlanView {
    pub class_name: Seq<char>,
    pub ascend_name: Option<Seq<char>>,
    pub skill_sets: Seq<SkillSetPlanView>,
    pub passive_spec_titles: Seq<Seq<char>>,
    pub notes: Option<Seq<char>>,
    pub milestones: Seq<MilestoneView>,
    pub reliability: Reliability,
}

impl DeepView for LevelingBuildPlan {
    type V = LevelingBuildPlanView;

    open spec fn deep_view(&self) -> LevelingBuildPlanView {
        LevelingBuildPlanView {
            class_name: self.class_name@,
            ascend_name: self.ascend_name.deep_view(),
            skill_sets: self.skill_sets.deep_view(),
            passive_spec_titles: self.passive_spec_titles.deep_view(),
            notes: self.notes.deep_view(),
            milestones: self.milestones.deep_view(),
            reliability: self.reliability,
        }
    }
}

#[derive(Debug, Clone, PartialEq)]
pub enum PobError {
    NotACode,
    UrlNotSupported,
    Decode(String),
    Xml(String),
}

pub enum PobErrorView {
    NotACode,
    UrlNotSupported,
    Decode(Seq<char>),
    Xml(Seq<char>),
}

impl DeepView for PobError {
    type V = PobErrorView;

    open spec fn deep_view(&self) -> PobErrorView {
        match self {
            PobError::NotACode => PobErrorView::NotACode,
            PobError::UrlNotSupported => PobErrorView::UrlNotSupported,
            PobError::Decode(m) => PobErrorView::Decode(m@),
            PobError::Xml(m) => PobErrorView::Xml(m@),
        }
    }
}

/// The lowercase name of a reliability, as the settings UI shows it.
pub open spec fn reliability_name(r: Reliability) -> Seq<char> {
    match r {
        Reliability::Explicit => "explicit"@,
        Reliability::Structured => "structured"@,
        Reliability::Inferred => "inferred"@,
        Reliability::Unsupported => "unsupported"@,
    }
}

pub fn reliability_str(r: Reliability) -> (s: String)
    ensures
        s@ == reliability_name(r),
{
    match r {
        Reliability::Explicit => crate::text::owned("explicit"),
        Reliability::Structured => crate::text::owned("structured"),
        Reliability::Inferred => crate::text::owned("inferred"),
        Reliability::Unsupported => crate::text::owned("unsupported"),
    }
}

pub open spec fn pob_error_text(e: PobErrorView) -> Seq<char> {
    match e {
        PobErrorView::NotACode => "input is not a Path of Building share code"@,
        PobErrorView::UrlNotSupported => "URLs are not supported; paste the raw PoB share code or XML instead"@,
        PobErrorView::Decode(m) => "failed to decode share code: "@ + m,
        PobErrorView::Xml(m) => "failed to parse build XML: "@ + m,
    }
}

impl PobError {
    /// The message shown for the error.
    pub fn message(&self) -> (s: String)
        ensures
            s@ == pob_error_text(self.deep_view()),
    {
        match self {
            PobError::NotACode => crate::text::owned("input is not a Path of Building share code"),
            PobError::UrlNotSupported => crate::text::owned(
                "URLs are not supported; paste the raw PoB share code or XML instead",
            ),
            PobError::Decode(m) => {
                let mut v = chars_of("failed to decode share code: ");
                crate::text::append_str(&mut v, m.as_str());
                crate::text::string_of(&v)
            },
            PobError::Xml(m) => {
                let mut v = chars_of("failed to parse build XML: ");
                crate::text::append_str(&mut v, m.as_str());
                crate::text::string_of(&v)
            },
        }
    }
}

/// What the settings window previews of an imported build.
#[derive(Debug, Clone, PartialEq)]
pub struct PobSummary {
    pub class_name: String,
    pub ascend_name: Option<String>,
    pub milestone_count: usize,
    pub reliability: String,
}

/// The preview of a plan.
pub fn pob_summary(plan: LevelingBuildPlan) -> (s: PobSummary)
    ensures
        s.class_name@ == plan.class_name@,
        s.ascend_name.deep_view() == plan.ascend_name.deep_view(),
        s.milestone_count == plan.milestones@.len(),
        s.reliability@ == reliability_name(plan.reliability),
{
    PobSummary {
        class_name: plan.class_name,
        ascend_name: plan.ascend_name,
        milestone_count: plan.milestones.len(),
        reliability: reliability_str(plan.reliability),
    }
}

// ---------------------------------------------------------------------
// Level ranges in skill-set titles
// ---------------------------------------------------------------------

/// The game's level cap.
pub const MAX_PLAYER_LEVEL: u16 = 100;

pub open spec fn ascii_digit(c: char) -> bool {
    '0' <= c && c <= '9'
}

/// The first index at or after `i` that is not an ASCII digit.
pub open spec fn digits_end(s: Seq<char>, i: int) -> int
    decreases s.len() - i,
{
    if i < 0 || i >= s.len() || !ascii_digit(s[i]) {
        i
    } else {
        digits_end(s, i + 1)
    }
}

/// The start of the run of ASCII digits ending at `j`.
pub open spec fn digits_start(s: Seq<char>, j: int) -> int
    decreases j,
{
    if j <= 0 || j > s.len() || !ascii_digit(s[j - 1]) {
        j
    } else {
        digits_start(s, j - 1)
    }
}

/// The number the leading ASCII digits of `s` spell, when they fit a `u16`.
pub open spec fn leading_digits_spec(s: Seq<char>) -> Option<u16> {
    match parse_unsigned(s.take(digits_end(s, 0)), 65535) {
        Some(n) => Some(n as u16),
        None => None,
    }
}

/// The number the trailing ASCII digits of `s` spell, when they fit a `u16`.
pub open spec fn trailing_digits_spec(s: Seq<char>) -> Option<u16> {
    match parse_unsigned(s.skip(digits_start(s, s.len() as int)), 65535) {
        Some(n) => Some(n as u16),
        None => None,
    }
}

pub open spec fn is_dash(c: char) -> bool {
    c == '-' || c == '\u{2013}'
}

/// The first `A-B` (or `A–B`) pair at or after index `i`.
pub open spec fn dash_pair_from(t: Seq<char>, i: int) -> Option<(u16, u16)>
    decreases t.len() - i,
{
    if i < 0 || i >= t.len() {
        None
    } else if is_dash(t[i]) && trailing_digits_spec(trim_end(t.take(i))) is Some
        && leading_digits_spec(trim_start(t.skip(i + 1))) is Some {
        Some(
            (
                trailing_digits_spec(trim_end(t.take(i)))->0,
                leading_digits_spec(trim_start(t.skip(i + 1)))->0,
            ),
        )
    } else {
        dash_pair_from(t, i + 1)
    }
}

pub open spec fn cap_level(n: u16) -> u16 {
    if n < MAX_PLAYER_LEVEL {
        n
    } else {
        MAX_PLAYER_LEVEL
    }
}

/// The level range a skill-set title names: its first `A-B` pair, else a
/// leading number `A` as `(A, A)`; both ends capped at the level cap.
pub open spec fn level_range_spec(title: Seq<char>) -> Option<(u16, u16)> {
    match dash_pair_from(title, 0) {
        Some((a, b)) => Some((cap_level(a), cap_level(b))),
        None => match leading_digits_spec(title) {
            Some(a) => Some((cap_level(a), cap_level(a))),
            None => None,
        },
    }
}

/// Every level a skill-set title yields is a player level the game allows.
pub proof fn lemma_level_range_capped(title: Seq<char>)
    ensures
        level_range_spec(title) matches Some((a, b)) ==> a <= MAX_PLAYER_LEVEL && b <= MAX_PLAYER_LEVEL,
{
}

pub proof fn lemma_digits_end(s: Seq<char>, i: int)
    requires
        0 <= i <= s.len(),
    ensures
        i <= digits_end(s, i) <= s.len(),
        forall|k: int| i <= k < digits_end(s, i) ==> ascii_digit(#[trigger] s[k]),
    decreases s.len() - i,
{
    if i < s.len() && ascii_digit(s[i]) {
        lemma_digits_end(s, i + 1);
    }
}

fn is_ascii_digit(c: char) -> (b: bool)
    ensures
        b == ascii_digit(c),
{
    '0' <= c && c <= '9'
}

/// The number the leading digits of `v[lo..hi]` spell.
fn leading_digits(v: &Vec<char>, lo: usize, hi: usize) -> (r: Option<u16>)
    requires
        lo <= hi <= v.len(),
    ensures
        r == leading_digits_spec(v@.subrange(lo as int, hi as int)),
{
    let ghost s = v@.subrange(lo as int, hi as int);
    let mut k = lo;
    while k < hi && is_ascii_digit(v[k])
        invariant
            lo <= k <= hi <= v.len(),
            s == v@.subrange(lo as int, hi as int),
            digits_end(s, 0) == digits_end(s, k - lo),
        decreases hi - k,
    {
        k += 1;
    }
    assert(s.take(k - lo) =~= v@.subrange(lo as int, k as int));
    match parse_unsigned_range(v, lo, k, 65535) {
        Some(n) => Some(n as u16),
        None => None,
    }
}

/// The number the trailing digits of `v[lo..hi]` spell.
fn trailing_digits(v: &Vec<char>, lo: usize, hi: usize) -> (r: Option<u16>)
    requires
        lo <= hi <= v.len(),
    ensures
        r == trailing_digits_spec(v@.subrange(lo as int, hi as int)),
{
    let ghost s = v@.subrange(lo as int, hi as int);
    let mut k = hi;
    while k > lo && is_ascii_digit(v[k - 1])
        invariant
            lo <= k <= hi <= v.len(),
            s == v@.subrange(lo as int, hi as int),
            digits_start(s, s.len() as int) == digits_start(s, k - lo),
        decreases k - lo,
    {
        k -= 1;
    }
    assert(s.skip(k - lo) =~= v@.subrange(k as int, hi as int));
    match parse_unsigned_range(v, k, hi, 65535) {
        Some(n) => Some(n as u16),
        None => None,
    }
}

fn cap(n: u16) -> (r: u16)
    ensures
        r == cap_level(n),
{
    if n < MAX_PLAYER_LEVEL {
        n
    } else {
        MAX_PLAYER_LEVEL
    }
}

/// The level range a skill-set title names, capped at the level cap.
pub fn parse_level_range(title: &str) -> (r: Option<(u16, u16)>)
    ensures
        r == level_range_spec(title@),
{
    let t = chars_of(title);
    let n = t.len();
    let mut i: usize = 0;
    while i < n
        invariant
            i <= n == t.len(),
            t@ == title@,
            dash_pair_from(t@, 0) == dash_pair_from(t@, i as int),
        decreases n - i,
    {
        let c = t[i];
        if c == '-' || c == '\u{2013}' {
            let before_end = trim_end_index(&t, 0, i);
            let after_start = trim_start_index(&t, i + 1, n);
            proof {
                assert(t@.subrange(0, i as int) =~= t@.take(i as int));
                assert(t@.subrange(i + 1, n as int) =~= t@.skip(i + 1));
            }
            let a = trailing_digits(&t, 0, before_end);
            let b = leading_digits(&t, after_start, n);
            match (a, b) {
                (Some(a), Some(b)) => {
                    return Some((cap(a), cap(b)));
                },
                _ => {},
            }
        }
        i += 1;
    }
    assert(t@.subrange(0, n as int) =~= t@);
    match leading_digits(&t, 0, n) {
        Some(a) => Some((cap(a), cap(a))),
        None => None,
    }
}

} // verus!
