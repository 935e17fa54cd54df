//! Reading a Path of Building build document into a leveling plan: the
//! element handlers, and the milestones derived from the skill sets.

use vstd::prelude::*;

use std::collections::BTreeMap;

use crate::game_data::{gems_by_name, AreaMap, Gem, GemMap, GemView, QuestMap};
use crate::gem_availability::{
    act_entry_levels, availability_for_class, availability_spec, entry_levels,
    lemma_u8_keys_ordered, town_acts_bounded, Availability, AvailabilitySource, GemAvailability,
    GemAvailabilityView,
};
use crate::map::{key_less, key_lt, lookup, StrMap};
use crate::pob::{
    level_range_spec, parse_level_range, GemPlan, GemPlanView, LevelingBuildPlan,
    LevelingBuildPlanView, Milestone, MilestoneView, PobError, Reliability, SkillSetPlan,
    SkillSetPlanView,
};
use crate::text::{append_chars, append_str, chars_of, decimal, decimal_chars, owned, string_of, trim, trim_bounds};
use crate::xml_events::{token_ok, xml_event_at, XmlEvents, XmlKind, XmlToken, XmlTokenView};

verus! {

// ---------------------------------------------------------------------
// Outside calls
// ---------------------------------------------------------------------

/// The value of attribute `key` in the tag `tag` whose name is its first
/// `name_len` bytes, unescaped; or the message of the attribute error.
pub uninterp spec fn xml_attribute_of(tag: Seq<u8>, name_len: nat, key: Seq<char>) -> Result<Option<Seq<char>>, Seq<char>>;

/// Escaped element text, unescaped; or the message of the error.
pub uninterp spec fn xml_unescape_of(raw: Seq<u8>) -> Result<Seq<char>, Seq<char>>;

/// CDATA content decoded as text; or the message of the error.
pub uninterp spec fn xml_cdata_of(raw: Seq<u8>) -> Result<Seq<char>, Seq<char>>;

/// `BytesStart::try_get_attribute` then `Attribute::unescape_value`, on the
/// tag rebuilt with `BytesStart::from_content`. The result is left to the
/// name. The attributes are read from byte `name_len` on, so `name_len`
/// must lie within the tag (replacing invalid UTF-8 in the tag's text
/// never makes it shorter).
#[verifier::external_body]
fn xml_attribute(tag: &[u8], name_len: usize, key: &str) -> (r: Result<Option<String>, String>)
    requires
        name_len <= tag@.len(),
    ensures
        (match r {
            Ok(Some(v)) => xml_attribute_of(tag@, name_len as nat, key@) == Ok::<Option<Seq<char>>, Seq<char>>(Some(v@)),
            Ok(None) => xml_attribute_of(tag@, name_len as nat, key@) == Ok::<Option<Seq<char>>, Seq<char>>(None),
            Err(m) => xml_attribute_of(tag@, name_len as nat, key@) == Err::<Option<Seq<char>>, Seq<char>>(m@),
        }),
{
    let start = quick_xml::events::BytesStart::from_content(String::from_utf8_lossy(tag), name_len);
    match start.try_get_attribute(key) {
        Ok(Some(a)) => match a.unescape_value() {
            Ok(v) => Ok(Some(v.into_owned())),
            Err(e) => Err(e.to_string()),
        },
        Ok(None) => Ok(None),
        Err(e) => Err(e.to_string()),
    }
}

/// `BytesText::from_escaped` then `BytesText::unescape`. The result is
/// left to the name.
#[verifier::external_body]
fn xml_unescape(raw: &[u8]) -> (r: Result<String, String>)
    ensures
        (match r {
            Ok(t) => xml_unescape_of(raw@) == Ok::<Seq<char>, Seq<char>>(t@),
            Err(m) => xml_unescape_of(raw@) == Err::<Seq<char>, Seq<char>>(m@),
        }),
{
    let text = quick_xml::events::BytesText::from_escaped(String::from_utf8_lossy(raw));
    match text.unescape() {
        Ok(t) => Ok(t.into_owned()),
        Err(e) => Err(e.to_string()),
    }
}

/// `BytesCData::new` then `BytesCData::decode`. The result is left to the
/// name.
#[verifier::external_body]
fn xml_cdata(raw: &[u8]) -> (r: Result<String, String>)
    ensures
        (match r {
            Ok(t) => xml_cdata_of(raw@) == Ok::<Seq<char>, Seq<char>>(t@),
            Err(m) => xml_cdata_of(raw@) == Err::<Seq<char>, Seq<char>>(m@),
        }),
{
    let data = quick_xml::events::BytesCData::new(String::from_utf8_lossy(raw));
    match data.decode() {
        Ok(t) => Ok(t.into_owned()),
        Err(e) => Err(e.to_string()),
    }
}

// ---------------------------------------------------------------------
// Specification: the element handlers
// ---------------------------------------------------------------------

pub struct ParseStateView {
    pub class_name: Seq<char>,
    pub ascend_name: Option<Seq<char>>,
    pub skill_sets: Seq<SkillSetPlanView>,
    pub passive_spec_titles: Seq<Seq<char>>,
    pub in_skills: bool,
    pub current_set: Option<SkillSetPlanView>,
    pub in_notes: bool,
    pub notes_buf: Seq<char>,
    pub notes: Option<Seq<char>>,
}

pub open spec fn initial_state() -> ParseStateView {
    ParseStateView {
        class_name: Seq::empty(),
        ascend_name: None,
        skill_sets: Seq::empty(),
        passive_spec_titles: Seq::empty(),
        in_skills: false,
        current_set: None,
        in_notes: false,
        notes_buf: Seq::empty(),
        notes: None,
    }
}

/// Whether the element name `name` is the ASCII word `s`.
pub open spec fn name_is(name: Seq<u8>, s: Seq<char>) -> bool {
    &&& name.len() == s.len()
    &&& forall|i: int| 0 <= i < s.len() ==> (s[i] as u32) < 128 && name[i] as u32 == #[trigger] s[i] as u32
}

pub open spec fn attr(tag: XmlTokenView, key: Seq<char>) -> Result<Option<Seq<char>>, Seq<char>> {
    xml_attribute_of(tag.content, tag.name.len(), key)
}

pub open spec fn or_empty(v: Option<Seq<char>>) -> Seq<char> {
    match v {
        Some(s) => s,
        None => Seq::empty(),
    }
}

/// The open skill set, if any, appended to the finished ones.
pub open spec fn close_set(s: ParseStateView) -> ParseStateView {
    match s.current_set {
        Some(set) => ParseStateView { skill_sets: s.skill_sets.push(set), current_set: None, ..s },
        None => s,
    }
}

/// A gem's vendored data: by its name, else by the name with " Support".
pub open spec fn enrich(by_name: Seq<(Seq<char>, GemView)>, name: Seq<char>) -> Option<GemView> {
    match lookup(by_name, name) {
        Some(g) => Some(g),
        None => lookup(by_name, name + " Support"@),
    }
}

pub open spec fn gem_plan(by_name: Seq<(Seq<char>, GemView)>, name: Seq<char>, enabled: Option<Seq<char>>) -> GemPlanView {
    GemPlanView {
        name,
        required_level: match enrich(by_name, name) {
            Some(g) => Some(g.required_level),
            None => None,
        },
        is_support: match enrich(by_name, name) {
            Some(g) => Some(g.is_support),
            None => None,
        },
        enabled: enabled == Some("true"@),
    }
}

pub open spec fn open_build(s: ParseStateView, tag: XmlTokenView) -> Result<ParseStateView, Seq<char>> {
    match attr(tag, "className"@) {
        Err(m) => Err(m),
        Ok(c) => match attr(tag, "ascendClassName"@) {
            Err(m) => Err(m),
            Ok(a) => Ok(
                ParseStateView {
                    class_name: or_empty(c),
                    ascend_name: match a {
                        Some(x) => if x.len() == 0 || x == "None"@ {
                            None
                        } else {
                            Some(x)
                        },
                        None => None,
                    },
                    ..s
                },
            ),
        },
    }
}

pub open spec fn open_skill_set(s: ParseStateView, tag: XmlTokenView, empty: bool) -> Result<ParseStateView, Seq<char>> {
    let s1 = close_set(s);
    match attr(tag, "title"@) {
        Err(m) => Err(m),
        Ok(t) => {
            let set = SkillSetPlanView {
                title: or_empty(t),
                level_range: level_range_spec(or_empty(t)),
                gems: Seq::empty(),
            };
            if empty {
                Ok(ParseStateView { skill_sets: s1.skill_sets.push(set), ..s1 })
            } else {
                Ok(ParseStateView { current_set: Some(set), ..s1 })
            }
        },
    }
}

pub open spec fn open_skill(s: ParseStateView) -> ParseStateView {
    if s.in_skills && s.current_set is None {
        ParseStateView {
            current_set: Some(SkillSetPlanView { title: "Default"@, level_range: None, gems: Seq::empty() }),
            ..s
        }
    } else {
        s
    }
}

pub open spec fn open_gem(s: ParseStateView, tag: XmlTokenView, by_name: Seq<(Seq<char>, GemView)>) -> Result<ParseStateView, Seq<char>> {
    match s.current_set {
        None => Ok(s),
        Some(set) => match attr(tag, "nameSpec"@) {
            Err(m) => Err(m),
            Ok(n) => match attr(tag, "enabled"@) {
                Err(m) => Err(m),
                Ok(en) => Ok(
                    ParseStateView {
                        current_set: Some(
                            SkillSetPlanView { gems: set.gems.push(gem_plan(by_name, or_empty(n), en)), ..set },
                        ),
                        ..s
                    },
                ),
            },
        },
    }
}

/// What a start (or, with `empty`, an empty-element) tag does to the state.
pub open spec fn open_spec(s: ParseStateView, tag: XmlTokenView, empty: bool, by_name: Seq<(Seq<char>, GemView)>) -> Result<ParseStateView, Seq<char>> {
    if name_is(tag.name, "Build"@) {
        open_build(s, tag)
    } else if name_is(tag.name, "Skills"@) {
        Ok(ParseStateView { in_skills: true, ..s })
    } else if name_is(tag.name, "SkillSet"@) {
        open_skill_set(s, tag, empty)
    } else if name_is(tag.name, "Skill"@) {
        Ok(open_skill(s))
    } else if name_is(tag.name, "Gem"@) {
        open_gem(s, tag, by_name)
    } else if name_is(tag.name, "Spec"@) {
        match attr(tag, "title"@) {
            Err(m) => Err(m),
            Ok(None) => Ok(s),
            Ok(Some(t)) => Ok(ParseStateView { passive_spec_titles: s.passive_spec_titles.push(t), ..s }),
        }
    } else if name_is(tag.name, "Notes"@) {
        if empty {
            Ok(ParseStateView { notes: None, ..s })
        } else {
            Ok(ParseStateView { in_notes: true, notes_buf: Seq::empty(), ..s })
        }
    } else {
        Ok(s)
    }
}

/// What an end tag named `name` does to the state.
pub open spec fn close_spec(s: ParseStateView, name: Seq<u8>) -> ParseStateView {
    if name_is(name, "Skills"@) {
        close_set(ParseStateView { in_skills: false, ..s })
    } else if name_is(name, "SkillSet"@) {
        close_set(s)
    } else if name_is(name, "Notes"@) {
        ParseStateView {
            in_notes: false,
            notes: if trim(s.notes_buf).len() == 0 {
                None
            } else {
                Some(trim(s.notes_buf))
            },
            ..s
        }
    } else {
        s
    }
}

/// Text inside `Notes` is collected; elsewhere it is ignored unread.
pub open spec fn text_spec(s: ParseStateView, decoded: Result<Seq<char>, Seq<char>>) -> Result<ParseStateView, Seq<char>> {
    if s.in_notes {
        match decoded {
            Err(m) => Err(m),
            Ok(t) => Ok(ParseStateView { notes_buf: s.notes_buf + t, ..s }),
        }
    } else {
        Ok(s)
    }
}

/// One event's effect; `Err` carries the message of an XML error.
pub open spec fn step_spec(s: ParseStateView, tok: XmlTokenView, by_name: Seq<(Seq<char>, GemView)>) -> Result<ParseStateView, Seq<char>> {
    match tok.kind {
        XmlKind::Start => open_spec(s, tok, false, by_name),
        XmlKind::Empty => open_spec(s, tok, true, by_name),
        XmlKind::End => Ok(close_spec(s, tok.name)),
        XmlKind::Text => text_spec(s, xml_unescape_of(tok.content)),
        XmlKind::CData => text_spec(s, xml_cdata_of(tok.content)),
        _ => Ok(s),
    }
}

// ---------------------------------------------------------------------
// Specification: milestones
// ---------------------------------------------------------------------

/// Game data that places and labels gem milestones for one class.
pub struct MilestoneCtxView {
    pub by_name: Seq<(Seq<char>, GemView)>,
    pub availability: Availability,
    pub act_entry: Map<u8, u16>,
}

pub open spec fn switch_label(title: Seq<char>) -> Seq<char> {
    "Switch to skill set '"@ + title + "'"@
}

/// A "switch" milestone for each set whose range starts at level 2 or later.
pub open spec fn switch_milestones(sets: Seq<SkillSetPlanView>) -> Seq<MilestoneView>
    decreases sets.len(),
{
    if sets.len() == 0 {
        Seq::empty()
    } else {
        let rest = switch_milestones(sets.drop_last());
        match sets.last().level_range {
            Some((start, _)) => if start >= 2 {
                rest.push(
                    MilestoneView {
                        level: start,
                        label: switch_label(sets.last().title),
                        reliability: Reliability::Structured,
                    },
                )
            } else {
                rest
            },
            None => rest,
        }
    }
}

/// Every gem of every set, in order.
pub open spec fn all_gems(sets: Seq<SkillSetPlanView>) -> Seq<GemPlanView>
    decreases sets.len(),
{
    if sets.len() == 0 {
        Seq::empty()
    } else {
        all_gems(sets.drop_last()) + sets.last().gems
    }
}

pub open spec fn source_text(av: GemAvailabilityView) -> Seq<char> {
    match av.source {
        AvailabilitySource::QuestReward => "quest reward, A"@ + decimal(av.act as nat),
        AvailabilitySource::Vendor => match av.npc {
            Some(npc) => "buy from "@ + npc + ", A"@ + decimal(av.act as nat),
            None => "vendor, A"@ + decimal(av.act as nat),
        },
    }
}

/// Level and label of one gem's milestone: its required level when the
/// class's earliest source is unknown; otherwise the later of that and the
/// entry level of the source's act, labeled with the source.
pub open spec fn gem_milestone_spec(name: Seq<char>, required_level: u16, ctx: MilestoneCtxView) -> (u16, Seq<char>) {
    let av = match lookup(ctx.by_name, name) {
        Some(g) => lookup(ctx.availability, g.id),
        None => None,
    };
    match av {
        None => (required_level, "Gem available: "@ + name),
        Some(a) => {
            let entry: u16 = if ctx.act_entry.contains_key(a.act) {
                ctx.act_entry[a.act]
            } else {
                1
            };
            (
                if required_level >= entry {
                    required_level
                } else {
                    entry
                },
                "Gem available: "@ + name + " ("@ + source_text(a) + ")"@,
            )
        },
    }
}

/// Gem milestones in gem order, with the names already taken: enabled,
/// non-support gems with a known required level, the first of each name,
/// at level 2 or later.
pub open spec fn gem_milestones(gems: Seq<GemPlanView>, ctx: MilestoneCtxView) -> (Seq<MilestoneView>, Seq<Seq<char>>)
    decreases gems.len(),
{
    if gems.len() == 0 {
        (Seq::empty(), Seq::empty())
    } else {
        let (ms, seen) = gem_milestones(gems.drop_last(), ctx);
        let g = gems.last();
        if !g.enabled || g.is_support == Some(true) {
            (ms, seen)
        } else {
            match g.required_level {
                None => (ms, seen),
                Some(rl) => if seen.contains(g.name) {
                    (ms, seen)
                } else {
                    let (level, label) = gem_milestone_spec(g.name, rl as u16, ctx);
                    if level < 2 {
                        (ms, seen.push(g.name))
                    } else {
                        (
                            ms.push(MilestoneView { level, label, reliability: Reliability::Structured }),
                            seen.push(g.name),
                        )
                    }
                },
            }
        }
    }
}

/// Order of milestones: by level, then by label.
pub open spec fn ms_le(a: MilestoneView, b: MilestoneView) -> bool {
    a.level < b.level || (a.level == b.level && !key_lt(b.label, a.label))
}

/// `x` inserted after every milestone that does not order after it.
pub open spec fn insert_ms(s: Seq<MilestoneView>, x: MilestoneView) -> Seq<MilestoneView>
    decreases s.len(),
{
    if s.len() == 0 {
        seq![x]
    } else if ms_le(s.last(), x) {
        s.push(x)
    } else {
        insert_ms(s.drop_last(), x).push(s.last())
    }
}

/// `ms` stably sorted by (level, label).
pub open spec fn sort_ms(ms: Seq<MilestoneView>) -> Seq<MilestoneView>
    decreases ms.len(),
{
    if ms.len() == 0 {
        ms
    } else {
        insert_ms(sort_ms(ms.drop_last()), ms.last())
    }
}

pub open spec fn milestones_spec(sets: Seq<SkillSetPlanView>, ctx: MilestoneCtxView) -> Seq<MilestoneView> {
    sort_ms(switch_milestones(sets) + gem_milestones(all_gems(sets), ctx).0)
}

/// The plan a finished state makes.
pub open spec fn plan_spec(s: ParseStateView, ctx: MilestoneCtxView) -> LevelingBuildPlanView {
    let ms = milestones_spec(s.skill_sets, ctx);
    LevelingBuildPlanView {
        class_name: s.class_name,
        ascend_name: s.ascend_name,
        skill_sets: s.skill_sets,
        passive_spec_titles: s.passive_spec_titles,
        notes: s.notes,
        milestones: ms,
        reliability: if ms.len() == 0 {
            Reliability::Unsupported
        } else {
            Reliability::Structured
        },
    }
}


// ---------------------------------------------------------------------
// Laws: milestones
// ---------------------------------------------------------------------

pub open spec fn ms_sorted(s: Seq<MilestoneView>) -> bool {
    forall|i: int, j: int| 0 <= i < j < s.len() ==> ms_le(#[trigger] s[i], #[trigger] s[j])
}

proof fn lemma_ms_le_total(a: MilestoneView, b: MilestoneView)
    ensures
        ms_le(a, b) || ms_le(b, a),
{
    if a.level == b.level && key_lt(b.label, a.label) && key_lt(a.label, b.label) {
        crate::map::lemma_key_lt_transitive(a.label, b.label, a.label);
        crate::map::lemma_key_lt_irreflexive(a.label);
    }
}

proof fn lemma_ms_le_transitive(a: MilestoneView, b: MilestoneView, c: MilestoneView)
    requires
        ms_le(a, b),
        ms_le(b, c),
    ensures
        ms_le(a, c),
{
    if a.level == b.level && b.level == c.level && key_lt(c.label, a.label) {
        crate::map::lemma_key_lt_total(a.label, b.label);
        if key_lt(a.label, b.label) {
            crate::map::lemma_key_lt_transitive(c.label, a.label, b.label);
        }
    }
}

proof fn lemma_insert_ms_props(s: Seq<MilestoneView>, x: MilestoneView)
    requires
        ms_sorted(s),
    ensures
        ms_sorted(insert_ms(s, x)),
        insert_ms(s, x).len() == s.len() + 1,
        forall|y: MilestoneView| insert_ms(s, x).contains(y) <==> (s.contains(y) || y == x),
    decreases s.len(),
{
    let r = insert_ms(s, x);
    if s.len() == 0 {
        assert(r =~= seq![x]);
        assert forall|y: MilestoneView| r.contains(y) <==> (s.contains(y) || y == x) by {
            if r.contains(y) {
                assert(r[0] == x);
            }
            if y == x {
                assert(r[0] == y);
            }
        }
    } else if ms_le(s.last(), x) {
        assert forall|i: int, j: int| 0 <= i < j < r.len() implies ms_le(#[trigger] r[i], #[trigger] r[j]) by {
            if j == s.len() {
                if i < s.len() - 1 {
                    assert(ms_le(s[i], s[s.len() - 1]));
                    lemma_ms_le_transitive(s[i], s[s.len() - 1], x);
                }
            } else {
                assert(r[i] == s[i] && r[j] == s[j]);
            }
        }
        assert forall|y: MilestoneView| r.contains(y) <==> (s.contains(y) || y == x) by {
            if r.contains(y) {
                let k = choose|k: int| 0 <= k < r.len() && r[k] == y;
                if k < s.len() {
                    assert(s[k] == y);
                }
            }
            if s.contains(y) {
                let k = choose|k: int| 0 <= k < s.len() && s[k] == y;
                assert(r[k] == y);
            }
            if y == x {
                assert(r[s.len() as int] == y);
            }
        }
    } else {
        let d = s.drop_last();
        let last = s.last();
        assert forall|i: int, j: int| 0 <= i < j < d.len() implies ms_le(#[trigger] d[i], #[trigger] d[j]) by {
            assert(d[i] == s[i] && d[j] == s[j]);
        }
        lemma_insert_ms_props(d, x);
        let q = insert_ms(d, x);
        assert(r == q.push(last));
        lemma_ms_le_total(last, x);
        assert forall|k: int| 0 <= k < q.len() implies ms_le(#[trigger] q[k], last) by {
            assert(q.contains(q[k]));
            if q[k] != x {
                assert(d.contains(q[k]));
                let m = choose|m: int| 0 <= m < d.len() && d[m] == q[k];
                assert(ms_le(s[m], s[s.len() - 1]));
            }
        }
        assert forall|i: int, j: int| 0 <= i < j < r.len() implies ms_le(#[trigger] r[i], #[trigger] r[j]) by {
            if j == q.len() {
                assert(r[i] == q[i]);
            } else {
                assert(r[i] == q[i] && r[j] == q[j]);
            }
        }
        assert forall|y: MilestoneView| r.contains(y) <==> (s.contains(y) || y == x) by {
            if r.contains(y) {
                let k = choose|k: int| 0 <= k < r.len() && r[k] == y;
                if k < q.len() {
                    assert(q.contains(y));
                    if y != x {
                        assert(d.contains(y));
                        let m = choose|m: int| 0 <= m < d.len() && d[m] == y;
                        assert(s[m] == y);
                    }
                } else {
                    assert(s[s.len() - 1] == y);
                }
            }
            if s.contains(y) {
                let k = choose|k: int| 0 <= k < s.len() && s[k] == y;
                if k < d.len() {
                    assert(d[k] == y);
                    assert(d.contains(y));
                    assert(q.contains(y));
                    let m = choose|m: int| 0 <= m < q.len() && q[m] == y;
                    assert(r[m] == y);
                } else {
                    assert(r[q.len() as int] == y);
                }
            }
            if y == x {
                assert(q.contains(x));
                let m = choose|m: int| 0 <= m < q.len() && q[m] == x;
                assert(r[m] == y);
            }
        }
    }
}

proof fn lemma_sort_ms_props(ms: Seq<MilestoneView>)
    ensures
        ms_sorted(sort_ms(ms)),
        sort_ms(ms).len() == ms.len(),
        forall|y: MilestoneView| sort_ms(ms).contains(y) <==> ms.contains(y),
    decreases ms.len(),
{
    if ms.len() > 0 {
        let d = ms.drop_last();
        lemma_sort_ms_props(d);
        lemma_insert_ms_props(sort_ms(d), ms.last());
        assert forall|y: MilestoneView| sort_ms(ms).contains(y) <==> ms.contains(y) by {
            if d.contains(y) {
                let k = choose|k: int| 0 <= k < d.len() && d[k] == y;
                assert(ms[k] == y);
            }
            if ms.contains(y) {
                let k = choose|k: int| 0 <= k < ms.len() && ms[k] == y;
                if k < d.len() {
                    assert(d[k] == y);
                }
            }
            if y == ms.last() {
                assert(ms[ms.len() - 1] == y);
            }
        }
    }
}

proof fn lemma_switch_levels(sets: Seq<SkillSetPlanView>)
    ensures
        forall|i: int| 0 <= i < switch_milestones(sets).len() ==> (#[trigger] switch_milestones(sets)[i]).level >= 2,
    decreases sets.len(),
{
    if sets.len() > 0 {
        lemma_switch_levels(sets.drop_last());
    }
}

proof fn lemma_gem_levels(gems: Seq<GemPlanView>, ctx: MilestoneCtxView)
    ensures
        forall|i: int| 0 <= i < gem_milestones(gems, ctx).0.len() ==> (#[trigger] gem_milestones(gems, ctx).0[i]).level >= 2,
    decreases gems.len(),
{
    if gems.len() > 0 {
        lemma_gem_levels(gems.drop_last(), ctx);
    }
}

/// A plan's milestones come ordered by level, then by label, and none is
/// below level 2.
pub proof fn lemma_milestones_ordered_from_level_two(sets: Seq<SkillSetPlanView>, ctx: MilestoneCtxView)
    ensures
        ms_sorted(milestones_spec(sets, ctx)),
        forall|i: int| 0 <= i < milestones_spec(sets, ctx).len() ==> (#[trigger] milestones_spec(sets, ctx)[i]).level >= 2,
{
    let a = switch_milestones(sets);
    let b = gem_milestones(all_gems(sets), ctx).0;
    lemma_switch_levels(sets);
    lemma_gem_levels(all_gems(sets), ctx);
    lemma_sort_ms_props(a + b);
    let r = milestones_spec(sets, ctx);
    assert forall|i: int| 0 <= i < r.len() implies (#[trigger] r[i]).level >= 2 by {
        assert(r.contains(r[i]));
        assert((a + b).contains(r[i]));
        let k = choose|k: int| 0 <= k < (a + b).len() && (a + b)[k] == r[i];
        if k < a.len() {
            assert((a + b)[k] == a[k]);
        } else {
            assert((a + b)[k] == b[k - a.len()]);
        }
    }
}

/// The first level of a set's range (0 without one).
pub open spec fn range_start(set: SkillSetPlanView) -> u16 {
    match set.level_range {
        Some((start, _)) => start,
        None => 0,
    }
}

proof fn lemma_switch_contains(sets: Seq<SkillSetPlanView>, i: int)
    requires
        0 <= i < sets.len(),
        sets[i].level_range matches Some((start, _)) && start >= 2,
    ensures
        switch_milestones(sets).contains(
            MilestoneView {
                level: range_start(sets[i]),
                label: switch_label(sets[i].title),
                reliability: Reliability::Structured,
            },
        ),
    decreases sets.len(),
{
    let m = MilestoneView {
        level: range_start(sets[i]),
        label: switch_label(sets[i].title),
        reliability: Reliability::Structured,
    };
    let rest = switch_milestones(sets.drop_last());
    if i < sets.len() - 1 {
        lemma_switch_contains(sets.drop_last(), i);
        assert(sets.drop_last()[i] == sets[i]);
        let k = choose|k: int| 0 <= k < rest.len() && rest[k] == m;
        if let Some((start, _)) = sets.last().level_range {
            if start >= 2 {
                assert(switch_milestones(sets)[k] == m);
            }
        }
    } else {
        assert(switch_milestones(sets) == rest.push(m));
        assert(switch_milestones(sets)[rest.len() as int] == m);
    }
}

/// Every skill set whose level range starts at level 2 or later has a
/// "switch" milestone at that level in the plan.
pub proof fn lemma_each_later_set_has_a_switch(sets: Seq<SkillSetPlanView>, ctx: MilestoneCtxView, i: int)
    requires
        0 <= i < sets.len(),
        sets[i].level_range matches Some((start, _)) && start >= 2,
    ensures
        milestones_spec(sets, ctx).contains(
            MilestoneView {
                level: range_start(sets[i]),
                label: switch_label(sets[i].title),
                reliability: Reliability::Structured,
            },
        ),
{
    let m = MilestoneView {
        level: range_start(sets[i]),
        label: switch_label(sets[i].title),
        reliability: Reliability::Structured,
    };
    let a = switch_milestones(sets);
    let b = gem_milestones(all_gems(sets), ctx).0;
    lemma_switch_contains(sets, i);
    let k = choose|k: int| 0 <= k < a.len() && a[k] == m;
    assert((a + b)[k] == m);
    assert((a + b).contains(m));
    lemma_sort_ms_props(a + b);
    assert(sort_ms(a + b).contains(m));
}

/// A gem that can have a milestone: enabled, not a support, with a known
/// required level.
pub open spec fn counted(g: GemPlanView) -> bool {
    g.enabled && g.is_support != Some(true) && g.required_level is Some
}

proof fn lemma_seen_names(gems: Seq<GemPlanView>, ctx: MilestoneCtxView, j: int)
    requires
        0 <= j < gems.len(),
        counted(gems[j]),
    ensures
        gem_milestones(gems, ctx).1.contains(gems[j].name),
    decreases gems.len(),
{
    let (ms, seen) = gem_milestones(gems.drop_last(), ctx);
    if j < gems.len() - 1 {
        lemma_seen_names(gems.drop_last(), ctx, j);
        assert(gems.drop_last()[j] == gems[j]);
        let k = choose|k: int| 0 <= k < seen.len() && seen[k] == gems[j].name;
        let g = gems.last();
        if counted(g) && !seen.contains(g.name) {
            assert(seen.push(g.name)[k] == gems[j].name);
        }
    } else {
        let g = gems.last();
        assert(g == gems[j]);
        if !seen.contains(g.name) {
            assert(seen.push(g.name)[seen.len() as int] == g.name);
        }
    }
}

/// One milestone per gem name: a gem listed again, after one of the same
/// name that could have a milestone, adds none.
pub proof fn lemma_repeated_gem_adds_nothing(gems: Seq<GemPlanView>, g: GemPlanView, ctx: MilestoneCtxView, j: int)
    requires
        0 <= j < gems.len(),
        counted(gems[j]),
        gems[j].name == g.name,
    ensures
        gem_milestones(gems.push(g), ctx).0 == gem_milestones(gems, ctx).0,
{
    lemma_seen_names(gems, ctx, j);
    assert(gems.push(g).drop_last() =~= gems);
}

// ---------------------------------------------------------------------
// Implementation: the element handlers
// ---------------------------------------------------------------------

/// A handler's result with the state it left.
pub open spec fn outcome(r: Result<(), String>, after: ParseStateView) -> Result<ParseStateView, Seq<char>> {
    match r {
        Ok(_) => Ok(after),
        Err(m) => Err(m@),
    }
}

/// What the handlers have read so far.
pub struct ParseState {
    class_name: String,
    ascend_name: Option<String>,
    skill_sets: Vec<SkillSetPlan>,
    passive_spec_titles: Vec<String>,
    in_skills: bool,
    current_set: Option<SkillSetPlan>,
    in_notes: bool,
    notes_buf: String,
    notes: Option<String>,
}

impl View for ParseState {
    type V = ParseStateView;

    closed spec fn view(&self) -> ParseStateView {
        ParseStateView {
            class_name: self.class_name@,
            ascend_name: self.ascend_name.deep_view(),
            skill_sets: self.skill_sets.deep_view(),
            passive_spec_titles: self.passive_spec_titles.deep_view(),
            in_skills: self.in_skills,
            current_set: self.current_set.deep_view(),
            in_notes: self.in_notes,
            notes_buf: self.notes_buf@,
            notes: self.notes.deep_view(),
        }
    }
}

/// Whether `name` is the ASCII word `s`.
fn name_matches(name: &Vec<u8>, s: &str) -> (b: bool)
    ensures
        b == name_is(name@, s@),
{
    let cs = chars_of(s);
    if name.len() != cs.len() {
        return false;
    }
    let mut i: usize = 0;
    while i < cs.len()
        invariant
            i <= cs.len() == name.len(),
            cs@ == s@,
            forall|k: int| 0 <= k < i ==> (cs@[k] as u32) < 128 && name@[k] as u32 == #[trigger] cs@[k] as u32,
        decreases cs.len() - i,
    {
        let c = cs[i] as u32;
        if c >= 128 || name[i] as u32 != c {
            proof {
                assert(!((cs@[i as int] as u32) < 128 && name@[i as int] as u32 == cs@[i as int] as u32));
            }
            return false;
        }
        i += 1;
    }
    true
}

fn get_attr(tag: &XmlToken, key: &str) -> (r: Result<Option<String>, String>)
    requires
        token_ok(tag@),
    ensures
        (match r {
            Ok(Some(v)) => attr(tag@, key@) == Ok::<Option<Seq<char>>, Seq<char>>(Some(v@)),
            Ok(None) => attr(tag@, key@) == Ok::<Option<Seq<char>>, Seq<char>>(None),
            Err(m) => attr(tag@, key@) == Err::<Option<Seq<char>>, Seq<char>>(m@),
        }),
{
    xml_attribute(tag.content.as_slice(), tag.name.len(), key)
}

fn string_or_empty(v: Option<String>) -> (s: String)
    ensures
        s@ == or_empty(v.deep_view()),
{
    let ghost dv = v.deep_view();
    match v {
        Some(s) => {
            assert(dv == Some(s@));
            s
        },
        None => String::new(),
    }
}

fn concat2(a: &str, b: &str) -> (s: String)
    ensures
        s@ == a@ + b@,
{
    let mut v = chars_of(a);
    append_str(&mut v, b);
    string_of(&v)
}

fn concat3(a: &str, b: &str, c: &str) -> (s: String)
    ensures
        s@ == a@ + b@ + c@,
{
    let mut v = chars_of(a);
    append_str(&mut v, b);
    append_str(&mut v, c);
    string_of(&v)
}

impl ParseState {
    pub fn new() -> (s: Self)
        ensures
            s@ == initial_state(),
    {
        let s = ParseState {
            class_name: String::new(),
            ascend_name: None,
            skill_sets: Vec::new(),
            passive_spec_titles: Vec::new(),
            in_skills: false,
            current_set: None,
            in_notes: false,
            notes_buf: String::new(),
            notes: None,
        };
        assert(s@.skill_sets =~= Seq::<SkillSetPlanView>::empty());
        assert(s@.passive_spec_titles =~= Seq::<Seq<char>>::empty());
        s
    }

    fn close_skill_set(&mut self)
        ensures
            final(self)@ == close_set(old(self)@),
    {
        let cur = self.current_set.take();
        match cur {
            Some(set) => {
                let ghost before = self.skill_sets.deep_view();
                let ghost sv = set.deep_view();
                self.skill_sets.push(set);
                proof {
                    assert(self.skill_sets.deep_view() =~= before.push(sv));
                }
            },
            None => {},
        }
    }

    fn open_build(&mut self, tag: &XmlToken) -> (r: Result<(), String>)
        requires
            token_ok(tag@),
        ensures
            outcome(r, final(self)@) == open_build(old(self)@, tag@),
    {
        let c = match get_attr(tag, "className") {
            Ok(c) => c,
            Err(m) => return Err(m),
        };
        let a = match get_attr(tag, "ascendClassName") {
            Ok(a) => a,
            Err(m) => return Err(m),
        };
        self.class_name = string_or_empty(c);
        self.ascend_name = match a {
            Some(x) => {
                let xv = chars_of(x.as_str());
                let none = chars_of("None");
                if xv.len() == 0 || crate::map::vec_eq(&xv, &none) {
                    None
                } else {
                    Some(x)
                }
            },
            None => None,
        };
        Ok(())
    }
}


impl ParseState {
    fn open_skill_set(&mut self, tag: &XmlToken, empty: bool) -> (r: Result<(), String>)
        requires
            token_ok(tag@),
        ensures
            outcome(r, final(self)@) == open_skill_set(old(self)@, tag@, empty),
    {
        self.close_skill_set();
        let t = match get_attr(tag, "title") {
            Ok(t) => t,
            Err(m) => return Err(m),
        };
        let title = string_or_empty(t);
        let level_range = parse_level_range(title.as_str());
        let set = SkillSetPlan { title, level_range, gems: Vec::new() };
        proof {
            assert(set.gems.deep_view() =~= Seq::<GemPlanView>::empty());
        }
        if empty {
            let ghost before = self.skill_sets.deep_view();
            let ghost sv = set.deep_view();
            self.skill_sets.push(set);
            proof {
                assert(self.skill_sets.deep_view() =~= before.push(sv));
            }
        } else {
            self.current_set = Some(set);
        }
        Ok(())
    }

    fn open_skill(&mut self)
        ensures
            final(self)@ == open_skill(old(self)@),
    {
        if self.in_skills && self.current_set.is_none() {
            let set = SkillSetPlan { title: owned("Default"), level_range: None, gems: Vec::new() };
            proof {
                assert(set.gems.deep_view() =~= Seq::<GemPlanView>::empty());
            }
            self.current_set = Some(set);
        }
    }

    fn open_gem(&mut self, tag: &XmlToken, by_name: &StrMap<Gem>) -> (r: Result<(), String>)
        requires
            token_ok(tag@),
        ensures
            outcome(r, final(self)@) == open_gem(old(self)@, tag@, by_name@),
    {
        if self.current_set.is_none() {
            return Ok(());
        }
        let n = match get_attr(tag, "nameSpec") {
            Ok(n) => n,
            Err(m) => return Err(m),
        };
        let en = match get_attr(tag, "enabled") {
            Ok(en) => en,
            Err(m) => return Err(m),
        };
        let name = string_or_empty(n);
        let enabled = match &en {
            Some(v) => crate::text::str_eq(v.as_str(), "true"),
            None => false,
        };
        let support = concat2(name.as_str(), " Support");
        let enriched = match by_name.get(name.as_str()) {
            Some(g) => Some(g),
            None => by_name.get(support.as_str()),
        };
        let gem = GemPlan {
            name,
            required_level: match enriched {
                Some(g) => Some(g.required_level),
                None => None,
            },
            is_support: match enriched {
                Some(g) => Some(g.is_support),
                None => None,
            },
            enabled,
        };
        proof {
            assert(gem.deep_view() == gem_plan(by_name@, or_empty(n.deep_view()), en.deep_view()));
        }
        let cur = self.current_set.take();
        match cur {
            Some(mut set) => {
                let ghost before = set.gems.deep_view();
                let ghost gv = gem.deep_view();
                set.gems.push(gem);
                proof {
                    assert(set.gems.deep_view() =~= before.push(gv));
                }
                self.current_set = Some(set);
            },
            None => {},
        }
        Ok(())
    }
}


impl ParseState {
    fn handle_open(&mut self, tag: &XmlToken, empty: bool, by_name: &StrMap<Gem>) -> (r: Result<(), String>)
        requires
            token_ok(tag@),
        ensures
            outcome(r, final(self)@) == open_spec(old(self)@, tag@, empty, by_name@),
    {
        if name_matches(&tag.name, "Build") {
            self.open_build(tag)
        } else if name_matches(&tag.name, "Skills") {
            self.in_skills = true;
            Ok(())
        } else if name_matches(&tag.name, "SkillSet") {
            self.open_skill_set(tag, empty)
        } else if name_matches(&tag.name, "Skill") {
            self.open_skill();
            Ok(())
        } else if name_matches(&tag.name, "Gem") {
            self.open_gem(tag, by_name)
        } else if name_matches(&tag.name, "Spec") {
            match get_attr(tag, "title") {
                Err(m) => Err(m),
                Ok(None) => Ok(()),
                Ok(Some(t)) => {
                    let ghost before = self.passive_spec_titles.deep_view();
                    let ghost tv = t@;
                    self.passive_spec_titles.push(t);
                    proof {
                        assert(self.passive_spec_titles.deep_view() =~= before.push(tv));
                    }
                    Ok(())
                },
            }
        } else if name_matches(&tag.name, "Notes") {
            if empty {
                self.notes = None;
            } else {
                self.in_notes = true;
                self.notes_buf = String::new();
            }
            Ok(())
        } else {
            Ok(())
        }
    }

    fn handle_close(&mut self, name: &Vec<u8>)
        ensures
            final(self)@ == close_spec(old(self)@, name@),
    {
        if name_matches(name, "Skills") {
            self.in_skills = false;
            self.close_skill_set();
        } else if name_matches(name, "SkillSet") {
            self.close_skill_set();
        } else if name_matches(name, "Notes") {
            self.in_notes = false;
            let v = chars_of(self.notes_buf.as_str());
            let (a, b) = trim_bounds(&v, 0, v.len());
            proof {
                assert(v@.subrange(0, v@.len() as int) =~= v@);
            }
            self.notes = if a == b {
                None
            } else {
                Some(crate::text::string_of_range(&v, a, b))
            };
        }
    }

    fn add_text(&mut self, decoded: Result<String, String>) -> (r: Result<(), String>)
        requires
            old(self).in_notes,
        ensures
            outcome(r, final(self)@) == text_spec(
                old(self)@,
                match decoded {
                    Ok(t) => Ok::<Seq<char>, Seq<char>>(t@),
                    Err(m) => Err::<Seq<char>, Seq<char>>(m@),
                },
            ),
    {
        match decoded {
            Err(m) => Err(m),
            Ok(t) => {
                let mut v = chars_of(self.notes_buf.as_str());
                append_str(&mut v, t.as_str());
                self.notes_buf = string_of(&v);
                Ok(())
            },
        }
    }

    /// Feeds one event; its name must be the start of its content, as
    /// in every token a reader gives.
    pub fn step(&mut self, tok: &XmlToken, by_name: &StrMap<Gem>) -> (r: Result<(), String>)
        requires
            token_ok(tok@),
        ensures
            outcome(r, final(self)@) == step_spec(old(self)@, tok@, by_name@),
    {
        match tok.kind {
            XmlKind::Start => self.handle_open(tok, false, by_name),
            XmlKind::Empty => self.handle_open(tok, true, by_name),
            XmlKind::End => {
                self.handle_close(&tok.name);
                Ok(())
            },
            XmlKind::Text => if self.in_notes {
                self.add_text(xml_unescape(tok.content.as_slice()))
            } else {
                Ok(())
            },
            XmlKind::CData => if self.in_notes {
                self.add_text(xml_cdata(tok.content.as_slice()))
            } else {
                Ok(())
            },
            _ => Ok(()),
        }
    }
}


// ---------------------------------------------------------------------
// Implementation: milestones
// ---------------------------------------------------------------------

/// Class-aware game data used to place and label gem milestones.
pub struct MilestoneCtx {
    pub by_name: StrMap<Gem>,
    pub availability: StrMap<GemAvailability>,
    pub act_entry: BTreeMap<u8, u16>,
}

impl View for MilestoneCtx {
    type V = MilestoneCtxView;

    open spec fn view(&self) -> MilestoneCtxView {
        MilestoneCtxView {
            by_name: self.by_name@,
            availability: self.availability@,
            act_entry: self.act_entry@,
        }
    }
}

fn source_label(av: &GemAvailability) -> (s: Vec<char>)
    ensures
        s@ == source_text(av.deep_view()),
{
    let act = decimal_chars(av.act as u64);
    let mut v = match av.source {
        AvailabilitySource::QuestReward => chars_of("quest reward, A"),
        AvailabilitySource::Vendor => match &av.npc {
            Some(npc) => {
                let mut v = chars_of("buy from ");
                append_str(&mut v, npc.as_str());
                append_str(&mut v, ", A");
                v
            },
            None => chars_of("vendor, A"),
        },
    };
    append_chars(&mut v, &act);
    v
}

/// Level and label of one gem's milestone (see `gem_milestone_spec`).
pub fn gem_milestone(name: &str, required_level: u16, ctx: &MilestoneCtx) -> (r: (u16, String))
    ensures
        (r.0, r.1@) == gem_milestone_spec(name@, required_level, ctx@),
{
    broadcast use vstd::std_specs::btree::group_btree_axioms;

    proof {
        lemma_u8_keys_ordered();
    }
    let av = match ctx.by_name.get(name) {
        Some(g) => ctx.availability.get(g.id.as_str()),
        None => None,
    };
    match av {
        None => (required_level, concat2("Gem available: ", name)),
        Some(a) => {
            let entry: u16 = match ctx.act_entry.get(&a.act) {
                Some(e) => *e,
                None => 1,
            };
            let level = if required_level >= entry {
                required_level
            } else {
                entry
            };
            let mut v = chars_of("Gem available: ");
            append_str(&mut v, name);
            append_str(&mut v, " (");
            let src = source_label(a);
            append_chars(&mut v, &src);
            append_str(&mut v, ")");
            (level, string_of(&v))
        },
    }
}

/// Whether `name` is among `seen`.
fn seen_contains(seen: &Vec<String>, name: &str) -> (b: bool)
    ensures
        b == seen.deep_view().contains(name@),
{
    let mut i: usize = 0;
    while i < seen.len()
        invariant
            i <= seen.len(),
            forall|k: int| 0 <= k < i ==> seen.deep_view()[k] != name@,
        decreases seen.len() - i,
    {
        if crate::text::str_eq(seen[i].as_str(), name) {
            proof {
                assert(seen.deep_view()[i as int] == name@);
            }
            return true;
        }
        i += 1;
    }
    proof {
        if seen.deep_view().contains(name@) {
            let k = choose|k: int| 0 <= k < seen.deep_view().len() && seen.deep_view()[k] == name@;
            assert(seen.deep_view()[k] == name@);
        }
    }
    false
}

proof fn lemma_insert_ms(s: Seq<MilestoneView>, x: MilestoneView, p: int)
    requires
        0 <= p <= s.len(),
        forall|k: int| p <= k < s.len() ==> !ms_le(#[trigger] s[k], x),
        p == 0 || ms_le(s[p - 1], x),
    ensures
        insert_ms(s, x) == s.insert(p, x),
    decreases s.len(),
{
    if s.len() == 0 {
        assert(s.insert(p, x) =~= seq![x]);
    } else if p == s.len() {
        assert(s.insert(p, x) =~= s.push(x));
    } else {
        assert(!ms_le(s[s.len() - 1], x));
        lemma_insert_ms(s.drop_last(), x, p);
        assert(s.drop_last().insert(p, x).push(s.last()) =~= s.insert(p, x));
    }
}

fn ms_le_exec(a: &Milestone, b: &Milestone) -> (r: bool)
    ensures
        r == ms_le(a.deep_view(), b.deep_view()),
{
    if a.level < b.level {
        true
    } else if a.level == b.level {
        let bl = chars_of(b.label.as_str());
        !key_less(&bl, &a.label)
    } else {
        false
    }
}

/// `ms` stably sorted by (level, label).
fn sort_milestones(ms: Vec<Milestone>) -> (r: Vec<Milestone>)
    ensures
        r.deep_view() == sort_ms(ms.deep_view()),
{
    let ghost mv = ms.deep_view();
    let mut sorted: Vec<Milestone> = Vec::new();
    let mut rest = ms;
    let mut i: usize = 0;
    let n = rest.len();
    // Take the milestones from the back, then reverse, to keep them owned.
    let mut pending: Vec<Milestone> = Vec::new();
    while rest.len() > 0
        invariant
            rest.len() + pending.len() == n,
            n == mv.len(),
            forall|k: int| 0 <= k < rest.len() ==> rest.deep_view()[k] == mv[k],
            forall|k: int| 0 <= k < pending.len() ==> pending.deep_view()[k] == mv[n - 1 - k],
        decreases rest.len(),
    {
        let ghost pv = pending.deep_view();
        let ghost rv = rest.deep_view();
        let m = rest.pop().unwrap();
        proof {
            assert(m.deep_view() == rv[rv.len() - 1]);
        }
        pending.push(m);
        proof {
            assert(pending.deep_view() =~= pv.push(m.deep_view()));
            assert forall|k: int| 0 <= k < rest.len() implies rest.deep_view()[k] == mv[k] by {
                assert(rest.deep_view()[k] == rv[k]);
            }
        }
    }
    assert(sorted.deep_view() =~= sort_ms(mv.take(0)));
    while pending.len() > 0
        invariant
            i + pending.len() == n,
            n == mv.len(),
            forall|k: int| 0 <= k < pending.len() ==> pending.deep_view()[k] == mv[n - 1 - k],
            sorted.deep_view() == sort_ms(mv.take(i as int)),
        decreases pending.len(),
    {
        let ghost pv = pending.deep_view();
        let m = pending.pop().unwrap();
        proof {
            assert(m.deep_view() == pv[pv.len() - 1]);
            assert(m.deep_view() == mv[i as int]);
            assert forall|k: int| 0 <= k < pending.len() implies pending.deep_view()[k] == mv[n - 1 - k] by {
                assert(pending.deep_view()[k] == pv[k]);
            }
        }
        let ghost s = sorted.deep_view();
        let mut p = sorted.len();
        while p > 0 && !ms_le_exec(&sorted[p - 1], &m)
            invariant
                p <= sorted.len(),
                s == sorted.deep_view(),
                forall|k: int| p <= k < s.len() ==> !ms_le(#[trigger] s[k], m.deep_view()),
            decreases p,
        {
            p -= 1;
        }
        proof {
            lemma_insert_ms(s, m.deep_view(), p as int);
            assert(mv.take(i + 1).drop_last() =~= mv.take(i as int));
        }
        let ghost mvv = m.deep_view();
        sorted.insert(p, m);
        proof {
            assert(sorted.deep_view() =~= s.insert(p as int, mvv));
        }
        i += 1;
    }
    assert(mv.take(n as int) =~= mv);
    sorted
}


proof fn lemma_all_gems_step(sets: Seq<SkillSetPlanView>, i: int)
    requires
        0 <= i < sets.len(),
    ensures
        all_gems(sets.take(i + 1)) == all_gems(sets.take(i)) + sets[i].gems,
{
    assert(sets.take(i + 1).drop_last() =~= sets.take(i));
}

/// The milestones of a plan's skill sets (see `milestones_spec`): set
/// switches and gem availabilities, sorted by level then label.
pub fn build_milestones(skill_sets: &Vec<SkillSetPlan>, ctx: &MilestoneCtx) -> (r: Vec<Milestone>)
    ensures
        r.deep_view() == milestones_spec(skill_sets.deep_view(), ctx@),
{
    let ghost sv = skill_sets.deep_view();
    let mut switches: Vec<Milestone> = Vec::new();
    let mut i: usize = 0;
    while i < skill_sets.len()
        invariant
            i <= skill_sets.len(),
            sv == skill_sets.deep_view(),
            switches.deep_view() == switch_milestones(sv.take(i as int)),
        decreases skill_sets.len() - i,
    {
        let set = &skill_sets[i];
        proof {
            assert(sv.take(i + 1).drop_last() =~= sv.take(i as int));
            assert(sv[i as int] == set.deep_view());
        }
        match set.level_range {
            Some((start, _)) => if start >= 2 {
                let m = Milestone {
                    level: start,
                    label: concat3("Switch to skill set '", set.title.as_str(), "'"),
                    reliability: Reliability::Structured,
                };
                let ghost before = switches.deep_view();
                let ghost mview = m.deep_view();
                switches.push(m);
                proof {
                    assert(switches.deep_view() =~= before.push(mview));
                }
            },
            None => {},
        }
        i += 1;
    }
    assert(sv.take(sv.len() as int) =~= sv);
    let mut gem_ms: Vec<Milestone> = Vec::new();
    let mut seen: Vec<String> = Vec::new();
    let mut i: usize = 0;
    proof {
        assert(gem_ms.deep_view() =~= Seq::<MilestoneView>::empty());
        assert(seen.deep_view() =~= Seq::<Seq<char>>::empty());
        assert(all_gems(sv.take(0)) =~= Seq::<GemPlanView>::empty());
    }
    while i < skill_sets.len()
        invariant
            i <= skill_sets.len(),
            sv == skill_sets.deep_view(),
            (gem_ms.deep_view(), seen.deep_view()) == gem_milestones(all_gems(sv.take(i as int)), ctx@),
        decreases skill_sets.len() - i,
    {
        let set = &skill_sets[i];
        let ghost prefix = all_gems(sv.take(i as int));
        let ghost gv = set.gems.deep_view();
        proof {
            assert(sv[i as int] == set.deep_view());
            lemma_all_gems_step(sv, i as int);
            assert(prefix + gv.take(0) =~= prefix);
        }
        let mut j: usize = 0;
        while j < set.gems.len()
            invariant
                j <= set.gems.len(),
                gv == set.gems.deep_view(),
                (gem_ms.deep_view(), seen.deep_view()) == gem_milestones(prefix + gv.take(j as int), ctx@),
            decreases set.gems.len() - j,
        {
            let gem = &set.gems[j];
            proof {
                assert((prefix + gv.take(j + 1)).drop_last() =~= prefix + gv.take(j as int));
                assert((prefix + gv.take(j + 1)).last() == gem.deep_view());
            }
            if gem.enabled && gem.is_support != Some(true) {
                match gem.required_level {
                    Some(rl) => {
                        if !seen_contains(&seen, gem.name.as_str()) {
                            let ghost sbefore = seen.deep_view();
                            seen.push(gem.name.clone());
                            proof {
                                assert(seen.deep_view() =~= sbefore.push(gem.name@));
                            }
                            let (level, label) = gem_milestone(gem.name.as_str(), rl as u16, ctx);
                            if level >= 2 {
                                let m = Milestone { level, label, reliability: Reliability::Structured };
                                let ghost before = gem_ms.deep_view();
                                let ghost mview = m.deep_view();
                                gem_ms.push(m);
                                proof {
                                    assert(gem_ms.deep_view() =~= before.push(mview));
                                }
                            }
                        }
                    },
                    None => {},
                }
            }
            j += 1;
        }
        proof {
            assert(gv.take(gv.len() as int) =~= gv);
        }
        i += 1;
    }
    assert(sv.take(sv.len() as int) =~= sv);
    let ghost swv = switches.deep_view();
    let ghost gmv = gem_ms.deep_view();
    let mut all = switches;
    all.append(&mut gem_ms);
    proof {
        assert(all.deep_view() =~= swv + gmv);
    }
    sort_milestones(all)
}


// ---------------------------------------------------------------------
// Implementation: the document
// ---------------------------------------------------------------------

pub open spec fn ctx_for(gems: Seq<(Seq<char>, GemView)>, quests: crate::walk::QuestsView, areas: crate::walk::AreasView, class: Seq<char>) -> MilestoneCtxView {
    MilestoneCtxView {
        by_name: crate::game_data::gems_by_name_of(gems),
        availability: availability_spec(quests, class),
        act_entry: entry_levels(areas, areas.len() as int),
    }
}

/// The state after reading `xml` from its `k`-th event on, from state `s`,
/// with at most `fuel` more events before the end; `Err` carries the
/// message of the first XML error.
pub open spec fn doc_fold(
    xml: Seq<char>,
    s: ParseStateView,
    k: nat,
    fuel: nat,
    by_name: Seq<(Seq<char>, GemView)>,
) -> Result<ParseStateView, Seq<char>>
    decreases fuel,
{
    match xml_event_at(xml, k) {
        Err(m) => Err(m),
        Ok(t) => if t.kind == XmlKind::Eof {
            Ok(s)
        } else if fuel == 0 {
            Err("document did not end"@)
        } else {
            match step_spec(s, t, by_name) {
                Err(m) => Err(m),
                Ok(s2) => doc_fold(xml, s2, k + 1, (fuel - 1) as nat, by_name),
            }
        },
    }
}

/// What a build document reads into: the plan its events make, or the
/// message of its first XML error. Each event takes at least one
/// character of the document, so the events end within as many events as
/// the document has characters.
pub open spec fn parse_build_spec(
    xml: Seq<char>,
    gems: Seq<(Seq<char>, GemView)>,
    quests: crate::walk::QuestsView,
    areas: crate::walk::AreasView,
) -> Result<LevelingBuildPlanView, Seq<char>> {
    match doc_fold(xml, initial_state(), 0, xml.len(), crate::game_data::gems_by_name_of(gems)) {
        Ok(s) => Ok(plan_spec(s, ctx_for(gems, quests, areas, s.class_name))),
        Err(m) => Err(m),
    }
}

/// The preview the settings window shows of a plan.
pub open spec fn summarizes(sum: crate::pob::PobSummary, plan: LevelingBuildPlanView) -> bool {
    &&& sum.class_name@ == plan.class_name
    &&& sum.ascend_name.deep_view() == plan.ascend_name
    &&& sum.milestone_count == plan.milestones.len()
    &&& sum.reliability@ == crate::pob::reliability_name(plan.reliability)
}

impl ParseState {
    /// The plan the finished state makes, with its milestones.
    pub fn into_plan(self, ctx: &MilestoneCtx) -> (p: LevelingBuildPlan)
        ensures
            p.deep_view() == plan_spec(self@, ctx@),
    {
        let milestones = build_milestones(&self.skill_sets, ctx);
        let reliability = if milestones.len() == 0 {
            Reliability::Unsupported
        } else {
            Reliability::Structured
        };
        LevelingBuildPlan {
            class_name: self.class_name,
            ascend_name: self.ascend_name,
            skill_sets: self.skill_sets,
            passive_spec_titles: self.passive_spec_titles,
            notes: self.notes,
            milestones,
            reliability,
        }
    }
}

/// Reads a build document into a leveling plan. Unknown elements and
/// attributes are ignored and unknown gems keep no vendored data; only a
/// malformed document is an error (`PobError::Xml`). Each reader event
/// takes at least one character of the document, so the end is reached
/// within as many events as the document has characters; a reader that
/// went on longer would end the parse with an XML error.
pub fn parse_build(xml: &str, gems: &GemMap, quests: &QuestMap, areas: &AreaMap) -> (r: Result<LevelingBuildPlan, PobError>)
    requires
        town_acts_bounded(areas@),
    ensures
        (match parse_build_spec(xml@, gems@, quests@, areas@) {
            Ok(p) => (r matches Ok(plan) && plan.deep_view() == p),
            Err(m) => (r matches Err(e) && e.deep_view() == crate::pob::PobErrorView::Xml(m)),
        }),
{
    let by_name = gems_by_name(gems);
    let ghost bn = by_name@;
    let mut state = ParseState::new();
    let mut events = XmlEvents::new(xml);
    let fuel: usize = chars_of(xml).len();
    let mut remaining: usize = fuel;
    let ghost whole = doc_fold(xml@, initial_state(), 0, fuel as nat, bn);
    proof {
        assert(whole == doc_fold(xml@, initial_state(), 0, xml@.len(), crate::game_data::gems_by_name_of(gems@)));
    }
    loop
        invariant_except_break
            whole == doc_fold(xml@, state@, events@.1, remaining as nat, bn),
        invariant
            bn == by_name@,
            events@.0 == xml@,
            whole == doc_fold(xml@, initial_state(), 0, xml@.len(), crate::game_data::gems_by_name_of(gems@)),
        ensures
            whole == Ok::<ParseStateView, Seq<char>>(state@),
        decreases remaining,
    {
        let ghost k = events@.1;
        let ghost s0 = state@;
        let tok = match events.next() {
            Ok(t) => t,
            Err(m) => {
                proof {
                    assert(doc_fold(xml@, s0, k, remaining as nat, bn) == Err::<ParseStateView, Seq<char>>(m@));
                }
                return Err(PobError::Xml(m));
            },
        };
        if tok.kind == XmlKind::Eof {
            proof {
                assert(doc_fold(xml@, s0, k, remaining as nat, bn) == Ok::<ParseStateView, Seq<char>>(s0));
            }
            break;
        }
        if remaining == 0 {
            proof {
                assert(doc_fold(xml@, s0, k, remaining as nat, bn) == Err::<ParseStateView, Seq<char>>("document did not end"@));
            }
            return Err(PobError::Xml(owned("document did not end")));
        }
        let ghost r0 = remaining;
        remaining -= 1;
        match state.step(&tok, &by_name) {
            Ok(()) => {
                proof {
                    assert(doc_fold(xml@, s0, k, r0 as nat, bn) == doc_fold(xml@, state@, k + 1, remaining as nat, bn));
                }
            },
            Err(m) => {
                proof {
                    assert(doc_fold(xml@, s0, k, r0 as nat, bn) == Err::<ParseStateView, Seq<char>>(m@));
                }
                return Err(PobError::Xml(m));
            },
        }
    }
    let ctx = MilestoneCtx {
        by_name,
        availability: availability_for_class(quests, state.class_name.as_str()),
        act_entry: act_entry_levels(areas),
    };
    let plan = state.into_plan(&ctx);
    Ok(plan)
}

/// A pasted share code (or raw XML) decoded and read into a plan, an
/// error becoming its message.
pub fn parse_pob_code(code: &str, gems: &GemMap, quests: &QuestMap, areas: &AreaMap) -> (r: Result<LevelingBuildPlan, String>)
    requires
        town_acts_bounded(areas@),
    ensures
        (match crate::share_code::decode_spec(code@) {
            Err(e) => (r matches Err(m) && m@ == crate::pob::pob_error_text(e)),
            Ok(x) => match parse_build_spec(x, gems@, quests@, areas@) {
                Ok(p) => (r matches Ok(plan) && plan.deep_view() == p),
                Err(m) => (r matches Err(t) && t@ == "failed to parse build XML: "@ + m),
            },
        }),
{
    let xml = match crate::share_code::decode_share_code(code) {
        Ok(x) => x,
        Err(e) => return Err(e.message()),
    };
    match parse_build(xml.as_str(), gems, quests, areas) {
        Ok(plan) => Ok(plan),
        Err(e) => Err(e.message()),
    }
}

/// The preview of a pasted build (see `parse_pob_code`).
pub fn import_pob(code: &str, gems: &GemMap, quests: &QuestMap, areas: &AreaMap) -> (r: Result<crate::pob::PobSummary, String>)
    requires
        town_acts_bounded(areas@),
    ensures
        (match crate::share_code::decode_spec(code@) {
            Err(e) => (r matches Err(m) && m@ == crate::pob::pob_error_text(e)),
            Ok(x) => match parse_build_spec(x, gems@, quests@, areas@) {
                Ok(p) => (r matches Ok(sum) && summarizes(sum, p)),
                Err(m) => (r matches Err(t) && t@ == "failed to parse build XML: "@ + m),
            },
        }),
{
    match parse_pob_code(code, gems, quests, areas) {
        Ok(plan) => Ok(crate::pob::pob_summary(plan)),
        Err(m) => Err(m),
    }
}

} // verus!
