//! Rendering route fragments as readable step text.

use vstd::prelude::*;

use crate::fragment::{Fragment, FragmentView};
use crate::game_data::AreaMap;
use crate::map::lookup;
use crate::text::{append_str, copy_range, string_of, trim, trim_bounds};
use crate::walk::AreasView;

verus! {

/// The compass arrow for a direction index (0 is north, clockwise).
pub open spec fn glyph(i: u8) -> Seq<char> {
    if i == 0 {
        "↑"@
    } else if i == 1 {
        "↗"@
    } else if i == 2 {
        "→"@
    } else if i == 3 {
        "↘"@
    } else if i == 4 {
        "↓"@
    } else if i == 5 {
        "↙"@
    } else if i == 6 {
        "←"@
    } else if i == 7 {
        "↖"@
    } else {
        "?"@
    }
}

/// An area's display name, or its id when the area is unknown.
pub open spec fn area_name(areas: AreasView, id: Seq<char>) -> Seq<char> {
    match lookup(areas, id) {
        Some(a) => a.name,
        None => id,
    }
}

/// The text one fragment contributes.
pub open spec fn piece(f: FragmentView, areas: AreasView) -> Seq<char> {
    match f {
        FragmentView::Text { value } => value,
        FragmentView::Kill { name } => name,
        FragmentView::Arena { name } => name,
        FragmentView::Area { area_id } => area_name(areas, area_id),
        FragmentView::Enter { area_id } => area_name(areas, area_id),
        FragmentView::WaypointUse { area_id } => area_name(areas, area_id),
        FragmentView::Logout => "log out"@,
        FragmentView::Waypoint => "the waypoint"@,
        FragmentView::WaypointGet => "waypoint"@,
        FragmentView::PortalSet => "place a portal"@,
        FragmentView::PortalUse => "take the portal"@,
        FragmentView::Quest { .. } => "hand in quest"@,
        FragmentView::QuestText { text } => text,
        FragmentView::Generic { text } => text,
        FragmentView::Copy { text } => text,
        FragmentView::RewardQuest { item } => item,
        FragmentView::RewardVendor { item, .. } => "buy "@ + item,
        FragmentView::Trial => "Trial of Ascendancy"@,
        FragmentView::Ascend { .. } => "the Labyrinth"@,
        FragmentView::Crafting { .. } => "crafting recipe"@,
        FragmentView::Dir { dir_index } => glyph(dir_index),
    }
}

pub open spec fn pieces(frags: Seq<FragmentView>, areas: AreasView) -> Seq<char>
    decreases frags.len(),
{
    if frags.len() == 0 {
        Seq::empty()
    } else {
        pieces(frags.drop_last(), areas) + piece(frags.last(), areas)
    }
}

/// The step text of `frags`: every fragment's text in order, trimmed.
pub open spec fn render_spec(frags: Seq<FragmentView>, areas: AreasView) -> Seq<char> {
    trim(pieces(frags, areas))
}

/// The arrow a compass arrow becomes when turned 45 degrees clockwise
/// (north to north-east, north-east to east, and so on round).
pub open spec fn turn_clockwise(c: char) -> char {
    if c == '↑' {
        '↗'
    } else if c == '↗' {
        '→'
    } else if c == '→' {
        '↘'
    } else if c == '↘' {
        '↓'
    } else if c == '↓' {
        '↙'
    } else if c == '↙' {
        '←'
    } else if c == '←' {
        '↖'
    } else if c == '↖' {
        '↑'
    } else {
        c
    }
}

proof fn lemma_glyph_chars(d: u8)
    requires
        d < 8,
    ensures
        glyph(d).len() == 1,
        !crate::text::is_ws(glyph(d)[0]),
        d == 0 ==> glyph(d)[0] == '↑',
        d == 1 ==> glyph(d)[0] == '↗',
        d == 2 ==> glyph(d)[0] == '→',
        d == 3 ==> glyph(d)[0] == '↘',
        d == 4 ==> glyph(d)[0] == '↓',
        d == 5 ==> glyph(d)[0] == '↙',
        d == 6 ==> glyph(d)[0] == '←',
        d == 7 ==> glyph(d)[0] == '↖',
{
    reveal_strlit("↑");
    reveal_strlit("↗");
    reveal_strlit("→");
    reveal_strlit("↘");
    reveal_strlit("↓");
    reveal_strlit("↙");
    reveal_strlit("←");
    reveal_strlit("↖");
}

proof fn lemma_render_one_dir(areas: AreasView, d: u8)
    requires
        d < 8,
    ensures
        render_spec(seq![FragmentView::Dir { dir_index: d }], areas) == glyph(d),
{
    let fs = seq![FragmentView::Dir { dir_index: d }];
    lemma_glyph_chars(d);
    assert(fs.drop_last() =~= Seq::<FragmentView>::empty());
    assert(fs.last() == FragmentView::Dir { dir_index: d });
    assert(pieces(fs.drop_last(), areas) == Seq::<char>::empty());
    assert(piece(fs.last(), areas) == glyph(d));
    assert(pieces(fs, areas) == pieces(fs.drop_last(), areas) + piece(fs.last(), areas));
    assert(pieces(fs, areas) =~= glyph(d));
    let g = glyph(d);
    assert(g.drop_first() =~= Seq::<char>::empty());
    assert(crate::text::trim_start(g) == g);
    assert(crate::text::trim_end(g) == g);
}

/// A direction renders as a single compass arrow: index 0 points north,
/// and each next index is the previous arrow turned 45 degrees clockwise.
pub proof fn lemma_dir_arrows_turn_clockwise(areas: AreasView, i: u8)
    requires
        i < 7,
    ensures
        render_spec(seq![FragmentView::Dir { dir_index: 0 }], areas) == seq!['↑'],
        render_spec(seq![FragmentView::Dir { dir_index: i }], areas).len() == 1,
        render_spec(seq![FragmentView::Dir { dir_index: (i + 1) as u8 }], areas) == seq![
            turn_clockwise(render_spec(seq![FragmentView::Dir { dir_index: i }], areas)[0]),
        ],
{
    lemma_render_one_dir(areas, 0);
    lemma_render_one_dir(areas, i);
    lemma_render_one_dir(areas, (i + 1) as u8);
    lemma_glyph_chars(0);
    lemma_glyph_chars(i);
    lemma_glyph_chars((i + 1) as u8);
    assert(glyph(0) =~= seq!['↑']);
    let n = glyph((i + 1) as u8);
    assert(n =~= seq![n[0]]);
}

/// Distinct directions render as distinct arrows.
pub proof fn lemma_dir_arrows_distinct(areas: AreasView, i: u8, j: u8)
    requires
        i < 8,
        j < 8,
        i != j,
    ensures
        render_spec(seq![FragmentView::Dir { dir_index: i }], areas) != render_spec(
            seq![FragmentView::Dir { dir_index: j }],
            areas,
        ),
{
    lemma_render_one_dir(areas, i);
    lemma_render_one_dir(areas, j);
    lemma_glyph_chars(i);
    lemma_glyph_chars(j);
    assert(glyph(i)[0] != glyph(j)[0]);
}

fn dir_glyph(i: u8) -> (s: &'static str)
    ensures
        s@ == glyph(i),
{
    if i == 0 {
        "↑"
    } else if i == 1 {
        "↗"
    } else if i == 2 {
        "→"
    } else if i == 3 {
        "↘"
    } else if i == 4 {
        "↓"
    } else if i == 5 {
        "↙"
    } else if i == 6 {
        "←"
    } else if i == 7 {
        "↖"
    } else {
        "?"
    }
}

/// An area's display name, or its id when unknown.
pub fn display_name(areas: &AreaMap, area_id: &str) -> (s: String)
    ensures
        s@ == area_name(areas@, area_id@),
{
    match areas.get(area_id) {
        Some(a) => a.name.clone(),
        None => crate::text::owned(area_id),
    }
}

fn push_piece(out: &mut Vec<char>, f: &Fragment, areas: &AreaMap)
    ensures
        final(out)@ == old(out)@ + piece(f.deep_view(), areas@),
{
    match f {
        Fragment::Text { value } => append_str(out, value.as_str()),
        Fragment::Kill { name } => append_str(out, name.as_str()),
        Fragment::Arena { name } => append_str(out, name.as_str()),
        Fragment::Area { area_id } => {
            let n = display_name(areas, area_id.as_str());
            append_str(out, n.as_str());
        },
        Fragment::Enter { area_id } => {
            let n = display_name(areas, area_id.as_str());
            append_str(out, n.as_str());
        },
        Fragment::WaypointUse { area_id } => {
            let n = display_name(areas, area_id.as_str());
            append_str(out, n.as_str());
        },
        Fragment::Logout => append_str(out, "log out"),
        Fragment::Waypoint => append_str(out, "the waypoint"),
        Fragment::WaypointGet => append_str(out, "waypoint"),
        Fragment::PortalSet => append_str(out, "place a portal"),
        Fragment::PortalUse => append_str(out, "take the portal"),
        Fragment::Quest { .. } => append_str(out, "hand in quest"),
        Fragment::QuestText { text } => append_str(out, text.as_str()),
        Fragment::Generic { text } => append_str(out, text.as_str()),
        Fragment::Copy { text } => append_str(out, text.as_str()),
        Fragment::RewardQuest { item } => append_str(out, item.as_str()),
        Fragment::RewardVendor { item, .. } => {
            let ghost before = out@;
            append_str(out, "buy ");
            append_str(out, item.as_str());
            assert(out@ =~= before + ("buy "@ + item@));
        },
        Fragment::Trial => append_str(out, "Trial of Ascendancy"),
        Fragment::Ascend { .. } => append_str(out, "the Labyrinth"),
        Fragment::Crafting { .. } => append_str(out, "crafting recipe"),
        Fragment::Dir { dir_index } => append_str(out, dir_glyph(*dir_index)),
    }
}

/// The readable text of a step's fragments.
pub fn render_fragments(frags: &[Fragment], areas: &AreaMap) -> (s: String)
    ensures
        s@ == render_spec(frags.deep_view(), areas@),
{
    let ghost fv = frags.deep_view();
    let mut out: Vec<char> = Vec::new();
    let mut i: usize = 0;
    while i < frags.len()
        invariant
            i <= frags.len(),
            fv == frags.deep_view(),
            out@ == pieces(fv.take(i as int), areas@),
        decreases frags.len() - i,
    {
        proof {
            assert(fv.take(i + 1).drop_last() =~= fv.take(i as int));
            assert(fv[i as int] == frags@[i as int].deep_view());
        }
        push_piece(&mut out, &frags[i], areas);
        i += 1;
    }
    assert(fv.take(fv.len() as int) =~= fv);
    let (a, b) = trim_bounds(&out, 0, out.len());
    assert(out@.subrange(0, out@.len() as int) =~= out@);
    let t = copy_range(&out, a, b);
    string_of(&t)
}

} // verus!
