//! Content packs: the ten acts' routes parsed and walked in one continuous
//! walk, and the layout pack.

use vstd::prelude::*;

use crate::game_data::{AreaMap, QuestMap};
use crate::layouts::LayoutEntry;
use crate::route_parser::{parse_route_file, parse_route_spec, ParseError, ParseErrorView};
use crate::text::{append_chars, chars_of, copy_range, owned, string_of};
use crate::walk::{walk_act, walk_sections, AreasView, CompiledStep, CompiledStepView, QuestsView, WalkError, WalkErrorView, WalkState, WalkStateView};

verus! {

/// The upstream revision the route data comes from.
pub const EXILE_LEVELING_REF: &'static str = "e9a248c4a452f58da6e0f30751b20072ad3276cd";

#[derive(Debug, Clone, Copy, PartialEq, Eq, Structural)]
pub enum Variant {
    LeagueStart,
    Standard,
}

impl Variant {
    /// The route conditionals this variant turns on.
    pub fn defines(&self) -> (r: Vec<String>)
        ensures
            r.deep_view() == defines_of(*self),
    {
        match self {
            Variant::LeagueStart => {
                let mut v: Vec<String> = Vec::new();
                v.push(owned("LEAGUE_START"));
                assert(v.deep_view() =~= seq!["LEAGUE_START"@]);
                v
            },
            Variant::Standard => {
                let v: Vec<String> = Vec::new();
                assert(v.deep_view() =~= Seq::<Seq<char>>::empty());
                v
            },
        }
    }

    /// The file name stem of this variant's pack.
    pub fn file_stem(&self) -> (s: &'static str)
        ensures
            s@ == (match *self {
                Variant::LeagueStart => "standard-fast.league-start"@,
                Variant::Standard => "standard-fast.standard"@,
            }),
    {
        match self {
            Variant::LeagueStart => "standard-fast.league-start",
            Variant::Standard => "standard-fast.standard",
        }
    }

    fn label(&self) -> (s: &'static str)
        ensures
            s@ == label_of(*self),
    {
        match self {
            Variant::LeagueStart => "league_start",
            Variant::Standard => "standard",
        }
    }
}

pub open spec fn defines_of(v: Variant) -> Seq<Seq<char>> {
    match v {
        Variant::LeagueStart => seq!["LEAGUE_START"@],
        Variant::Standard => Seq::empty(),
    }
}

pub open spec fn label_of(v: Variant) -> Seq<char> {
    match v {
        Variant::LeagueStart => "league_start"@,
        Variant::Standard => "standard"@,
    }
}

#[derive(Debug, Clone, PartialEq)]
pub struct SourceInfo {
    pub project: String,
    pub reference: String,
    pub license: String,
}

#[derive(Debug)]
pub struct ActRoute {
    pub act: u8,
    pub steps: Vec<CompiledStep>,
}

pub struct ActRouteView {
    pub act: u8,
    pub steps: Seq<CompiledStepView>,
}

impl DeepView for ActRoute {
    type V = ActRouteView;

    open spec fn deep_view(&self) -> ActRouteView {
        ActRouteView { act: self.act, steps: self.steps.deep_view() }
    }
}

#[derive(Debug)]
pub struct ContentPack {
    pub format_version: u32,
    pub source: SourceInfo,
    pub variant: String,
    pub acts: Vec<ActRoute>,
}

#[derive(Debug)]
pub struct LayoutPack {
    pub format_version: u32,
    pub source: SourceInfo,
    pub entries: Vec<LayoutEntry>,
}

#[derive(Debug, Clone, PartialEq)]
pub enum CompileError {
    Parse(ParseError),
    Walk(WalkError),
}

pub enum CompileErrorView {
    Parse(ParseErrorView),
    Walk(WalkErrorView),
}

impl DeepView for CompileError {
    type V = CompileErrorView;

    open spec fn deep_view(&self) -> CompileErrorView {
        match self {
            CompileError::Parse(e) => CompileErrorView::Parse(e.deep_view()),
            CompileError::Walk(e) => CompileErrorView::Walk(e.deep_view()),
        }
    }
}

/// The first `k` acts parsed and walked, the walk state carried from one
/// act into the next.
pub open spec fn compile_acts(
    defines: Seq<Seq<char>>,
    sources: Seq<Seq<char>>,
    k: int,
    st0: WalkStateView,
    areas: AreasView,
    quests: QuestsView,
) -> Result<(Seq<ActRouteView>, WalkStateView), CompileErrorView>
    decreases k,
{
    if k <= 0 {
        Ok((Seq::empty(), st0))
    } else {
        match compile_acts(defines, sources, k - 1, st0, areas, quests) {
            Err(e) => Err(e),
            Ok((acts, st)) => match parse_route_spec(sources[k - 1], defines) {
                Err(e) => Err(CompileErrorView::Parse(e)),
                Ok(secs) => {
                    let (o, s2, e) = walk_sections(k as u8, secs, st, areas, quests);
                    match e {
                        Some(err) => Err(CompileErrorView::Walk(err)),
                        None => Ok((acts.push(ActRouteView { act: k as u8, steps: o }), s2)),
                    }
                },
            },
        }
    }
}

pub open spec fn campaign_start_view() -> WalkStateView {
    WalkStateView { current: "1_1_1"@, last_town: "1_1_town"@, portal: None }
}

proof fn lemma_compile_err_sticks(
    defines: Seq<Seq<char>>,
    sources: Seq<Seq<char>>,
    k: int,
    m: int,
    st0: WalkStateView,
    areas: AreasView,
    quests: QuestsView,
)
    requires
        0 <= k <= m,
        compile_acts(defines, sources, k, st0, areas, quests) is Err,
    ensures
        compile_acts(defines, sources, m, st0, areas, quests) == compile_acts(defines, sources, k, st0, areas, quests),
    decreases m - k,
{
    if m > k {
        lemma_compile_err_sticks(defines, sources, k, m - 1, st0, areas, quests);
    }
}

/// Compiles the route pack of `variant` from the route texts of acts 1 to
/// 10 (`act_sources[i]` is act `i + 1`), walking all acts in one walk from
/// the campaign start.
pub fn compile_route_pack(
    variant: Variant,
    act_sources: &Vec<String>,
    areas: &AreaMap,
    quests: &QuestMap,
) -> (r: Result<ContentPack, CompileError>)
    requires
        act_sources.len() == 10,
    ensures
        match r {
            Ok(pack) => {
                &&& compile_acts(defines_of(variant), act_sources.deep_view(), 10, campaign_start_view(), areas@, quests@) matches Ok((acts, _))
                &&& pack.acts.deep_view() == acts
                &&& pack.format_version == 1
                &&& pack.variant@ == label_of(variant)
            },
            Err(e) => compile_acts(defines_of(variant), act_sources.deep_view(), 10, campaign_start_view(), areas@, quests@)
                == Err::<(Seq<ActRouteView>, WalkStateView), CompileErrorView>(e.deep_view()),
        },
{
    let defines = variant.defines();
    let ghost dv = defines.deep_view();
    let ghost srcs = act_sources.deep_view();
    let mut state = WalkState::campaign_start();
    assert(state@ == campaign_start_view());
    let mut acts: Vec<ActRoute> = Vec::new();
    let mut act: u8 = 1;
    assert(acts.deep_view() =~= Seq::<ActRouteView>::empty());
    while act <= 10
        invariant
            1 <= act <= 11,
            dv == defines.deep_view(),
            dv == defines_of(variant),
            srcs == act_sources.deep_view(),
            act_sources.len() == 10,
            compile_acts(dv, srcs, act - 1, campaign_start_view(), areas@, quests@) == Ok::<
                (Seq<ActRouteView>, WalkStateView),
                CompileErrorView,
            >((acts.deep_view(), state@)),
        decreases 11 - act,
    {
        let idx = (act - 1) as usize;
        let source = &act_sources[idx];
        assert(srcs[act - 1] == source@);
        let sections = match parse_route_file(source.as_str(), &defines) {
            Ok(s) => s,
            Err(e) => {
                proof {
                    lemma_compile_err_sticks(dv, srcs, act as int, 10, campaign_start_view(), areas@, quests@);
                }
                return Err(CompileError::Parse(e));
            },
        };
        let steps = match walk_act(act, &sections, areas, quests, &mut state) {
            Ok(s) => s,
            Err(e) => {
                proof {
                    lemma_compile_err_sticks(dv, srcs, act as int, 10, campaign_start_view(), areas@, quests@);
                }
                return Err(CompileError::Walk(e));
            },
        };
        let ghost before = acts.deep_view();
        let ar = ActRoute { act, steps };
        let ghost arv = ar.deep_view();
        acts.push(ar);
        proof {
            assert(acts.deep_view() =~= before.push(arv));
        }
        act += 1;
    }
    let source = SourceInfo {
        project: owned("HeartofPhos/exile-leveling"),
        reference: owned(EXILE_LEVELING_REF),
        license: owned("MIT"),
    };
    Ok(ContentPack { format_version: 1, source, variant: owned(variant.label()), acts })
}

/// `s` cut to its first `n` characters.
pub open spec fn prefix_chars(s: Seq<char>, n: nat) -> Seq<char> {
    if s.len() <= n {
        s
    } else {
        s.take(n as int)
    }
}

/// The layout pack over `entries`, citing the first 12 characters of the
/// source document's SHA-256.
pub fn compile_layout_pack(entries: Vec<LayoutEntry>, docx_sha256: &str) -> (p: LayoutPack)
    ensures
        p.format_version == 1,
        p.entries.deep_view() == entries.deep_view(),
        p.source.reference@ == "poelayouts.docx sha256:"@ + prefix_chars(docx_sha256@, 12),
{
    let sha = chars_of(docx_sha256);
    let n = if sha.len() < 12 {
        sha.len()
    } else {
        12
    };
    let prefix = copy_range(&sha, 0, n);
    let mut r = chars_of("poelayouts.docx sha256:");
    append_chars(&mut r, &prefix);
    proof {
        if sha@.len() <= 12 {
            assert(sha@.subrange(0, n as int) =~= sha@);
        } else {
            assert(sha@.subrange(0, n as int) =~= sha@.take(12));
        }
    }
    LayoutPack {
        format_version: 1,
        source: SourceInfo {
            project: owned("poelayouts community compilation"),
            reference: string_of(&r),
            license: owned("used with credit — see CREDITS.md"),
        },
        entries,
    }
}

} // verus!
