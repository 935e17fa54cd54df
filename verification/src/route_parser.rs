//! Route files: one step per line, grouped into `#section`s, with
//! `#ifdef`/`#ifndef`/`#endif` conditionals and `#sub` lines attached to the
//! step before them.

use vstd::prelude::*;

use crate::fragment::{
    parse_fragments, parse_fragments_spec, split_chars, split_on, Fragment, FragmentError,
    FragmentErrorView, FragmentView,
};
use crate::map::vec_eq;
use crate::text::{chars_of, copy_range, owned, starts_with, starts_with_chars, string_of, trim, trim_bounds};

verus! {

#[derive(Debug, Clone, PartialEq)]
pub struct Step {
    pub line: usize,
    pub fragments: Vec<Fragment>,
    pub sub_steps: Vec<Vec<Fragment>>,
}

pub struct StepView {
    pub line: usize,
    pub fragments: Seq<FragmentView>,
    pub sub_steps: Seq<Seq<FragmentView>>,
}

impl DeepView for Step {
    type V = StepView;

    open spec fn deep_view(&self) -> StepView {
        StepView {
            line: self.line,
            fragments: self.fragments.deep_view(),
            sub_steps: self.sub_steps.deep_view(),
        }
    }
}

#[derive(Debug, Clone, PartialEq)]
pub struct Section {
    pub name: String,
    pub steps: Vec<Step>,
}

pub struct SectionView {
    pub name: Seq<char>,
    pub steps: Seq<StepView>,
}

impl DeepView for Section {
    type V = SectionView;

    open spec fn deep_view(&self) -> SectionView {
        SectionView { name: self.name@, steps: self.steps.deep_view() }
    }
}

#[derive(Debug, Clone, PartialEq)]
pub enum ParseError {
    Fragment(FragmentError),
    UnexpectedEndif { line: usize },
    OrphanSub { line: usize },
    UnterminatedConditional,
}

pub enum ParseErrorView {
    Fragment(FragmentErrorView),
    UnexpectedEndif { line: usize },
    OrphanSub { line: usize },
    UnterminatedConditional,
}

impl DeepView for ParseError {
    type V = ParseErrorView;

    open spec fn deep_view(&self) -> ParseErrorView {
        match self {
            ParseError::Fragment(e) => ParseErrorView::Fragment(e.deep_view()),
            ParseError::UnexpectedEndif { line } => ParseErrorView::UnexpectedEndif { line: *line },
            ParseError::OrphanSub { line } => ParseErrorView::OrphanSub { line: *line },
            ParseError::UnterminatedConditional => ParseErrorView::UnterminatedConditional,
        }
    }
}

// ---------------------------------------------------------------------
// Specification
// ---------------------------------------------------------------------

/// Sections read so far and the stack of open conditionals (whether each
/// one's condition held).
pub struct ParseState {
    pub sections: Seq<SectionView>,
    pub conds: Seq<bool>,
}

/// The lines of `s` (`str::lines`, up to trailing `\r`, which the parser
/// trims anyway).
pub open spec fn lines_of(s: Seq<char>) -> Seq<Seq<char>> {
    let parts = split_on(s, '\n');
    if parts.last().len() == 0 {
        parts.drop_last()
    } else {
        parts
    }
}

pub open spec fn all_active(conds: Seq<bool>) -> bool {
    forall|i: int| 0 <= i < conds.len() ==> #[trigger] conds[i]
}

pub open spec fn default_name() -> Seq<char> {
    "Default"@
}

/// `st` with a step appended to its last section (a `Default` section is
/// opened first when there is none).
pub open spec fn with_step(st: ParseState, step: StepView) -> ParseState {
    let sections = if st.sections.len() == 0 {
        seq![SectionView { name: default_name(), steps: Seq::empty() }]
    } else {
        st.sections
    };
    let last = sections.last();
    ParseState {
        sections: sections.update(
            sections.len() - 1,
            SectionView { name: last.name, steps: last.steps.push(step) },
        ),
        conds: st.conds,
    }
}

/// `st` with a sub-step appended to the last step of its last section.
pub open spec fn with_sub(st: ParseState, sub: Seq<FragmentView>) -> ParseState {
    let sec = st.sections.last();
    let step = sec.steps.last();
    ParseState {
        sections: st.sections.update(
            st.sections.len() - 1,
            SectionView {
                name: sec.name,
                steps: sec.steps.update(
                    sec.steps.len() - 1,
                    StepView {
                        line: step.line,
                        fragments: step.fragments,
                        sub_steps: step.sub_steps.push(sub),
                    },
                ),
            },
        ),
        conds: st.conds,
    }
}

/// The effect of one line (already trimmed) numbered `line`.
pub open spec fn line_step(st: ParseState, t: Seq<char>, line: usize, defines: Seq<Seq<char>>) -> Result<
    ParseState,
    ParseErrorView,
> {
    if starts_with(t, "#section"@) {
        if st.conds.len() > 0 {
            Err(ParseErrorView::UnterminatedConditional)
        } else {
            let name = trim(t.skip("#section"@.len() as int));
            let name = if name.len() == 0 {
                default_name()
            } else {
                name
            };
            Ok(
                ParseState {
                    sections: st.sections.push(SectionView { name, steps: Seq::empty() }),
                    conds: st.conds,
                },
            )
        }
    } else if starts_with(t, "#endif"@) {
        if st.conds.len() == 0 {
            Err(ParseErrorView::UnexpectedEndif { line })
        } else {
            Ok(ParseState { sections: st.sections, conds: st.conds.drop_last() })
        }
    } else if starts_with(t, "#ifdef"@) {
        Ok(
            ParseState {
                sections: st.sections,
                conds: st.conds.push(defines.contains(trim(t.skip("#ifdef"@.len() as int)))),
            },
        )
    } else if starts_with(t, "#ifndef"@) {
        Ok(
            ParseState {
                sections: st.sections,
                conds: st.conds.push(!defines.contains(trim(t.skip("#ifndef"@.len() as int)))),
            },
        )
    } else if starts_with(t, "#sub"@) {
        if !all_active(st.conds) {
            Ok(st)
        } else {
            match parse_fragments_spec(trim(t.skip("#sub"@.len() as int)), line) {
                Err(e) => Err(ParseErrorView::Fragment(e)),
                Ok(fs) => if fs.len() == 0 {
                    Ok(st)
                } else if st.sections.len() == 0 || st.sections.last().steps.len() == 0 {
                    Err(ParseErrorView::OrphanSub { line })
                } else {
                    Ok(with_sub(st, fs))
                },
            }
        }
    } else if starts_with(t, "#"@) || !all_active(st.conds) {
        Ok(st)
    } else {
        match parse_fragments_spec(t, line) {
            Err(e) => Err(ParseErrorView::Fragment(e)),
            Ok(fs) => if fs.len() == 0 {
                Ok(st)
            } else {
                Ok(with_step(st, StepView { line, fragments: fs, sub_steps: Seq::empty() }))
            },
        }
    }
}

/// The state after the first `k` lines.
pub open spec fn run_lines(lines: Seq<Seq<char>>, k: int, defines: Seq<Seq<char>>) -> Result<
    ParseState,
    ParseErrorView,
>
    decreases k,
{
    if k <= 0 {
        Ok(ParseState { sections: Seq::empty(), conds: Seq::empty() })
    } else {
        match run_lines(lines, k - 1, defines) {
            Err(e) => Err(e),
            Ok(st) => line_step(st, trim(lines[k - 1]), k as usize, defines),
        }
    }
}

/// What a route file parses to.
pub open spec fn parse_route_spec(source: Seq<char>, defines: Seq<Seq<char>>) -> Result<
    Seq<SectionView>,
    ParseErrorView,
> {
    let lines = lines_of(source);
    match run_lines(lines, lines.len() as int, defines) {
        Err(e) => Err(e),
        Ok(st) => if st.conds.len() > 0 {
            Err(ParseErrorView::UnterminatedConditional)
        } else {
            Ok(st.sections)
        },
    }
}

// ---------------------------------------------------------------------
// Implementation
// ---------------------------------------------------------------------

/// Once a line fails, the whole file fails with that error.
pub proof fn lemma_run_err_sticks(lines: Seq<Seq<char>>, k: int, m: int, defines: Seq<Seq<char>>)
    requires
        0 <= k <= m,
        run_lines(lines, k, defines) is Err,
    ensures
        run_lines(lines, m, defines) == run_lines(lines, k, defines),
    decreases m - k,
{
    if m > k {
        lemma_run_err_sticks(lines, k, m - 1, defines);
    }
}

fn contains_name(defines: &Vec<String>, name: &Vec<char>) -> (b: bool)
    ensures
        b == defines.deep_view().contains(name@),
{
    let mut i: usize = 0;
    while i < defines.len()
        invariant
            i <= defines.len(),
            forall|j: int| 0 <= j < i ==> defines.deep_view()[j] != name@,
        decreases defines.len() - i,
    {
        let d = chars_of(defines[i].as_str());
        if vec_eq(&d, name) {
            assert(defines.deep_view()[i as int] == name@);
            return true;
        }
        i += 1;
    }
    false
}

fn all_true(v: &Vec<bool>) -> (b: bool)
    ensures
        b == all_active(v@),
{
    let mut i: usize = 0;
    while i < v.len()
        invariant
            i <= v.len(),
            forall|j: int| 0 <= j < i ==> v@[j],
        decreases v.len() - i,
    {
        if !v[i] {
            return false;
        }
        i += 1;
    }
    true
}

/// `t[skip..]` with surrounding whitespace removed.
fn trimmed_rest(t: &Vec<char>, skip: usize) -> (r: Vec<char>)
    requires
        skip <= t.len(),
    ensures
        r@ == trim(t@.skip(skip as int)),
{
    let (a, b) = trim_bounds(t, skip, t.len());
    assert(t@.subrange(skip as int, t@.len() as int) =~= t@.skip(skip as int));
    copy_range(t, a, b)
}

fn fragments_of(t: &Vec<char>, line: usize) -> (r: Result<Vec<Fragment>, ParseError>)
    ensures
        match r {
            Ok(fs) => parse_fragments_spec(t@, line) == Ok::<Seq<FragmentView>, FragmentErrorView>(
                fs.deep_view(),
            ),
            Err(e) => exists|fe: FragmentErrorView|
                parse_fragments_spec(t@, line) == Err::<Seq<FragmentView>, FragmentErrorView>(fe)
                    && e.deep_view() == ParseErrorView::Fragment(fe),
        },
{
    let s = string_of(t);
    match parse_fragments(s.as_str(), line) {
        Ok(fs) => Ok(fs),
        Err(e) => {
            let ghost fe = e.deep_view();
            Err(ParseError::Fragment(e))
        },
    }
}

/// Parse a route file, keeping the lines whose `#ifdef`/`#ifndef`
/// conditions hold for `defines`.
pub fn parse_route_file(source: &str, defines: &Vec<String>) -> (r: Result<Vec<Section>, ParseError>)
    ensures
        match r {
            Ok(secs) => parse_route_spec(source@, defines.deep_view()) == Ok::<
                Seq<SectionView>,
                ParseErrorView,
            >(secs.deep_view()),
            Err(e) => parse_route_spec(source@, defines.deep_view()) == Err::<
                Seq<SectionView>,
                ParseErrorView,
            >(e.deep_view()),
        },
{
    let v = chars_of(source);
    let parts = split_chars(&v, '\n');
    let n = if parts[parts.len() - 1].len() == 0 {
        parts.len() - 1
    } else {
        parts.len()
    };
    let ghost lines = lines_of(source@);
    proof {
        crate::fragment::lemma_parts_view(&parts);
        assert(lines.len() == n);
        assert forall|k: int| 0 <= k < n implies #[trigger] lines[k] == parts@[k]@ by {}
    }
    let ghost dv = defines.deep_view();
    let mut sections: Vec<Section> = Vec::new();
    let mut conds: Vec<bool> = Vec::new();
    let lit_section = chars_of("#section");
    let lit_endif = chars_of("#endif");
    let lit_ifdef = chars_of("#ifdef");
    let lit_ifndef = chars_of("#ifndef");
    let lit_sub = chars_of("#sub");
    let lit_hash = chars_of("#");
    let mut i: usize = 0;
    assert(sections.deep_view() =~= Seq::<SectionView>::empty());
    assert(conds@ =~= Seq::<bool>::empty());
    while i < n
        invariant
            i <= n <= parts.len(),
            lines == lines_of(source@),
            lines.len() == n,
            forall|k: int| 0 <= k < n ==> #[trigger] lines[k] == parts@[k]@,
            dv == defines.deep_view(),
            lit_section@ == "#section"@,
            lit_endif@ == "#endif"@,
            lit_ifdef@ == "#ifdef"@,
            lit_ifndef@ == "#ifndef"@,
            lit_sub@ == "#sub"@,
            lit_hash@ == "#"@,
            run_lines(lines, i as int, dv) == Ok::<ParseState, ParseErrorView>(
                ParseState { sections: sections.deep_view(), conds: conds@ },
            ),
        decreases n - i,
    {
        let line_no = i + 1;
        let (a, b) = trim_bounds(&parts[i], 0, parts[i].len());
        let t = copy_range(&parts[i], a, b);
        let ghost st = ParseState { sections: sections.deep_view(), conds: conds@ };
        proof {
            assert(parts@[i as int]@.subrange(0, parts@[i as int]@.len() as int) =~= parts@[i as int]@);
            assert(t@ == trim(lines[i as int]));
        }
        let ghost expected = line_step(st, t@, line_no, dv);
        assert(run_lines(lines, i + 1, dv) == expected);
        if starts_with_chars(&t, &lit_section) {
            if conds.len() > 0 {
                proof {
                    lemma_run_err_sticks(lines, i + 1, n as int, dv);
                }
                return Err(ParseError::UnterminatedConditional);
            }
            let rest = trimmed_rest(&t, lit_section.len());
            let name = if rest.len() == 0 {
                owned("Default")
            } else {
                string_of(&rest)
            };
            let ghost before = sections.deep_view();
            let sec = Section { name, steps: Vec::new() };
            proof {
                assert(sec.steps.deep_view() =~= Seq::<StepView>::empty());
            }
            let ghost secv = sec.deep_view();
            sections.push(sec);
            proof {
                assert(sections.deep_view() =~= before.push(secv));
            }
        } else if starts_with_chars(&t, &lit_endif) {
            if conds.len() == 0 {
                proof {
                    lemma_run_err_sticks(lines, i + 1, n as int, dv);
                }
                return Err(ParseError::UnexpectedEndif { line: line_no });
            }
            conds.pop();
        } else if starts_with_chars(&t, &lit_ifdef) {
            let name = trimmed_rest(&t, lit_ifdef.len());
            let c = contains_name(defines, &name);
            conds.push(c);
        } else if starts_with_chars(&t, &lit_ifndef) {
            let name = trimmed_rest(&t, lit_ifndef.len());
            let c = contains_name(defines, &name);
            conds.push(!c);
        } else if starts_with_chars(&t, &lit_sub) {
            if all_true(&conds) {
                let rest = trimmed_rest(&t, lit_sub.len());
                let fs = match fragments_of(&rest, line_no) {
                    Ok(fs) => fs,
                    Err(e) => {
                        proof {
                            lemma_run_err_sticks(lines, i + 1, n as int, dv);
                        }
                        return Err(e);
                    },
                };
                if fs.len() > 0 {
                    if sections.len() == 0 || sections[sections.len() - 1].steps.len() == 0 {
                        proof {
                            lemma_run_err_sticks(lines, i + 1, n as int, dv);
                        }
                        return Err(ParseError::OrphanSub { line: line_no });
                    }
                    let ghost before = sections.deep_view();
                    let ghost fsv = fs.deep_view();
                    let mut sec = sections.pop().unwrap();
                    proof {
                        assert(sections.deep_view() =~= before.drop_last());
                        assert(sec.deep_view() == before.last());
                    }
                    let ghost old_steps = sec.steps.deep_view();
                    let mut step = sec.steps.pop().unwrap();
                    proof {
                        assert(sec.steps.deep_view() =~= old_steps.drop_last());
                        assert(step.deep_view() == old_steps.last());
                    }
                    let ghost subs_before = step.sub_steps.deep_view();
                    step.sub_steps.push(fs);
                    proof {
                        assert(step.sub_steps.deep_view() =~= subs_before.push(fsv));
                    }
                    let ghost steps_before = sec.steps.deep_view();
                    let ghost stepv = step.deep_view();
                    sec.steps.push(step);
                    proof {
                        assert(sec.steps.deep_view() =~= steps_before.push(stepv));
                    }
                    let ghost secs_before = sections.deep_view();
                    let ghost secv = sec.deep_view();
                    sections.push(sec);
                    proof {
                        assert(sections.deep_view() =~= secs_before.push(secv));
                        assert(secv.steps =~= old_steps.update(old_steps.len() - 1, stepv));
                        assert(sections.deep_view() =~= with_sub(st, fsv).sections);
                    }
                }
            }
        } else if starts_with_chars(&t, &lit_hash) {
        } else if all_true(&conds) {
            let fs = match fragments_of(&t, line_no) {
                Ok(fs) => fs,
                Err(e) => {
                    proof {
                        lemma_run_err_sticks(lines, i + 1, n as int, dv);
                    }
                    return Err(e);
                },
            };
            if fs.len() > 0 {
                let ghost fsv = fs.deep_view();
                if sections.len() == 0 {
                    let sec0 = Section { name: owned("Default"), steps: Vec::new() };
                    proof {
                        assert(sec0.steps.deep_view() =~= Seq::<StepView>::empty());
                    }
                    let ghost secv0 = sec0.deep_view();
                    sections.push(sec0);
                    proof {
                        assert(sections.deep_view() =~= seq![secv0]);
                    }
                }
                let ghost mid = sections.deep_view();
                let mut sec = sections.pop().unwrap();
                proof {
                    assert(sections.deep_view() =~= mid.drop_last());
                    assert(sec.deep_view() == mid.last());
                    if st.sections.len() == 0 {
                        assert(mid =~= seq![SectionView { name: default_name(), steps: Seq::empty() }]);
                    }
                }
                let ghost steps_before = sec.steps.deep_view();
                let step = Step { line: line_no, fragments: fs, sub_steps: Vec::new() };
                let ghost stepv = step.deep_view();
                sec.steps.push(step);
                proof {
                    assert(sec.steps.deep_view() =~= steps_before.push(stepv));
                }
                let ghost secs_before = sections.deep_view();
                let ghost secv = sec.deep_view();
                sections.push(sec);
                proof {
                    assert(stepv.sub_steps =~= Seq::<Seq<FragmentView>>::empty());
                    assert(sections.deep_view() =~= secs_before.push(secv));
                    assert(sections.deep_view() =~= with_step(
                        st,
                        StepView { line: line_no, fragments: fsv, sub_steps: Seq::empty() },
                    ).sections);
                }
            }
        }
        i += 1;
    }
    if conds.len() > 0 {
        return Err(ParseError::UnterminatedConditional);
    }
    Ok(sections)
}

} // verus!
