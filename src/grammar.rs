use vstd::prelude::*;
use crate::escape::{code_of, decode, unescape_chars, EscapeError};
use crate::matcher::{views_of, Matcher, MatcherView};
use crate::text::push_char;

verus! {

/// What the scanner looked for where a selector stopped conforming.
#[derive(Clone, Copy, Debug, PartialEq, Eq, Structural)]
pub enum Expected {
    /// The `$` that every selector starts with.
    RootSelector,
    /// `.name`, `.*` or `[`.
    Matcher,
    /// A name after `.`: letters, digits, `_` or characters beyond ASCII.
    ChildName,
    /// A quoted name inside brackets.
    UnionChild,
    /// `,` or `]` after a quoted name.
    UnionSeparator,
    /// The quote that ends a quoted name.
    ClosingQuote,
}

/// Why a selector yields no matchers.
#[derive(Clone, Copy, Debug, PartialEq, Eq, Structural)]
pub enum SelectorFault {
    /// The text stops conforming at character index `at`.
    Syntax { at: usize, expected: Expected },
    /// A quoted name holds a malformed escape.
    Escape(EscapeError),
}

/// Where the scanner stands inside a selector.
#[derive(Clone, Copy, Debug, PartialEq, Eq, Structural)]
pub enum Stage {
    /// Between matchers.
    Steps,
    /// Inside a dotted name that began at `start`.
    Name { start: usize },
    /// After `[` or `,`: a quoted name comes next.
    UnionChild,
    /// Inside a name quoted by `quote`, whose text began at `start`.
    Quoted { start: usize, quote: char },
    /// After a quoted name: `,` or `]` comes next.
    UnionSeparator,
}

/// A character that may stand in a dotted name.
pub open spec fn is_name_char(c: char) -> bool {
    let n = code_of(c);
    (48 <= n && n <= 57) || (65 <= n && n <= 90) || (97 <= n && n <= 122) || n == 95 || n >= 128
}

pub type Scan = Result<Seq<MatcherView>, SelectorFault>;

/// `r` with `m` in front, when `r` succeeded.
pub open spec fn cons_step(m: MatcherView, r: Scan) -> Scan {
    match r {
        Ok(ms) => Ok(seq![m] + ms),
        Err(e) => Err(e),
    }
}

/// `r` after the matchers `done`, when `r` succeeded.
pub open spec fn after_steps(done: Seq<MatcherView>, r: Scan) -> Scan {
    match r {
        Ok(ms) => Ok(done + ms),
        Err(e) => Err(e),
    }
}

pub open spec fn stage_rank(stage: Stage) -> int {
    match stage {
        Stage::Name { .. } => 1,
        _ => 0,
    }
}

/// The matchers that `s[i..]` yields when read from `stage`.
pub open spec fn steps_from(s: Seq<char>, i: int, stage: Stage) -> Scan
    decreases s.len() - i, stage_rank(stage),
{
    if i < 0 || i > s.len() {
        Ok(Seq::empty())
    } else {
        match stage {
            Stage::Steps => if i == s.len() {
                Ok(Seq::empty())
            } else if s[i] == '.' {
                if i + 1 < s.len() && s[i + 1] == '*' {
                    cons_step(MatcherView::WildcardChild, steps_from(s, i + 2, Stage::Steps))
                } else if i + 1 < s.len() && is_name_char(s[i + 1]) {
                    steps_from(s, i + 2, Stage::Name { start: (i + 1) as usize })
                } else {
                    Err(SelectorFault::Syntax { at: (i + 1) as usize, expected: Expected::ChildName })
                }
            } else if s[i] == '[' {
                steps_from(s, i + 1, Stage::UnionChild)
            } else {
                Err(SelectorFault::Syntax { at: i as usize, expected: Expected::Matcher })
            },
            Stage::Name { start } => if i < s.len() && is_name_char(s[i]) {
                steps_from(s, i + 1, stage)
            } else {
                cons_step(
                    MatcherView::NamedChild(s.subrange(start as int, i)),
                    steps_from(s, i, Stage::Steps),
                )
            },
            Stage::UnionChild => if i < s.len() && (s[i] == '"' || s[i] == '\'') {
                steps_from(s, i + 1, Stage::Quoted { start: (i + 1) as usize, quote: s[i] })
            } else {
                Err(SelectorFault::Syntax { at: i as usize, expected: Expected::UnionChild })
            },
            Stage::Quoted { start, quote } => if i + 1 < s.len() && s[i] == '\\' {
                steps_from(s, i + 2, stage)
            } else if i < s.len() && s[i] != '\\' && s[i] != quote {
                steps_from(s, i + 1, stage)
            } else if i < s.len() && s[i] == quote {
                match decode(s.subrange(start as int, i)) {
                    Ok(t) => cons_step(
                        MatcherView::NamedChild(t),
                        steps_from(s, i + 1, Stage::UnionSeparator),
                    ),
                    Err(e) => Err(SelectorFault::Escape(e)),
                }
            } else {
                Err(SelectorFault::Syntax { at: s.len() as usize, expected: Expected::ClosingQuote })
            },
            Stage::UnionSeparator => if i < s.len() && s[i] == ',' {
                steps_from(s, i + 1, Stage::UnionChild)
            } else if i < s.len() && s[i] == ']' {
                steps_from(s, i + 1, Stage::Steps)
            } else {
                Err(SelectorFault::Syntax { at: i as usize, expected: Expected::UnionSeparator })
            },
        }
    }
}

/// The matchers that the selector `s` yields: `Root` for its leading `$`,
/// then one for each `.name` or `.*` and one for each quoted name of a
/// bracketed union, in order.
pub open spec fn selector_steps(s: Seq<char>) -> Scan {
    if s.len() > 0 && s[0] == '$' {
        cons_step(MatcherView::Root, steps_from(s, 1, Stage::Steps))
    } else {
        Err(SelectorFault::Syntax { at: 0, expected: Expected::RootSelector })
    }
}

/// Whether `s` is a selector that yields matchers.
pub open spec fn is_valid_selector(s: Seq<char>) -> bool {
    selector_steps(s) is Ok
}

pub(crate) fn is_name_char_exec(c: char) -> (r: bool)
    ensures
        r == is_name_char(c),
{
    let n = c as u32;
    (48 <= n && n <= 57) || (65 <= n && n <= 90) || (97 <= n && n <= 122) || n == 95 || n >= 128
}

fn string_of(v: &Vec<char>) -> (r: String)
    ensures
        r@ == v@,
{
    let mut out = String::new();
    let mut k: usize = 0;
    while k < v.len()
        invariant
            k <= v@.len(),
            out@ == v@.subrange(0, k as int),
        decreases v@.len() - k,
    {
        push_char(&mut out, v[k]);
        k = k + 1;
        assert(out@ =~= v@.subrange(0, k as int));
    }
    assert(v@.subrange(0, k as int) =~= v@);
    out
}

proof fn lemma_after_cons(done: Seq<MatcherView>, m: MatcherView, r: Scan)
    ensures
        after_steps(done, cons_step(m, r)) == after_steps(done.push(m), r),
{
    if let Ok(ms) = r {
        assert(done + (seq![m] + ms) =~= done.push(m) + ms);
    }
}

proof fn lemma_views_push(ms: Seq<Matcher>, m: Matcher)
    ensures
        views_of(ms.push(m)) == views_of(ms).push(m@),
{
    assert(views_of(ms.push(m)) =~= views_of(ms).push(m@));
}

/// Reads the selector `s`, given as its characters, into its matchers.
pub fn scan_selector(s: &Vec<char>) -> (r: Result<Vec<Matcher>, SelectorFault>)
    requires
        s@.len() < usize::MAX,
    ensures
        r matches Ok(ms) ==> selector_steps(s@) == Ok::<Seq<MatcherView>, SelectorFault>(views_of(ms@)),
        r matches Err(e) ==> selector_steps(s@) == Err::<Seq<MatcherView>, SelectorFault>(e),
{
    if s.len() == 0 || s[0] != '$' {
        return Err(SelectorFault::Syntax { at: 0, expected: Expected::RootSelector });
    }
    let mut out: Vec<Matcher> = Vec::new();
    proof { lemma_views_push(out@, Matcher::Root); }
    out.push(Matcher::Root);
    proof {
        lemma_after_cons(Seq::empty(), MatcherView::Root, steps_from(s@, 1, Stage::Steps));
        assert(Seq::<MatcherView>::empty().push(MatcherView::Root) =~= views_of(out@));
        if let Ok(ms) = cons_step(MatcherView::Root, steps_from(s@, 1, Stage::Steps)) {
            assert(Seq::<MatcherView>::empty() + ms =~= ms);
        }
    }
    let mut i: usize = 1;
    let mut stage = Stage::Steps;
    let mut buf: Vec<char> = Vec::new();
    while i < s.len() || stage != Stage::Steps
        invariant
            i <= s@.len() < usize::MAX,
            after_steps(views_of(out@), steps_from(s@, i as int, stage)) == selector_steps(s@),
            match stage {
                Stage::Name { start } => start < i && buf@ == s@.subrange(start as int, i as int),
                Stage::Quoted { start, quote } => start <= i && buf@ == s@.subrange(start as int, i as int),
                _ => true,
            },
        decreases s@.len() - i, stage_rank(stage),
    {
        match stage {
            Stage::Steps => {
                if s[i] == '.' {
                    if i + 1 < s.len() && s[i + 1] == '*' {
                        proof {
                            lemma_views_push(out@, Matcher::WildcardChild);
                            lemma_after_cons(views_of(out@), MatcherView::WildcardChild,
                                steps_from(s@, i + 2, Stage::Steps));
                        }
                        out.push(Matcher::WildcardChild);
                        i = i + 2;
                    } else if i + 1 < s.len() && is_name_char_exec(s[i + 1]) {
                        buf = Vec::new();
                        buf.push(s[i + 1]);
                        assert(buf@ =~= s@.subrange(i + 1, i + 2));
                        stage = Stage::Name { start: i + 1 };
                        i = i + 2;
                    } else {
                        return Err(SelectorFault::Syntax { at: i + 1, expected: Expected::ChildName });
                    }
                } else if s[i] == '[' {
                    stage = Stage::UnionChild;
                    i = i + 1;
                } else {
                    return Err(SelectorFault::Syntax { at: i, expected: Expected::Matcher });
                }
            },
            Stage::Name { start } => {
                if i < s.len() && is_name_char_exec(s[i]) {
                    buf.push(s[i]);
                    assert(buf@ =~= s@.subrange(start as int, i + 1));
                    i = i + 1;
                } else {
                    let name = string_of(&buf);
                    proof {
                        lemma_views_push(out@, Matcher::NamedChild(name));
                        lemma_after_cons(views_of(out@), MatcherView::NamedChild(name@),
                            steps_from(s@, i as int, Stage::Steps));
                    }
                    out.push(Matcher::NamedChild(name));
                    stage = Stage::Steps;
                }
            },
            Stage::UnionChild => {
                if i < s.len() && (s[i] == '"' || s[i] == '\'') {
                    buf = Vec::new();
                    assert(buf@ =~= s@.subrange(i + 1, i + 1));
                    stage = Stage::Quoted { start: i + 1, quote: s[i] };
                    i = i + 1;
                } else {
                    return Err(SelectorFault::Syntax { at: i, expected: Expected::UnionChild });
                }
            },
            Stage::Quoted { start, quote } => {
                if i + 1 < s.len() && s[i] == '\\' {
                    buf.push(s[i]);
                    buf.push(s[i + 1]);
                    assert(buf@ =~= s@.subrange(start as int, i + 2));
                    i = i + 2;
                } else if i < s.len() && s[i] != '\\' && s[i] != quote {
                    buf.push(s[i]);
                    assert(buf@ =~= s@.subrange(start as int, i + 1));
                    i = i + 1;
                } else if i < s.len() && s[i] == quote {
                    match unescape_chars(&buf) {
                        Ok(name) => {
                            proof {
                                lemma_views_push(out@, Matcher::NamedChild(name));
                                lemma_after_cons(views_of(out@), MatcherView::NamedChild(name@),
                                    steps_from(s@, i + 1, Stage::UnionSeparator));
                            }
                            out.push(Matcher::NamedChild(name));
                            stage = Stage::UnionSeparator;
                            i = i + 1;
                        },
                        Err(e) => {
                            return Err(SelectorFault::Escape(e));
                        },
                    }
                } else {
                    return Err(SelectorFault::Syntax { at: s.len(), expected: Expected::ClosingQuote });
                }
            },
            Stage::UnionSeparator => {
                if i < s.len() && s[i] == ',' {
                    stage = Stage::UnionChild;
                    i = i + 1;
                } else if i < s.len() && s[i] == ']' {
                    stage = Stage::Steps;
                    i = i + 1;
                } else {
                    return Err(SelectorFault::Syntax { at: i, expected: Expected::UnionSeparator });
                }
            },
        }
    }
    assert(views_of(out@) + Seq::<MatcherView>::empty() =~= views_of(out@));
    Ok(out)
}

} // verus!
