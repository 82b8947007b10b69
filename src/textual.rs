use vstd::prelude::*;
use crate::escape::{decode, decode_from, short_escape};
use crate::grammar::{cons_step, is_name_char, is_name_char_exec, selector_steps, steps_from, Stage};
use crate::matcher::{views_of, Matcher, MatcherView};
use crate::text::{chars_of, push_char};

verus! {

/// A name that can be written after a dot: one or more name characters.
pub open spec fn is_bare_name(n: Seq<char>) -> bool {
    n.len() > 0 && forall|k: int| 0 <= k < n.len() ==> is_name_char(#[trigger] n[k])
}

/// One character inside double quotes: `"` and `\` take a backslash.
pub open spec fn quoted_char(c: char) -> Seq<char> {
    if c == '"' || c == '\\' { seq!['\\', c] } else { seq![c] }
}

/// The characters of `n` as they stand between double quotes.
pub open spec fn quoted_text(n: Seq<char>) -> Seq<char>
    decreases n.len(),
{
    if n.len() == 0 { Seq::empty() } else { quoted_text(n.drop_last()) + quoted_char(n.last()) }
}

/// How one matcher is written: `$`, `.*`, `.name`, or `["name"]` for a
/// name that is not bare.
pub open spec fn piece(m: MatcherView) -> Seq<char> {
    match m {
        MatcherView::Root => seq!['$'],
        MatcherView::WildcardChild => seq!['.', '*'],
        MatcherView::NamedChild(n) => if is_bare_name(n) {
            seq!['.'] + n
        } else {
            seq!['[', '"'] + quoted_text(n) + seq!['"', ']']
        },
    }
}

/// The textual form of a sequence of matchers.
pub open spec fn selector_text(ms: Seq<MatcherView>) -> Seq<char>
    decreases ms.len(),
{
    if ms.len() == 0 { Seq::empty() } else { selector_text(ms.drop_last()) + piece(ms.last()) }
}

proof fn lemma_text_front(m: MatcherView, r: Seq<MatcherView>)
    ensures
        selector_text(seq![m] + r) == piece(m) + selector_text(r),
    decreases r.len(),
{
    let x = seq![m] + r;
    assert(selector_text(x) == selector_text(x.drop_last()) + piece(x.last()));
    if r.len() == 0 {
        assert(x.drop_last() =~= Seq::<MatcherView>::empty());
        assert(x.last() == m);
        assert(selector_text(r) == Seq::<char>::empty());
        assert(selector_text(x.drop_last()) == Seq::<char>::empty());
        assert(piece(m) + Seq::<char>::empty() =~= piece(m));
        assert(Seq::<char>::empty() + piece(m) =~= piece(m));
    } else {
        assert(x.drop_last() =~= seq![m] + r.drop_last());
        assert(x.last() == r.last());
        lemma_text_front(m, r.drop_last());
        assert(selector_text(r) == selector_text(r.drop_last()) + piece(r.last()));
        assert(piece(m) + selector_text(r.drop_last()) + piece(r.last())
            =~= piece(m) + (selector_text(r.drop_last()) + piece(r.last())));
    }
}

proof fn lemma_quoted_front(c: char, n: Seq<char>)
    ensures
        quoted_text(seq![c] + n) == quoted_char(c) + quoted_text(n),
    decreases n.len(),
{
    let x = seq![c] + n;
    assert(quoted_text(x) == quoted_text(x.drop_last()) + quoted_char(x.last()));
    if n.len() == 0 {
        assert(x.drop_last() =~= Seq::<char>::empty());
        assert(x.last() == c);
        assert(quoted_text(n) == Seq::<char>::empty());
        assert(quoted_text(x.drop_last()) == Seq::<char>::empty());
        assert(Seq::<char>::empty() + quoted_char(c) =~= quoted_char(c) + Seq::<char>::empty());
    } else {
        assert(x.drop_last() =~= seq![c] + n.drop_last());
        assert(x.last() == n.last());
        lemma_quoted_front(c, n.drop_last());
        assert(quoted_text(n) == quoted_text(n.drop_last()) + quoted_char(n.last()));
        assert(quoted_char(c) + quoted_text(n.drop_last()) + quoted_char(n.last())
            =~= quoted_char(c) + (quoted_text(n.drop_last()) + quoted_char(n.last())));
    }
}

proof fn lemma_decode_shift(p: Seq<char>, q: Seq<char>, j: int)
    requires
        0 <= j,
        decode_from(q, j) is Ok,
    ensures
        decode_from(p + q, p.len() + j) == decode_from(q, j),
    decreases q.len() - j,
{
    let s = p + q;
    let i = p.len() + j;
    if j >= q.len() {
    } else {
        assert(s[i] == q[j]);
        if q[j] != '\\' {
            lemma_decode_shift(p, q, j + 1);
        } else if j + 1 >= q.len() {
        } else {
            assert(s[i + 1] == q[j + 1]);
            if q[j + 1] == 'u' {
                if j + 6 <= q.len() {
                    assert(s[i + 2] == q[j + 2] && s[i + 3] == q[j + 3]);
                    assert(s[i + 4] == q[j + 4] && s[i + 5] == q[j + 5]);
                    lemma_decode_shift(p, q, j + 6);
                }
            } else {
                lemma_decode_shift(p, q, j + 2);
            }
        }
    }
}

proof fn lemma_decode_quoted(n: Seq<char>)
    ensures
        decode(quoted_text(n)) == Ok::<Seq<char>, crate::escape::EscapeError>(n),
    decreases n.len(),
{
    if n.len() == 0 {
        assert(n =~= Seq::<char>::empty());
        assert(quoted_text(n) == Seq::<char>::empty());
        assert(decode_from(quoted_text(n), 0) == Ok::<Seq<char>, crate::escape::EscapeError>(Seq::empty()));
    } else {
        let c = n[0];
        let rest = n.drop_first();
        assert(n =~= seq![c] + rest);
        lemma_quoted_front(c, rest);
        lemma_decode_quoted(rest);
        let e = quoted_text(n);
        let q = quoted_text(rest);
        assert(e == quoted_char(c) + q);
        lemma_decode_shift(quoted_char(c), q, 0);
        if c == '"' || c == '\\' {
            assert(quoted_char(c).len() == 2);
            assert(e[0] == '\\' && e[1] == c);
            assert(short_escape(c) == Some(c));
            assert(decode_from(e, 0) == crate::escape::cons_ok(c, decode_from(e, 2)));
            assert(decode_from(e, 2) == Ok::<Seq<char>, crate::escape::EscapeError>(rest));
        } else {
            assert(quoted_char(c).len() == 1);
            assert(e[0] == c);
            assert(decode_from(e, 0) == crate::escape::cons_ok(c, decode_from(e, 1)));
            assert(decode_from(e, 1) == Ok::<Seq<char>, crate::escape::EscapeError>(rest));
        }
        assert(seq![c] + rest =~= n);
    }
}

proof fn lemma_quoted_walk(s: Seq<char>, k: int, n: Seq<char>, start: usize)
    requires
        0 <= k,
        k + quoted_text(n).len() < s.len(),
        s.subrange(k, k + quoted_text(n).len()) == quoted_text(n),
        s[k + quoted_text(n).len()] == '"',
    ensures
        steps_from(s, k, Stage::Quoted { start, quote: '"' })
            == steps_from(s, k + quoted_text(n).len(), Stage::Quoted { start, quote: '"' }),
    decreases n.len(),
{
    if n.len() == 0 {
    } else {
        let c = n[0];
        let rest = n.drop_first();
        assert(n =~= seq![c] + rest);
        lemma_quoted_front(c, rest);
        let w = quoted_char(c).len();
        let e = quoted_text(n);
        assert(s[k] == e[0]);
        assert(s.subrange(k + w, k + w + quoted_text(rest).len()) =~= quoted_text(rest)) by {
            assert forall|t: int| 0 <= t < quoted_text(rest).len()
                implies s[k + w + t] == quoted_text(rest)[t] by {
                assert(s[k + w + t] == e[w + t]);
            }
        }
        if c == '"' || c == '\\' {
            lemma_quoted_walk(s, k + 2, rest, start);
        } else {
            lemma_quoted_walk(s, k + 1, rest, start);
        }
    }
}

proof fn lemma_name_walk(s: Seq<char>, k: int, j: int, start: usize)
    requires
        start < k <= j <= s.len(),
        forall|t: int| k <= t < j ==> is_name_char(#[trigger] s[t]),
    ensures
        steps_from(s, k, Stage::Name { start }) == steps_from(s, j, Stage::Name { start }),
    decreases j - k,
{
    if k < j {
        lemma_name_walk(s, k + 1, j, start);
    }
}

proof fn lemma_bare_step(s: Seq<char>, i: int, m: MatcherView, n: Seq<char>)
    requires
        0 < i,
        i + piece(m).len() <= s.len() <= usize::MAX,
        forall|x: int| 0 <= x < piece(m).len() ==> s[i + x] == #[trigger] piece(m)[x],
        i + piece(m).len() == s.len() || !is_name_char(s[i + piece(m).len()]),
        m == MatcherView::NamedChild(n),
        is_bare_name(n),
    ensures
        steps_from(s, i, Stage::Steps) == cons_step(m, steps_from(s, i + piece(m).len(), Stage::Steps)),
{
    let pm = piece(m);
    let j = i + pm.len();
        assert(pm == seq!['.'] + n);
        assert(pm[0] == '.' && pm[1] == n[0]);
        assert(s[i] == '.');
        assert(s[i + 1] == n[0]);
        assert(is_name_char(n[0]));
        assert(code_of_is('*', 42));
        assert forall|x: int| i + 2 <= x < j implies is_name_char(#[trigger] s[x]) by {
            assert(s[x] == pm[x - i]);
            assert(pm[x - i] == n[x - i - 1]);
        }
        lemma_name_walk(s, i + 2, j, (i + 1) as usize);
        assert(steps_from(s, i, Stage::Steps) == steps_from(s, i + 2, Stage::Name { start: (i + 1) as usize }));
        assert(steps_from(s, j, Stage::Name { start: (i + 1) as usize })
            == cons_step(MatcherView::NamedChild(s.subrange(i + 1, j)), steps_from(s, j, Stage::Steps)));
        assert(s.subrange(i + 1, j) =~= n) by {
            assert forall|x: int| 0 <= x < n.len() implies s.subrange(i + 1, j)[x] == n[x] by {
                assert(s[i + 1 + x] == pm[1 + x]);
            }
        }
}

proof fn lemma_quoted_step(s: Seq<char>, i: int, m: MatcherView, n: Seq<char>)
    requires
        0 < i,
        i + piece(m).len() <= s.len() <= usize::MAX,
        forall|x: int| 0 <= x < piece(m).len() ==> s[i + x] == #[trigger] piece(m)[x],
        i + piece(m).len() == s.len() || !is_name_char(s[i + piece(m).len()]),
        m == MatcherView::NamedChild(n),
        !is_bare_name(n),
    ensures
        steps_from(s, i, Stage::Steps) == cons_step(m, steps_from(s, i + piece(m).len(), Stage::Steps)),
{
    let pm = piece(m);
    let j = i + pm.len();
        let q = quoted_text(n);
        let e = i + 2 + q.len();
        assert(pm == seq!['[', '"'] + q + seq!['"', ']']);
        assert(pm[0] == '[' && pm[1] == '"' && pm[2 + q.len() as int] == '"' && pm[3 + q.len() as int] == ']');
        assert(s[i] == '[' && s[i + 1] == '"');
        assert(s[e] == pm[e - i] && s[e + 1] == pm[e + 1 - i]);
        assert(s[e] == '"' && s[e + 1] == ']');
        assert(s.subrange(i + 2, e) =~= q) by {
            assert forall|x: int| 0 <= x < q.len() implies s.subrange(i + 2, e)[x] == q[x] by {
                assert(s[i + 2 + x] == pm[2 + x]);
            }
        }
        lemma_quoted_walk(s, i + 2, n, (i + 2) as usize);
        lemma_decode_quoted(n);
        assert(e + 2 == j);
        assert(steps_from(s, i, Stage::Steps) == steps_from(s, i + 1, Stage::UnionChild));
        assert(steps_from(s, i + 1, Stage::UnionChild)
            == steps_from(s, i + 2, Stage::Quoted { start: (i + 2) as usize, quote: '"' }));
        assert(steps_from(s, e, Stage::Quoted { start: (i + 2) as usize, quote: '"' })
            == cons_step(m, steps_from(s, e + 1, Stage::UnionSeparator)));
        assert(steps_from(s, e + 1, Stage::UnionSeparator) == steps_from(s, j, Stage::Steps));
}

proof fn lemma_piece_step(s: Seq<char>, i: int, m: MatcherView)
    requires
        0 < i,
        i + piece(m).len() <= s.len() <= usize::MAX,
        forall|x: int| 0 <= x < piece(m).len() ==> s[i + x] == #[trigger] piece(m)[x],
        i + piece(m).len() == s.len() || !is_name_char(s[i + piece(m).len()]),
        !(m is Root),
    ensures
        steps_from(s, i, Stage::Steps) == cons_step(m, steps_from(s, i + piece(m).len(), Stage::Steps)),
{
    let pm = piece(m);
    match m {
        MatcherView::Root => {},
        MatcherView::WildcardChild => {
            assert(pm[0] == '.' && pm[1] == '*');
            assert(s[i] == '.' && s[i + 1] == '*');
        },
        MatcherView::NamedChild(n) => {
            if is_bare_name(n) {
                lemma_bare_step(s, i, m, n);
            } else {
                lemma_quoted_step(s, i, m, n);
            }
        },
    }
}

proof fn lemma_steps_of_text(s: Seq<char>, i: int, r: Seq<MatcherView>)
    requires
        0 < i <= s.len() <= usize::MAX,
        s.subrange(i, s.len() as int) == selector_text(r),
        forall|k: int| 0 <= k < r.len() ==> !(#[trigger] r[k] is Root),
    ensures
        steps_from(s, i, Stage::Steps) == Ok::<Seq<MatcherView>, crate::grammar::SelectorFault>(r),
    decreases r.len(),
{
    if r.len() == 0 {
        assert(s.subrange(i, s.len() as int).len() == 0);
        assert(i == s.len());
        assert(r =~= Seq::<MatcherView>::empty());
        assert(steps_from(s, i, Stage::Steps) == Ok::<Seq<MatcherView>, crate::grammar::SelectorFault>(Seq::empty()));
    } else {
        let m = r[0];
        let rest = r.drop_first();
        assert(r =~= seq![m] + rest);
        lemma_text_front(m, rest);
        let pm = piece(m);
        let j = i + pm.len();
        let t = s.subrange(i, s.len() as int);
        assert(t == pm + selector_text(rest));
        assert(t.len() == s.len() - i);
        assert(forall|x: int| 0 <= x < pm.len() ==> s[i + x] == #[trigger] pm[x]) by {
            assert forall|x: int| 0 <= x < pm.len() implies s[i + x] == #[trigger] pm[x] by {
                assert(t[x] == s[i + x]);
            }
        }
        assert(s.subrange(j, s.len() as int) =~= selector_text(rest)) by {
            assert forall|x: int| 0 <= x < selector_text(rest).len()
                implies s[j + x] == #[trigger] selector_text(rest)[x] by {
                assert(t[pm.len() + x] == s[j + x]);
            }
        }
        assert forall|k: int| 0 <= k < rest.len() implies !(#[trigger] rest[k] is Root) by {
            assert(rest[k] == r[k + 1]);
        }
        lemma_steps_of_text(s, j, rest);
        assert(j == s.len() || !is_name_char(s[j])) by {
            if j < s.len() {
                let m2 = rest[0];
                assert(rest =~= seq![m2] + rest.drop_first());
                lemma_text_front(m2, rest.drop_first());
                assert(s[j] == selector_text(rest)[0]);
                assert(s[j] == piece(m2)[0]);
                assert(!(m2 is Root));
                assert(code_of_is('.', 46) && code_of_is('[', 91));
            }
        }
        lemma_piece_step(s, i, m);
        assert(seq![m] + rest =~= r);
    }
}

spec fn code_of_is(c: char, n: int) -> bool {
    crate::escape::code_of(c) == n
}

/// Parsing the textual form of a matcher sequence that starts with `Root`,
/// and holds it nowhere else, gives back that same sequence.
pub proof fn lemma_text_round_trip(ms: Seq<MatcherView>)
    requires
        ms.len() > 0,
        ms[0] is Root,
        selector_text(ms).len() <= usize::MAX,
        forall|k: int| 0 < k < ms.len() ==> !(#[trigger] ms[k] is Root),
    ensures
        selector_steps(selector_text(ms)) == Ok::<Seq<MatcherView>, crate::grammar::SelectorFault>(ms),
{
    let rest = ms.drop_first();
    assert(ms =~= seq![MatcherView::Root] + rest);
    lemma_text_front(MatcherView::Root, rest);
    let s = selector_text(ms);
    assert(s[0] == '$');
    assert(s.subrange(1, s.len() as int) =~= selector_text(rest));
    assert forall|k: int| 0 <= k < rest.len() implies !(#[trigger] rest[k] is Root) by {
        assert(rest[k] == ms[k + 1]);
    }
    lemma_steps_of_text(s, 1, rest);
    assert(seq![MatcherView::Root] + rest =~= ms);
}

fn is_bare_name_exec(n: &Vec<char>) -> (r: bool)
    ensures
        r == is_bare_name(n@),
{
    if n.len() == 0 {
        return false;
    }
    let mut k: usize = 0;
    while k < n.len()
        invariant
            k <= n@.len(),
            forall|x: int| 0 <= x < k ==> is_name_char(#[trigger] n@[x]),
        decreases n@.len() - k,
    {
        if !is_name_char_exec(n[k]) {
            return false;
        }
        k = k + 1;
    }
    true
}

fn push_quoted(out: &mut String, n: &Vec<char>)
    ensures
        final(out)@ == old(out)@ + quoted_text(n@),
{
    let ghost start = out@;
    let mut k: usize = 0;
    while k < n.len()
        invariant
            k <= n@.len(),
            out@ == start + quoted_text(n@.take(k as int)),
        decreases n@.len() - k,
    {
        let c = n[k];
        assert(n@.take(k + 1).drop_last() =~= n@.take(k as int));
        if c == '"' || c == '\\' {
            push_char(out, '\\');
            push_char(out, c);
        } else {
            push_char(out, c);
        }
        k = k + 1;
        assert(out@ =~= start + quoted_text(n@.take(k as int)));
    }
    assert(n@.take(k as int) =~= n@);
}

fn push_piece(out: &mut String, m: &Matcher)
    ensures
        final(out)@ == old(out)@ + piece(m@),
{
    match m {
        Matcher::Root => {
            push_char(out, '$');
            assert(out@ =~= old(out)@ + piece(m@));
        },
        Matcher::WildcardChild => {
            push_char(out, '.');
            push_char(out, '*');
            assert(out@ =~= old(out)@ + piece(m@));
        },
        Matcher::NamedChild(name) => {
            let n = chars_of(name.as_str());
            if is_bare_name_exec(&n) {
                push_char(out, '.');
                let mut k: usize = 0;
                while k < n.len()
                    invariant
                        k <= n@.len(),
                        n@ == name@,
                        out@ == old(out)@ + seq!['.'] + n@.take(k as int),
                    decreases n@.len() - k,
                {
                    push_char(out, n[k]);
                    k = k + 1;
                    assert(out@ =~= old(out)@ + seq!['.'] + n@.take(k as int));
                }
                assert(n@.take(k as int) =~= n@);
                assert(out@ =~= old(out)@ + piece(m@));
            } else {
                push_char(out, '[');
                push_char(out, '"');
                push_quoted(out, &n);
                push_char(out, '"');
                push_char(out, ']');
                assert(out@ =~= old(out)@ + piece(m@));
            }
        },
    }
}

/// The textual form of `ms`: `$` for `Root`, `.*` for a wildcard, `.name`
/// for a bare name and `["name"]`, with `"` and `\` escaped, for any other.
pub fn text_of_matchers(ms: &[Matcher]) -> (r: String)
    ensures
        r@ == selector_text(views_of(ms@)),
{
    let mut out = String::new();
    let mut k: usize = 0;
    while k < ms.len()
        invariant
            k <= ms@.len(),
            out@ == selector_text(views_of(ms@.take(k as int))),
        decreases ms@.len() - k,
    {
        let ghost before = ms@.take(k as int);
        push_piece(&mut out, &ms[k]);
        k = k + 1;
        proof {
            let now = views_of(ms@.take(k as int));
            assert(now.drop_last() =~= views_of(before));
            assert(now.last() == ms@[k - 1]@);
        }
    }
    assert(ms@.take(k as int) =~= ms@);
    out
}

} // verus!
