use vstd::prelude::*;
use crate::escape::EscapeError;
use crate::grammar::{scan_selector, selector_steps, steps_from, Expected, SelectorFault, Stage};
use crate::matcher::{root_only_first, Path};
use crate::text::chars_of;

verus! {

/// Why a selector could not be parsed.
#[derive(Clone, Debug, PartialEq, Eq)]
pub enum ParseError {
    /// The selector does not conform to the grammar; the text is a
    /// positional report with line, column and what was expected.
    Syntax(String),
    /// A quoted name holds a malformed escape.
    Escape(EscapeError),
}

/// The report that pest renders for `message` at character index `at` of `input`.
pub uninterp spec fn pest_report(input: Seq<char>, at: nat, message: Seq<char>) -> Seq<char>;

/// Relies on pest's `Error::new_from_pos` with a `CustomError` variant, and on
/// its `Display`: the report depends on the input, the position and the message alone.
#[verifier::external_body]
fn render_report(input: &str, at: usize, message: String) -> (r: String)
    requires
        at <= input@.len(),
    ensures
        r@ == pest_report(input@, at as nat, message@),
{
    let byte = input.char_indices().nth(at).map_or(input.len(), |(b, _)| b);
    let pos = pest::Position::new(input, byte).unwrap_or_else(|| pest::Position::from_start(input));
    let variant = pest::error::ErrorVariant::<()>::CustomError { message };
    pest::error::Error::new_from_pos(variant, pos).to_string()
}

/// The words that say what was expected.
pub open spec fn expected_text(e: Expected) -> Seq<char> {
    match e {
        Expected::RootSelector => "expected rootSelector"@,
        Expected::Matcher => "expected matcher"@,
        Expected::ChildName => "expected childName"@,
        Expected::UnionChild => "expected unionChild"@,
        Expected::UnionSeparator => "expected `,` or `]`"@,
        Expected::ClosingQuote => "expected closing quote"@,
    }
}

/// The words that say what was expected.
pub fn expected_message(e: Expected) -> (r: String)
    ensures
        r@ == expected_text(e),
{
    match e {
        Expected::RootSelector => String::from_str("expected rootSelector"),
        Expected::Matcher => String::from_str("expected matcher"),
        Expected::ChildName => String::from_str("expected childName"),
        Expected::UnionChild => String::from_str("expected unionChild"),
        Expected::UnionSeparator => String::from_str("expected `,` or `]`"),
        Expected::ClosingQuote => String::from_str("expected closing quote"),
    }
}

/// Whether `r` is what parsing the selector `s` gives.
pub open spec fn parsed_as(s: Seq<char>, r: Result<Path, ParseError>) -> bool {
    match selector_steps(s) {
        Ok(ms) => r matches Ok(p) && p@ == ms,
        Err(SelectorFault::Syntax { at, expected }) => r matches Err(ParseError::Syntax(m))
            && m@ == pest_report(s, at as nat, expected_text(expected)),
        Err(SelectorFault::Escape(e)) => r matches Err(ParseError::Escape(f)) && f == e,
    }
}

/// Parses a selector into the path of its matchers; the whole selector
/// conforms or the result is an error.
pub fn parse(selector: &str) -> (r: Result<Path, ParseError>)
    requires
        selector@.len() < usize::MAX,
    ensures
        parsed_as(selector@, r),
{
    let s = chars_of(selector);
    match scan_selector(&s) {
        Ok(ms) => {
            proof { lemma_selector_shape(selector@); }
            Ok(Path::from_matchers(ms))
        },
        Err(SelectorFault::Syntax { at, expected }) => {
            proof { lemma_fault_position(selector@); }
            Err(ParseError::Syntax(render_report(selector, at, expected_message(expected))))
        },
        Err(SelectorFault::Escape(e)) => Err(ParseError::Escape(e)),
    }
}

proof fn lemma_steps_no_root(s: Seq<char>, i: int, stage: Stage)
    ensures
        steps_from(s, i, stage) matches Ok(ms) ==> forall|k: int| 0 <= k < ms.len() ==> !(#[trigger] ms[k] is Root),
        steps_from(s, i, stage) matches Err(SelectorFault::Syntax { at, .. }) ==> at <= s.len(),
    decreases s.len() - i, crate::grammar::stage_rank(stage),
{
    if i < 0 || i > s.len() {
    } else {
        match stage {
            Stage::Steps => if i == s.len() {
            } else if s[i] == '.' {
                if i + 1 < s.len() && s[i + 1] == '*' {
                    lemma_steps_no_root(s, i + 2, Stage::Steps);
                } else if i + 1 < s.len() && crate::grammar::is_name_char(s[i + 1]) {
                    lemma_steps_no_root(s, i + 2, Stage::Name { start: (i + 1) as usize });
                }
            } else if s[i] == '[' {
                lemma_steps_no_root(s, i + 1, Stage::UnionChild);
            },
            Stage::Name { start } => if i < s.len() && crate::grammar::is_name_char(s[i]) {
                lemma_steps_no_root(s, i + 1, stage);
            } else {
                lemma_steps_no_root(s, i, Stage::Steps);
            },
            Stage::UnionChild => if i < s.len() && (s[i] == '"' || s[i] == '\'') {
                lemma_steps_no_root(s, i + 1, Stage::Quoted { start: (i + 1) as usize, quote: s[i] });
            },
            Stage::Quoted { start, quote } => if i + 1 < s.len() && s[i] == '\\' {
                lemma_steps_no_root(s, i + 2, stage);
            } else if i < s.len() && s[i] != '\\' && s[i] != quote {
                lemma_steps_no_root(s, i + 1, stage);
            } else if i < s.len() && s[i] == quote {
                lemma_steps_no_root(s, i + 1, Stage::UnionSeparator);
            },
            Stage::UnionSeparator => if i < s.len() && s[i] == ',' {
                lemma_steps_no_root(s, i + 1, Stage::UnionChild);
            } else if i < s.len() && s[i] == ']' {
                lemma_steps_no_root(s, i + 1, Stage::Steps);
            },
        }
    }
}

proof fn lemma_fault_position(s: Seq<char>)
    ensures
        selector_steps(s) matches Err(SelectorFault::Syntax { at, .. }) ==> at <= s.len(),
{
    lemma_steps_no_root(s, 1, Stage::Steps);
}

/// Every selector that yields matchers starts with `$`, and its matchers
/// start with `Root`, which stands nowhere else.
pub proof fn lemma_selector_shape(s: Seq<char>)
    ensures
        selector_steps(s) matches Ok(ms) ==> {
            &&& s.len() > 0 && s[0] == '$'
            &&& ms.len() > 0 && ms[0] is Root
            &&& root_only_first(ms)
        },
{
    lemma_steps_no_root(s, 1, Stage::Steps);
    if let Ok(ms) = selector_steps(s) {
        if let Ok(rest) = steps_from(s, 1, Stage::Steps) {
            assert forall|k: int| 0 < k < ms.len() implies !(#[trigger] ms[k] is Root) by {
                assert(ms[k] == rest[k - 1]);
            }
        }
    }
}

} // verus!
