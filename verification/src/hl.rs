//! The syntax-highlighting collaborator: declarations and trusted wrappers
//! around syntect, which turns a line of text into styled segments.

use vstd::prelude::*;

verus! {

#[verifier::external_type_specification]
#[verifier::external_body]
pub struct ExSyntaxSet(syntect::parsing::SyntaxSet);

#[verifier::external_type_specification]
#[verifier::external_body]
pub struct ExSyntaxReference(syntect::parsing::SyntaxReference);

#[verifier::external_type_specification]
#[verifier::external_body]
pub struct ExTheme(syntect::highlighting::Theme);

#[verifier::external_type_specification]
#[verifier::external_body]
pub struct ExHighlightLines<'a>(syntect::easy::HighlightLines<'a>);

#[verifier::external_type_specification]
#[verifier::external_body]
pub struct ExSyntectError(syntect::Error);

/// One styled segment as the highlighter hands it back: its text, the
/// foreground color channels (alpha zero means "no explicit color"), and
/// syntect's font-style bits (bold 1, underline 2, italic 4).
pub struct RawSegment {
    pub text: String,
    pub red: u8,
    pub green: u8,
    pub blue: u8,
    pub alpha: u8,
    pub font: u8,
}

/// The concatenated text of a sequence of raw segments.
pub open spec fn segments_text(s: Seq<RawSegment>) -> Seq<char>
    decreases s.len(),
{
    if s.len() == 0 {
        Seq::empty()
    } else {
        segments_text(s.drop_last()) + s.last().text@
    }
}

/// Relies on `SyntaxSet::find_syntax_by_token`: looks a grammar up by an
/// extension or name token; `None` when the set has no match.
#[verifier::external_body]
pub(crate) fn syntax_for_token<'a>(ps: &'a syntect::parsing::SyntaxSet, token: &str) -> Option<
    &'a syntect::parsing::SyntaxReference,
> {
    ps.find_syntax_by_token(token)
}

/// Relies on `SyntaxSet::find_syntax_by_name` with the plain-text grammar's
/// name, the fallback grammar when no extension matches; `None` only when the
/// set was built without it.
#[verifier::external_body]
pub(crate) fn plain_text_syntax<'a>(ps: &'a syntect::parsing::SyntaxSet) -> Option<
    &'a syntect::parsing::SyntaxReference,
> {
    ps.find_syntax_by_name("Plain Text")
}

/// Relies on `HighlightLines::new`: prepares a stateful highlighter for one
/// file from a grammar and a theme.
#[verifier::external_body]
pub(crate) fn new_highlighter<'t>(
    syntax: &syntect::parsing::SyntaxReference,
    theme: &'t syntect::highlighting::Theme,
) -> syntect::easy::HighlightLines<'t> {
    syntect::easy::HighlightLines::new(syntax, theme)
}

/// Relies on `HighlightLines::highlight_line`: splits one line into styled
/// segments; its documentation states that the concatenation of the segment
/// texts is the input line. The styling itself depends on the highlighter's
/// state, so nothing is claimed of it.
#[verifier::external_body]
pub(crate) fn highlight_one_line(
    hl: &mut syntect::easy::HighlightLines,
    line: &str,
    ps: &syntect::parsing::SyntaxSet,
) -> (r: Result<Vec<RawSegment>, syntect::Error>)
    ensures
        r matches Ok(segs) ==> segments_text(segs@) == line@,
{
    match hl.highlight_line(line, ps) {
        Ok(v) => Ok(
            v.into_iter().map(
                |(st, tx): (syntect::highlighting::Style, &str)| RawSegment {
                    text: tx.to_string(),
                    red: st.foreground.r,
                    green: st.foreground.g,
                    blue: st.foreground.b,
                    alpha: st.foreground.a,
                    font: st.font_style.bits(),
                },
            ).collect(),
        ),
        Err(e) => Err(e),
    }
}

} // verus!
