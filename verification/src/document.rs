//! The combined document parser.
//!
//! A document is an optional `<style> ... </style>` block holding
//! stylesheet source, followed by a `<body> ...` block holding markup
//! source. The blocks are located by their literal open and close text, not
//! by general tag parsing: the style content is the run of characters up to
//! the next `<`, and the body is everything from `<body>` to the end of the
//! input. White space and comments may precede either block. A document
//! without a style block carries no rules; one whose style or body content
//! fails its own parser is rejected.

use vstd::prelude::*;
use crate::asml_parser::para_end;
use crate::asml_parser::skip_ws;
use crate::asml_parser::spec_para_end;
use crate::asml_parser::spec_parse_tag;
use crate::asml_parser::spec_trim;
use crate::asml_parser::spec_ws;
use crate::asml_parser::tag;
use crate::asml_parser::trim;
use crate::asml_parser::Element;
use crate::asml_parser::ElemV;
use crate::ass_parser::spec_stylesheet;
use crate::ass_parser::stylesheet;
use crate::ass_parser::Style;
use crate::ass_parser::StyleV;

verus! {

/// Why a document was rejected.
#[derive(Debug, PartialEq, Eq, Structural, Clone, Copy)]
pub enum DocError {
    /// The document shape itself is wrong: no parsable `<body>` block.
    Syntax,
    /// The style block's content is not a valid stylesheet.
    BadStyle,
    /// The body block's content is not a valid markup tag.
    BadBody,
}

/// Outcome of parsing a whole document, at the specification level.
#[verifier::ext_equal]
pub enum DocOutcome {
    Parsed(ElemV, Seq<StyleV>),
    Failed(DocError),
}

/// The literal `<style>` at `i`.
pub open spec fn spec_lit_style_open(s: Seq<char>, i: int) -> bool {
    0 <= i && i + 7 <= s.len() && s[i] == '<' && s[i + 1] == 's' && s[i + 2] == 't' && s[i + 3]
        == 'y' && s[i + 4] == 'l' && s[i + 5] == 'e' && s[i + 6] == '>'
}

/// The literal `</style>` at `i`.
pub open spec fn spec_lit_style_close(s: Seq<char>, i: int) -> bool {
    0 <= i && i + 8 <= s.len() && s[i] == '<' && s[i + 1] == '/' && s[i + 2] == 's' && s[i + 3]
        == 't' && s[i + 4] == 'y' && s[i + 5] == 'l' && s[i + 6] == 'e' && s[i + 7] == '>'
}

/// The literal `<body>` at `i`.
pub open spec fn spec_lit_body(s: Seq<char>, i: int) -> bool {
    0 <= i && i + 6 <= s.len() && s[i] == '<' && s[i + 1] == 'b' && s[i + 2] == 'o' && s[i + 3]
        == 'd' && s[i + 4] == 'y' && s[i + 5] == '>'
}

/// A style block at `i`: `<style>`, one or more non-`<` characters, and
/// `</style>`. Yields the content bounds and the position after the block.
pub open spec fn spec_style_block(s: Seq<char>, i: int) -> Option<(int, int, int)> {
    if spec_lit_style_open(s, i) {
        let e = spec_para_end(s, i + 7);
        if e > i + 7 && spec_lit_style_close(s, e) {
            Some((i + 7, e, e + 8))
        } else {
            None
        }
    } else {
        None
    }
}

/// The markup source a body block at `i` denotes: the literal `<body>`
/// re-attached to everything that follows it, which must be non-empty.
pub open spec fn spec_body_source(s: Seq<char>, i: int) -> Option<Seq<char>> {
    if spec_lit_body(s, i) && i + 6 < s.len() {
        Some(seq!['<', 'b', 'o', 'd', 'y', '>'] + s.subrange(i + 6, s.len() as int))
    } else {
        None
    }
}

/// What parsing a whole document yields: leading white space, an optional
/// style block, white space, then a body block running to the end of the
/// input. The style content (trimmed) must parse as a stylesheet and the
/// body source as a tag; a document without a style block carries an empty
/// rule list.
pub open spec fn spec_document(s: Seq<char>) -> DocOutcome {
    let p0 = spec_ws(s, 0);
    match spec_style_block(s, p0) {
        Some((a, b, p1)) => {
            let p2 = spec_ws(s, p1);
            match spec_body_source(s, p2) {
                None => DocOutcome::Failed(DocError::Syntax),
                Some(body_src) => match spec_stylesheet(spec_trim(s, a, b)) {
                    None => DocOutcome::Failed(DocError::BadStyle),
                    Some(styles) => match spec_parse_tag(body_src) {
                        None => DocOutcome::Failed(DocError::BadBody),
                        Some(e) => DocOutcome::Parsed(e, styles),
                    },
                },
            }
        },
        None => match spec_body_source(s, p0) {
            None => DocOutcome::Failed(DocError::Syntax),
            Some(body_src) => match spec_parse_tag(body_src) {
                None => DocOutcome::Failed(DocError::BadBody),
                Some(e) => DocOutcome::Parsed(e, Seq::empty()),
            },
        },
    }
}

fn lit_style_open(s: &str, i: usize) -> (r: bool)
    requires
        i <= s@.len(),
    ensures
        r == spec_lit_style_open(s@, i as int),
{
    let n = s.unicode_len();
    i < n && n - i >= 7 && s.get_char(i) == '<' && s.get_char(i + 1) == 's' && s.get_char(i + 2)
        == 't' && s.get_char(i + 3) == 'y' && s.get_char(i + 4) == 'l' && s.get_char(i + 5) == 'e'
        && s.get_char(i + 6) == '>'
}

fn lit_style_close(s: &str, i: usize) -> (r: bool)
    requires
        i <= s@.len(),
    ensures
        r == spec_lit_style_close(s@, i as int),
{
    let n = s.unicode_len();
    i < n && n - i >= 8 && s.get_char(i) == '<' && s.get_char(i + 1) == '/' && s.get_char(i + 2)
        == 's' && s.get_char(i + 3) == 't' && s.get_char(i + 4) == 'y' && s.get_char(i + 5) == 'l'
        && s.get_char(i + 6) == 'e' && s.get_char(i + 7) == '>'
}

fn lit_body(s: &str, i: usize) -> (r: bool)
    requires
        i <= s@.len(),
    ensures
        r == spec_lit_body(s@, i as int),
{
    let n = s.unicode_len();
    i < n && n - i >= 6 && s.get_char(i) == '<' && s.get_char(i + 1) == 'b' && s.get_char(i + 2)
        == 'o' && s.get_char(i + 3) == 'd' && s.get_char(i + 4) == 'y' && s.get_char(i + 5) == '>'
}

/// Assembles the markup source of a body block at `i`, if one is there.
fn body_source(s: &str, i: usize) -> (r: Option<String>)
    requires
        i <= s@.len(),
    ensures
        match r {
            Some(src) => spec_body_source(s@, i as int) == Some(src@),
            None => spec_body_source(s@, i as int) is None,
        },
{
    let n = s.unicode_len();
    if lit_body(s, i) && i + 6 < n {
        let mut src = String::from_str("<body>");
        proof {
            reveal_strlit("<body>");
            assert(src@ =~= seq!['<', 'b', 'o', 'd', 'y', '>']);
        }
        src.append(s.substring_char(i + 6, n));
        proof {
            assert(src@ =~= seq!['<', 'b', 'o', 'd', 'y', '>'] + s@.subrange(
                i + 6,
                s@.len() as int,
            ));
        }
        Some(src)
    } else {
        None
    }
}

/// Parses a whole document into its markup tree and its style rules.
///
/// Returns `Ok` exactly on documents whose body parses and whose style
/// block, when one is present, parses too; each failure names what was
/// wrong.
#[verifier::rlimit(50)]
pub fn parse_document(s: &str) -> (r: Result<(Element, Vec<Style>), DocError>)
    ensures
        match r {
            Ok((e, styles)) => spec_document(s@) == DocOutcome::Parsed(
                e.deep_view(),
                styles.deep_view(),
            ) && crate::asml_parser::spec_size(e.deep_view()) <= s@.len(),
            Err(err) => spec_document(s@) == DocOutcome::Failed(err),
        },
{
    // Learning the character count bounds every position that follows.
    let _n = s.unicode_len();
    let p0 = skip_ws(s, 0);
    if lit_style_open(s, p0) {
        let e = para_end(s, p0 + 7);
        if e > p0 + 7 && lit_style_close(s, e) {
            let a = p0 + 7;
            let p1 = e + 8;
            let p2 = skip_ws(s, p1);
            match body_source(s, p2) {
                None => Err(DocError::Syntax),
                Some(body_src) => {
                    let content = trim(s, a, e);
                    match stylesheet(content.as_str()) {
                        Err(_) => Err(DocError::BadStyle),
                        Ok(styles) => match tag(body_src.as_str()) {
                            Err(_) => Err(DocError::BadBody),
                            Ok(elem) => Ok((elem, styles)),
                        },
                    }
                },
            }
        } else {
            // The style block never closes: a `<style>` still standing at
            // the next `<` cannot open a body block either.
            parse_bare_body(s, p0)
        }
    } else {
        parse_bare_body(s, p0)
    }
}

/// Parses the body block of a document that has no style block; the rule
/// list comes back empty.
fn parse_bare_body(s: &str, p0: usize) -> (r: Result<(Element, Vec<Style>), DocError>)
    requires
        p0 <= s@.len(),
    ensures
        match r {
            Ok((e, styles)) => spec_body_source(s@, p0 as int) is Some && spec_parse_tag(
                spec_body_source(s@, p0 as int)->Some_0,
            ) == Some(e.deep_view()) && styles.deep_view() =~= Seq::<StyleV>::empty()
                && crate::asml_parser::spec_size(e.deep_view()) <= s@.len(),
            Err(DocError::Syntax) => spec_body_source(s@, p0 as int) is None,
            Err(DocError::BadBody) => spec_body_source(s@, p0 as int) is Some && spec_parse_tag(
                spec_body_source(s@, p0 as int)->Some_0,
            ) is None,
            Err(_) => false,
        },
{
    let _n = s.unicode_len();
    match body_source(s, p0) {
        None => Err(DocError::Syntax),
        Some(body_src) => match tag(body_src.as_str()) {
            Err(_) => Err(DocError::BadBody),
            Ok(elem) => {
                let styles: Vec<Style> = Vec::new();
                proof {
                    assert(styles.deep_view() =~= Seq::<StyleV>::empty());
                }
                Ok((elem, styles))
            },
        },
    }
}

} // verus!
