//! Parser for the structural markup language.
//!
//! A document is a tree of elements: a tag carries a list of traits
//! (style-rule references with optional arguments) and child elements, and a
//! text run is a leaf. The grammar, with ordered choice and greedy
//! repetition:
//!
//! ```text
//! comment    = "<#" (!"#>" any)* "#>"
//! ws         = (space+ | comment)+            space = Unicode whitespace
//! word       = ['a'..'z' | '_' | '0'..'9']+
//! word_extra = (any but '<' '>' '(' ')' or space)+
//! paragraph  = (any but '<')+                 (trimmed of surrounding space)
//! args       = "(" ws* word_extra ** ws ws* ")"
//! trait      = word args?
//! tag        = paragraph
//!            | ws* "<" ws* trait ** ws ws* "/>" ws*
//!            | ws* "<" ws* trait ** ws ws* ">" ws* tag* "</" word ws* ">" ws*
//! ```
//!
//! In the third alternative the closing word must equal the name of the
//! first trait, or the parse fails. The whole input must be consumed.
//!
//! The executable parser is verified against a specification-level parser
//! (`spec_tag` and friends) that states the grammar directly over
//! `Seq<char>`.

use vstd::prelude::*;

verus! {

/// A reference to zero-or-more style rules by name, with positional
/// string arguments.
#[derive(Debug, PartialEq)]
pub struct Trait {
    pub name: String,
    pub args: Vec<String>,
}

/// A markup AST node: a text leaf or a tag with traits and children.
#[derive(Debug, PartialEq)]
pub enum Element {
    Text(String),
    Tag { traits: Vec<Trait>, children: Vec<Element> },
}

/// Mathematical model of a `Trait`.
#[verifier::ext_equal]
pub struct TraitV {
    pub name: Seq<char>,
    pub args: Seq<Seq<char>>,
}

/// Mathematical model of an `Element`.
#[verifier::ext_equal]
pub enum ElemV {
    Text(Seq<char>),
    Tag { traits: Seq<TraitV>, children: Seq<ElemV> },
}

impl DeepView for Trait {
    type V = TraitV;

    open spec fn deep_view(&self) -> TraitV {
        TraitV { name: self.name@, args: self.args.deep_view() }
    }
}

impl DeepView for Element {
    type V = ElemV;

    open spec fn deep_view(&self) -> ElemV
        decreases self,
    {
        match self {
            Element::Text(s) => ElemV::Text(s@),
            Element::Tag { traits, children } => ElemV::Tag {
                traits: traits.deep_view(),
                children: Seq::new(
                    children.len() as nat,
                    |i: int|
                        if 0 <= i < children.len() {
                            children[i].deep_view()
                        } else {
                            ElemV::Text(Seq::empty())
                        },
                ),
            },
        }
    }
}

/// The Unicode white-space characters, as `char::is_whitespace` accepts them.
pub open spec fn is_space(c: char) -> bool {
    let u = c as u32;
    u == 0x9 || u == 0xA || u == 0xB || u == 0xC || u == 0xD || u == 0x20 || u == 0x85
        || u == 0xA0 || u == 0x1680 || (0x2000 <= u && u <= 0x200A) || u == 0x2028 || u == 0x2029
        || u == 0x202F || u == 0x205F || u == 0x3000
}

/// Characters a rule or attribute name is made of.
pub open spec fn is_word_char(c: char) -> bool {
    let u = c as u32;
    ('a' as u32 <= u && u <= 'z' as u32) || c == '_' || ('0' as u32 <= u && u <= '9' as u32)
}

/// Characters a trait argument is made of: anything but the four
/// structural characters and white space.
pub open spec fn is_word_extra_char(c: char) -> bool {
    c != '<' && c != '>' && c != '(' && c != ')' && !is_space(c)
}

pub fn is_space_char(c: char) -> (b: bool)
    ensures
        b == is_space(c),
{
    let u = c as u32;
    u == 0x9 || u == 0xA || u == 0xB || u == 0xC || u == 0xD || u == 0x20 || u == 0x85
        || u == 0xA0 || u == 0x1680 || (0x2000 <= u && u <= 0x200A) || u == 0x2028 || u == 0x2029
        || u == 0x202F || u == 0x205F || u == 0x3000
}

pub fn is_word_char_exec(c: char) -> (b: bool)
    ensures
        b == is_word_char(c),
{
    let u = c as u32;
    ('a' as u32 <= u && u <= 'z' as u32) || c == '_' || ('0' as u32 <= u && u <= '9' as u32)
}

pub fn is_word_extra_char_exec(c: char) -> (b: bool)
    ensures
        b == is_word_extra_char(c),
{
    c != '<' && c != '>' && c != '(' && c != ')' && !is_space_char(c)
}

/// End of the maximal run of white-space characters starting at `i`.
pub open spec fn spec_space_run(s: Seq<char>, i: int) -> int
    decreases s.len() - i,
{
    if 0 <= i && i < s.len() && is_space(s[i]) {
        spec_space_run(s, i + 1)
    } else {
        i
    }
}

pub(crate) fn space_run(s: &str, i: usize) -> (r: usize)
    requires
        i <= s@.len(),
    ensures
        r == spec_space_run(s@, i as int),
        i <= r <= s@.len(),
        i < s@.len() && is_space(s@[i as int]) ==> i < r,
    decreases s@.len() - i,
{
    let n = s.unicode_len();
    if i < n && is_space_char(s.get_char(i)) {
        space_run(s, i + 1)
    } else {
        i
    }
}

/// End of the comment body scan `(!"#>" any)*` starting at `i`: stops at
/// the first occurrence of `#>` or at the end of input.
pub open spec fn spec_comment_scan(s: Seq<char>, i: int) -> int
    decreases s.len() - i,
{
    if 0 <= i && i < s.len() && !(i + 1 < s.len() && s[i] == '#' && s[i + 1] == '>') {
        spec_comment_scan(s, i + 1)
    } else {
        i
    }
}

fn comment_scan(s: &str, i: usize) -> (r: usize)
    requires
        i <= s@.len(),
    ensures
        r == spec_comment_scan(s@, i as int),
        i <= r <= s@.len(),
    decreases s@.len() - i,
{
    let n = s.unicode_len();
    if i < n && !(i + 1 < n && s.get_char(i) == '#' && s.get_char(i + 1) == '>') {
        comment_scan(s, i + 1)
    } else {
        i
    }
}

/// A comment `<# ... #>` starting exactly at `i`; yields the position
/// after the closing `#>`.
pub open spec fn spec_comment(s: Seq<char>, i: int) -> Option<int> {
    if 0 <= i && i + 1 < s.len() && s[i] == '<' && s[i + 1] == '#' {
        let e = spec_comment_scan(s, i + 2);
        if e + 1 < s.len() && s[e] == '#' && s[e + 1] == '>' {
            Some(e + 2)
        } else {
            None
        }
    } else {
        None
    }
}

fn comment(s: &str, i: usize) -> (r: Option<usize>)
    requires
        i <= s@.len(),
    ensures
        match r {
            Some(j) => spec_comment(s@, i as int) == Some(j as int) && i < j <= s@.len(),
            None => spec_comment(s@, i as int) is None,
        },
{
    let n = s.unicode_len();
    if i < n && i + 1 < n && s.get_char(i) == '<' && s.get_char(i + 1) == '#' {
        let e = comment_scan(s, i + 2);
        if e < n && e + 1 < n && s.get_char(e) == '#' && s.get_char(e + 1) == '>' {
            Some(e + 2)
        } else {
            None
        }
    } else {
        None
    }
}

/// Greedy skip of `(space+ | comment)*` starting at `i`.
pub open spec fn spec_ws(s: Seq<char>, i: int) -> int
    decreases s.len() - i,
{
    if 0 <= i && i < s.len() && is_space(s[i]) {
        let j = spec_space_run(s, i);
        if i < j <= s.len() {
            spec_ws(s, j)
        } else {
            i
        }
    } else {
        match spec_comment(s, i) {
            Some(j) => if i < j <= s.len() {
                spec_ws(s, j)
            } else {
                i
            },
            None => i,
        }
    }
}

pub(crate) fn skip_ws(s: &str, i: usize) -> (r: usize)
    requires
        i <= s@.len(),
    ensures
        r == spec_ws(s@, i as int),
        i <= r <= s@.len(),
    decreases s@.len() - i,
{
    let n = s.unicode_len();
    if i < n && is_space_char(s.get_char(i)) {
        let j = space_run(s, i);
        skip_ws(s, j)
    } else {
        match comment(s, i) {
            Some(j) => skip_ws(s, j),
            None => i,
        }
    }
}

/// One-or-more white space, as the grammar's `ws` separator demands.
pub open spec fn spec_ws1(s: Seq<char>, i: int) -> Option<int> {
    let j = spec_ws(s, i);
    if j > i {
        Some(j)
    } else {
        None
    }
}

/// End of the maximal run of word characters starting at `i`.
pub open spec fn spec_word_end(s: Seq<char>, i: int) -> int
    decreases s.len() - i,
{
    if 0 <= i && i < s.len() && is_word_char(s[i]) {
        spec_word_end(s, i + 1)
    } else {
        i
    }
}

/// A `word` token starting at `i`: one or more word characters.
pub open spec fn spec_word(s: Seq<char>, i: int) -> Option<(Seq<char>, int)> {
    let j = spec_word_end(s, i);
    if i < j {
        Some((s.subrange(i, j), j))
    } else {
        None
    }
}

fn word_end(s: &str, i: usize) -> (r: usize)
    requires
        i <= s@.len(),
    ensures
        r == spec_word_end(s@, i as int),
        i <= r <= s@.len(),
    decreases s@.len() - i,
{
    let n = s.unicode_len();
    if i < n && is_word_char_exec(s.get_char(i)) {
        word_end(s, i + 1)
    } else {
        i
    }
}

pub(crate) fn word(s: &str, i: usize) -> (r: Option<(String, usize)>)
    requires
        i <= s@.len(),
    ensures
        match r {
            Some((w, j)) => spec_word(s@, i as int) == Some((w@, j as int)) && i < j <= s@.len(),
            None => spec_word(s@, i as int) is None,
        },
{
    let j = word_end(s, i);
    if i < j {
        Some((String::from_str(s.substring_char(i, j)), j))
    } else {
        None
    }
}

/// End of the maximal run of argument characters starting at `i`.
pub open spec fn spec_word_extra_end(s: Seq<char>, i: int) -> int
    decreases s.len() - i,
{
    if 0 <= i && i < s.len() && is_word_extra_char(s[i]) {
        spec_word_extra_end(s, i + 1)
    } else {
        i
    }
}

/// A `word_extra` token starting at `i`: one or more argument characters.
pub open spec fn spec_word_extra(s: Seq<char>, i: int) -> Option<(Seq<char>, int)> {
    let j = spec_word_extra_end(s, i);
    if i < j {
        Some((s.subrange(i, j), j))
    } else {
        None
    }
}

fn word_extra(s: &str, i: usize) -> (r: Option<(String, usize)>)
    requires
        i <= s@.len(),
    ensures
        match r {
            Some((w, j)) => spec_word_extra(s@, i as int) == Some((w@, j as int)) && i < j
                <= s@.len(),
            None => spec_word_extra(s@, i as int) is None,
        },
{
    let j = word_extra_end(s, i);
    if i < j {
        Some((String::from_str(s.substring_char(i, j)), j))
    } else {
        None
    }
}

fn word_extra_end(s: &str, i: usize) -> (r: usize)
    requires
        i <= s@.len(),
    ensures
        r == spec_word_extra_end(s@, i as int),
        i <= r <= s@.len(),
    decreases s@.len() - i,
{
    let n = s.unicode_len();
    if i < n && is_word_extra_char_exec(s.get_char(i)) {
        word_extra_end(s, i + 1)
    } else {
        i
    }
}

/// End of the maximal run of non-`<` characters starting at `i`.
pub open spec fn spec_para_end(s: Seq<char>, i: int) -> int
    decreases s.len() - i,
{
    if 0 <= i && i < s.len() && s[i] != '<' {
        spec_para_end(s, i + 1)
    } else {
        i
    }
}

pub(crate) fn para_end(s: &str, i: usize) -> (r: usize)
    requires
        i <= s@.len(),
    ensures
        r == spec_para_end(s@, i as int),
        i <= r <= s@.len(),
    decreases s@.len() - i,
{
    let n = s.unicode_len();
    if i < n && s.get_char(i) != '<' {
        para_end(s, i + 1)
    } else {
        i
    }
}

/// First position in `[i, b)` holding a non-space character, or `b`.
pub open spec fn spec_trim_start(s: Seq<char>, i: int, b: int) -> int
    decreases b - i,
{
    if 0 <= i && i < b && b <= s.len() && is_space(s[i]) {
        spec_trim_start(s, i + 1, b)
    } else {
        i
    }
}

/// One past the last position in `[a, j)` holding a non-space character, or `a`.
pub open spec fn spec_trim_end(s: Seq<char>, a: int, j: int) -> int
    decreases j - a,
{
    if 0 <= a && a < j && j <= s.len() && is_space(s[j - 1]) {
        spec_trim_end(s, a, j - 1)
    } else {
        j
    }
}

/// The slice `[a, b)` of `s` with surrounding white space removed.
pub open spec fn spec_trim(s: Seq<char>, a: int, b: int) -> Seq<char> {
    let ts = spec_trim_start(s, a, b);
    let te = spec_trim_end(s, ts, b);
    if ts < te {
        s.subrange(ts, te)
    } else {
        Seq::empty()
    }
}

fn trim_start(s: &str, i: usize, b: usize) -> (r: usize)
    requires
        i <= b <= s@.len(),
    ensures
        r == spec_trim_start(s@, i as int, b as int),
        i <= r <= b,
    decreases b - i,
{
    if i < b && is_space_char(s.get_char(i)) {
        trim_start(s, i + 1, b)
    } else {
        i
    }
}

fn trim_end(s: &str, a: usize, j: usize) -> (r: usize)
    requires
        a <= j <= s@.len(),
    ensures
        r == spec_trim_end(s@, a as int, j as int),
        a <= r <= j,
    decreases j - a,
{
    if a < j && is_space_char(s.get_char(j - 1)) {
        trim_end(s, a, j - 1)
    } else {
        j
    }
}

pub(crate) fn trim(s: &str, a: usize, b: usize) -> (r: String)
    requires
        a <= b <= s@.len(),
    ensures
        r@ == spec_trim(s@, a as int, b as int),
{
    let ts = trim_start(s, a, b);
    let te = trim_end(s, ts, b);
    if ts < te {
        String::from_str(s.substring_char(ts, te))
    } else {
        String::new()
    }
}

/// A `paragraph`: one or more non-`<` characters, yielded trimmed.
pub open spec fn spec_paragraph(s: Seq<char>, i: int) -> Option<(Seq<char>, int)> {
    let j = spec_para_end(s, i);
    if i < j {
        Some((spec_trim(s, i, j), j))
    } else {
        None
    }
}

/// The tail of `word_extra ** ws`: repetitions of a `ws` separator
/// followed by a further argument; a trailing separator is not consumed.
pub open spec fn spec_args_tail(s: Seq<char>, i: int) -> (Seq<Seq<char>>, int)
    decreases s.len() - i,
{
    match spec_ws1(s, i) {
        None => (Seq::empty(), i),
        Some(j) => match spec_word_extra(s, j) {
            None => (Seq::empty(), i),
            Some((w, k)) => if i < k <= s.len() {
                let (rest, m) = spec_args_tail(s, k);
                (seq![w] + rest, m)
            } else {
                (Seq::empty(), i)
            },
        },
    }
}

/// The argument list `word_extra ** ws`: zero or more arguments.
pub open spec fn spec_args_list(s: Seq<char>, i: int) -> (Seq<Seq<char>>, int) {
    match spec_word_extra(s, i) {
        None => (Seq::empty(), i),
        Some((w, j)) => if i < j <= s.len() {
            let (rest, m) = spec_args_tail(s, j);
            (seq![w] + rest, m)
        } else {
            (Seq::empty(), i)
        },
    }
}

fn args_tail(s: &str, i: usize) -> (r: (Vec<String>, usize))
    requires
        i <= s@.len(),
    ensures
        (r.0.deep_view(), r.1 as int) == spec_args_tail(s@, i as int),
        i <= r.1 <= s@.len(),
    decreases s@.len() - i,
{
    let j = skip_ws(s, i);
    if j > i {
        match word_extra(s, j) {
            None => (Vec::new(), i),
            Some((w, k)) => {
                let (mut rest, m) = args_tail(s, k);
                rest.insert(0, w);
                proof {
                    assert(rest.deep_view() =~= seq![w@] + spec_args_tail(s@, k as int).0);
                }
                (rest, m)
            },
        }
    } else {
        (Vec::new(), i)
    }
}

fn args_list(s: &str, i: usize) -> (r: (Vec<String>, usize))
    requires
        i <= s@.len(),
    ensures
        (r.0.deep_view(), r.1 as int) == spec_args_list(s@, i as int),
        i <= r.1 <= s@.len(),
{
    match word_extra(s, i) {
        None => (Vec::new(), i),
        Some((w, j)) => {
            let (mut rest, m) = args_tail(s, j);
            rest.insert(0, w);
            proof {
                assert(rest.deep_view() =~= seq![w@] + spec_args_tail(s@, j as int).0);
            }
            (rest, m)
        },
    }
}

/// A parenthesized argument list `"(" ws* word_extra ** ws ws* ")"`.
pub open spec fn spec_args(s: Seq<char>, i: int) -> Option<(Seq<Seq<char>>, int)> {
    if 0 <= i && i < s.len() && s[i] == '(' {
        let j = spec_ws(s, i + 1);
        if i + 1 <= j <= s.len() {
            let (items, k) = spec_args_list(s, j);
            if j <= k <= s.len() {
                let m = spec_ws(s, k);
                if m < s.len() && s[m] == ')' {
                    Some((items, m + 1))
                } else {
                    None
                }
            } else {
                None
            }
        } else {
            None
        }
    } else {
        None
    }
}

fn args(s: &str, i: usize) -> (r: Option<(Vec<String>, usize)>)
    requires
        i <= s@.len(),
    ensures
        match r {
            Some((a, j)) => spec_args(s@, i as int) == Some((a.deep_view(), j as int)) && i < j
                <= s@.len(),
            None => spec_args(s@, i as int) is None,
        },
{
    let n = s.unicode_len();
    if i < n && s.get_char(i) == '(' {
        let j = skip_ws(s, i + 1);
        let (items, k) = args_list(s, j);
        let m = skip_ws(s, k);
        if m < n && s.get_char(m) == ')' {
            Some((items, m + 1))
        } else {
            None
        }
    } else {
        None
    }
}

/// A trait `word args?`: a name with an optional argument list.
pub open spec fn spec_trait(s: Seq<char>, i: int) -> Option<(TraitV, int)> {
    match spec_word(s, i) {
        None => None,
        Some((name, j)) => match spec_args(s, j) {
            Some((a, k)) => Some((TraitV { name, args: a }, k)),
            None => Some((TraitV { name, args: Seq::empty() }, j)),
        },
    }
}

fn trait_one(s: &str, i: usize) -> (r: Option<(Trait, usize)>)
    requires
        i <= s@.len(),
    ensures
        match r {
            Some((t, j)) => spec_trait(s@, i as int) == Some((t.deep_view(), j as int)) && i < j
                <= s@.len(),
            None => spec_trait(s@, i as int) is None,
        },
{
    match word(s, i) {
        None => None,
        Some((name, j)) => match args(s, j) {
            Some((a, k)) => Some((Trait { name, args: a }, k)),
            None => {
                let t = Trait { name, args: Vec::new() };
                proof {
                    assert(t.deep_view().args =~= Seq::<Seq<char>>::empty());
                }
                Some((t, j))
            },
        },
    }
}

/// The tail of `trait ** ws`.
pub open spec fn spec_traits_tail(s: Seq<char>, i: int) -> (Seq<TraitV>, int)
    decreases s.len() - i,
{
    match spec_ws1(s, i) {
        None => (Seq::empty(), i),
        Some(j) => match spec_trait(s, j) {
            None => (Seq::empty(), i),
            Some((t, k)) => if i < k <= s.len() {
                let (rest, m) = spec_traits_tail(s, k);
                (seq![t] + rest, m)
            } else {
                (Seq::empty(), i)
            },
        },
    }
}

/// The trait list `trait ** ws`: zero or more traits.
pub open spec fn spec_traits_list(s: Seq<char>, i: int) -> (Seq<TraitV>, int) {
    match spec_trait(s, i) {
        None => (Seq::empty(), i),
        Some((t, j)) => if i < j <= s.len() {
            let (rest, m) = spec_traits_tail(s, j);
            (seq![t] + rest, m)
        } else {
            (Seq::empty(), i)
        },
    }
}

fn traits_tail(s: &str, i: usize) -> (r: (Vec<Trait>, usize))
    requires
        i <= s@.len(),
    ensures
        (r.0.deep_view(), r.1 as int) == spec_traits_tail(s@, i as int),
        i <= r.1 <= s@.len(),
    decreases s@.len() - i,
{
    let j = skip_ws(s, i);
    if j > i {
        match trait_one(s, j) {
            None => (Vec::new(), i),
            Some((t, k)) => {
                let (mut rest, m) = traits_tail(s, k);
                let ghost tv = t.deep_view();
                rest.insert(0, t);
                proof {
                    assert(rest.deep_view() =~= seq![tv] + spec_traits_tail(s@, k as int).0);
                }
                (rest, m)
            },
        }
    } else {
        (Vec::new(), i)
    }
}

/// The self-closing alternative `ws* "<" ws* trait ** ws ws* "/>" ws*`.
pub open spec fn spec_selfclose(s: Seq<char>, i: int) -> Option<(ElemV, int)> {
    let a = spec_ws(s, i);
    if a < s.len() && s[a] == '<' {
        let b = spec_ws(s, a + 1);
        let (ts, c) = spec_traits_list(s, b);
        let d = spec_ws(s, c);
        if d + 1 < s.len() && s[d] == '/' && s[d + 1] == '>' {
            Some((ElemV::Tag { traits: ts, children: Seq::empty() }, spec_ws(s, d + 2)))
        } else {
            None
        }
    } else {
        None
    }
}

/// The container alternative
/// `ws* "<" ws* trait ** ws ws* ">" ws* tag* "</" word ws* ">" ws*`.
/// The closing word must equal the first trait's name.
pub open spec fn spec_container(s: Seq<char>, i: int) -> Option<(ElemV, int)>
    decreases s.len() - i, 0int,
{
    let a = spec_ws(s, i);
    if a < s.len() && s[a] == '<' {
        let b = spec_ws(s, a + 1);
        let (ts, c) = spec_traits_list(s, b);
        let d = spec_ws(s, c);
        if d < s.len() && s[d] == '>' {
            let e = spec_ws(s, d + 1);
            if i < e <= s.len() {
                let (ch, f) = spec_children(s, e);
                if f + 1 < s.len() && s[f] == '<' && s[f + 1] == '/' {
                    match spec_word(s, f + 2) {
                        Some((close, g)) => {
                            let h = spec_ws(s, g);
                            if h < s.len() && s[h] == '>' {
                                if ts.len() > 0 && ts[0].name == close {
                                    Some(
                                        (
                                            ElemV::Tag { traits: ts, children: ch },
                                            spec_ws(s, h + 1),
                                        ),
                                    )
                                } else {
                                    None
                                }
                            } else {
                                None
                            }
                        },
                        None => None,
                    }
                } else {
                    None
                }
            } else {
                None
            }
        } else {
            None
        }
    } else {
        None
    }
}

/// A tag: a paragraph, a self-closing tag, or a container, tried in
/// that order.
pub open spec fn spec_tag(s: Seq<char>, i: int) -> Option<(ElemV, int)>
    decreases s.len() - i, 1int,
{
    match spec_paragraph(s, i) {
        Some((t, j)) => Some((ElemV::Text(t), j)),
        None => match spec_selfclose(s, i) {
            Some(r) => Some(r),
            None => spec_container(s, i),
        },
    }
}

/// The children of a container: `tag*`, greedy.
pub open spec fn spec_children(s: Seq<char>, i: int) -> (Seq<ElemV>, int)
    decreases s.len() - i, 2int,
{
    match spec_tag(s, i) {
        None => (Seq::empty(), i),
        Some((e, j)) => if i < j <= s.len() {
            let (rest, k) = spec_children(s, j);
            (seq![e] + rest, k)
        } else {
            (Seq::empty(), i)
        },
    }
}

fn tag_at(s: &str, i: usize) -> (r: Option<(Element, usize)>)
    requires
        i <= s@.len(),
    ensures
        match r {
            Some((e, j)) => spec_tag(s@, i as int) == Some((e.deep_view(), j as int)) && i < j
                <= s@.len(),
            None => spec_tag(s@, i as int) is None,
        },
    decreases s@.len() - i, 1int,
{
    let n = s.unicode_len();
    let pe = para_end(s, i);
    if pe > i {
        let t = trim(s, i, pe);
        Some((Element::Text(t), pe))
    } else {
        let a = skip_ws(s, i);
        if a < n && s.get_char(a) == '<' {
            let b = skip_ws(s, a + 1);
            let (ts, c) = traits_list(s, b);
            let d = skip_ws(s, c);
            if d < n && d + 1 < n && s.get_char(d) == '/' && s.get_char(d + 1) == '>' {
                let e = skip_ws(s, d + 2);
                let el = Element::Tag { traits: ts, children: Vec::new() };
                proof {
                    let dv = el.deep_view();
                    assert(dv->Tag_traits =~~= spec_traits_list(s@, b as int).0);
                    assert(dv->Tag_children =~~= Seq::<ElemV>::empty());
                    assert(dv =~~= ElemV::Tag {
                        traits: spec_traits_list(s@, b as int).0,
                        children: Seq::<ElemV>::empty(),
                    });
                }
                Some((el, e))
            } else if d < n && s.get_char(d) == '>' {
                let e0 = skip_ws(s, d + 1);
                let (ch, f) = parse_children(s, e0);
                if f < n && f + 1 < n && s.get_char(f) == '<' && s.get_char(f + 1) == '/' {
                    match word(s, f + 2) {
                        Some((close, g)) => {
                            let h = skip_ws(s, g);
                            if h < n && s.get_char(h) == '>' {
                                let end = skip_ws(s, h + 1);
                                if ts.len() > 0 && ts[0].name == close {
                                    let el = Element::Tag { traits: ts, children: ch };
                                    proof {
                                        let dv = el.deep_view();
                                        assert(dv->Tag_traits =~~= spec_traits_list(
                                            s@,
                                            b as int,
                                        ).0);
                                        assert(dv->Tag_children =~~= spec_children(
                                            s@,
                                            e0 as int,
                                        ).0);
                                        assert(dv =~~= ElemV::Tag {
                                            traits: spec_traits_list(s@, b as int).0,
                                            children: spec_children(s@, e0 as int).0,
                                        });
                                    }
                                    Some((el, end))
                                } else {
                                    None
                                }
                            } else {
                                None
                            }
                        },
                        None => None,
                    }
                } else {
                    None
                }
            } else {
                None
            }
        } else {
            None
        }
    }
}

fn parse_children(s: &str, i: usize) -> (r: (Vec<Element>, usize))
    requires
        i <= s@.len(),
    ensures
        (r.0.deep_view(), r.1 as int) == spec_children(s@, i as int),
        i <= r.1 <= s@.len(),
    decreases s@.len() - i, 2int,
{
    match tag_at(s, i) {
        None => (Vec::new(), i),
        Some((e, j)) => {
            let (mut rest, k) = parse_children(s, j);
            let ghost ev = e.deep_view();
            rest.insert(0, e);
            proof {
                assert(rest.deep_view() =~= seq![ev] + spec_children(s@, j as int).0);
            }
            (rest, k)
        },
    }
}

/// A parse failure: the input is not a single well-formed tag.
#[derive(Debug, PartialEq, Eq, Clone, Copy)]
pub struct ParseError;

/// The markup language accepted by [`tag`]: a single tag whose parse
/// consumes the entire input.
pub open spec fn spec_parse_tag(s: Seq<char>) -> Option<ElemV> {
    match spec_tag(s, 0) {
        Some((e, j)) => if j == s.len() {
            Some(e)
        } else {
            None
        },
        None => None,
    }
}

/// The number of nodes a markup element holds: itself and its
/// descendants.
pub open spec fn spec_size(e: ElemV) -> int
    decreases e,
{
    match e {
        ElemV::Text(_) => 1,
        ElemV::Tag { traits, children } => 1 + spec_size_list(children),
    }
}

/// Total node count of a list of elements.
pub open spec fn spec_size_list(es: Seq<ElemV>) -> int
    decreases es,
{
    if es.len() == 0 {
        0
    } else {
        spec_size(es[0]) + spec_size_list(es.drop_first())
    }
}

pub proof fn lemma_space_run_bounds(s: Seq<char>, i: int)
    requires
        0 <= i <= s.len(),
    ensures
        i <= spec_space_run(s, i) <= s.len(),
    decreases s.len() - i,
{
    if i < s.len() && is_space(s[i]) {
        lemma_space_run_bounds(s, i + 1);
    }
}

pub proof fn lemma_comment_scan_bounds(s: Seq<char>, i: int)
    requires
        0 <= i <= s.len(),
    ensures
        i <= spec_comment_scan(s, i) <= s.len(),
    decreases s.len() - i,
{
    if i < s.len() && !(i + 1 < s.len() && s[i] == '#' && s[i + 1] == '>') {
        lemma_comment_scan_bounds(s, i + 1);
    }
}

pub proof fn lemma_comment_bounds(s: Seq<char>, i: int)
    requires
        0 <= i <= s.len(),
    ensures
        match spec_comment(s, i) {
            Some(j) => i < j <= s.len(),
            None => true,
        },
{
    if i + 1 < s.len() && s[i] == '<' && s[i + 1] == '#' {
        lemma_comment_scan_bounds(s, i + 2);
    }
}

pub proof fn lemma_ws_bounds(s: Seq<char>, i: int)
    requires
        0 <= i <= s.len(),
    ensures
        i <= spec_ws(s, i) <= s.len(),
    decreases s.len() - i,
{
    if i < s.len() && is_space(s[i]) {
        lemma_space_run_bounds(s, i);
        let j = spec_space_run(s, i);
        if i < j <= s.len() {
            lemma_ws_bounds(s, j);
        }
    } else {
        lemma_comment_bounds(s, i);
        match spec_comment(s, i) {
            Some(j) => {
                if i < j <= s.len() {
                    lemma_ws_bounds(s, j);
                }
            },
            None => {},
        }
    }
}

pub proof fn lemma_word_end_bounds(s: Seq<char>, i: int)
    requires
        0 <= i <= s.len(),
    ensures
        i <= spec_word_end(s, i) <= s.len(),
    decreases s.len() - i,
{
    if i < s.len() && is_word_char(s[i]) {
        lemma_word_end_bounds(s, i + 1);
    }
}

pub proof fn lemma_word_extra_end_bounds(s: Seq<char>, i: int)
    requires
        0 <= i <= s.len(),
    ensures
        i <= spec_word_extra_end(s, i) <= s.len(),
    decreases s.len() - i,
{
    if i < s.len() && is_word_extra_char(s[i]) {
        lemma_word_extra_end_bounds(s, i + 1);
    }
}

pub proof fn lemma_para_end_bounds(s: Seq<char>, i: int)
    requires
        0 <= i <= s.len(),
    ensures
        i <= spec_para_end(s, i) <= s.len(),
    decreases s.len() - i,
{
    if i < s.len() && s[i] != '<' {
        lemma_para_end_bounds(s, i + 1);
    }
}

pub proof fn lemma_args_tail_bounds(s: Seq<char>, i: int)
    requires
        0 <= i <= s.len(),
    ensures
        i <= spec_args_tail(s, i).1 <= s.len(),
    decreases s.len() - i,
{
    match spec_ws1(s, i) {
        None => {},
        Some(j) => {
            lemma_ws_bounds(s, i);
            match spec_word_extra(s, j) {
                None => {},
                Some((w, k)) => {
                    lemma_word_extra_end_bounds(s, j);
                    if i < k <= s.len() {
                        lemma_args_tail_bounds(s, k);
                    }
                },
            }
        },
    }
}

pub proof fn lemma_args_list_bounds(s: Seq<char>, i: int)
    requires
        0 <= i <= s.len(),
    ensures
        i <= spec_args_list(s, i).1 <= s.len(),
{
    match spec_word_extra(s, i) {
        None => {},
        Some((w, j)) => {
            lemma_word_extra_end_bounds(s, i);
            if i < j <= s.len() {
                lemma_args_tail_bounds(s, j);
            }
        },
    }
}

pub proof fn lemma_args_bounds(s: Seq<char>, i: int)
    requires
        0 <= i <= s.len(),
    ensures
        match spec_args(s, i) {
            Some((a, j)) => i < j <= s.len(),
            None => true,
        },
{
    if i < s.len() && s[i] == '(' {
        lemma_ws_bounds(s, i + 1);
        let j = spec_ws(s, i + 1);
        if i + 1 <= j <= s.len() {
            lemma_args_list_bounds(s, j);
            let (items, k) = spec_args_list(s, j);
            if j <= k <= s.len() {
                lemma_ws_bounds(s, k);
            }
        }
    }
}

pub proof fn lemma_trait_bounds(s: Seq<char>, i: int)
    requires
        0 <= i <= s.len(),
    ensures
        match spec_trait(s, i) {
            Some((t, j)) => i < j <= s.len(),
            None => true,
        },
{
    match spec_word(s, i) {
        None => {},
        Some((name, j)) => {
            lemma_word_end_bounds(s, i);
            lemma_args_bounds(s, j);
        },
    }
}

pub proof fn lemma_traits_tail_bounds(s: Seq<char>, i: int)
    requires
        0 <= i <= s.len(),
    ensures
        i <= spec_traits_tail(s, i).1 <= s.len(),
    decreases s.len() - i,
{
    match spec_ws1(s, i) {
        None => {},
        Some(j) => {
            lemma_ws_bounds(s, i);
            match spec_trait(s, j) {
                None => {},
                Some((t, k)) => {
                    lemma_trait_bounds(s, j);
                    if i < k <= s.len() {
                        lemma_traits_tail_bounds(s, k);
                    }
                },
            }
        },
    }
}

pub proof fn lemma_traits_list_bounds(s: Seq<char>, i: int)
    requires
        0 <= i <= s.len(),
    ensures
        i <= spec_traits_list(s, i).1 <= s.len(),
{
    match spec_trait(s, i) {
        None => {},
        Some((t, j)) => {
            lemma_trait_bounds(s, i);
            if i < j <= s.len() {
                lemma_traits_tail_bounds(s, j);
            }
        },
    }
}

/// A parsed tag moves the position forward and holds no more nodes than
/// the characters it consumed.
pub proof fn lemma_tag_bounds(s: Seq<char>, i: int)
    requires
        0 <= i <= s.len(),
    ensures
        match spec_tag(s, i) {
            Some((e, j)) => i < j <= s.len() && spec_size(e) <= j - i,
            None => true,
        },
    decreases s.len() - i, 1int,
{
    match spec_paragraph(s, i) {
        Some((t, j)) => {
            lemma_para_end_bounds(s, i);
        },
        None => {
            lemma_selfclose_bounds(s, i);
            match spec_selfclose(s, i) {
                Some(_) => {},
                None => {
                    lemma_container_bounds(s, i);
                },
            }
        },
    }
}

proof fn lemma_selfclose_bounds(s: Seq<char>, i: int)
    requires
        0 <= i <= s.len(),
    ensures
        match spec_selfclose(s, i) {
            Some((e, j)) => i < j <= s.len() && spec_size(e) <= j - i,
            None => true,
        },
{
    lemma_ws_bounds(s, i);
    let a = spec_ws(s, i);
    if a < s.len() && s[a] == '<' {
        lemma_ws_bounds(s, a + 1);
        let b = spec_ws(s, a + 1);
        lemma_traits_list_bounds(s, b);
        let (ts, c) = spec_traits_list(s, b);
        lemma_ws_bounds(s, c);
        let d = spec_ws(s, c);
        if d + 1 < s.len() && s[d] == '/' && s[d + 1] == '>' {
            lemma_ws_bounds(s, d + 2);
        }
    }
}

proof fn lemma_container_bounds(s: Seq<char>, i: int)
    requires
        0 <= i <= s.len(),
    ensures
        match spec_container(s, i) {
            Some((e, j)) => i < j <= s.len() && spec_size(e) <= j - i,
            None => true,
        },
    decreases s.len() - i, 0int,
{
    lemma_ws_bounds(s, i);
    let a = spec_ws(s, i);
    if a < s.len() && s[a] == '<' {
        lemma_ws_bounds(s, a + 1);
        let b = spec_ws(s, a + 1);
        lemma_traits_list_bounds(s, b);
        let (ts, c) = spec_traits_list(s, b);
        lemma_ws_bounds(s, c);
        let d = spec_ws(s, c);
        if d < s.len() && s[d] == '>' {
            lemma_ws_bounds(s, d + 1);
            let e = spec_ws(s, d + 1);
            if i < e <= s.len() {
                lemma_children_bounds(s, e);
                let (ch, f) = spec_children(s, e);
                if f + 1 < s.len() && s[f] == '<' && s[f + 1] == '/' {
                    match spec_word(s, f + 2) {
                        Some((close, g)) => {
                            lemma_word_end_bounds(s, f + 2);
                            lemma_ws_bounds(s, g);
                            let h = spec_ws(s, g);
                            if h < s.len() && s[h] == '>' {
                                lemma_ws_bounds(s, h + 1);
                            }
                        },
                        None => {},
                    }
                }
            }
        }
    }
}

/// A parsed child list moves the position forward by at least its node
/// count.
pub proof fn lemma_children_bounds(s: Seq<char>, i: int)
    requires
        0 <= i <= s.len(),
    ensures
        i <= spec_children(s, i).1 <= s.len(),
        spec_size_list(spec_children(s, i).0) <= spec_children(s, i).1 - i,
    decreases s.len() - i, 2int,
{
    match spec_tag(s, i) {
        None => {},
        Some((e, j)) => {
            lemma_tag_bounds(s, i);
            if i < j <= s.len() {
                lemma_children_bounds(s, j);
                let (rest, k) = spec_children(s, j);
                assert((seq![e] + rest)[0] == e);
                assert((seq![e] + rest).drop_first() =~= rest);
            }
        },
    }
}

/// A non-empty run of word characters.
pub open spec fn is_word(w: Seq<char>) -> bool {
    w.len() > 0 && (forall|k: int| 0 <= k < w.len() ==> is_word_char(w[k]))
}

/// A non-empty run of argument characters.
pub open spec fn is_word_extra(w: Seq<char>) -> bool {
    w.len() > 0 && (forall|k: int| 0 <= k < w.len() ==> is_word_extra_char(w[k]))
}

pub proof fn lemma_word_end_run(s: Seq<char>, i: int, j: int)
    requires
        0 <= i <= j <= s.len(),
        forall|k: int| i <= k < j ==> is_word_char(s[k]),
        j == s.len() || !is_word_char(s[j]),
    ensures
        spec_word_end(s, i) == j,
    decreases j - i,
{
    if i < j {
        lemma_word_end_run(s, i + 1, j);
    }
}

pub proof fn lemma_word_extra_end_run(s: Seq<char>, i: int, j: int)
    requires
        0 <= i <= j <= s.len(),
        forall|k: int| i <= k < j ==> is_word_extra_char(s[k]),
        j == s.len() || !is_word_extra_char(s[j]),
    ensures
        spec_word_extra_end(s, i) == j,
    decreases j - i,
{
    if i < j {
        lemma_word_extra_end_run(s, i + 1, j);
    }
}

pub proof fn lemma_para_end_run(s: Seq<char>, i: int, j: int)
    requires
        0 <= i <= j <= s.len(),
        forall|k: int| i <= k < j ==> s[k] != '<',
        j == s.len() || s[j] == '<',
    ensures
        spec_para_end(s, i) == j,
    decreases j - i,
{
    if i < j {
        lemma_para_end_run(s, i + 1, j);
    }
}

pub proof fn lemma_comment_scan_run(s: Seq<char>, i: int, j: int)
    requires
        0 <= i <= j,
        j + 1 < s.len(),
        forall|k: int| i <= k < j ==> !(#[trigger] s[k] == '#' && s[k + 1] == '>'),
        s[j] == '#' && s[j + 1] == '>',
    ensures
        spec_comment_scan(s, i) == j,
    decreases j - i,
{
    if i < j {
        lemma_comment_scan_run(s, i + 1, j);
    }
}

/// Law: a closing tag whose word differs from the opening trait's name is
/// rejected, whatever the two names are.
#[verifier::rlimit(100)]
#[verifier::spinoff_prover]
pub proof fn lemma_closing_mismatch_rejected(a: Seq<char>, b: Seq<char>)
    requires
        is_word(a),
        is_word(b),
        a != b,
    ensures
        spec_parse_tag(seq!['<'] + a + seq!['>', '<', '/'] + b + seq!['>']) is None,
{
    let s = seq!['<'] + a + seq!['>', '<', '/'] + b + seq!['>'];
    let q = 1 + a.len() as int;
    let g = q + 3 + b.len() as int;
    assert(s.len() == a.len() + b.len() + 5);
    assert(s[0] == '<');
    assert(forall|k: int| 1 <= k < q ==> s[k] == a[k - 1]);
    assert(s[q] == '>');
    assert(s[q + 1] == '<');
    assert(s[q + 2] == '/');
    assert(forall|k: int| q + 3 <= k < g ==> s[k] == b[k - (q + 3)]);
    assert(s[g] == '>');

    // No white space or comments anywhere relevant.
    assert(spec_para_end(s, 0) == 0);
    assert(spec_paragraph(s, 0) is None);
    assert(spec_ws(s, 0) == 0);
    assert(is_word_char(s[1]) && !is_space(s[1]) && s[1] != '<' && s[1] != '(');
    assert(spec_comment(s, 1) is None);
    assert(spec_ws(s, 1) == 1);

    // The opening trait: the word `a`, no arguments.
    lemma_word_end_run(s, 1, q);
    assert(s.subrange(1, q) =~= a);
    assert(spec_word(s, 1) == Some((a, q)));
    assert(spec_args(s, q) is None);
    assert(spec_trait(s, 1) == Some((TraitV { name: a, args: Seq::empty() }, q)));
    assert(spec_comment(s, q) is None);
    assert(spec_ws(s, q) == q);
    assert(spec_ws1(s, q) is None);
    assert(spec_traits_tail(s, q) == (Seq::<TraitV>::empty(), q));
    assert(spec_traits_list(s, 1) == (seq![TraitV { name: a, args: Seq::empty() }], q)) by {
        assert(seq![TraitV { name: a, args: Seq::empty() }] + Seq::<TraitV>::empty()
            =~= seq![TraitV { name: a, args: Seq::empty() }]);
    };

    // Not self-closing: the character after the trait list is `>`.
    assert(spec_selfclose(s, 0) is None);

    // The container: no children, then the close word `b`.
    assert(spec_comment(s, q + 1) is None);
    assert(spec_ws(s, q + 1) == q + 1);
    assert(spec_para_end(s, q + 1) == q + 1);
    assert(spec_paragraph(s, q + 1) is None);
    assert(spec_comment(s, q + 2) is None);
    assert(spec_ws(s, q + 2) == q + 2);
    assert(spec_word_end(s, q + 2) == q + 2);
    assert(spec_word(s, q + 2) is None);
    assert(spec_trait(s, q + 2) is None);
    assert(spec_traits_list(s, q + 2) == (Seq::<TraitV>::empty(), q + 2));
    assert(is_word_char(s[q + 3]));
    assert(spec_selfclose(s, q + 1) is None);
    assert(spec_container(s, q + 1) is None);
    assert(spec_tag(s, q + 1) is None);
    assert(spec_children(s, q + 1) == (Seq::<ElemV>::empty(), q + 1));

    lemma_word_end_run(s, q + 3, g);
    assert(s.subrange(q + 3, g) =~= b);
    assert(spec_word(s, q + 3) == Some((b, g)));
    assert(spec_comment(s, g) is None);
    assert(spec_ws(s, g) == g);
    assert(s[g] == '>');

    // The close word differs from the opening trait's name: rejected.
    assert(spec_container(s, 0) is None);
    assert(spec_tag(s, 0) is None);
}

/// The argument list `(a b c)` of [`lemma_selfclosing_tag_parses`],
/// parsed at its opening parenthesis.
#[verifier::rlimit(100)]
#[verifier::spinoff_prover]
proof fn lemma_args_three(s: Seq<char>, p: int, a: Seq<char>, b: Seq<char>, c: Seq<char>)
    requires
        is_word_extra(a),
        is_word_extra(b),
        is_word_extra(c),
        0 <= p,
        p + a.len() + b.len() + c.len() + 5 <= s.len(),
        s[p] == '(',
        forall|k: int| p + 1 <= k < p + 1 + a.len() ==> s[k] == a[k - (p + 1)],
        s[p + 1 + a.len()] == ' ',
        forall|k: int|
            p + 2 + a.len() <= k < p + 2 + a.len() + b.len() ==> s[k] == b[k - (p + 2 + a.len())],
        s[p + 2 + a.len() + b.len()] == ' ',
        forall|k: int|
            p + 3 + a.len() + b.len() <= k < p + 3 + a.len() + b.len() + c.len() ==> s[k] == c[k
                - (p + 3 + a.len() + b.len())],
        s[p + 3 + a.len() + b.len() + c.len()] == ')',
    ensures
        spec_args(s, p) == Some((seq![a, b, c], p + 4 + a.len() + b.len() + c.len())),
{
    let pa = p + 1;
    let xa = pa + a.len() as int;
    let pb = xa + 1;
    let xb = pb + b.len() as int;
    let pc = xb + 1;
    let xc = pc + c.len() as int;
    assert(is_word_extra_char(s[pa]) && !is_space(s[pa]) && s[pa] != '<');
    assert(spec_comment(s, pa) is None);
    assert(spec_ws(s, pa) == pa);
    lemma_word_extra_end_run(s, pa, xa);
    assert(s.subrange(pa, xa) =~= a);
    assert(spec_word_extra(s, pa) == Some((a, xa)));
    assert(is_space(s[xa]));
    assert(!is_space(s[pb]) && s[pb] != '<');
    assert(spec_space_run(s, pb) == pb);
    assert(spec_space_run(s, xa) == pb);
    assert(spec_comment(s, pb) is None);
    assert(spec_ws(s, pb) == pb);
    assert(spec_ws(s, xa) == pb);
    assert(spec_ws1(s, xa) == Some(pb));
    lemma_word_extra_end_run(s, pb, xb);
    assert(s.subrange(pb, xb) =~= b);
    assert(spec_word_extra(s, pb) == Some((b, xb)));
    assert(is_space(s[xb]));
    assert(!is_space(s[pc]) && s[pc] != '<');
    assert(spec_space_run(s, pc) == pc);
    assert(spec_space_run(s, xb) == pc);
    assert(spec_comment(s, pc) is None);
    assert(spec_ws(s, pc) == pc);
    assert(spec_ws(s, xb) == pc);
    assert(spec_ws1(s, xb) == Some(pc));
    lemma_word_extra_end_run(s, pc, xc);
    assert(s.subrange(pc, xc) =~= c);
    assert(spec_word_extra(s, pc) == Some((c, xc)));
    assert(!is_space(s[xc]) && s[xc] != '<');
    assert(spec_comment(s, xc) is None);
    assert(spec_ws(s, xc) == xc);
    assert(spec_ws1(s, xc) is None);
    assert(spec_args_tail(s, xc) == (Seq::<Seq<char>>::empty(), xc));
    assert(spec_args_tail(s, xb) == (seq![c], xc)) by {
        assert(seq![c] + Seq::<Seq<char>>::empty() =~= seq![c]);
    };
    assert(spec_args_tail(s, xa) == (seq![b, c], xc)) by {
        assert(seq![b] + seq![c] =~= seq![b, c]);
    };
    assert(spec_args_list(s, pa) == (seq![a, b, c], xc)) by {
        assert(seq![a] + seq![b, c] =~= seq![a, b, c]);
    };
    assert(spec_args(s, p) == Some((seq![a, b, c], xc + 1)));
}

/// Law: a self-closing tag `<name(a b c)/>` parses, for every valid name
/// and argument tokens, to a tag with exactly one trait carrying that name
/// and those arguments in order, and no children.
#[verifier::rlimit(100)]
#[verifier::spinoff_prover]
pub proof fn lemma_selfclosing_tag_parses(
    name: Seq<char>,
    a: Seq<char>,
    b: Seq<char>,
    c: Seq<char>,
)
    requires
        is_word(name),
        is_word_extra(a),
        is_word_extra(b),
        is_word_extra(c),
    ensures
        spec_parse_tag(
            seq!['<'] + name + seq!['('] + a + seq![' '] + b + seq![' '] + c + seq![')', '/', '>'],
        ) == Some(ElemV::Tag { traits: seq![TraitV { name, args: seq![a, b, c] }], children: Seq::empty() }),
{
    let s = seq!['<'] + name + seq!['('] + a + seq![' '] + b + seq![' '] + c + seq![
        ')',
        '/',
        '>',
    ];
    let p = 1 + name.len() as int;
    let pa = p + 1;
    let xa = pa + a.len() as int;
    let pb = xa + 1;
    let xb = pb + b.len() as int;
    let pc = xb + 1;
    let xc = pc + c.len() as int;
    assert(s.len() == xc + 3);
    assert(s[0] == '<');
    assert(forall|k: int| 1 <= k < p ==> s[k] == name[k - 1]);
    assert(s[p] == '(');
    assert(forall|k: int| pa <= k < xa ==> s[k] == a[k - pa]);
    assert(s[xa] == ' ');
    assert(forall|k: int| pb <= k < xb ==> s[k] == b[k - pb]);
    assert(s[xb] == ' ');
    assert(forall|k: int| pc <= k < xc ==> s[k] == c[k - pc]);
    assert(s[xc] == ')');
    assert(s[xc + 1] == '/');
    assert(s[xc + 2] == '>');

    assert(spec_para_end(s, 0) == 0);
    assert(spec_paragraph(s, 0) is None);
    assert(spec_ws(s, 0) == 0);
    assert(is_word_char(s[1]) && !is_space(s[1]) && s[1] != '<');
    assert(spec_comment(s, 1) is None);
    assert(spec_ws(s, 1) == 1);

    lemma_word_end_run(s, 1, p);
    assert(s.subrange(1, p) =~= name);
    assert(spec_word(s, 1) == Some((name, p)));

    // The argument list `(a b c)`.
    lemma_args_three(s, p, a, b, c);
    assert(spec_args(s, p) == Some((seq![a, b, c], xc + 1)));
    assert(spec_trait(s, 1) == Some((TraitV { name, args: seq![a, b, c] }, xc + 1)));

    // One trait, then `/>`.
    assert(!is_space(s[xc + 1]) && s[xc + 1] != '<');
    assert(spec_comment(s, xc + 1) is None);
    assert(spec_ws(s, xc + 1) == xc + 1);
    assert(spec_ws1(s, xc + 1) is None);
    assert(spec_traits_tail(s, xc + 1) == (Seq::<TraitV>::empty(), xc + 1));
    assert(spec_traits_list(s, 1) == (seq![TraitV { name, args: seq![a, b, c] }], xc + 1)) by {
        assert(seq![TraitV { name, args: seq![a, b, c] }] + Seq::<TraitV>::empty()
            =~= seq![TraitV { name, args: seq![a, b, c] }]);
    };
    assert(spec_ws(s, s.len() as int) == s.len());
    assert(spec_selfclose(s, 0) == Some(
        (
            ElemV::Tag { traits: seq![TraitV { name, args: seq![a, b, c] }], children: Seq::<ElemV>::empty() },
            s.len() as int,
        ),
    ));
    assert(spec_tag(s, 0) is Some);
}

/// The single empty `h1` tag both documents of
/// [`lemma_comment_transparent`] denote.
pub open spec fn spec_h1_tag() -> ElemV {
    ElemV::Tag {
        traits: seq![TraitV { name: seq!['h', '1'], args: Seq::empty() }],
        children: Seq::empty(),
    }
}

/// Law: comments are fully transparent to parsing. For every comment body
/// free of the closing marker, a tag holding only that comment parses
/// exactly as the tag with the comment removed.
pub proof fn lemma_comment_transparent(body: Seq<char>)
    requires
        forall|k: int|
            0 <= k < body.len() - 1 ==> !(#[trigger] body[k] == '#' && body[k + 1] == '>'),
    ensures
        spec_parse_tag(
            seq!['<', 'h', '1', '>', '<', '#'] + body + seq!['#', '>', '<', '/', 'h', '1', '>'],
        ) == spec_parse_tag(seq!['<', 'h', '1', '>', '<', '/', 'h', '1', '>']),
{
    lemma_commented_h1_parses(body);
    lemma_plain_h1_parses();
}

#[verifier::rlimit(100)]
#[verifier::spinoff_prover]
proof fn lemma_commented_h1_parses(body: Seq<char>)
    requires
        forall|k: int|
            0 <= k < body.len() - 1 ==> !(#[trigger] body[k] == '#' && body[k + 1] == '>'),
    ensures
        spec_parse_tag(
            seq!['<', 'h', '1', '>', '<', '#'] + body + seq!['#', '>', '<', '/', 'h', '1', '>'],
        ) == Some(spec_h1_tag()),
{
    let h1 = seq!['h', '1'];
    let expected = spec_h1_tag();

    // The commented document.
    let s = seq!['<', 'h', '1', '>', '<', '#'] + body + seq!['#', '>', '<', '/', 'h', '1', '>'];
    let m = 6 + body.len() as int;
    assert(s.len() == m + 7);
    assert(s[0] == '<' && s[1] == 'h' && s[2] == '1' && s[3] == '>');
    assert(s[4] == '<' && s[5] == '#');
    assert(forall|k: int| 6 <= k < m ==> s[k] == body[k - 6]);
    assert(s[m] == '#' && s[m + 1] == '>');
    assert(s[m + 2] == '<' && s[m + 3] == '/' && s[m + 4] == 'h' && s[m + 5] == '1' && s[m + 6]
        == '>');

    assert(spec_para_end(s, 0) == 0);
    assert(spec_ws(s, 0) == 0);
    assert(spec_comment(s, 1) is None);
    assert(spec_ws(s, 1) == 1);
    lemma_word_end_run(s, 1, 3);
    assert(s.subrange(1, 3) =~= h1);
    assert(spec_word(s, 1) == Some((h1, 3int)));
    assert(spec_args(s, 3) is None);
    assert(spec_trait(s, 1) == Some((TraitV { name: h1, args: Seq::empty() }, 3int)));
    assert(spec_comment(s, 3) is None);
    assert(spec_ws(s, 3) == 3);
    assert(spec_traits_tail(s, 3) == (Seq::<TraitV>::empty(), 3int));
    assert(spec_traits_list(s, 1) == (seq![TraitV { name: h1, args: Seq::empty() }], 3int)) by {
        assert(seq![TraitV { name: h1, args: Seq::empty() }] + Seq::<TraitV>::empty()
            =~= seq![TraitV { name: h1, args: Seq::empty() }]);
    };
    assert(spec_selfclose(s, 0) is None);

    // After `>`: the comment is consumed as white space.
    assert forall|k: int| 6 <= k < m implies !(#[trigger] s[k] == '#' && s[k + 1] == '>') by {
        if k < m - 1 {
            assert(s[k] == body[k - 6] && s[k + 1] == body[k - 5]);
        } else {
            assert(s[k + 1] == '#');
        }
    }
    lemma_comment_scan_run(s, 6, m);
    assert(spec_comment(s, 4) == Some(m + 2));
    assert(!is_space(s[4]));
    assert(spec_comment(s, m + 2) is None);
    assert(!is_space(s[m + 2]));
    assert(spec_ws(s, m + 2) == m + 2);
    assert(spec_ws(s, 4) == m + 2);

    // No children, then the matching close.
    assert(spec_para_end(s, m + 2) == m + 2);
    assert(spec_comment(s, m + 3) is None);
    assert(spec_ws(s, m + 3) == m + 3);
    assert(spec_word(s, m + 3) is None);
    assert(spec_trait(s, m + 3) is None);
    assert(spec_traits_list(s, m + 3) == (Seq::<TraitV>::empty(), m + 3));
    assert(spec_selfclose(s, m + 2) is None);
    assert(spec_container(s, m + 2) is None);
    assert(spec_tag(s, m + 2) is None);
    assert(spec_children(s, m + 2) == (Seq::<ElemV>::empty(), m + 2));
    lemma_word_end_run(s, m + 4, m + 6);
    assert(s.subrange(m + 4, m + 6) =~= h1);
    assert(spec_word(s, m + 4) == Some((h1, m + 6)));
    assert(spec_comment(s, m + 6) is None);
    assert(spec_ws(s, m + 6) == m + 6);
    assert(spec_ws(s, s.len() as int) == s.len());
    assert(spec_container(s, 0) == Some((expected, s.len() as int))) by {
        assert(expected->Tag_traits =~= seq![TraitV { name: h1, args: Seq::empty() }]);
    };
    assert(spec_parse_tag(s) == Some(expected));
}

#[verifier::rlimit(100)]
#[verifier::spinoff_prover]
proof fn lemma_plain_h1_parses()
    ensures
        spec_parse_tag(seq!['<', 'h', '1', '>', '<', '/', 'h', '1', '>']) == Some(spec_h1_tag()),
{
    let h1 = seq!['h', '1'];
    let expected = spec_h1_tag();
    let t = seq!['<', 'h', '1', '>', '<', '/', 'h', '1', '>'];
    assert(t[0] == '<' && t[1] == 'h' && t[2] == '1' && t[3] == '>');
    assert(t[4] == '<' && t[5] == '/' && t[6] == 'h' && t[7] == '1' && t[8] == '>');
    assert(spec_para_end(t, 0) == 0);
    assert(spec_ws(t, 0) == 0);
    assert(spec_comment(t, 1) is None);
    assert(spec_ws(t, 1) == 1);
    lemma_word_end_run(t, 1, 3);
    assert(t.subrange(1, 3) =~= h1);
    assert(spec_word(t, 1) == Some((h1, 3int)));
    assert(spec_args(t, 3) is None);
    assert(spec_trait(t, 1) == Some((TraitV { name: h1, args: Seq::empty() }, 3int)));
    assert(spec_comment(t, 3) is None);
    assert(spec_ws(t, 3) == 3);
    assert(spec_traits_tail(t, 3) == (Seq::<TraitV>::empty(), 3int));
    assert(spec_traits_list(t, 1) == (seq![TraitV { name: h1, args: Seq::empty() }], 3int)) by {
        assert(seq![TraitV { name: h1, args: Seq::empty() }] + Seq::<TraitV>::empty()
            =~= seq![TraitV { name: h1, args: Seq::empty() }]);
    };
    assert(spec_selfclose(t, 0) is None);
    assert(spec_comment(t, 4) is None);
    assert(spec_ws(t, 4) == 4);
    assert(spec_para_end(t, 4) == 4);
    assert(spec_comment(t, 5) is None);
    assert(spec_ws(t, 5) == 5);
    assert(spec_word(t, 5) is None);
    assert(spec_trait(t, 5) is None);
    assert(spec_traits_list(t, 5) == (Seq::<TraitV>::empty(), 5int));
    assert(spec_selfclose(t, 4) is None);
    assert(spec_container(t, 4) is None);
    assert(spec_tag(t, 4) is None);
    assert(spec_children(t, 4) == (Seq::<ElemV>::empty(), 4int));
    lemma_word_end_run(t, 6, 8);
    assert(t.subrange(6, 8) =~= h1);
    assert(spec_word(t, 6) == Some((h1, 8int)));
    assert(spec_comment(t, 8) is None);
    assert(spec_ws(t, 8) == 8);
    assert(spec_ws(t, 9) == 9);
    assert(spec_container(t, 0) == Some((expected, 9int))) by {
        assert(expected->Tag_traits =~= seq![TraitV { name: h1, args: Seq::empty() }]);
    };
    assert(spec_parse_tag(t) == Some(expected));
}

/// Parses one complete markup element from `s`.
///
/// Returns `Ok` exactly on the inputs the grammar accepts, and then the
/// element is the grammar's parse.
pub fn tag(s: &str) -> (r: Result<Element, ParseError>)
    ensures
        match r {
            Ok(e) => spec_parse_tag(s@) == Some(e.deep_view()) && spec_size(e.deep_view())
                <= s@.len(),
            Err(_) => spec_parse_tag(s@) is None,
        },
{
    let n = s.unicode_len();
    proof {
        lemma_tag_bounds(s@, 0);
    }
    match tag_at(s, 0) {
        Some((e, j)) => if j == n {
            Ok(e)
        } else {
            Err(ParseError)
        },
        None => Err(ParseError),
    }
}

fn traits_list(s: &str, i: usize) -> (r: (Vec<Trait>, usize))
    requires
        i <= s@.len(),
    ensures
        (r.0.deep_view(), r.1 as int) == spec_traits_list(s@, i as int),
        i <= r.1 <= s@.len(),
{
    match trait_one(s, i) {
        None => (Vec::new(), i),
        Some((t, j)) => {
            let (mut rest, m) = traits_tail(s, j);
            let ghost tv = t.deep_view();
            rest.insert(0, t);
            proof {
                assert(rest.deep_view() =~= seq![tv] + spec_traits_tail(s@, j as int).0);
            }
            (rest, m)
        },
    }
}

} // verus!
