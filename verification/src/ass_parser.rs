//! Parser for the constraint-based styling language.
//!
//! A stylesheet is a sequence of named style rules and aliases. A rule maps
//! attribute names to ordered lists of (relation, expression) constraint
//! terms; an alias expands one name into several. The grammar, with ordered
//! choice and greedy repetition (`ws` is a run of white space; no comments):
//!
//! ```text
//! word        = ['a'..'z' | '_' | '0'..'9']+
//! number      = ['0'..'9']+
//! hex         = "#" hexdigit*<6>
//! relation    = "=" | "<=" | ">="
//! entity      = "$parent" | "$window" | word
//! attribute   = entity "[" word "]"
//! attr_or_val = attribute | number | hex
//! alias       = word ws* "=" ws* word ** " "
//! arith       = attribute ws* "-" ws* arith
//!             | attribute ws* "+" ws* arith
//!             | attr_or_val
//! constraint  = ws* relation ws* arith
//! entry       = word constraint ** ", else"
//! rule        = word ws* "{" ws* entry ** ws ws* "}"
//! stylesheet  = ws* (rule | alias) ** ws*
//! ```
//!
//! An arithmetic chain nests to the right, so every left operand is an
//! entity reference. Entries of one rule are collected into an attribute map:
//! a repeated attribute name keeps its first position and the last value.
//! Aliases are parsed but filtered out of the returned rule sequence. A
//! numeric literal too large for `u32` is a syntax error.

use vstd::prelude::*;
use crate::asml_parser::space_run;
use crate::asml_parser::spec_space_run;
use crate::asml_parser::spec_word;
use crate::asml_parser::word;
use crate::asml_parser::ParseError;

verus! {

/// The entity an expression refers to: the node's parent, the window, or
/// the node bound to another style rule.
#[derive(Debug, PartialEq)]
pub enum Entity {
    Parent,
    Window,
    Other(String),
}

/// How a constraint term relates an attribute to an expression.
#[derive(Debug, PartialEq, Eq, Structural, Clone, Copy)]
pub enum Relation {
    GE,
    EQ,
    LE,
}

/// An alias line `from = to1 to2 ...`: one rule name expanding to others.
#[derive(Debug, PartialEq)]
pub struct Alias {
    pub from: String,
    pub to: Vec<String>,
}

/// A constraint expression: a literal, a reference to another entity's
/// attribute, or an arithmetic combination.
#[derive(Debug, PartialEq)]
pub enum Arith {
    Ref(Entity, String),
    Num(u32),
    Add(Box<Arith>, Box<Arith>),
    Sub(Box<Arith>, Box<Arith>),
}

/// A named style rule: an ordered map from attribute names to constraint
/// term lists.
#[derive(Debug, PartialEq)]
pub struct Style {
    pub name: String,
    pub attrs: Vec<(String, Vec<(Relation, Arith)>)>,
}

/// One stylesheet item: a style rule or an alias.
#[derive(Debug, PartialEq)]
pub enum StyleOrAlias {
    OrStyle(Style),
    OrAlias(Alias),
}

/// Mathematical model of an `Entity`.
#[verifier::ext_equal]
pub enum EntityV {
    Parent,
    Window,
    Other(Seq<char>),
}

/// Mathematical model of an `Arith`.
#[verifier::ext_equal]
pub enum ArithV {
    Ref(EntityV, Seq<char>),
    Num(u32),
    Add(Box<ArithV>, Box<ArithV>),
    Sub(Box<ArithV>, Box<ArithV>),
}

/// Mathematical model of an `Alias`.
#[verifier::ext_equal]
pub struct AliasV {
    pub from: Seq<char>,
    pub to: Seq<Seq<char>>,
}

/// Mathematical model of a `Style`.
#[verifier::ext_equal]
pub struct StyleV {
    pub name: Seq<char>,
    pub attrs: Seq<(Seq<char>, Seq<(Relation, ArithV)>)>,
}

/// Mathematical model of a `StyleOrAlias`.
#[verifier::ext_equal]
pub enum StyleOrAliasV {
    OrStyle(StyleV),
    OrAlias(AliasV),
}

impl DeepView for Entity {
    type V = EntityV;

    open spec fn deep_view(&self) -> EntityV {
        match self {
            Entity::Parent => EntityV::Parent,
            Entity::Window => EntityV::Window,
            Entity::Other(w) => EntityV::Other(w@),
        }
    }
}

impl DeepView for Relation {
    type V = Relation;

    open spec fn deep_view(&self) -> Relation {
        *self
    }
}

impl DeepView for Arith {
    type V = ArithV;

    open spec fn deep_view(&self) -> ArithV
        decreases self,
    {
        match self {
            Arith::Ref(e, w) => ArithV::Ref(e.deep_view(), w@),
            Arith::Num(n) => ArithV::Num(*n),
            Arith::Add(a, b) => ArithV::Add(
                Box::new((**a).deep_view()),
                Box::new((**b).deep_view()),
            ),
            Arith::Sub(a, b) => ArithV::Sub(
                Box::new((**a).deep_view()),
                Box::new((**b).deep_view()),
            ),
        }
    }
}

impl DeepView for Alias {
    type V = AliasV;

    open spec fn deep_view(&self) -> AliasV {
        AliasV { from: self.from@, to: self.to.deep_view() }
    }
}

impl DeepView for Style {
    type V = StyleV;

    open spec fn deep_view(&self) -> StyleV {
        StyleV { name: self.name@, attrs: self.attrs.deep_view() }
    }
}

impl DeepView for StyleOrAlias {
    type V = StyleOrAliasV;

    open spec fn deep_view(&self) -> StyleOrAliasV {
        match self {
            StyleOrAlias::OrStyle(st) => StyleOrAliasV::OrStyle(st.deep_view()),
            StyleOrAlias::OrAlias(al) => StyleOrAliasV::OrAlias(al.deep_view()),
        }
    }
}

/// A decimal digit.
pub open spec fn is_digit(c: char) -> bool {
    '0' as u32 <= c as u32 && c as u32 <= '9' as u32
}

/// A hexadecimal digit, upper or lower case.
pub open spec fn is_hex_digit(c: char) -> bool {
    is_digit(c) || ('a' as u32 <= c as u32 && c as u32 <= 'f' as u32) || ('A' as u32 <= c as u32
        && c as u32 <= 'F' as u32)
}

/// The numeric value of a hexadecimal digit.
pub open spec fn hex_digit_val(c: char) -> int {
    if is_digit(c) {
        c as u32 - '0' as u32
    } else if 'a' as u32 <= c as u32 && c as u32 <= 'f' as u32 {
        c as u32 - 'a' as u32 + 10
    } else {
        c as u32 - 'A' as u32 + 10
    }
}

fn is_digit_exec(c: char) -> (b: bool)
    ensures
        b == is_digit(c),
{
    let u = c as u32;
    48 <= u && u <= 57
}

/// End of the maximal run of decimal digits starting at `i`.
pub open spec fn spec_digits_end(s: Seq<char>, i: int) -> int
    decreases s.len() - i,
{
    if 0 <= i && i < s.len() && is_digit(s[i]) {
        spec_digits_end(s, i + 1)
    } else {
        i
    }
}

fn digits_end(s: &str, i: usize) -> (r: usize)
    requires
        i <= s@.len(),
    ensures
        r == spec_digits_end(s@, i as int),
        i <= r <= s@.len(),
    decreases s@.len() - i,
{
    let n = s.unicode_len();
    if i < n && is_digit_exec(s.get_char(i)) {
        digits_end(s, i + 1)
    } else {
        i
    }
}

/// The value of the decimal digit run `[i, j)` of `s`.
pub open spec fn spec_digits_val(s: Seq<char>, i: int, j: int) -> int
    decreases j - i,
{
    if i < j {
        spec_digits_val(s, i, j - 1) * 10 + (s[j - 1] as u32 - '0' as u32)
    } else {
        0
    }
}

proof fn lemma_digits_range(s: Seq<char>, i: int, k: int)
    requires
        0 <= i <= k < spec_digits_end(s, i),
    ensures
        k < s.len() && is_digit(s[k]),
    decreases k - i,
{
    if k > i {
        lemma_digits_range(s, i + 1, k);
    }
}

proof fn lemma_digits_val_nonneg(s: Seq<char>, i: int, j: int)
    requires
        0 <= i <= j <= spec_digits_end(s, i),
    ensures
        spec_digits_val(s, i, j) >= 0,
    decreases j - i,
{
    if i < j {
        lemma_digits_range(s, i, j - 1);
        lemma_digits_val_nonneg(s, i, j - 1);
    }
}

proof fn lemma_digits_val_monotone(s: Seq<char>, i: int, a: int, b: int)
    requires
        0 <= i <= a <= b <= spec_digits_end(s, i),
    ensures
        0 <= spec_digits_val(s, i, a) <= spec_digits_val(s, i, b),
    decreases b - a,
{
    lemma_digits_val_nonneg(s, i, a);
    if a < b {
        lemma_digits_range(s, i, b - 1);
        lemma_digits_val_monotone(s, i, a, b - 1);
    }
}

/// A `number` token: one or more decimal digits, valued as a `u32`. A run
/// whose value does not fit in `u32` is rejected.
pub open spec fn spec_number(s: Seq<char>, i: int) -> Option<(u32, int)> {
    let j = spec_digits_end(s, i);
    if i < j && spec_digits_val(s, i, j) <= u32::MAX {
        Some((spec_digits_val(s, i, j) as u32, j))
    } else {
        None
    }
}

fn number(s: &str, i: usize) -> (r: Option<(u32, usize)>)
    requires
        i <= s@.len(),
    ensures
        match r {
            Some((v, j)) => spec_number(s@, i as int) == Some((v, j as int)) && i < j <= s@.len(),
            None => spec_number(s@, i as int) is None,
        },
{
    let j = digits_end(s, i);
    if j == i {
        return None;
    }
    let mut v: u32 = 0;
    let mut k = i;
    while k < j
        invariant
            i <= k <= j <= s@.len(),
            j == spec_digits_end(s@, i as int),
            v == spec_digits_val(s@, i as int, k as int),
        decreases j - k,
    {
        proof {
            lemma_digits_range(s@, i as int, k as int);
        }
        let c = s.get_char(k);
        let d: u32 = c as u32 - 48;
        let w: u64 = v as u64 * 10 + d as u64;
        if w > u32::MAX as u64 {
            proof {
                lemma_digits_val_monotone(s@, i as int, k as int + 1, j as int);
            }
            return None;
        }
        v = w as u32;
        k = k + 1;
    }
    Some((v, j))
}

fn is_hex_digit_exec(c: char) -> (b: bool)
    ensures
        b == is_hex_digit(c),
{
    let u = c as u32;
    (48 <= u && u <= 57) || (97 <= u && u <= 102) || (65 <= u && u <= 70)
}

fn hex_digit_val_exec(c: char) -> (v: u32)
    requires
        is_hex_digit(c),
    ensures
        v == hex_digit_val(c),
        v < 16,
{
    let u = c as u32;
    if 48 <= u && u <= 57 {
        u - 48
    } else if 97 <= u && u <= 102 {
        u - 97 + 10
    } else {
        u - 65 + 10
    }
}

/// A `hex` token: `#` followed by exactly six hexadecimal digits.
pub open spec fn spec_hex(s: Seq<char>, i: int) -> Option<(u32, int)> {
    if 0 <= i && i + 7 <= s.len() && s[i] == '#' && is_hex_digit(s[i + 1]) && is_hex_digit(
        s[i + 2],
    ) && is_hex_digit(s[i + 3]) && is_hex_digit(s[i + 4]) && is_hex_digit(s[i + 5])
        && is_hex_digit(s[i + 6]) {
        let v = ((((hex_digit_val(s[i + 1]) * 16 + hex_digit_val(s[i + 2])) * 16 + hex_digit_val(
            s[i + 3],
        )) * 16 + hex_digit_val(s[i + 4])) * 16 + hex_digit_val(s[i + 5])) * 16 + hex_digit_val(
            s[i + 6],
        );
        Some((v as u32, i + 7))
    } else {
        None
    }
}

fn hex(s: &str, i: usize) -> (r: Option<(u32, usize)>)
    requires
        i <= s@.len(),
    ensures
        match r {
            Some((v, j)) => spec_hex(s@, i as int) == Some((v, j as int)) && i < j <= s@.len(),
            None => spec_hex(s@, i as int) is None,
        },
{
    let n = s.unicode_len();
    if i < n && n - i >= 7 && s.get_char(i) == '#' && is_hex_digit_exec(s.get_char(i + 1))
        && is_hex_digit_exec(s.get_char(i + 2)) && is_hex_digit_exec(s.get_char(i + 3))
        && is_hex_digit_exec(s.get_char(i + 4)) && is_hex_digit_exec(s.get_char(i + 5))
        && is_hex_digit_exec(s.get_char(i + 6)) {
        let v = ((((hex_digit_val_exec(s.get_char(i + 1)) * 16 + hex_digit_val_exec(
            s.get_char(i + 2),
        )) * 16 + hex_digit_val_exec(s.get_char(i + 3))) * 16 + hex_digit_val_exec(
            s.get_char(i + 4),
        )) * 16 + hex_digit_val_exec(s.get_char(i + 5))) * 16 + hex_digit_val_exec(
            s.get_char(i + 6),
        );
        Some((v, i + 7))
    } else {
        None
    }
}

/// A `relation` token: `=`, `<=` or `>=`, tried in that order.
pub open spec fn spec_relation(s: Seq<char>, i: int) -> Option<(Relation, int)> {
    if 0 <= i && i < s.len() && s[i] == '=' {
        Some((Relation::EQ, i + 1))
    } else if 0 <= i && i + 1 < s.len() && s[i] == '<' && s[i + 1] == '=' {
        Some((Relation::LE, i + 2))
    } else if 0 <= i && i + 1 < s.len() && s[i] == '>' && s[i + 1] == '=' {
        Some((Relation::GE, i + 2))
    } else {
        None
    }
}

fn relation(s: &str, i: usize) -> (r: Option<(Relation, usize)>)
    requires
        i <= s@.len(),
    ensures
        match r {
            Some((rel, j)) => spec_relation(s@, i as int) == Some((rel, j as int)) && i < j
                <= s@.len(),
            None => spec_relation(s@, i as int) is None,
        },
{
    let n = s.unicode_len();
    if i < n && s.get_char(i) == '=' {
        Some((Relation::EQ, i + 1))
    } else if i < n && i + 1 < n && s.get_char(i) == '<' && s.get_char(i + 1) == '=' {
        Some((Relation::LE, i + 2))
    } else if i < n && i + 1 < n && s.get_char(i) == '>' && s.get_char(i + 1) == '=' {
        Some((Relation::GE, i + 2))
    } else {
        None
    }
}

/// The literal `$parent` at `i`.
pub open spec fn spec_lit_parent(s: Seq<char>, i: int) -> bool {
    0 <= i && i + 7 <= s.len() && s[i] == '$' && s[i + 1] == 'p' && s[i + 2] == 'a' && s[i + 3]
        == 'r' && s[i + 4] == 'e' && s[i + 5] == 'n' && s[i + 6] == 't'
}

/// The literal `$window` at `i`.
pub open spec fn spec_lit_window(s: Seq<char>, i: int) -> bool {
    0 <= i && i + 7 <= s.len() && s[i] == '$' && s[i + 1] == 'w' && s[i + 2] == 'i' && s[i + 3]
        == 'n' && s[i + 4] == 'd' && s[i + 5] == 'o' && s[i + 6] == 'w'
}

/// An `entity`: `$parent`, `$window`, or a word naming another style.
pub open spec fn spec_entity(s: Seq<char>, i: int) -> Option<(EntityV, int)> {
    if spec_lit_parent(s, i) {
        Some((EntityV::Parent, i + 7))
    } else if spec_lit_window(s, i) {
        Some((EntityV::Window, i + 7))
    } else {
        match spec_word(s, i) {
            Some((w, j)) => Some((EntityV::Other(w), j)),
            None => None,
        }
    }
}

fn entity(s: &str, i: usize) -> (r: Option<(Entity, usize)>)
    requires
        i <= s@.len(),
    ensures
        match r {
            Some((e, j)) => spec_entity(s@, i as int) == Some((e.deep_view(), j as int)) && i < j
                <= s@.len(),
            None => spec_entity(s@, i as int) is None,
        },
{
    let n = s.unicode_len();
    if i < n && n - i >= 7 && s.get_char(i) == '$' && s.get_char(i + 1) == 'p' && s.get_char(i + 2)
        == 'a' && s.get_char(i + 3) == 'r' && s.get_char(i + 4) == 'e' && s.get_char(i + 5) == 'n'
        && s.get_char(i + 6) == 't' {
        Some((Entity::Parent, i + 7))
    } else if i < n && n - i >= 7 && s.get_char(i) == '$' && s.get_char(i + 1) == 'w' && s.get_char(
        i + 2,
    ) == 'i' && s.get_char(i + 3) == 'n' && s.get_char(i + 4) == 'd' && s.get_char(i + 5) == 'o'
        && s.get_char(i + 6) == 'w' {
        Some((Entity::Window, i + 7))
    } else {
        match word(s, i) {
            Some((w, j)) => Some((Entity::Other(w), j)),
            None => None,
        }
    }
}

/// An `attribute`: an entity followed by a bracketed attribute name.
pub open spec fn spec_attribute(s: Seq<char>, i: int) -> Option<(ArithV, int)> {
    match spec_entity(s, i) {
        None => None,
        Some((e, j)) => if j < s.len() && s[j] == '[' {
            match spec_word(s, j + 1) {
                Some((w, k)) => if k < s.len() && s[k] == ']' {
                    Some((ArithV::Ref(e, w), k + 1))
                } else {
                    None
                },
                None => None,
            }
        } else {
            None
        },
    }
}

fn attribute(s: &str, i: usize) -> (r: Option<(Arith, usize)>)
    requires
        i <= s@.len(),
    ensures
        match r {
            Some((a, j)) => spec_attribute(s@, i as int) == Some((a.deep_view(), j as int)) && i < j
                <= s@.len(),
            None => spec_attribute(s@, i as int) is None,
        },
{
    let n = s.unicode_len();
    match entity(s, i) {
        None => None,
        Some((e, j)) => if j < n && s.get_char(j) == '[' {
            match word(s, j + 1) {
                Some((w, k)) => if k < n && s.get_char(k) == ']' {
                    Some((Arith::Ref(e, w), k + 1))
                } else {
                    None
                },
                None => None,
            }
        } else {
            None
        },
    }
}

/// An `attr_or_val`: an attribute reference, a decimal number, or a hex
/// colour, tried in that order.
pub open spec fn spec_attr_or_val(s: Seq<char>, i: int) -> Option<(ArithV, int)> {
    match spec_attribute(s, i) {
        Some(r) => Some(r),
        None => match spec_number(s, i) {
            Some((v, j)) => Some((ArithV::Num(v), j)),
            None => match spec_hex(s, i) {
                Some((v, j)) => Some((ArithV::Num(v), j)),
                None => None,
            },
        },
    }
}

/// The shared prefix of the arithmetic alternatives: an attribute
/// reference, white space, the operator `op`, white space. Yields the
/// reference and the position after the trailing white space.
pub open spec fn spec_attr_op(s: Seq<char>, i: int, op: char) -> Option<(ArithV, int)> {
    match spec_attribute(s, i) {
        None => None,
        Some((p1, j)) => {
            let j2 = spec_space_run(s, j);
            if j2 < s.len() && s[j2] == op {
                Some((p1, spec_space_run(s, j2 + 1)))
            } else {
                None
            }
        },
    }
}

fn attr_op(s: &str, i: usize, op: char) -> (r: Option<(Arith, usize)>)
    requires
        i <= s@.len(),
    ensures
        match r {
            Some((a, j)) => spec_attr_op(s@, i as int, op) == Some((a.deep_view(), j as int)) && i
                < j <= s@.len(),
            None => spec_attr_op(s@, i as int, op) is None,
        },
{
    let n = s.unicode_len();
    match attribute(s, i) {
        None => None,
        Some((p1, j)) => {
            let j2 = space_run(s, j);
            if j2 < n && s.get_char(j2) == op {
                Some((p1, space_run(s, j2 + 1)))
            } else {
                None
            }
        },
    }
}

/// An `arith` expression, alternatives in grammar order: a reference
/// combined with a further expression, else a plain reference or literal.
/// A chain `p[x]+q[y]+r[z]` therefore nests to the right, every left
/// operand an entity reference.
pub open spec fn spec_arith(s: Seq<char>, i: int) -> Option<(ArithV, int)>
    decreases s.len() - i,
{
    let alt1 = match spec_attr_op(s, i, '-') {
        None => None,
        Some((p1, j)) => if i < j <= s.len() {
            match spec_arith(s, j) {
                Some((a2, k)) => Some((ArithV::Sub(Box::new(p1), Box::new(a2)), k)),
                None => None,
            }
        } else {
            None
        },
    };
    if alt1 is Some {
        alt1
    } else {
        let alt2 = match spec_attr_op(s, i, '+') {
            None => None,
            Some((p1, j)) => if i < j <= s.len() {
                match spec_arith(s, j) {
                    Some((a2, k)) => Some((ArithV::Add(Box::new(p1), Box::new(a2)), k)),
                    None => None,
                }
            } else {
                None
            },
        };
        if alt2 is Some {
            alt2
        } else {
            spec_attr_or_val(s, i)
        }
    }
}

fn arith(s: &str, i: usize) -> (r: Option<(Arith, usize)>)
    requires
        i <= s@.len(),
    ensures
        match r {
            Some((a, j)) => spec_arith(s@, i as int) == Some((a.deep_view(), j as int)) && i < j
                <= s@.len(),
            None => spec_arith(s@, i as int) is None,
        },
    decreases s@.len() - i,
{
    if let Some((p1, j)) = attr_op(s, i, '-') {
        if let Some((a2, k)) = arith(s, j) {
            return Some((Arith::Sub(Box::new(p1), Box::new(a2)), k));
        }
    }
    if let Some((p1, j)) = attr_op(s, i, '+') {
        if let Some((a2, k)) = arith(s, j) {
            return Some((Arith::Add(Box::new(p1), Box::new(a2)), k));
        }
    }
    attr_or_val(s, i)
}

/// A `constraint`: white space, a relation, white space, an expression.
pub open spec fn spec_constraint(s: Seq<char>, i: int) -> Option<((Relation, ArithV), int)> {
    let j = spec_space_run(s, i);
    match spec_relation(s, j) {
        None => None,
        Some((rel, k)) => {
            let m = spec_space_run(s, k);
            match spec_arith(s, m) {
                Some((a, e)) => Some(((rel, a), e)),
                None => None,
            }
        },
    }
}

fn constraint(s: &str, i: usize) -> (r: Option<((Relation, Arith), usize)>)
    requires
        i <= s@.len(),
    ensures
        match r {
            Some((t, j)) => spec_constraint(s@, i as int) == Some(
                ((t.0, t.1.deep_view()), j as int),
            ) && i < j <= s@.len(),
            None => spec_constraint(s@, i as int) is None,
        },
{
    let j = space_run(s, i);
    match relation(s, j) {
        None => None,
        Some((rel, k)) => {
            let m = space_run(s, k);
            match arith(s, m) {
                Some((a, e)) => Some(((rel, a), e)),
                None => None,
            }
        },
    }
}

/// The literal `, else` at `i`.
pub open spec fn spec_lit_else(s: Seq<char>, i: int) -> bool {
    0 <= i && i + 6 <= s.len() && s[i] == ',' && s[i + 1] == ' ' && s[i + 2] == 'e' && s[i + 3]
        == 'l' && s[i + 4] == 's' && s[i + 5] == 'e'
}

/// The tail of `constraint ** ", else"`.
pub open spec fn spec_terms_tail(s: Seq<char>, i: int) -> (Seq<(Relation, ArithV)>, int)
    decreases s.len() - i,
{
    if spec_lit_else(s, i) {
        match spec_constraint(s, i + 6) {
            None => (Seq::empty(), i),
            Some((t, k)) => if i < k <= s.len() {
                let (rest, m) = spec_terms_tail(s, k);
                (seq![t] + rest, m)
            } else {
                (Seq::empty(), i)
            },
        }
    } else {
        (Seq::empty(), i)
    }
}

/// The term list `constraint ** ", else"`: zero or more terms.
pub open spec fn spec_terms_list(s: Seq<char>, i: int) -> (Seq<(Relation, ArithV)>, int) {
    match spec_constraint(s, i) {
        None => (Seq::empty(), i),
        Some((t, j)) => if i < j <= s.len() {
            let (rest, m) = spec_terms_tail(s, j);
            (seq![t] + rest, m)
        } else {
            (Seq::empty(), i)
        },
    }
}

fn terms_tail(s: &str, i: usize) -> (r: (Vec<(Relation, Arith)>, usize))
    requires
        i <= s@.len(),
    ensures
        (r.0.deep_view(), r.1 as int) == spec_terms_tail(s@, i as int),
        i <= r.1 <= s@.len(),
    decreases s@.len() - i,
{
    let n = s.unicode_len();
    if i < n && n - i >= 6 && s.get_char(i) == ',' && s.get_char(i + 1) == ' ' && s.get_char(i + 2)
        == 'e' && s.get_char(i + 3) == 'l' && s.get_char(i + 4) == 's' && s.get_char(i + 5)
        == 'e' {
        match constraint(s, i + 6) {
            None => (Vec::new(), i),
            Some((t, k)) => {
                let (mut rest, m) = terms_tail(s, k);
                let ghost tv = (t.0, t.1.deep_view());
                rest.insert(0, t);
                proof {
                    assert(rest.deep_view() =~= seq![tv] + spec_terms_tail(s@, k as int).0);
                }
                (rest, m)
            },
        }
    } else {
        (Vec::new(), i)
    }
}

fn terms_list(s: &str, i: usize) -> (r: (Vec<(Relation, Arith)>, usize))
    requires
        i <= s@.len(),
    ensures
        (r.0.deep_view(), r.1 as int) == spec_terms_list(s@, i as int),
        i <= r.1 <= s@.len(),
{
    match constraint(s, i) {
        None => (Vec::new(), i),
        Some((t, j)) => {
            let (mut rest, m) = terms_tail(s, j);
            let ghost tv = (t.0, t.1.deep_view());
            rest.insert(0, t);
            proof {
                assert(rest.deep_view() =~= seq![tv] + spec_terms_tail(s@, j as int).0);
            }
            (rest, m)
        },
    }
}

/// An `entry`: an attribute name with its term list.
pub open spec fn spec_entry_rule(s: Seq<char>, i: int) -> Option<
    ((Seq<char>, Seq<(Relation, ArithV)>), int),
> {
    match spec_word(s, i) {
        None => None,
        Some((attr, j)) => {
            let (terms, k) = spec_terms_list(s, j);
            Some(((attr, terms), k))
        },
    }
}

fn entry_rule(s: &str, i: usize) -> (r: Option<((String, Vec<(Relation, Arith)>), usize)>)
    requires
        i <= s@.len(),
    ensures
        match r {
            Some((en, j)) => spec_entry_rule(s@, i as int) == Some(
                ((en.0@, en.1.deep_view()), j as int),
            ) && i < j <= s@.len(),
            None => spec_entry_rule(s@, i as int) is None,
        },
{
    match word(s, i) {
        None => None,
        Some((attr, j)) => {
            let (terms, k) = terms_list(s, j);
            Some(((attr, terms), k))
        },
    }
}

/// The tail of `entry ** ws`.
pub open spec fn spec_entries_tail(s: Seq<char>, i: int) -> (
    Seq<(Seq<char>, Seq<(Relation, ArithV)>)>,
    int,
)
    decreases s.len() - i,
{
    let j = spec_space_run(s, i);
    if i < j <= s.len() {
        match spec_entry_rule(s, j) {
            None => (Seq::empty(), i),
            Some((en, k)) => if i < k <= s.len() {
                let (rest, m) = spec_entries_tail(s, k);
                (seq![en] + rest, m)
            } else {
                (Seq::empty(), i)
            },
        }
    } else {
        (Seq::empty(), i)
    }
}

/// The entry list `entry ** ws`: zero or more entries.
pub open spec fn spec_entries_list(s: Seq<char>, i: int) -> (
    Seq<(Seq<char>, Seq<(Relation, ArithV)>)>,
    int,
) {
    match spec_entry_rule(s, i) {
        None => (Seq::empty(), i),
        Some((en, j)) => if i < j <= s.len() {
            let (rest, m) = spec_entries_tail(s, j);
            (seq![en] + rest, m)
        } else {
            (Seq::empty(), i)
        },
    }
}

fn entries_tail(s: &str, i: usize) -> (r: (Vec<(String, Vec<(Relation, Arith)>)>, usize))
    requires
        i <= s@.len(),
    ensures
        (r.0.deep_view(), r.1 as int) == spec_entries_tail(s@, i as int),
        i <= r.1 <= s@.len(),
    decreases s@.len() - i,
{
    let j = space_run(s, i);
    if j > i {
        match entry_rule(s, j) {
            None => (Vec::new(), i),
            Some((en, k)) => {
                let (mut rest, m) = entries_tail(s, k);
                let ghost env = (en.0@, en.1.deep_view());
                rest.insert(0, en);
                proof {
                    assert(rest.deep_view() =~= seq![env] + spec_entries_tail(s@, k as int).0);
                }
                (rest, m)
            },
        }
    } else {
        (Vec::new(), i)
    }
}

fn entries_list(s: &str, i: usize) -> (r: (Vec<(String, Vec<(Relation, Arith)>)>, usize))
    requires
        i <= s@.len(),
    ensures
        (r.0.deep_view(), r.1 as int) == spec_entries_list(s@, i as int),
        i <= r.1 <= s@.len(),
{
    match entry_rule(s, i) {
        None => (Vec::new(), i),
        Some((en, j)) => {
            let (mut rest, m) = entries_tail(s, j);
            let ghost env = (en.0@, en.1.deep_view());
            rest.insert(0, en);
            proof {
                assert(rest.deep_view() =~= seq![env] + spec_entries_tail(s@, j as int).0);
            }
            (rest, m)
        },
    }
}

/// Index of the first entry of `m` at or after `idx` whose key is `k`,
/// or -1.
pub open spec fn spec_find_attr(
    m: Seq<(Seq<char>, Seq<(Relation, ArithV)>)>,
    k: Seq<char>,
    idx: int,
) -> int
    decreases m.len() - idx,
{
    if idx < 0 || idx >= m.len() {
        -1
    } else if m[idx].0 == k {
        idx
    } else {
        spec_find_attr(m, k, idx + 1)
    }
}

/// Inserting into the attribute map: a present key keeps its position and
/// takes the new value, an absent key is appended.
pub open spec fn spec_insert_attr(
    m: Seq<(Seq<char>, Seq<(Relation, ArithV)>)>,
    k: Seq<char>,
    v: Seq<(Relation, ArithV)>,
) -> Seq<(Seq<char>, Seq<(Relation, ArithV)>)> {
    let f = spec_find_attr(m, k, 0);
    if f >= 0 {
        m.update(f, (k, v))
    } else {
        m.push((k, v))
    }
}

/// The attribute map collected from a rule's entries, in order.
pub open spec fn spec_collect_attrs(entries: Seq<(Seq<char>, Seq<(Relation, ArithV)>)>) -> Seq<
    (Seq<char>, Seq<(Relation, ArithV)>),
>
    decreases entries.len(),
{
    if entries.len() == 0 {
        Seq::empty()
    } else {
        spec_insert_attr(
            spec_collect_attrs(entries.drop_last()),
            entries.last().0,
            entries.last().1,
        )
    }
}

fn find_attr(m: &Vec<(String, Vec<(Relation, Arith)>)>, k: &String, idx: usize) -> (r: Option<
    usize,
>)
    requires
        idx <= m@.len(),
    ensures
        match r {
            Some(f) => f as int == spec_find_attr(m.deep_view(), k@, idx as int) && idx <= f
                < m@.len(),
            None => spec_find_attr(m.deep_view(), k@, idx as int) == -1,
        },
    decreases m@.len() - idx,
{
    if idx == m.len() {
        None
    } else if m[idx].0 == *k {
        Some(idx)
    } else {
        find_attr(m, k, idx + 1)
    }
}

fn insert_attr(m: &mut Vec<(String, Vec<(Relation, Arith)>)>, k: String, v: Vec<(Relation, Arith)>)
    ensures
        final(m).deep_view() == spec_insert_attr(old(m).deep_view(), k@, v.deep_view()),
{
    let ghost oldm = m.deep_view();
    let ghost kv = k@;
    let ghost vv = v.deep_view();
    match find_attr(m, &k, 0) {
        Some(f) => {
            m.remove(f);
            m.insert(f, (k, v));
            proof {
                assert(m.deep_view() =~= oldm.update(f as int, (kv, vv)));
            }
        },
        None => {
            m.push((k, v));
            proof {
                assert(m.deep_view() =~= oldm.push((kv, vv)));
            }
        },
    }
}

fn collect_attrs(entries: Vec<(String, Vec<(Relation, Arith)>)>) -> (r: Vec<
    (String, Vec<(Relation, Arith)>),
>)
    ensures
        r.deep_view() == spec_collect_attrs(entries.deep_view()),
{
    let mut rest = entries;
    let ghost orig = rest.deep_view();
    let mut m: Vec<(String, Vec<(Relation, Arith)>)> = Vec::new();
    let ghost mut cnt: int = 0;
    proof {
        assert(orig.take(0) =~= Seq::empty());
    }
    while rest.len() > 0
        invariant
            cnt + rest@.len() == orig.len(),
            0 <= cnt,
            rest.deep_view() =~= orig.skip(cnt),
            m.deep_view() == spec_collect_attrs(orig.take(cnt)),
        decreases rest@.len(),
    {
        let ghost prev = rest.deep_view();
        let ghost prevv = rest@;
        let e = rest.remove(0);
        proof {
            assert(prev[0] == prevv[0].deep_view());
            assert(e.deep_view() == orig[cnt]);
            assert forall|x: int| 0 <= x < rest@.len() implies rest.deep_view()[x] == prev[x
                + 1] by {
                assert(rest@[x] == prevv[x + 1]);
            }
            assert(rest.deep_view() =~= orig.skip(cnt + 1));
            assert(orig.take(cnt + 1).drop_last() =~= orig.take(cnt));
            assert(orig.take(cnt + 1).last() == orig[cnt]);
        }
        insert_attr(&mut m, e.0, e.1);
        proof {
            cnt = cnt + 1;
        }
    }
    proof {
        assert(orig.take(cnt) =~= orig);
    }
    m
}

fn attr_or_val(s: &str, i: usize) -> (r: Option<(Arith, usize)>)
    requires
        i <= s@.len(),
    ensures
        match r {
            Some((a, j)) => spec_attr_or_val(s@, i as int) == Some((a.deep_view(), j as int)) && i
                < j <= s@.len(),
            None => spec_attr_or_val(s@, i as int) is None,
        },
{
    match attribute(s, i) {
        Some(r) => Some(r),
        None => match number(s, i) {
            Some((v, j)) => Some((Arith::Num(v), j)),
            None => match hex(s, i) {
                Some((v, j)) => Some((Arith::Num(v), j)),
                None => None,
            },
        },
    }
}

/// A style rule `word ws* "{" ws* entry ** ws ws* "}"`, its entries
/// collected into the attribute map.
pub open spec fn spec_style_rule(s: Seq<char>, i: int) -> Option<(StyleV, int)> {
    match spec_word(s, i) {
        None => None,
        Some((name, j)) => {
            let j2 = spec_space_run(s, j);
            if j2 < s.len() && s[j2] == '{' {
                let j3 = spec_space_run(s, j2 + 1);
                let (entries, k) = spec_entries_list(s, j3);
                let k2 = spec_space_run(s, k);
                if k2 < s.len() && s[k2] == '}' {
                    Some((StyleV { name, attrs: spec_collect_attrs(entries) }, k2 + 1))
                } else {
                    None
                }
            } else {
                None
            }
        },
    }
}

fn style_rule(s: &str, i: usize) -> (r: Option<(Style, usize)>)
    requires
        i <= s@.len(),
    ensures
        match r {
            Some((st, j)) => spec_style_rule(s@, i as int) == Some((st.deep_view(), j as int)) && i
                < j <= s@.len(),
            None => spec_style_rule(s@, i as int) is None,
        },
{
    let n = s.unicode_len();
    match word(s, i) {
        None => None,
        Some((name, j)) => {
            let j2 = space_run(s, j);
            if j2 < n && s.get_char(j2) == '{' {
                let j3 = space_run(s, j2 + 1);
                let (entries, k) = entries_list(s, j3);
                let k2 = space_run(s, k);
                if k2 < n && s.get_char(k2) == '}' {
                    let attrs = collect_attrs(entries);
                    Some((Style { name, attrs }, k2 + 1))
                } else {
                    None
                }
            } else {
                None
            }
        },
    }
}

/// The tail of `word ** " "`: a single-space separator then a word.
pub open spec fn spec_alias_tail(s: Seq<char>, i: int) -> (Seq<Seq<char>>, int)
    decreases s.len() - i,
{
    if 0 <= i && i < s.len() && s[i] == ' ' {
        match spec_word(s, i + 1) {
            None => (Seq::empty(), i),
            Some((w, k)) => if i < k <= s.len() {
                let (rest, m) = spec_alias_tail(s, k);
                (seq![w] + rest, m)
            } else {
                (Seq::empty(), i)
            },
        }
    } else {
        (Seq::empty(), i)
    }
}

/// An alias line `word ws* "=" ws* word ** " "`.
pub open spec fn spec_alias(s: Seq<char>, i: int) -> Option<(AliasV, int)> {
    match spec_word(s, i) {
        None => None,
        Some((from, j)) => {
            let j2 = spec_space_run(s, j);
            if j2 < s.len() && s[j2] == '=' {
                let j3 = spec_space_run(s, j2 + 1);
                match spec_word(s, j3) {
                    None => Some((AliasV { from, to: Seq::empty() }, j3)),
                    Some((w, k)) => if j3 < k <= s.len() {
                        let (rest, m) = spec_alias_tail(s, k);
                        Some((AliasV { from, to: seq![w] + rest }, m))
                    } else {
                        Some((AliasV { from, to: Seq::empty() }, j3))
                    },
                }
            } else {
                None
            }
        },
    }
}

fn alias_tail(s: &str, i: usize) -> (r: (Vec<String>, usize))
    requires
        i <= s@.len(),
    ensures
        (r.0.deep_view(), r.1 as int) == spec_alias_tail(s@, i as int),
        i <= r.1 <= s@.len(),
    decreases s@.len() - i,
{
    let n = s.unicode_len();
    if i < n && s.get_char(i) == ' ' {
        match word(s, i + 1) {
            None => (Vec::new(), i),
            Some((w, k)) => {
                let (mut rest, m) = alias_tail(s, k);
                rest.insert(0, w);
                proof {
                    assert(rest.deep_view() =~= seq![w@] + spec_alias_tail(s@, k as int).0);
                }
                (rest, m)
            },
        }
    } else {
        (Vec::new(), i)
    }
}

fn alias_at(s: &str, i: usize) -> (r: Option<(Alias, usize)>)
    requires
        i <= s@.len(),
    ensures
        match r {
            Some((al, j)) => spec_alias(s@, i as int) == Some((al.deep_view(), j as int)) && i < j
                <= s@.len(),
            None => spec_alias(s@, i as int) is None,
        },
{
    let n = s.unicode_len();
    match word(s, i) {
        None => None,
        Some((from, j)) => {
            let j2 = space_run(s, j);
            if j2 < n && s.get_char(j2) == '=' {
                let j3 = space_run(s, j2 + 1);
                match word(s, j3) {
                    None => {
                        let al = Alias { from, to: Vec::new() };
                        proof {
                            assert(al.deep_view().to =~= Seq::<Seq<char>>::empty());
                        }
                        Some((al, j3))
                    },
                    Some((w, k)) => {
                        let (mut rest, m) = alias_tail(s, k);
                        rest.insert(0, w);
                        proof {
                            assert(rest.deep_view() =~= seq![w@] + spec_alias_tail(
                                s@,
                                k as int,
                            ).0);
                        }
                        Some((Alias { from, to: rest }, m))
                    },
                }
            } else {
                None
            }
        },
    }
}

/// A stylesheet item: a style rule, else an alias.
pub open spec fn spec_style_or_alias(s: Seq<char>, i: int) -> Option<(StyleOrAliasV, int)> {
    match spec_style_rule(s, i) {
        Some((st, j)) => Some((StyleOrAliasV::OrStyle(st), j)),
        None => match spec_alias(s, i) {
            Some((al, j)) => Some((StyleOrAliasV::OrAlias(al), j)),
            None => None,
        },
    }
}

fn style_or_alias(s: &str, i: usize) -> (r: Option<(StyleOrAlias, usize)>)
    requires
        i <= s@.len(),
    ensures
        match r {
            Some((it, j)) => spec_style_or_alias(s@, i as int) == Some(
                (it.deep_view(), j as int),
            ) && i < j <= s@.len(),
            None => spec_style_or_alias(s@, i as int) is None,
        },
{
    match style_rule(s, i) {
        Some((st, j)) => Some((StyleOrAlias::OrStyle(st), j)),
        None => match alias_at(s, i) {
            Some((al, j)) => Some((StyleOrAlias::OrAlias(al), j)),
            None => None,
        },
    }
}

/// The tail of `(rule | alias) ** ws*`: the separator may be empty.
pub open spec fn spec_sheet_tail(s: Seq<char>, i: int) -> (Seq<StyleOrAliasV>, int)
    decreases s.len() - i,
{
    let j = spec_space_run(s, i);
    if i <= j <= s.len() {
        match spec_style_or_alias(s, j) {
            None => (Seq::empty(), i),
            Some((it, k)) => if i < k <= s.len() {
                let (rest, m) = spec_sheet_tail(s, k);
                (seq![it] + rest, m)
            } else {
                (Seq::empty(), i)
            },
        }
    } else {
        (Seq::empty(), i)
    }
}

/// The item list `(rule | alias) ** ws*`: zero or more items.
pub open spec fn spec_sheet_list(s: Seq<char>, i: int) -> (Seq<StyleOrAliasV>, int) {
    match spec_style_or_alias(s, i) {
        None => (Seq::empty(), i),
        Some((it, j)) => if i < j <= s.len() {
            let (rest, m) = spec_sheet_tail(s, j);
            (seq![it] + rest, m)
        } else {
            (Seq::empty(), i)
        },
    }
}

fn sheet_tail(s: &str, i: usize) -> (r: (Vec<StyleOrAlias>, usize))
    requires
        i <= s@.len(),
    ensures
        (r.0.deep_view(), r.1 as int) == spec_sheet_tail(s@, i as int),
        i <= r.1 <= s@.len(),
    decreases s@.len() - i,
{
    let j = space_run(s, i);
    match style_or_alias(s, j) {
        None => (Vec::new(), i),
        Some((it, k)) => {
            let (mut rest, m) = sheet_tail(s, k);
            let ghost itv = it.deep_view();
            rest.insert(0, it);
            proof {
                assert(rest.deep_view() =~= seq![itv] + spec_sheet_tail(s@, k as int).0);
            }
            (rest, m)
        },
    }
}

fn sheet_list(s: &str, i: usize) -> (r: (Vec<StyleOrAlias>, usize))
    requires
        i <= s@.len(),
    ensures
        (r.0.deep_view(), r.1 as int) == spec_sheet_list(s@, i as int),
        i <= r.1 <= s@.len(),
{
    match style_or_alias(s, i) {
        None => (Vec::new(), i),
        Some((it, j)) => {
            let (mut rest, m) = sheet_tail(s, j);
            let ghost itv = it.deep_view();
            rest.insert(0, it);
            proof {
                assert(rest.deep_view() =~= seq![itv] + spec_sheet_tail(s@, j as int).0);
            }
            (rest, m)
        },
    }
}

/// The style rules among a sheet's items, in order; aliases are dropped.
pub open spec fn spec_styles_of(items: Seq<StyleOrAliasV>) -> Seq<StyleV>
    decreases items.len(),
{
    if items.len() == 0 {
        Seq::empty()
    } else {
        match items[0] {
            StyleOrAliasV::OrStyle(st) => seq![st] + spec_styles_of(items.drop_first()),
            StyleOrAliasV::OrAlias(_) => spec_styles_of(items.drop_first()),
        }
    }
}

fn styles_of(items: Vec<StyleOrAlias>) -> (r: Vec<Style>)
    ensures
        r.deep_view() == spec_styles_of(items.deep_view()),
    decreases items@.len(),
{
    let mut items = items;
    let ghost itemsv = items.deep_view();
    if items.len() == 0 {
        Vec::new()
    } else {
        let ghost prevv = items@;
        let first = items.remove(0);
        proof {
            assert(first.deep_view() == itemsv[0]);
            assert forall|x: int| 0 <= x < items@.len() implies items.deep_view()[x] == itemsv[x
                + 1] by {
                assert(items@[x] == prevv[x + 1]);
            }
            assert(items.deep_view() =~= itemsv.drop_first());
        }
        let rest = styles_of(items);
        match first {
            StyleOrAlias::OrStyle(st) => {
                let ghost stv = st.deep_view();
                let mut rest = rest;
                rest.insert(0, st);
                proof {
                    assert(rest.deep_view() =~= seq![stv] + spec_styles_of(
                        itemsv.drop_first(),
                    ));
                }
                rest
            },
            StyleOrAlias::OrAlias(_) => rest,
        }
    }
}

/// The stylesheet language accepted by [`stylesheet`]: leading white
/// space, a sheet item list, and nothing else; valued as its style rules.
pub open spec fn spec_stylesheet(s: Seq<char>) -> Option<Seq<StyleV>> {
    let start = spec_space_run(s, 0);
    let (items, k) = spec_sheet_list(s, start);
    if k == s.len() {
        Some(spec_styles_of(items))
    } else {
        None
    }
}

/// Parses a stylesheet: a sequence of style rules and aliases.
///
/// Returns `Ok` exactly on the inputs the grammar accepts, and then the
/// rules are the grammar's parse, in source order, aliases filtered out.
pub fn stylesheet(s: &str) -> (r: Result<Vec<Style>, ParseError>)
    ensures
        match r {
            Ok(styles) => spec_stylesheet(s@) == Some(styles.deep_view()),
            Err(_) => spec_stylesheet(s@) is None,
        },
{
    let n = s.unicode_len();
    let start = space_run(s, 0);
    let (items, k) = sheet_list(s, start);
    if k == n {
        Ok(styles_of(items))
    } else {
        Err(ParseError)
    }
}

/// The alias language accepted by [`alias`]: one alias line consuming the
/// entire input.
pub open spec fn spec_parse_alias(s: Seq<char>) -> Option<AliasV> {
    match spec_alias(s, 0) {
        Some((al, j)) => if j == s.len() {
            Some(al)
        } else {
            None
        },
        None => None,
    }
}

/// Parses one alias line `from = to1 to2 ...`.
///
/// Returns `Ok` exactly on the inputs the grammar accepts.
pub fn alias(s: &str) -> (r: Result<Alias, ParseError>)
    ensures
        match r {
            Ok(al) => spec_parse_alias(s@) == Some(al.deep_view()),
            Err(_) => spec_parse_alias(s@) is None,
        },
{
    let n = s.unicode_len();
    match alias_at(s, 0) {
        Some((al, j)) => if j == n {
            Ok(al)
        } else {
            Err(ParseError)
        },
        None => Err(ParseError),
    }
}

} // verus!
