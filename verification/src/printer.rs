//! Pretty printing of markup elements, and its round trip.
//!
//! An element prints to canonical markup source: a text leaf prints as its
//! content, a tag without children prints self-closing, and a tag with
//! children prints as a container closed with its first trait's name.
//! Traits are space-separated, an argument list is parenthesized and
//! space-separated, an empty argument list is omitted.
//!
//! For every well-formed element — trait names are words, arguments are
//! argument tokens, text leaves are non-empty, hold no `<`, are trimmed and
//! never adjacent, and a tag with children has at least one trait — parsing
//! the printed form yields the element back ([`lemma_print_roundtrip`]).
//! Parse results themselves are of this shape up to degenerate text leaves
//! (a whitespace-only document parses to an empty text leaf, which prints
//! to nothing), so printing is a faithful inverse on every tree it accepts.

use vstd::prelude::*;
use crate::asml_parser::is_space;
use crate::asml_parser::is_word;
use crate::asml_parser::is_word_char;
use crate::asml_parser::is_word_extra;
use crate::asml_parser::is_word_extra_char;
use crate::asml_parser::Element;
use crate::asml_parser::ElemV;
use crate::asml_parser::Trait;
use crate::asml_parser::TraitV;

verus! {

/// A printable text leaf: non-empty, free of `<`, and trimmed.
pub open spec fn wf_text(t: Seq<char>) -> bool {
    t.len() > 0 && !is_space(t[0]) && !is_space(t[t.len() - 1]) && (forall|k: int|
        0 <= k < t.len() ==> t[k] != '<')
}

/// A printable trait: a word name with argument tokens.
pub open spec fn wf_trait(t: TraitV) -> bool {
    is_word(t.name) && (forall|k: int| 0 <= k < t.args.len() ==> is_word_extra(t.args[k]))
}

/// A printable element.
pub open spec fn wf_elem(e: ElemV) -> bool
    decreases e,
{
    match e {
        ElemV::Text(t) => wf_text(t),
        ElemV::Tag { traits, children } => (forall|k: int|
            0 <= k < traits.len() ==> wf_trait(traits[k])) && (children.len() > 0
            ==> traits.len() > 0) && wf_elems(children),
    }
}

/// A printable child list: each child printable, and no two text leaves
/// adjacent (their printed forms would merge into one).
pub open spec fn wf_elems(es: Seq<ElemV>) -> bool
    decreases es,
{
    if es.len() == 0 {
        true
    } else {
        wf_elem(es[0]) && wf_elems(es.drop_first()) && !(es[0] is Text && es.len() > 1 && es[1]
            is Text)
    }
}

/// The printed argument-list tail: a space before each further argument.
pub open spec fn spec_print_args_tail(args: Seq<Seq<char>>) -> Seq<char>
    decreases args.len(),
{
    if args.len() == 0 {
        Seq::empty()
    } else {
        seq![' '] + args[0] + spec_print_args_tail(args.drop_first())
    }
}

/// The printed trait: its name, and a parenthesized space-separated
/// argument list when one is present.
pub open spec fn spec_print_trait(t: TraitV) -> Seq<char> {
    if t.args.len() == 0 {
        t.name
    } else {
        t.name + seq!['('] + t.args[0] + spec_print_args_tail(t.args.drop_first()) + seq![')']
    }
}

/// The printed trait-list tail: a space before each further trait.
pub open spec fn spec_print_traits_tail(ts: Seq<TraitV>) -> Seq<char>
    decreases ts.len(),
{
    if ts.len() == 0 {
        Seq::empty()
    } else {
        seq![' '] + spec_print_trait(ts[0]) + spec_print_traits_tail(ts.drop_first())
    }
}

/// The printed trait list.
pub open spec fn spec_print_traits(ts: Seq<TraitV>) -> Seq<char> {
    if ts.len() == 0 {
        Seq::empty()
    } else {
        spec_print_trait(ts[0]) + spec_print_traits_tail(ts.drop_first())
    }
}

/// The printed element.
pub open spec fn spec_print(e: ElemV) -> Seq<char>
    decreases e,
{
    match e {
        ElemV::Text(t) => t,
        ElemV::Tag { traits, children } => if children.len() == 0 {
            seq!['<'] + spec_print_traits(traits) + seq!['/', '>']
        } else {
            seq!['<'] + spec_print_traits(traits) + seq!['>'] + spec_print_children(children)
                + seq!['<', '/'] + traits[0].name + seq!['>']
        },
    }
}

/// The printed child list: the children's prints, concatenated.
pub open spec fn spec_print_children(es: Seq<ElemV>) -> Seq<char>
    decreases es,
{
    if es.len() == 0 {
        Seq::empty()
    } else {
        spec_print(es[0]) + spec_print_children(es.drop_first())
    }
}

/// A well-formed element prints to at least one character, opening with
/// `<` for a tag (followed by `/` or a word character) and with its first
/// content character for a text leaf.
proof fn lemma_print_head(e: ElemV)
    requires
        wf_elem(e),
    ensures
        spec_print(e).len() >= 1,
        e is Tag ==> spec_print(e).len() >= 3 && spec_print(e)[0] == '<' && (spec_print(e)[1]
            == '/' || is_word_char(spec_print(e)[1])),
        e is Text ==> spec_print(e) == e->Text_0 && !is_space(spec_print(e)[0]) && spec_print(
            e,
        )[0] != '<',
{
    match e {
        ElemV::Text(t) => {},
        ElemV::Tag { traits, children } => {
            if traits.len() == 0 {
                assert(children.len() == 0);
                assert(spec_print_traits(traits) =~= Seq::<char>::empty());
                assert(spec_print(e) =~= seq!['<', '/', '>']);
            } else {
                let t0 = traits[0];
                assert(wf_trait(t0));
                assert(spec_print_trait(t0)[0] == t0.name[0]);
                assert(is_word_char(spec_print_traits(traits)[0]));
                assert(spec_print(e)[1] == spec_print_traits(traits)[0]);
            }
        },
    }
}

/// One character of a region: `s` holds `p` starting at `a`, so the
/// character at offset `k` is `p[k]`.
proof fn lemma_region_index(s: Seq<char>, a: int, p: Seq<char>, k: int)
    requires
        0 <= a,
        a + p.len() <= s.len(),
        s.subrange(a, a + p.len()) == p,
        0 <= k < p.len(),
    ensures
        s[a + k] == p[k],
{
    assert(s.subrange(a, a + p.len())[k] == s[a + k]);
}

/// A region holding a concatenation splits into its two halves.
proof fn lemma_region_split(s: Seq<char>, a: int, p: Seq<char>, q: Seq<char>)
    requires
        0 <= a,
        a + p.len() + q.len() <= s.len(),
        s.subrange(a, a + p.len() + q.len()) == p + q,
    ensures
        s.subrange(a, a + p.len()) == p,
        s.subrange(a + p.len(), a + p.len() + q.len()) == q,
{
    let w = s.subrange(a, a + p.len() + q.len());
    assert forall|k: int| 0 <= k < p.len() implies s.subrange(a, a + p.len())[k] == p[k] by {
        assert(w[k] == s[a + k]);
        assert(s.subrange(a, a + p.len())[k] == s[a + k]);
        assert(w[k] == (p + q)[k]);
    }
    assert(s.subrange(a, a + p.len()) =~= p);
    assert forall|k: int|
        0 <= k < q.len() implies s.subrange(a + p.len(), a + p.len() + q.len())[k] == q[k] by {
        assert(w[p.len() + k] == s[a + p.len() + k]);
        assert(s.subrange(a + p.len(), a + p.len() + q.len())[k] == s[a + p.len() + k]);
        assert(w[p.len() + k] == (p + q)[p.len() + k]);
    }
    assert(s.subrange(a + p.len(), a + p.len() + q.len()) =~= q);
}

/// A region holding a run of word-extra characters scans to its end.
proof fn lemma_region_word_extra(s: Seq<char>, a: int, w: Seq<char>)
    requires
        is_word_extra(w),
        0 <= a,
        a + w.len() < s.len(),
        s.subrange(a, a + w.len()) == w,
        !is_word_extra_char(s[a + w.len()]),
    ensures
        crate::asml_parser::spec_word_extra(s, a) == Some((w, a + w.len())),
{
    assert forall|k: int| a <= k < a + w.len() implies is_word_extra_char(s[k]) by {
        lemma_region_index(s, a, w, k - a);
    }
    crate::asml_parser::lemma_word_extra_end_run(s, a, a + w.len());
    assert(s.subrange(a, a + w.len()) =~= w);
}

/// A region holding a run of word characters scans to its end.
proof fn lemma_region_word(s: Seq<char>, a: int, w: Seq<char>)
    requires
        is_word(w),
        0 <= a,
        a + w.len() < s.len(),
        s.subrange(a, a + w.len()) == w,
        !is_word_char(s[a + w.len()]),
    ensures
        crate::asml_parser::spec_word(s, a) == Some((w, a + w.len())),
{
    assert forall|k: int| a <= k < a + w.len() implies is_word_char(s[k]) by {
        lemma_region_index(s, a, w, k - a);
    }
    crate::asml_parser::lemma_word_end_run(s, a, a + w.len());
    assert(s.subrange(a, a + w.len()) =~= w);
}

/// A printed argument-list tail parses back to its arguments, stopping at
/// the closing parenthesis that follows it.
proof fn lemma_args_tail_printed(s: Seq<char>, i: int, args: Seq<Seq<char>>)
    requires
        forall|k: int| 0 <= k < args.len() ==> is_word_extra(args[k]),
        0 <= i,
        i + spec_print_args_tail(args).len() < s.len(),
        s.subrange(i, i + spec_print_args_tail(args).len()) == spec_print_args_tail(args),
        s[i + spec_print_args_tail(args).len()] == ')',
    ensures
        crate::asml_parser::spec_args_tail(s, i) == (args, i + spec_print_args_tail(args).len()),
    decreases args.len(),
{
    let p = spec_print_args_tail(args);
    if args.len() == 0 {
        assert(s[i] == ')');
        assert(crate::asml_parser::spec_ws(s, i) == i);
        assert(crate::asml_parser::spec_ws1(s, i) is None);
    } else {
        let a0 = args[0];
        let rest = args.drop_first();
        let prest = spec_print_args_tail(rest);
        let m = i + 1 + a0.len() as int;
        assert(p =~= (seq![' '] + a0) + prest);
        lemma_region_split(s, i, seq![' '] + a0, prest);
        lemma_region_split(s, i, seq![' '], a0);
        lemma_region_index(s, i, seq![' '], 0);
        assert(s[i] == ' ');
        assert(s.subrange(i + 1, m) == a0);
        assert(s.subrange(m, m + prest.len()) == prest);
        lemma_region_index(s, i + 1, a0, 0);
        assert(s[i + 1] == a0[0]);
        assert(is_word_extra_char(s[i + 1]) && !is_space(s[i + 1]) && s[i + 1] != '<');
        assert(crate::asml_parser::spec_space_run(s, i + 1) == i + 1);
        assert(crate::asml_parser::spec_space_run(s, i) == i + 1);
        assert(crate::asml_parser::spec_comment(s, i + 1) is None);
        assert(crate::asml_parser::spec_ws(s, i + 1) == i + 1);
        assert(crate::asml_parser::spec_ws(s, i) == i + 1);
        assert(crate::asml_parser::spec_ws1(s, i) == Some(i + 1));
        if rest.len() == 0 {
            assert(m == i + p.len());
            assert(s[m] == ')');
        } else {
            lemma_region_index(s, m, prest, 0);
            assert(s[m] == ' ');
        }
        assert(!is_word_extra_char(s[m]));
        lemma_region_word_extra(s, i + 1, a0);
        lemma_args_tail_printed(s, m, rest);
        assert(seq![a0] + rest =~= args);
    }
}

/// A printed non-empty argument list, parentheses included, parses back.
proof fn lemma_args_printed(s: Seq<char>, i: int, args: Seq<Seq<char>>)
    requires
        args.len() > 0,
        forall|k: int| 0 <= k < args.len() ==> is_word_extra(args[k]),
        0 <= i,
        i + 2 + args[0].len() + spec_print_args_tail(args.drop_first()).len() <= s.len(),
        s.subrange(i, i + 2 + args[0].len() + spec_print_args_tail(args.drop_first()).len())
            == seq!['('] + args[0] + spec_print_args_tail(args.drop_first()) + seq![')'],
    ensures
        crate::asml_parser::spec_args(s, i) == Some(
            (args, i + 2 + args[0].len() + spec_print_args_tail(args.drop_first()).len()),
        ),
{
    let a0 = args[0];
    let rest = args.drop_first();
    let prest = spec_print_args_tail(rest);
    let m = i + 1 + a0.len() as int;
    let close = m + prest.len() as int;
    assert(seq!['('] + a0 + prest + seq![')'] =~= ((seq!['('] + a0) + prest) + seq![')']);
    lemma_region_split(s, i, (seq!['('] + a0) + prest, seq![')']);
    lemma_region_split(s, i, seq!['('] + a0, prest);
    lemma_region_split(s, i, seq!['('], a0);
    lemma_region_index(s, i, seq!['('], 0);
    lemma_region_index(s, close, seq![')'], 0);
    assert(s[i] == '(');
    assert(s[close] == ')');
    assert(s.subrange(i + 1, m) == a0);
    assert(s.subrange(m, close) == prest);
    lemma_region_index(s, i + 1, a0, 0);
    assert(is_word_extra_char(s[i + 1]) && !is_space(s[i + 1]) && s[i + 1] != '<');
    assert(crate::asml_parser::spec_comment(s, i + 1) is None);
    assert(crate::asml_parser::spec_ws(s, i + 1) == i + 1);
    if rest.len() == 0 {
        assert(m == close);
        assert(s[m] == ')');
    } else {
        lemma_region_index(s, m, prest, 0);
        assert(s[m] == ' ');
    }
    assert(!is_word_extra_char(s[m]));
    lemma_region_word_extra(s, i + 1, a0);
    lemma_args_tail_printed(s, m, rest);
    assert(crate::asml_parser::spec_args_list(s, i + 1) == (args, close)) by {
        assert(seq![a0] + rest =~= args);
    };
    assert(crate::asml_parser::spec_ws(s, close) == close);
    assert(crate::asml_parser::spec_args(s, i) == Some((args, close + 1)));
}

/// A printed trait parses back, stopping at the space, slash or closing
/// bracket that follows it.
proof fn lemma_trait_printed(s: Seq<char>, i: int, t: TraitV)
    requires
        wf_trait(t),
        0 <= i,
        i + spec_print_trait(t).len() < s.len(),
        s.subrange(i, i + spec_print_trait(t).len()) == spec_print_trait(t),
        s[i + spec_print_trait(t).len()] == ' ' || s[i + spec_print_trait(t).len()] == '/' || s[i
            + spec_print_trait(t).len()] == '>',
    ensures
        crate::asml_parser::spec_trait(s, i) == Some((t, i + spec_print_trait(t).len())),
{
    let p = spec_print_trait(t);
    let q = i + t.name.len() as int;
    if t.args.len() == 0 {
        assert(p == t.name);
        assert(!is_word_char(s[q]));
        lemma_region_word(s, i, t.name);
        assert(crate::asml_parser::spec_args(s, q) is None);
        assert(t =~~= TraitV { name: t.name, args: Seq::empty() });
    } else {
        let a0 = t.args[0];
        let rest = t.args.drop_first();
        let prest = spec_print_args_tail(rest);
        let pargs = seq!['('] + a0 + prest + seq![')'];
        assert(p =~= t.name + pargs);
        lemma_region_split(s, i, t.name, pargs);
        assert(s.subrange(q, q + pargs.len()) == pargs);
        lemma_region_index(s, q, pargs, 0);
        assert(s[q] == '(');
        assert(!is_word_char(s[q]));
        lemma_region_word(s, i, t.name);
        lemma_args_printed(s, q, t.args);
        assert(t =~~= TraitV { name: t.name, args: t.args });
    }
}

/// A printed trait-list tail parses back, stopping at the slash or closing
/// bracket that follows it.
proof fn lemma_traits_tail_printed(s: Seq<char>, i: int, ts: Seq<TraitV>)
    requires
        forall|k: int| 0 <= k < ts.len() ==> wf_trait(ts[k]),
        0 <= i,
        i + spec_print_traits_tail(ts).len() < s.len(),
        s.subrange(i, i + spec_print_traits_tail(ts).len()) == spec_print_traits_tail(ts),
        s[i + spec_print_traits_tail(ts).len()] == '/' || s[i + spec_print_traits_tail(ts).len()]
            == '>',
    ensures
        crate::asml_parser::spec_traits_tail(s, i) == (ts, i + spec_print_traits_tail(ts).len()),
    decreases ts.len(),
{
    let p = spec_print_traits_tail(ts);
    if ts.len() == 0 {
        assert(crate::asml_parser::spec_comment(s, i) is None);
        assert(crate::asml_parser::spec_ws(s, i) == i);
        assert(crate::asml_parser::spec_ws1(s, i) is None);
    } else {
        let t0 = ts[0];
        let pt = spec_print_trait(t0);
        let rest = ts.drop_first();
        let prest = spec_print_traits_tail(rest);
        let m = i + 1 + pt.len() as int;
        assert(p =~= (seq![' '] + pt) + prest);
        lemma_region_split(s, i, seq![' '] + pt, prest);
        lemma_region_split(s, i, seq![' '], pt);
        lemma_region_index(s, i, seq![' '], 0);
        assert(s[i] == ' ');
        assert(s.subrange(i + 1, m) == pt);
        assert(s.subrange(m, m + prest.len()) == prest);
        lemma_print_trait_head(t0);
        lemma_region_index(s, i + 1, pt, 0);
        assert(is_word_char(s[i + 1]) && !is_space(s[i + 1]) && s[i + 1] != '<');
        assert(crate::asml_parser::spec_space_run(s, i + 1) == i + 1);
        assert(crate::asml_parser::spec_space_run(s, i) == i + 1);
        assert(crate::asml_parser::spec_comment(s, i + 1) is None);
        assert(crate::asml_parser::spec_ws(s, i + 1) == i + 1);
        assert(crate::asml_parser::spec_ws(s, i) == i + 1);
        assert(crate::asml_parser::spec_ws1(s, i) == Some(i + 1));
        if rest.len() == 0 {
            assert(m == i + p.len());
        } else {
            lemma_region_index(s, m, prest, 0);
            assert(s[m] == ' ');
        }
        lemma_trait_printed(s, i + 1, t0);
        lemma_traits_tail_printed(s, m, rest);
        assert(seq![t0] + rest =~= ts);
    }
}

/// A printed trait's first character is its name's first word character.
proof fn lemma_print_trait_head(t: TraitV)
    requires
        wf_trait(t),
    ensures
        spec_print_trait(t).len() >= 1,
        spec_print_trait(t)[0] == t.name[0],
        is_word_char(spec_print_trait(t)[0]),
{
}

/// A printed trait list parses back, stopping at the slash or closing
/// bracket that follows it.
proof fn lemma_traits_printed(s: Seq<char>, i: int, ts: Seq<TraitV>)
    requires
        forall|k: int| 0 <= k < ts.len() ==> wf_trait(ts[k]),
        0 <= i,
        i + spec_print_traits(ts).len() < s.len(),
        s.subrange(i, i + spec_print_traits(ts).len()) == spec_print_traits(ts),
        s[i + spec_print_traits(ts).len()] == '/' || s[i + spec_print_traits(ts).len()] == '>',
    ensures
        crate::asml_parser::spec_traits_list(s, i) == (ts, i + spec_print_traits(ts).len()),
{
    let p = spec_print_traits(ts);
    if ts.len() == 0 {
        assert(!is_word_char(s[i]));
        assert(crate::asml_parser::spec_word(s, i) is None);
        assert(crate::asml_parser::spec_trait(s, i) is None);
    } else {
        let t0 = ts[0];
        let pt = spec_print_trait(t0);
        let rest = ts.drop_first();
        let prest = spec_print_traits_tail(rest);
        let m = i + pt.len() as int;
        assert(p =~= pt + prest);
        lemma_region_split(s, i, pt, prest);
        assert(s.subrange(i, m) == pt);
        assert(s.subrange(m, m + prest.len()) == prest);
        if rest.len() == 0 {
            assert(m == i + p.len());
        } else {
            lemma_region_index(s, m, prest, 0);
            assert(s[m] == ' ');
        }
        lemma_trait_printed(s, i, t0);
        lemma_traits_tail_printed(s, m, rest);
        assert(seq![t0] + rest =~= ts);
    }
}

/// A printed well-formed element parses back as one tag, consuming
/// exactly its printed characters: the character that follows (when one
/// does) must open a tag after a text leaf, and must extend no white
/// space after a tag.
#[verifier::rlimit(100)]
#[verifier::spinoff_prover]
proof fn lemma_elem_printed(s: Seq<char>, i: int, e: ElemV)
    requires
        wf_elem(e),
        0 <= i,
        i + spec_print(e).len() <= s.len(),
        s.subrange(i, i + spec_print(e).len()) == spec_print(e),
        e is Text ==> (i + spec_print(e).len() == s.len() || s[i + spec_print(e).len()] == '<'),
        e is Tag ==> (i + spec_print(e).len() == s.len() || (!is_space(
            s[i + spec_print(e).len()],
        ) && crate::asml_parser::spec_comment(s, i + spec_print(e).len()) is None)),
    ensures
        crate::asml_parser::spec_tag(s, i) == Some((e, i + spec_print(e).len())),
    decreases e,
{
    let p = spec_print(e);
    let j = i + p.len() as int;
    match e {
        ElemV::Text(t) => {
            assert(p == t);
            assert forall|k: int| i <= k < j implies s[k] != '<' by {
                lemma_region_index(s, i, p, k - i);
            }
            crate::asml_parser::lemma_para_end_run(s, i, j);
            lemma_region_index(s, i, p, 0);
            lemma_region_index(s, i, p, p.len() - 1);
            assert(!is_space(s[i]));
            assert(!is_space(s[j - 1]));
            assert(crate::asml_parser::spec_trim_start(s, i, j) == i);
            assert(crate::asml_parser::spec_trim_end(s, i, j) == j);
            assert(s.subrange(i, j) == t);
            assert(crate::asml_parser::spec_trim(s, i, j) == t);
            assert(crate::asml_parser::spec_paragraph(s, i) == Some((t, j)));
        },
        ElemV::Tag { traits, children } => {
            lemma_print_head(e);
            assert(p[0] == '<' && (p[1] == '/' || is_word_char(p[1])));
            lemma_region_index(s, i, p, 0);
            lemma_region_index(s, i, p, 1);
            assert(s[i] == '<');
            assert(s[i + 1] != '#' && s[i + 1] != '<' && !is_space(s[i + 1]));
            assert(crate::asml_parser::spec_para_end(s, i) == i);
            assert(crate::asml_parser::spec_paragraph(s, i) is None);
            assert(crate::asml_parser::spec_comment(s, i) is None);
            assert(crate::asml_parser::spec_ws(s, i) == i);
            assert(crate::asml_parser::spec_comment(s, i + 1) is None);
            assert(crate::asml_parser::spec_ws(s, i + 1) == i + 1);
            let ptr = spec_print_traits(traits);
            let b0 = i + 1;
            let c0 = b0 + ptr.len() as int;
            if children.len() == 0 {
                assert(p =~= (seq!['<'] + ptr) + seq!['/', '>']);
                lemma_region_split(s, i, seq!['<'] + ptr, seq!['/', '>']);
                lemma_region_split(s, i, seq!['<'], ptr);
                assert(s.subrange(b0, c0) == ptr);
                lemma_region_index(s, c0, seq!['/', '>'], 0);
                lemma_region_index(s, c0, seq!['/', '>'], 1);
                assert(s[c0] == '/' && s[c0 + 1] == '>');
                lemma_traits_printed(s, b0, traits);
                assert(crate::asml_parser::spec_comment(s, c0) is None);
                assert(crate::asml_parser::spec_ws(s, c0) == c0);
                assert(crate::asml_parser::spec_ws(s, j) == j);
                assert(crate::asml_parser::spec_selfclose(s, i) == Some(
                    (ElemV::Tag { traits, children: Seq::empty() }, j),
                ));
                assert(children =~= Seq::<ElemV>::empty());
                assert(ElemV::Tag { traits, children: Seq::empty() } =~~= e);
            } else {
                assert(traits.len() > 0);
                let name = traits[0].name;
                let pch = spec_print_children(children);
                let d0 = c0 + 1;
                let e0 = d0 + pch.len() as int;
                let f0 = e0 + 2;
                let g0 = f0 + name.len() as int;
                assert(p =~= (((((seq!['<'] + ptr) + seq!['>']) + pch) + seq!['<', '/']) + name)
                    + seq!['>']);
                lemma_region_split(
                    s,
                    i,
                    ((((seq!['<'] + ptr) + seq!['>']) + pch) + seq!['<', '/']) + name,
                    seq!['>'],
                );
                lemma_region_split(
                    s,
                    i,
                    (((seq!['<'] + ptr) + seq!['>']) + pch) + seq!['<', '/'],
                    name,
                );
                lemma_region_split(s, i, ((seq!['<'] + ptr) + seq!['>']) + pch, seq!['<', '/']);
                lemma_region_split(s, i, (seq!['<'] + ptr) + seq!['>'], pch);
                lemma_region_split(s, i, seq!['<'] + ptr, seq!['>']);
                lemma_region_split(s, i, seq!['<'], ptr);
                assert(s.subrange(b0, c0) == ptr);
                lemma_region_index(s, c0, seq!['>'], 0);
                assert(s[c0] == '>');
                assert(s.subrange(d0, e0) == pch);
                lemma_region_index(s, e0, seq!['<', '/'], 0);
                lemma_region_index(s, e0, seq!['<', '/'], 1);
                assert(s[e0] == '<' && s[e0 + 1] == '/');
                assert(s.subrange(f0, g0) == name);
                lemma_region_index(s, g0, seq!['>'], 0);
                assert(s[g0] == '>');
                lemma_traits_printed(s, b0, traits);
                assert(crate::asml_parser::spec_selfclose(s, i) is None);
                // White space consumes nothing before the first child.
                let c0v = children[0];
                let pc0 = spec_print(c0v);
                assert(wf_elem(c0v));
                lemma_print_head(c0v);
                assert(pch =~= pc0 + spec_print_children(children.drop_first()));
                lemma_region_split(s, d0, pc0, spec_print_children(children.drop_first()));
                lemma_region_index(s, d0, pc0, 0);
                assert(!is_space(s[d0]));
                if c0v is Tag {
                    lemma_region_index(s, d0, pc0, 1);
                    assert(s[d0 + 1] != '#');
                }
                assert(crate::asml_parser::spec_comment(s, d0) is None);
                assert(crate::asml_parser::spec_ws(s, d0) == d0);
                assert(i < d0 <= s.len());
                lemma_children_printed(s, d0, children);
                assert(crate::asml_parser::spec_children(s, d0) == (children, e0));
                lemma_region_index(s, f0, name, 0);
                assert(is_word_char(s[f0]));
                lemma_region_word(s, f0, name);
                assert(crate::asml_parser::spec_comment(s, g0) is None);
                assert(crate::asml_parser::spec_ws(s, g0) == g0);
                assert(crate::asml_parser::spec_ws(s, j) == j);
                assert(crate::asml_parser::spec_container(s, i) == Some(
                    (ElemV::Tag { traits, children }, j),
                ));
                assert(ElemV::Tag { traits, children } =~~= e);
            }
        },
    }
}

/// A printed well-formed child list parses back, stopping exactly at the
/// closing `</name` that follows it.
#[verifier::rlimit(100)]
#[verifier::spinoff_prover]
proof fn lemma_children_printed(s: Seq<char>, i: int, es: Seq<ElemV>)
    requires
        wf_elems(es),
        0 <= i,
        i + spec_print_children(es).len() + 2 < s.len(),
        s.subrange(i, i + spec_print_children(es).len()) == spec_print_children(es),
        s[i + spec_print_children(es).len()] == '<',
        s[i + spec_print_children(es).len() + 1] == '/',
        is_word_char(s[i + spec_print_children(es).len() + 2]),
    ensures
        crate::asml_parser::spec_children(s, i) == (es, i + spec_print_children(es).len()),
    decreases es,
{
    let pch = spec_print_children(es);
    let j = i + pch.len() as int;
    if es.len() == 0 {
        // At `</name`: no further tag parses here.
        assert(crate::asml_parser::spec_para_end(s, i) == i);
        assert(crate::asml_parser::spec_paragraph(s, i) is None);
        assert(crate::asml_parser::spec_comment(s, i) is None);
        assert(crate::asml_parser::spec_ws(s, i) == i);
        assert(crate::asml_parser::spec_comment(s, i + 1) is None);
        assert(crate::asml_parser::spec_ws(s, i + 1) == i + 1);
        assert(crate::asml_parser::spec_word(s, i + 1) is None);
        assert(crate::asml_parser::spec_trait(s, i + 1) is None);
        assert(crate::asml_parser::spec_traits_list(s, i + 1) == (Seq::<TraitV>::empty(), i + 1));
        assert(s[i + 2] != '>');
        assert(crate::asml_parser::spec_selfclose(s, i) is None);
        assert(crate::asml_parser::spec_container(s, i) is None);
        assert(crate::asml_parser::spec_tag(s, i) is None);
    } else {
        let el = es[0];
        let pel = spec_print(el);
        let rest = es.drop_first();
        let prest = spec_print_children(rest);
        let m = i + pel.len() as int;
        assert(pch =~= pel + prest);
        lemma_region_split(s, i, pel, prest);
        assert(s.subrange(i, m) == pel);
        assert(s.subrange(m, m + prest.len()) == prest);
        lemma_print_head(el);
        // The boundary after this element.
        if rest.len() == 0 {
            assert(m == j);
            assert(s[m] == '<' && s[m + 1] == '/');
            assert(crate::asml_parser::spec_comment(s, m) is None);
        } else {
            let nx = rest[0];
            let pnx = spec_print(nx);
            assert(wf_elems(rest));
            assert(wf_elem(nx));
            lemma_print_head(nx);
            assert(prest =~= pnx + spec_print_children(rest.drop_first()));
            lemma_region_split(s, m, pnx, spec_print_children(rest.drop_first()));
            lemma_region_index(s, m, pnx, 0);
            if el is Text {
                assert(!(nx is Text));
                assert(s[m] == '<');
            } else {
                assert(!is_space(s[m]));
                if nx is Tag {
                    lemma_region_index(s, m, pnx, 1);
                    assert(s[m + 1] != '#');
                }
                assert(crate::asml_parser::spec_comment(s, m) is None);
            }
        }
        lemma_elem_printed(s, i, el);
        assert(crate::asml_parser::spec_tag(s, i) == Some((el, m)));
        lemma_children_printed(s, m, rest);
        assert(seq![el] + rest =~= es);
    }
}

/// Law: parse, pretty-print, reparse is structurally idempotent. Printing
/// any well-formed element and parsing the result yields the element back.
pub proof fn lemma_print_roundtrip(e: ElemV)
    requires
        wf_elem(e),
    ensures
        crate::asml_parser::spec_parse_tag(spec_print(e)) == Some(e),
{
    let s = spec_print(e);
    assert(s.subrange(0, s.len() as int) =~= s);
    lemma_print_head(e);
    lemma_elem_printed(s, 0, e);
}

/// The models of a vector of elements.
pub open spec fn child_views(v: Seq<Element>) -> Seq<ElemV> {
    Seq::new(v.len(), |i: int| v[i].deep_view())
}

fn append_args_tail(out: &mut String, args: &Vec<String>, k: usize)
    requires
        k <= args@.len(),
    ensures
        final(out)@ == old(out)@ + spec_print_args_tail(args.deep_view().skip(k as int)),
    decreases args@.len() - k,
{
    let ghost argsv = args.deep_view();
    if k < args.len() {
        let ghost before = out@;
        out.append(" ");
        out.append(args[k].as_str());
        append_args_tail(out, args, k + 1);
        proof {
            reveal_strlit(" ");
            assert(" "@ =~= seq![' ']);
            assert(argsv.skip(k as int)[0] == argsv[k as int]);
            assert(argsv.skip(k as int).drop_first() =~= argsv.skip(k as int + 1));
            assert(argsv[k as int] == args@[k as int]@);
            assert(out@ =~= before + spec_print_args_tail(argsv.skip(k as int)));
        }
    } else {
        proof {
            assert(argsv.skip(k as int) =~= Seq::<Seq<char>>::empty());
            assert(out@ =~= out@ + spec_print_args_tail(argsv.skip(k as int)));
        }
    }
}

fn append_trait(out: &mut String, t: &Trait)
    ensures
        final(out)@ == old(out)@ + spec_print_trait(t.deep_view()),
{
    let ghost before = out@;
    let ghost tv = t.deep_view();
    out.append(t.name.as_str());
    if t.args.len() > 0 {
        out.append("(");
        out.append(t.args[0].as_str());
        append_args_tail(out, &t.args, 1);
        out.append(")");
        proof {
            reveal_strlit("(");
            reveal_strlit(")");
            assert("("@ =~= seq!['(']);
            assert(")"@ =~= seq![')']);
            assert(tv.args[0] == t.args@[0]@);
            assert(t.args.deep_view().skip(1) =~= tv.args.drop_first());
            assert(out@ =~= before + spec_print_trait(tv));
        }
    } else {
        proof {
            assert(tv.args.len() == 0);
            assert(out@ =~= before + spec_print_trait(tv));
        }
    }
}

fn append_traits_tail(out: &mut String, ts: &Vec<Trait>, k: usize)
    requires
        k <= ts@.len(),
    ensures
        final(out)@ == old(out)@ + spec_print_traits_tail(ts.deep_view().skip(k as int)),
    decreases ts@.len() - k,
{
    let ghost tsv = ts.deep_view();
    if k < ts.len() {
        let ghost before = out@;
        out.append(" ");
        append_trait(out, &ts[k]);
        append_traits_tail(out, ts, k + 1);
        proof {
            reveal_strlit(" ");
            assert(" "@ =~= seq![' ']);
            assert(tsv.skip(k as int)[0] == tsv[k as int]);
            assert(tsv.skip(k as int).drop_first() =~= tsv.skip(k as int + 1));
            assert(tsv[k as int] == ts@[k as int].deep_view());
            assert(out@ =~= before + spec_print_traits_tail(tsv.skip(k as int)));
        }
    } else {
        proof {
            assert(tsv.skip(k as int) =~= Seq::<TraitV>::empty());
            assert(out@ =~= out@ + spec_print_traits_tail(tsv.skip(k as int)));
        }
    }
}

fn append_traits(out: &mut String, ts: &Vec<Trait>)
    ensures
        final(out)@ == old(out)@ + spec_print_traits(ts.deep_view()),
{
    let ghost before = out@;
    let ghost tsv = ts.deep_view();
    if ts.len() > 0 {
        append_trait(out, &ts[0]);
        append_traits_tail(out, ts, 1);
        proof {
            assert(tsv[0] == ts@[0].deep_view());
            assert(tsv.skip(1) =~= tsv.drop_first());
            assert(out@ =~= before + spec_print_traits(tsv));
        }
    } else {
        proof {
            assert(out@ =~= out@ + spec_print_traits(tsv));
        }
    }
}

fn append_element(out: &mut String, e: &Element)
    requires
        wf_elem(e.deep_view()),
    ensures
        final(out)@ == old(out)@ + spec_print(e.deep_view()),
    decreases *e, 0int,
{
    let ghost ev = e.deep_view();
    let ghost before = out@;
    match e {
        Element::Text(t) => {
            out.append(t.as_str());
        },
        Element::Tag { traits, children } => {
            let ghost tsv = traits.deep_view();
            let ghost chv = ev->Tag_children;
            proof {
                assert(chv.len() == children@.len());
                assert(chv =~= child_views(children@)) by {
                    assert forall|x: int| 0 <= x < children@.len() implies chv[x]
                        == child_views(children@)[x] by {}
                };
            }
            if children.len() == 0 {
                out.append("<");
                append_traits(out, traits);
                out.append("/>");
                proof {
                    reveal_strlit("<");
                    reveal_strlit("/>");
                    assert("<"@ =~= seq!['<']);
                    assert("/>"@ =~= seq!['/', '>']);
                    assert(out@ =~= before + spec_print(ev));
                }
            } else {
                out.append("<");
                append_traits(out, traits);
                out.append(">");
                proof {
                    assert(child_views(children@).skip(0) =~= chv);
                    assert(wf_elems(child_views(children@).skip(0)));
                }
                append_children(out, children, 0);
                out.append("</");
                out.append(traits[0].name.as_str());
                out.append(">");
                proof {
                    reveal_strlit("<");
                    reveal_strlit(">");
                    reveal_strlit("</");
                    assert("<"@ =~= seq!['<']);
                    assert(">"@ =~= seq!['>']);
                    assert("</"@ =~= seq!['<', '/']);
                    assert(child_views(children@).skip(0) =~= chv);
                    assert(tsv[0].name == traits@[0].name@);
                    assert(out@ =~= before + spec_print(ev));
                }
            }
        },
    }
}

fn append_children(out: &mut String, children: &Vec<Element>, k: usize)
    requires
        k <= children@.len(),
        wf_elems(child_views(children@).skip(k as int)),
    ensures
        final(out)@ == old(out)@ + spec_print_children(child_views(children@).skip(k as int)),
    decreases *children, children@.len() - k,
{
    let ghost chv = child_views(children@);
    if k < children.len() {
        let ghost before = out@;
        proof {
            assert(chv.skip(k as int)[0] == chv[k as int]);
            assert(chv[k as int] == children@[k as int].deep_view());
            assert(chv.skip(k as int).drop_first() =~= chv.skip(k as int + 1));
            assert(wf_elems(chv.skip(k as int + 1)));
        }
        append_element(out, &children[k]);
        append_children(out, children, k + 1);
        proof {
            assert(out@ =~= before + spec_print_children(chv.skip(k as int)));
        }
    } else {
        proof {
            assert(chv.skip(k as int) =~= Seq::<ElemV>::empty());
            assert(out@ =~= out@ + spec_print_children(chv.skip(k as int)));
        }
    }
}

/// Pretty-prints a well-formed element to canonical markup source;
/// parsing the result yields the element back, as
/// [`lemma_print_roundtrip`] states.
pub fn print_element(e: &Element) -> (r: String)
    requires
        wf_elem(e.deep_view()),
    ensures
        r@ == spec_print(e.deep_view()),
{
    let mut out = String::new();
    append_element(&mut out, e);
    proof {
        assert(out@ =~= spec_print(e.deep_view()));
    }
    out
}

} // verus!
