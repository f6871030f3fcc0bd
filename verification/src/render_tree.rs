//! Projection of solved values into the read-only render tree.
//!
//! After the external solver has produced a value for every variable, each
//! style node is replaced by a render node holding, per attribute, the
//! solved value of its variable, and each property expression list is
//! evaluated to its literal value (the last literal wins; an empty list is
//! zero; any non-literal property expression is an error). The tree is
//! generic in the solved value type, which the caller supplies: this crate
//! never computes with the real-valued solutions, only carries them.

use vstd::prelude::*;
use crate::ass_parser::Arith;
use crate::ass_parser::ArithV;
use crate::ass_parser::Relation;
use crate::style_tree::clone_string;
use crate::style_tree::spec_style_node;
use crate::style_tree::ElemRef;
use crate::style_tree::StyleNode;
use crate::style_tree::StyleNodeV;

verus! {

/// Why render tree derivation failed.
#[derive(Debug, PartialEq, Eq, Structural, Clone, Copy)]
pub enum RenderError {
    /// A node id has no entry in the solved-value table.
    MissingNode,
    /// A property carries a non-literal expression.
    InvalidExpression,
}

/// A node's resolved attributes: solved constraint values and evaluated
/// literal properties.
#[derive(Debug, PartialEq)]
pub struct RenderData<V> {
    pub constraints: Vec<(String, V)>,
    pub properties: Vec<(String, u32)>,
}

/// One node of the render tree, parallel to the style tree.
#[derive(Debug, PartialEq)]
pub struct RenderNode<V> {
    pub id: usize,
    pub attrs: RenderData<V>,
    pub children: Vec<RenderNode<V>>,
    pub element: ElemRef,
}

/// Mathematical model of a `RenderData`.
#[verifier::ext_equal]
pub struct RenderDataV<V> {
    pub constraints: Seq<(Seq<char>, V)>,
    pub properties: Seq<(Seq<char>, u32)>,
}

/// Mathematical model of a `RenderNode`.
#[verifier::ext_equal]
pub struct RenderNodeV<V> {
    pub id: int,
    pub attrs: RenderDataV<V>,
    pub children: Seq<RenderNodeV<V>>,
    pub element: ElemRef,
}

/// Mathematical model of a solved or rendered attribute-value list.
pub open spec fn spec_pairs_view<V>(p: Seq<(String, V)>) -> Seq<(Seq<char>, V)> {
    Seq::new(p.len(), |i: int| (p[i].0@, p[i].1))
}

/// Mathematical model of a `RenderData`.
pub open spec fn spec_render_data<V>(d: RenderData<V>) -> RenderDataV<V> {
    RenderDataV {
        constraints: spec_pairs_view(d.constraints@),
        properties: spec_pairs_view(d.properties@),
    }
}

/// Mathematical model of a `RenderNode`, recursively over its children.
pub open spec fn spec_render_node<V>(n: RenderNode<V>) -> RenderNodeV<V>
    decreases n,
{
    RenderNodeV {
        id: n.id as int,
        attrs: spec_render_data(n.attrs),
        children: Seq::new(
            n.children.len() as nat,
            |i: int|
                if 0 <= i < n.children.len() {
                    spec_render_node(n.children[i])
                } else {
                    RenderNodeV {
                        id: 0,
                        attrs: RenderDataV { constraints: Seq::empty(), properties: Seq::empty() },
                        children: Seq::empty(),
                        element: ElemRef::TextAt(0),
                    }
                },
        ),
        element: n.element,
    }
}

/// Mathematical model of the solved-value table.
pub open spec fn spec_solved_view<V>(s: Seq<(usize, Vec<(String, V)>)>) -> Seq<
    (int, Seq<(Seq<char>, V)>),
> {
    Seq::new(s.len(), |i: int| (s[i].0 as int, spec_pairs_view(s[i].1@)))
}

/// The solved values of the first table entry for `id`, if any.
pub open spec fn spec_solved_lookup<V>(solved: Seq<(int, Seq<(Seq<char>, V)>)>, id: int)
    -> Option<Seq<(Seq<char>, V)>>
    decreases solved.len(),
{
    if solved.len() == 0 {
        None
    } else if solved[0].0 == id {
        Some(solved[0].1)
    } else {
        spec_solved_lookup(solved.drop_first(), id)
    }
}

/// The value of one property's term list: each term must be a literal,
/// the last one wins, an empty list is `acc`.
pub open spec fn spec_prop_val(terms: Seq<(Relation, ArithV)>, acc: u32) -> Result<
    u32,
    RenderError,
>
    decreases terms.len(),
{
    if terms.len() == 0 {
        Ok(acc)
    } else {
        match terms[0].1 {
            ArithV::Num(n) => spec_prop_val(terms.drop_first(), n),
            _ => Err(RenderError::InvalidExpression),
        }
    }
}

/// The evaluated property list, appended to `acc`.
pub open spec fn spec_props(
    props: Seq<(Seq<char>, Seq<(Relation, ArithV)>)>,
    acc: Seq<(Seq<char>, u32)>,
) -> Result<Seq<(Seq<char>, u32)>, RenderError>
    decreases props.len(),
{
    if props.len() == 0 {
        Ok(acc)
    } else {
        match spec_prop_val(props[0].1, 0) {
            Err(e) => Err(e),
            Ok(v) => spec_props(props.drop_first(), acc.push((props[0].0, v))),
        }
    }
}

/// The render subtree of one style node against the solved table.
pub open spec fn spec_render<V>(n: StyleNodeV, solved: Seq<(int, Seq<(Seq<char>, V)>)>)
    -> Result<RenderNodeV<V>, RenderError>
    decreases n,
{
    match spec_solved_lookup(solved, n.id) {
        None => Err(RenderError::MissingNode),
        Some(cs) => match spec_props(n.styles.properties, Seq::empty()) {
            Err(e) => Err(e),
            Ok(ps) => match spec_render_list(n.children, solved, Seq::empty()) {
                Err(e) => Err(e),
                Ok(chs) => Ok(
                    RenderNodeV {
                        id: n.id,
                        attrs: RenderDataV { constraints: cs, properties: ps },
                        children: chs,
                        element: n.element,
                    },
                ),
            },
        },
    }
}

/// The render subtrees of sibling style nodes, appended to `acc`.
pub open spec fn spec_render_list<V>(
    ns: Seq<StyleNodeV>,
    solved: Seq<(int, Seq<(Seq<char>, V)>)>,
    acc: Seq<RenderNodeV<V>>,
) -> Result<Seq<RenderNodeV<V>>, RenderError>
    decreases ns,
{
    if ns.len() == 0 {
        Ok(acc)
    } else {
        match spec_render(ns[0], solved) {
            Err(e) => Err(e),
            Ok(n) => spec_render_list(ns.drop_first(), solved, acc.push(n)),
        }
    }
}

/// Copies one solved attribute-value list.
fn clone_solved<V: Copy>(v: &Vec<(String, V)>) -> (r: Vec<(String, V)>)
    ensures
        spec_pairs_view(r@) == spec_pairs_view(v@),
{
    let mut r: Vec<(String, V)> = Vec::new();
    let mut k: usize = 0;
    while k < v.len()
        invariant
            k <= v@.len(),
            r@.len() == k,
            forall|x: int|
                0 <= x < k ==> #[trigger] spec_pairs_view(r@)[x] == spec_pairs_view(v@)[x],
        decreases v@.len() - k,
    {
        let ghost prevq = r@;
        proof {
            assert forall|x: int| 0 <= x < k implies spec_pairs_view(prevq)[x]
                == spec_pairs_view(v@)[x] by {}
        }
        let s = clone_string(&v[k].0);
        r.push((s, v[k].1));
        proof {
            assert forall|x: int| 0 <= x < k + 1 implies #[trigger] spec_pairs_view(r@)[x]
                == spec_pairs_view(v@)[x] by {
                if x < k {
                    assert(r@[x] == prevq[x]);
                    assert(spec_pairs_view(r@)[x] == spec_pairs_view(prevq)[x]);
                }
            }
        }
        k = k + 1;
    }
    proof {
        assert(spec_pairs_view(r@) =~= spec_pairs_view(v@));
    }
    r
}

/// Looks up and copies the solved values of `id`, if the table holds them.
fn solved_lookup<V: Copy>(solved: &Vec<(usize, Vec<(String, V)>)>, id: usize) -> (r: Option<
    Vec<(String, V)>,
>)
    ensures
        match r {
            Some(cs) => spec_solved_lookup(spec_solved_view(solved@), id as int) == Some(
                spec_pairs_view(cs@),
            ),
            None => spec_solved_lookup(spec_solved_view(solved@), id as int) is None,
        },
{
    let ghost sv = spec_solved_view(solved@);
    let mut k: usize = 0;
    proof {
        assert(sv.skip(0) =~= sv);
    }
    while k < solved.len()
        invariant
            k <= solved@.len(),
            sv == spec_solved_view(solved@),
            sv.len() == solved@.len(),
            spec_solved_lookup(sv, id as int) == spec_solved_lookup(sv.skip(k as int), id as int),
        decreases solved@.len() - k,
    {
        proof {
            assert(sv.skip(k as int)[0] == sv[k as int]);
            assert(sv.skip(k as int).drop_first() =~= sv.skip(k as int + 1));
        }
        if solved[k].0 == id {
            return Some(clone_solved(&solved[k].1));
        }
        k = k + 1;
    }
    proof {
        assert(sv.skip(solved@.len() as int) =~= Seq::<(int, Seq<(Seq<char>, V)>)>::empty());
    }
    None
}

/// Evaluates one property's term list.
fn prop_val(terms: &Vec<(Relation, Arith)>) -> (r: Result<u32, RenderError>)
    ensures
        match r {
            Ok(v) => spec_prop_val(terms.deep_view(), 0) == Ok::<_, RenderError>(v),
            Err(e) => spec_prop_val(terms.deep_view(), 0) == Err::<u32, _>(e),
        },
{
    let ghost termsv = terms.deep_view();
    let mut acc: u32 = 0;
    let mut k: usize = 0;
    proof {
        assert(termsv.skip(0) =~= termsv);
    }
    while k < terms.len()
        invariant
            k <= terms@.len(),
            termsv == terms.deep_view(),
            termsv.len() == terms@.len(),
            spec_prop_val(termsv, 0) == spec_prop_val(termsv.skip(k as int), acc),
        decreases terms@.len() - k,
    {
        proof {
            assert(termsv.skip(k as int)[0] == termsv[k as int]);
            assert(termsv.skip(k as int).drop_first() =~= termsv.skip(k as int + 1));
            assert(termsv[k as int] == terms@[k as int].deep_view());
        }
        match &terms[k].1 {
            Arith::Num(n) => {
                acc = *n;
            },
            _ => {
                return Err(RenderError::InvalidExpression);
            },
        }
        k = k + 1;
    }
    proof {
        assert(termsv.skip(terms@.len() as int) =~= Seq::<(Relation, ArithV)>::empty());
    }
    Ok(acc)
}

/// Evaluates a node's property list.
fn props_of(props: &Vec<(String, Vec<(Relation, Arith)>)>) -> (r: Result<
    Vec<(String, u32)>,
    RenderError,
>)
    ensures
        match r {
            Ok(ps) => spec_props(props.deep_view(), Seq::empty()) == Ok::<_, RenderError>(
                spec_pairs_view(ps@),
            ),
            Err(e) => spec_props(props.deep_view(), Seq::empty()) == Err::<
                Seq<(Seq<char>, u32)>,
                _,
            >(e),
        },
{
    let ghost propsv = props.deep_view();
    let mut out: Vec<(String, u32)> = Vec::new();
    let mut k: usize = 0;
    proof {
        assert(propsv.skip(0) =~= propsv);
        assert(spec_pairs_view(out@) =~= Seq::<(Seq<char>, u32)>::empty());
    }
    while k < props.len()
        invariant
            k <= props@.len(),
            propsv == props.deep_view(),
            propsv.len() == props@.len(),
            spec_props(propsv, Seq::empty()) == spec_props(
                propsv.skip(k as int),
                spec_pairs_view(out@),
            ),
        decreases props@.len() - k,
    {
        proof {
            assert(propsv.skip(k as int)[0] == propsv[k as int]);
            assert(propsv.skip(k as int).drop_first() =~= propsv.skip(k as int + 1));
            assert(propsv[k as int] == props@[k as int].deep_view());
        }
        let v = match prop_val(&props[k].1) {
            Ok(v) => v,
            Err(e) => {
                return Err(e);
            },
        };
        let ghost prevq = out@;
        let s = clone_string(&props[k].0);
        out.push((s, v));
        proof {
            assert forall|x: int| 0 <= x < out@.len() implies #[trigger] spec_pairs_view(out@)[x]
                == spec_pairs_view(prevq).push((propsv[k as int].0, v))[x] by {
                if x < prevq.len() {
                    assert(out@[x] == prevq[x]);
                }
            }
            assert(spec_pairs_view(out@) =~= spec_pairs_view(prevq).push(
                (propsv[k as int].0, v),
            ));
        }
        k = k + 1;
    }
    proof {
        assert(propsv.skip(props@.len() as int) =~= Seq::<
            (Seq<char>, Seq<(Relation, ArithV)>),
        >::empty());
    }
    Ok(out)
}

/// Derives the render tree of the style subtree under `root` from the
/// solved values.
///
/// Succeeds exactly when every node's id is in the solved table and every
/// property expression is a literal, and then the tree mirrors the style
/// tree with each node's solved values and evaluated properties.
#[verifier::loop_isolation(false)]
pub fn generate_render_tree<V: Copy>(
    root: &StyleNode,
    solved: &Vec<(usize, Vec<(String, V)>)>,
) -> (r: Result<RenderNode<V>, RenderError>)
    ensures
        match r {
            Ok(node) => spec_render(spec_style_node(*root), spec_solved_view(solved@)) == Ok::<
                _,
                RenderError,
            >(spec_render_node(node)),
            Err(e) => spec_render(spec_style_node(*root), spec_solved_view(solved@)) == Err::<
                RenderNodeV<V>,
                _,
            >(e),
        },
    decreases *root,
{
    let ghost rootv = spec_style_node(*root);
    let ghost sv = spec_solved_view(solved@);
    let cs = match solved_lookup(solved, root.id) {
        Some(cs) => cs,
        None => {
            return Err(RenderError::MissingNode);
        },
    };
    let ps = match props_of(&root.styles.properties) {
        Ok(ps) => ps,
        Err(e) => {
            return Err(e);
        },
    };
    let mut chs: Vec<RenderNode<V>> = Vec::new();
    let mut k: usize = 0;
    proof {
        assert(rootv.children.skip(0) =~= rootv.children);
        assert(Seq::new(
            chs.len() as nat,
            |i: int|
                if 0 <= i < chs.len() {
                    spec_render_node(chs[i])
                } else {
                    RenderNodeV {
                        id: 0,
                        attrs: RenderDataV { constraints: Seq::empty(), properties: Seq::empty() },
                        children: Seq::empty(),
                        element: ElemRef::TextAt(0),
                    }
                },
        ) =~= Seq::<RenderNodeV<V>>::empty());
    }
    let ghost empty_rn = Seq::<RenderNodeV<V>>::empty();
    while k < root.children.len()
        invariant
            k <= root.children@.len(),
            chs@.len() == k,
            spec_render_list(rootv.children, sv, empty_rn) == spec_render_list(
                rootv.children.skip(k as int),
                sv,
                Seq::new(
                    chs@.len() as nat,
                    |i: int|
                        if 0 <= i < chs@.len() {
                            spec_render_node(chs@[i])
                        } else {
                            RenderNodeV {
                                id: 0,
                                attrs: RenderDataV {
                                    constraints: Seq::empty(),
                                    properties: Seq::empty(),
                                },
                                children: Seq::empty(),
                                element: ElemRef::TextAt(0),
                            }
                        },
                ),
            ),
        decreases root.children@.len() - k,
    {
        let ghost acc_k = Seq::new(
            chs@.len() as nat,
            |i: int|
                if 0 <= i < chs@.len() {
                    spec_render_node(chs@[i])
                } else {
                    RenderNodeV {
                        id: 0,
                        attrs: RenderDataV { constraints: Seq::empty(), properties: Seq::empty() },
                        children: Seq::empty(),
                        element: ElemRef::TextAt(0),
                    }
                },
        );
        proof {
            assert(rootv.children.skip(k as int)[0] == rootv.children[k as int]);
            assert(rootv.children.skip(k as int).drop_first() =~= rootv.children.skip(
                k as int + 1,
            ));
            assert(rootv.children[k as int] == spec_style_node(root.children@[k as int]));
        }
        let child = match generate_render_tree(&root.children[k], solved) {
            Ok(c) => c,
            Err(e) => {
                return Err(e);
            },
        };
        let ghost childv = spec_render_node(child);
        let ghost prevq = chs@;
        chs.push(child);
        proof {
            let acc_k1 = Seq::new(
                chs@.len() as nat,
                |i: int|
                    if 0 <= i < chs@.len() {
                        spec_render_node(chs@[i])
                    } else {
                        RenderNodeV {
                            id: 0,
                            attrs: RenderDataV {
                                constraints: Seq::empty(),
                                properties: Seq::empty(),
                            },
                            children: Seq::empty(),
                            element: ElemRef::TextAt(0),
                        }
                    },
            );
            assert forall|x: int| 0 <= x < chs@.len() implies acc_k1[x] == acc_k.push(childv)[
                x
            ] by {
                if x < prevq.len() {
                    assert(chs@[x] == prevq[x]);
                }
            }
            assert(acc_k1 =~= acc_k.push(childv));
        }
        k = k + 1;
    }
    proof {
        assert(rootv.children.skip(root.children@.len() as int) =~= Seq::<StyleNodeV>::empty());
    }
    let ghost csv = spec_pairs_view(cs@);
    let ghost psv = spec_pairs_view(ps@);
    let ghost chs_final = Seq::new(
        chs@.len() as nat,
        |i: int|
            if 0 <= i < chs@.len() {
                spec_render_node(chs@[i])
            } else {
                RenderNodeV {
                    id: 0,
                    attrs: RenderDataV { constraints: Seq::empty(), properties: Seq::empty() },
                    children: Seq::empty(),
                    element: ElemRef::TextAt(0),
                }
            },
    );
    let ghost chs_q = chs@;
    let node = RenderNode {
        id: root.id,
        attrs: RenderData { constraints: cs, properties: ps },
        children: chs,
        element: root.element,
    };
    proof {
        let dv = spec_render_node(node);
        assert(node.children@ == chs_q);
        assert forall|x: int| 0 <= x < dv.children.len() implies dv.children[x] == chs_final[
            x
        ] by {
            assert(dv.children[x] == spec_render_node(node.children@[x]));
            assert(chs_final[x] == spec_render_node(chs_q[x]));
        }
        assert(dv.children =~= chs_final);
        assert(dv.attrs.constraints =~= csv);
        assert(dv.attrs.properties =~= psv);
        assert(dv =~~= RenderNodeV {
            id: rootv.id,
            attrs: RenderDataV { constraints: csv, properties: psv },
            children: chs_final,
            element: rootv.element,
        });
    }
    Ok(node)
}

} // verus!
