//! Binding of parsed style rules to markup nodes: the style tree.
//!
//! A pre-order walk of the markup tree assigns each node a unique integer
//! id (the root of a build gets the start id plus one; a parent id of 0
//! means "no parent"). For a tag, every trait is looked up against the
//! stylesheet; each matched rule's attributes are routed into layout
//! constraints or properties by two designated name sets, others are
//! dropped; the default attributes are then appended to the constraints
//! exactly once, whatever the node's traits. A text node carries them too,
//! so every node, tagged or not, participates in the box model.
//!
//! A rule that contributes layout constraints acts as a unique named
//! anchor: binding such a trait name to a second node anywhere in the tree
//! is an error, and the name-to-node-id side table built here resolves
//! cross-references during constraint generation. Traits whose rules carry
//! only properties may be shared and are not recorded.

use vstd::prelude::*;
use crate::asml_parser::spec_size;
use crate::asml_parser::spec_size_list;
use crate::asml_parser::Element;
use crate::asml_parser::ElemV;
use crate::asml_parser::Trait;
use crate::asml_parser::TraitV;
use crate::ass_parser::Arith;
use crate::ass_parser::ArithV;
use crate::ass_parser::Entity;
use crate::ass_parser::Relation;
use crate::ass_parser::Style;
use crate::ass_parser::StyleV;

verus! {

/// A style rule with layout constraints was bound to more than one node.
#[derive(Debug, PartialEq, Eq, Clone, Copy)]
pub struct BindError;

/// A node's matched style attributes, split into the ones that join the
/// constraint system and the ones that stay literal properties.
#[derive(Debug, PartialEq)]
pub struct StyleGroups {
    pub constraints: Vec<(String, Vec<(Relation, Arith)>)>,
    pub properties: Vec<(String, Vec<(Relation, Arith)>)>,
}

/// A non-owning reference to a markup element: its pre-order position in
/// the built tree (equal to the style node's id), and its kind.
#[derive(Debug, PartialEq, Eq, Structural, Clone, Copy)]
pub enum ElemRef {
    TagAt(usize),
    TextAt(usize),
}

/// One node of the style tree, parallel to the markup tree.
#[derive(Debug, PartialEq)]
pub struct StyleNode {
    pub id: usize,
    pub pid: usize,
    pub element: ElemRef,
    pub children: Vec<StyleNode>,
    pub styles: StyleGroups,
}

/// Mathematical model of a `StyleGroups`.
#[verifier::ext_equal]
pub struct StyleGroupsV {
    pub constraints: Seq<(Seq<char>, Seq<(Relation, ArithV)>)>,
    pub properties: Seq<(Seq<char>, Seq<(Relation, ArithV)>)>,
}

/// Mathematical model of a `StyleNode`.
#[verifier::ext_equal]
pub struct StyleNodeV {
    pub id: int,
    pub pid: int,
    pub element: ElemRef,
    pub children: Seq<StyleNodeV>,
    pub styles: StyleGroupsV,
}

impl DeepView for StyleGroups {
    type V = StyleGroupsV;

    open spec fn deep_view(&self) -> StyleGroupsV {
        StyleGroupsV {
            constraints: self.constraints.deep_view(),
            properties: self.properties.deep_view(),
        }
    }
}

/// Mathematical model of a `StyleNode`, recursively over its children.
pub open spec fn spec_style_node(n: StyleNode) -> StyleNodeV
    decreases n,
{
    StyleNodeV {
        id: n.id as int,
        pid: n.pid as int,
        element: n.element,
        children: Seq::new(
            n.children.len() as nat,
            |i: int|
                if 0 <= i < n.children.len() {
                    spec_style_node(n.children[i])
                } else {
                    StyleNodeV {
                        id: 0,
                        pid: 0,
                        element: ElemRef::TextAt(0),
                        children: Seq::empty(),
                        styles: StyleGroupsV {
                            constraints: Seq::empty(),
                            properties: Seq::empty(),
                        },
                    }
                },
        ),
        styles: n.styles.deep_view(),
    }
}

impl DeepView for StyleNode {
    type V = StyleNodeV;

    open spec fn deep_view(&self) -> StyleNodeV {
        spec_style_node(*self)
    }
}

proof fn lemma_size_pos(e: ElemV)
    ensures
        spec_size(e) >= 1,
    decreases e,
{
    match e {
        ElemV::Text(_) => {},
        ElemV::Tag { traits, children } => {
            lemma_size_list_nonneg(children);
        },
    }
}

proof fn lemma_size_list_nonneg(es: Seq<ElemV>)
    ensures
        spec_size_list(es) >= 0,
    decreases es,
{
    if es.len() > 0 {
        lemma_size_pos(es[0]);
        lemma_size_list_nonneg(es.drop_first());
    }
}

proof fn lemma_size_list_elem(es: Seq<ElemV>, k: int)
    requires
        0 <= k < es.len(),
    ensures
        spec_size(es[k]) <= spec_size_list(es),
    decreases es,
{
    lemma_size_pos(es[0]);
    lemma_size_list_nonneg(es.drop_first());
    if k > 0 {
        lemma_size_list_elem(es.drop_first(), k - 1);
    }
}

/// A style node's modeled children are the deep views of its child vector.
proof fn lemma_node_children_view(node: StyleNode)
    ensures
        node.deep_view().children.len() == node.children@.len(),
        forall|x: int|
            0 <= x < node.children@.len() ==> #[trigger] node.deep_view().children[x]
                == node.children@[x].deep_view(),
{
}

/// Mathematical model of the name-to-id table.
pub open spec fn spec_bounds(v: Seq<(String, usize)>) -> Seq<(Seq<char>, int)> {
    Seq::new(v.len(), |i: int| (v[i].0@, v[i].1 as int))
}

/// Whether the name-to-id table holds `name`.
pub open spec fn spec_bound_contains(bound: Seq<(Seq<char>, int)>, name: Seq<char>) -> bool {
    exists|x: int| 0 <= x < bound.len() && bound[x].0 == name
}

/// Whether `style` contributes at least one layout-constraint attribute.
pub open spec fn spec_style_constrained(style: StyleV, cnames: Seq<Seq<char>>) -> bool {
    exists|ai: int| 0 <= ai < style.attrs.len() && cnames.contains(style.attrs[ai].0)
}

/// Whether a trait of name `tname` matches some rule that contributes a
/// layout constraint.
pub open spec fn spec_trait_constrained(
    tname: Seq<char>,
    sheet: Seq<StyleV>,
    cnames: Seq<Seq<char>>,
) -> bool {
    exists|si: int|
        0 <= si < sheet.len() && sheet[si].name == tname && spec_style_constrained(
            sheet[si],
            cnames,
        )
}

/// Routing of one rule's attributes: constraint names go left, property
/// names go right, anything else is dropped.
pub open spec fn spec_route_attrs(
    attrs: Seq<(Seq<char>, Seq<(Relation, ArithV)>)>,
    cnames: Seq<Seq<char>>,
    pnames: Seq<Seq<char>>,
) -> (Seq<(Seq<char>, Seq<(Relation, ArithV)>)>, Seq<(Seq<char>, Seq<(Relation, ArithV)>)>)
    decreases attrs.len(),
{
    if attrs.len() == 0 {
        (Seq::empty(), Seq::empty())
    } else {
        let (rc, rp) = spec_route_attrs(attrs.drop_last(), cnames, pnames);
        let a = attrs.last();
        if cnames.contains(a.0) {
            (rc.push(a), rp)
        } else if pnames.contains(a.0) {
            (rc, rp.push(a))
        } else {
            (rc, rp)
        }
    }
}

/// What one trait contributes: for every rule whose name matches, its
/// routed attributes.
pub open spec fn spec_match_groups(
    tname: Seq<char>,
    sheet: Seq<StyleV>,
    cnames: Seq<Seq<char>>,
    pnames: Seq<Seq<char>>,
) -> (Seq<(Seq<char>, Seq<(Relation, ArithV)>)>, Seq<(Seq<char>, Seq<(Relation, ArithV)>)>)
    decreases sheet.len(),
{
    if sheet.len() == 0 {
        (Seq::empty(), Seq::empty())
    } else {
        let (rc, rp) = spec_match_groups(tname, sheet.drop_last(), cnames, pnames);
        let st = sheet.last();
        if st.name == tname {
            let (c0, p0) = spec_route_attrs(st.attrs, cnames, pnames);
            (rc + c0, rp + p0)
        } else {
            (rc, rp)
        }
    }
}

/// Collation of a node's traits, left to right, threading the groups
/// collected so far and the name-to-id table. Binding a constrained trait
/// name that the table already holds is the error.
pub open spec fn spec_collate_acc(
    traits: Seq<TraitV>,
    sheet: Seq<StyleV>,
    cnames: Seq<Seq<char>>,
    pnames: Seq<Seq<char>>,
    id: int,
    state: (StyleGroupsV, Seq<(Seq<char>, int)>),
) -> Result<(StyleGroupsV, Seq<(Seq<char>, int)>), BindError>
    decreases traits.len(),
{
    if traits.len() == 0 {
        Ok(state)
    } else {
        let t = traits[0];
        let constrained = spec_trait_constrained(t.name, sheet, cnames);
        if constrained && spec_bound_contains(state.1, t.name) {
            Err(BindError)
        } else {
            let b2 = if constrained {
                state.1.push((t.name, id))
            } else {
                state.1
            };
            let (c0, p0) = spec_match_groups(t.name, sheet, cnames, pnames);
            spec_collate_acc(
                traits.drop_first(),
                sheet,
                cnames,
                pnames,
                id,
                (
                    StyleGroupsV {
                        constraints: state.0.constraints + c0,
                        properties: state.0.properties + p0,
                    },
                    b2,
                ),
            )
        }
    }
}

/// The style groups of a node with the given traits, and the extended
/// name-to-id table: the traits' routed attributes, then the default
/// attributes exactly once, whatever the traits matched.
pub open spec fn spec_collate(
    traits: Seq<TraitV>,
    sheet: Seq<StyleV>,
    cnames: Seq<Seq<char>>,
    pnames: Seq<Seq<char>>,
    defaults: Seq<(Seq<char>, Seq<(Relation, ArithV)>)>,
    id: int,
    bound: Seq<(Seq<char>, int)>,
) -> Result<(StyleGroupsV, Seq<(Seq<char>, int)>), BindError> {
    match spec_collate_acc(
        traits,
        sheet,
        cnames,
        pnames,
        id,
        (StyleGroupsV { constraints: Seq::empty(), properties: Seq::empty() }, bound),
    ) {
        Err(e) => Err(e),
        Ok((g, b)) => Ok(
            (
                StyleGroupsV { constraints: g.constraints + defaults, properties: g.properties },
                b,
            ),
        ),
    }
}

/// What building the style tree for one element yields: the node, the new
/// value of the id counter, and the extended name-to-id table.
pub open spec fn spec_build(
    e: ElemV,
    sheet: Seq<StyleV>,
    cnames: Seq<Seq<char>>,
    pnames: Seq<Seq<char>>,
    defaults: Seq<(Seq<char>, Seq<(Relation, ArithV)>)>,
    parent_id: int,
    id: int,
    bound: Seq<(Seq<char>, int)>,
) -> Result<(StyleNodeV, int, Seq<(Seq<char>, int)>), BindError>
    decreases e,
{
    let my = id + 1;
    match e {
        ElemV::Text(_) => Ok(
            (
                StyleNodeV {
                    id: my,
                    pid: parent_id,
                    element: ElemRef::TextAt(my as usize),
                    children: Seq::empty(),
                    styles: StyleGroupsV { constraints: defaults, properties: Seq::empty() },
                },
                my,
                bound,
            ),
        ),
        ElemV::Tag { traits, children } => match spec_collate(
            traits,
            sheet,
            cnames,
            pnames,
            defaults,
            my,
            bound,
        ) {
            Err(e2) => Err(e2),
            Ok((groups, b2)) => match spec_build_children(
                children,
                sheet,
                cnames,
                pnames,
                defaults,
                my,
                (Seq::empty(), my, b2),
            ) {
                Err(e2) => Err(e2),
                Ok((chs, id2, b3)) => Ok(
                    (
                        StyleNodeV {
                            id: my,
                            pid: parent_id,
                            element: ElemRef::TagAt(my as usize),
                            children: chs,
                            styles: groups,
                        },
                        id2,
                        b3,
                    ),
                ),
            },
        },
    }
}

/// Building the style trees of a list of sibling elements, left to right,
/// threading the nodes built so far, the id counter and the table.
pub open spec fn spec_build_children(
    es: Seq<ElemV>,
    sheet: Seq<StyleV>,
    cnames: Seq<Seq<char>>,
    pnames: Seq<Seq<char>>,
    defaults: Seq<(Seq<char>, Seq<(Relation, ArithV)>)>,
    parent_id: int,
    state: (Seq<StyleNodeV>, int, Seq<(Seq<char>, int)>),
) -> Result<(Seq<StyleNodeV>, int, Seq<(Seq<char>, int)>), BindError>
    decreases es,
{
    if es.len() == 0 {
        Ok(state)
    } else {
        match spec_build(es[0], sheet, cnames, pnames, defaults, parent_id, state.1, state.2) {
            Err(e2) => Err(e2),
            Ok((n, id2, b2)) => spec_build_children(
                es.drop_first(),
                sheet,
                cnames,
                pnames,
                defaults,
                parent_id,
                (state.0.push(n), id2, b2),
            ),
        }
    }
}

/// A successful build advances the id counter by exactly the number of
/// nodes built.
proof fn lemma_build_id(
    e: ElemV,
    sheet: Seq<StyleV>,
    cnames: Seq<Seq<char>>,
    pnames: Seq<Seq<char>>,
    defaults: Seq<(Seq<char>, Seq<(Relation, ArithV)>)>,
    parent_id: int,
    id: int,
    bound: Seq<(Seq<char>, int)>,
)
    ensures
        match spec_build(e, sheet, cnames, pnames, defaults, parent_id, id, bound) {
            Ok((n, id2, b)) => id2 == id + spec_size(e),
            Err(_) => true,
        },
    decreases e,
{
    match e {
        ElemV::Text(_) => {},
        ElemV::Tag { traits, children } => {
            match spec_collate(traits, sheet, cnames, pnames, defaults, id + 1, bound) {
                Err(_) => {},
                Ok((groups, b2)) => {
                    lemma_build_children_id(
                        children,
                        sheet,
                        cnames,
                        pnames,
                        defaults,
                        id + 1,
                        (Seq::empty(), id + 1, b2),
                    );
                },
            }
        },
    }
}

proof fn lemma_build_children_id(
    es: Seq<ElemV>,
    sheet: Seq<StyleV>,
    cnames: Seq<Seq<char>>,
    pnames: Seq<Seq<char>>,
    defaults: Seq<(Seq<char>, Seq<(Relation, ArithV)>)>,
    parent_id: int,
    state: (Seq<StyleNodeV>, int, Seq<(Seq<char>, int)>),
)
    ensures
        match spec_build_children(es, sheet, cnames, pnames, defaults, parent_id, state) {
            Ok((ns, id2, b)) => id2 == state.1 + spec_size_list(es),
            Err(_) => true,
        },
    decreases es,
{
    if es.len() > 0 {
        lemma_build_id(es[0], sheet, cnames, pnames, defaults, parent_id, state.1, state.2);
        match spec_build(es[0], sheet, cnames, pnames, defaults, parent_id, state.1, state.2) {
            Err(_) => {},
            Ok((n, id2, b2)) => {
                lemma_build_children_id(
                    es.drop_first(),
                    sheet,
                    cnames,
                    pnames,
                    defaults,
                    parent_id,
                    (state.0.push(n), id2, b2),
                );
            },
        }
    }
}

pub(crate) fn clone_string(s: &String) -> (r: String)
    ensures
        r@ == s@,
{
    s.clone()
}

fn clone_entity(e: &Entity) -> (r: Entity)
    ensures
        r.deep_view() == e.deep_view(),
{
    match e {
        Entity::Parent => Entity::Parent,
        Entity::Window => Entity::Window,
        Entity::Other(w) => Entity::Other(clone_string(w)),
    }
}

fn clone_arith(a: &Arith) -> (r: Arith)
    ensures
        r.deep_view() == a.deep_view(),
    decreases a,
{
    match a {
        Arith::Ref(e, w) => Arith::Ref(clone_entity(e), clone_string(w)),
        Arith::Num(n) => Arith::Num(*n),
        Arith::Add(x, y) => Arith::Add(Box::new(clone_arith(x)), Box::new(clone_arith(y))),
        Arith::Sub(x, y) => Arith::Sub(Box::new(clone_arith(x)), Box::new(clone_arith(y))),
    }
}

fn clone_terms(v: &Vec<(Relation, Arith)>) -> (r: Vec<(Relation, Arith)>)
    ensures
        r.deep_view() == v.deep_view(),
{
    let mut r: Vec<(Relation, Arith)> = Vec::new();
    let mut k: usize = 0;
    while k < v.len()
        invariant
            k <= v@.len(),
            r@.len() == k,
            forall|x: int| 0 <= x < k ==> #[trigger] r.deep_view()[x] == v.deep_view()[x],
        decreases v@.len() - k,
    {
        let ghost prevq = r@;
        proof {
            assert forall|x: int| 0 <= x < k implies prevq[x].deep_view()
                == v.deep_view()[x] by {
                assert(r.deep_view()[x] == r@[x].deep_view());
            }
        }
        let a = clone_arith(&v[k].1);
        let ghost av = a.deep_view();
        let rel = v[k].0;
        r.push((rel, a));
        proof {
            assert forall|x: int| 0 <= x < k + 1 implies #[trigger] r.deep_view()[x]
                == v.deep_view()[x] by {
                assert(r.deep_view()[x] == r@[x].deep_view());
                assert(v.deep_view()[x] == v@[x].deep_view());
                if x < k {
                    assert(r@[x] == prevq[x]);
                } else {
                    assert(r@[x].1.deep_view() == av);
                }
            }
        }
        k = k + 1;
    }
    proof {
        assert(r.deep_view() =~= v.deep_view());
    }
    r
}

fn clone_pair(p: &(String, Vec<(Relation, Arith)>)) -> (r: (String, Vec<(Relation, Arith)>))
    ensures
        r.deep_view() == p.deep_view(),
{
    (clone_string(&p.0), clone_terms(&p.1))
}

fn clone_pairs(v: &Vec<(String, Vec<(Relation, Arith)>)>) -> (r: Vec<
    (String, Vec<(Relation, Arith)>),
>)
    ensures
        r.deep_view() == v.deep_view(),
{
    let mut r: Vec<(String, Vec<(Relation, Arith)>)> = Vec::new();
    let mut k: usize = 0;
    while k < v.len()
        invariant
            k <= v@.len(),
            r@.len() == k,
            forall|x: int| 0 <= x < k ==> #[trigger] r.deep_view()[x] == v.deep_view()[x],
        decreases v@.len() - k,
    {
        let ghost prevq = r@;
        proof {
            assert forall|x: int| 0 <= x < k implies prevq[x].deep_view()
                == v.deep_view()[x] by {
                assert(r.deep_view()[x] == r@[x].deep_view());
            }
        }
        let p = clone_pair(&v[k]);
        let ghost pv = p.deep_view();
        r.push(p);
        proof {
            assert forall|x: int| 0 <= x < k + 1 implies #[trigger] r.deep_view()[x]
                == v.deep_view()[x] by {
                assert(r.deep_view()[x] == r@[x].deep_view());
                assert(v.deep_view()[x] == v@[x].deep_view());
                if x < k {
                    assert(r@[x] == prevq[x]);
                } else {
                    assert(r@[x].deep_view() == pv);
                }
            }
        }
        k = k + 1;
    }
    proof {
        assert(r.deep_view() =~= v.deep_view());
    }
    r
}

/// Linear scan for a name in a name list.
pub(crate) fn contains_name(v: &Vec<String>, x: &String) -> (r: bool)
    ensures
        r == v.deep_view().contains(x@),
{
    let mut k: usize = 0;
    while k < v.len()
        invariant
            k <= v@.len(),
            forall|m: int| 0 <= m < k ==> v.deep_view()[m] != x@,
        decreases v@.len() - k,
    {
        if v[k] == *x {
            proof {
                assert(v.deep_view()[k as int] == x@);
            }
            return true;
        }
        k = k + 1;
    }
    false
}

/// Linear scan for a name in the name-to-id table.
fn bound_has(bound: &Vec<(String, usize)>, name: &String) -> (r: bool)
    ensures
        r == spec_bound_contains(spec_bounds(bound@), name@),
{
    let mut k: usize = 0;
    while k < bound.len()
        invariant
            k <= bound@.len(),
            forall|m: int| 0 <= m < k ==> spec_bounds(bound@)[m].0 != name@,
        decreases bound@.len() - k,
    {
        if bound[k].0 == *name {
            proof {
                assert(spec_bounds(bound@)[k as int].0 == name@);
            }
            return true;
        }
        k = k + 1;
    }
    false
}

/// Whether `style` has an attribute among the constraint names.
fn style_constrained(style: &Style, cnames: &Vec<String>) -> (r: bool)
    ensures
        r == spec_style_constrained(style.deep_view(), cnames.deep_view()),
{
    let mut k: usize = 0;
    while k < style.attrs.len()
        invariant
            k <= style.attrs@.len(),
            forall|m: int|
                0 <= m < k ==> !cnames.deep_view().contains(style.deep_view().attrs[m].0),
        decreases style.attrs@.len() - k,
    {
        if contains_name(cnames, &style.attrs[k].0) {
            proof {
                assert(cnames.deep_view().contains(style.deep_view().attrs[k as int].0));
            }
            return true;
        }
        k = k + 1;
    }
    false
}

/// Whether a trait name matches some rule contributing a constraint.
fn trait_constrained(tname: &String, sheet: &Vec<Style>, cnames: &Vec<String>) -> (r: bool)
    ensures
        r == spec_trait_constrained(tname@, sheet.deep_view(), cnames.deep_view()),
{
    let mut k: usize = 0;
    while k < sheet.len()
        invariant
            k <= sheet@.len(),
            forall|m: int|
                0 <= m < k ==> !(sheet.deep_view()[m].name == tname@ && spec_style_constrained(
                    sheet.deep_view()[m],
                    cnames.deep_view(),
                )),
        decreases sheet@.len() - k,
    {
        if sheet[k].name == *tname && style_constrained(&sheet[k], cnames) {
            proof {
                assert(sheet.deep_view()[k as int].name == tname@ && spec_style_constrained(
                    sheet.deep_view()[k as int],
                    cnames.deep_view(),
                ));
            }
            return true;
        }
        k = k + 1;
    }
    false
}

/// Routes one rule's attributes into fresh constraint and property lists.
fn route_attrs(style: &Style, cnames: &Vec<String>, pnames: &Vec<String>) -> (r: (
    Vec<(String, Vec<(Relation, Arith)>)>,
    Vec<(String, Vec<(Relation, Arith)>)>,
))
    ensures
        (r.0.deep_view(), r.1.deep_view()) == spec_route_attrs(
            style.deep_view().attrs,
            cnames.deep_view(),
            pnames.deep_view(),
        ),
{
    let mut cons: Vec<(String, Vec<(Relation, Arith)>)> = Vec::new();
    let mut props: Vec<(String, Vec<(Relation, Arith)>)> = Vec::new();
    let mut k: usize = 0;
    proof {
        assert(style.deep_view().attrs.take(0) =~= Seq::<
            (Seq<char>, Seq<(Relation, ArithV)>),
        >::empty());
    }
    while k < style.attrs.len()
        invariant
            k <= style.attrs@.len(),
            style.deep_view().attrs.len() == style.attrs@.len(),
            (cons.deep_view(), props.deep_view()) == spec_route_attrs(
                style.deep_view().attrs.take(k as int),
                cnames.deep_view(),
                pnames.deep_view(),
            ),
        decreases style.attrs@.len() - k,
    {
        let ghost attrsv = style.deep_view().attrs;
        proof {
            assert(attrsv.take(k as int + 1).drop_last() =~= attrsv.take(k as int));
            assert(attrsv.take(k as int + 1).last() == attrsv[k as int]);
        }
        if contains_name(cnames, &style.attrs[k].0) {
            let p = clone_pair(&style.attrs[k]);
            cons.push(p);
            proof {
                assert(cons.deep_view() =~= spec_route_attrs(
                    attrsv.take(k as int),
                    cnames.deep_view(),
                    pnames.deep_view(),
                ).0.push(attrsv[k as int]));
            }
        } else if contains_name(pnames, &style.attrs[k].0) {
            let p = clone_pair(&style.attrs[k]);
            props.push(p);
            proof {
                assert(props.deep_view() =~= spec_route_attrs(
                    attrsv.take(k as int),
                    cnames.deep_view(),
                    pnames.deep_view(),
                ).1.push(attrsv[k as int]));
            }
        }
        k = k + 1;
    }
    proof {
        assert(style.deep_view().attrs.take(style.attrs@.len() as int)
            =~= style.deep_view().attrs);
    }
    (cons, props)
}

/// Appends, for every rule matching `tname`, its routed attributes onto
/// `cons` and `props`.
fn append_match_groups(
    tname: &String,
    sheet: &Vec<Style>,
    cnames: &Vec<String>,
    pnames: &Vec<String>,
    cons: &mut Vec<(String, Vec<(Relation, Arith)>)>,
    props: &mut Vec<(String, Vec<(Relation, Arith)>)>,
)
    ensures
        final(cons).deep_view() == old(cons).deep_view() + spec_match_groups(
            tname@,
            sheet.deep_view(),
            cnames.deep_view(),
            pnames.deep_view(),
        ).0,
        final(props).deep_view() == old(props).deep_view() + spec_match_groups(
            tname@,
            sheet.deep_view(),
            cnames.deep_view(),
            pnames.deep_view(),
        ).1,
{
    let ghost consv0 = cons.deep_view();
    let ghost propsv0 = props.deep_view();
    let ghost sheetv = sheet.deep_view();
    let mut k: usize = 0;
    proof {
        assert(sheetv.take(0) =~= Seq::<StyleV>::empty());
        assert(consv0 + spec_match_groups(
            tname@,
            sheetv.take(0),
            cnames.deep_view(),
            pnames.deep_view(),
        ).0 =~= consv0);
        assert(propsv0 + spec_match_groups(
            tname@,
            sheetv.take(0),
            cnames.deep_view(),
            pnames.deep_view(),
        ).1 =~= propsv0);
    }
    while k < sheet.len()
        invariant
            k <= sheet@.len(),
            sheetv == sheet.deep_view(),
            sheetv.len() == sheet@.len(),
            cons.deep_view() == consv0 + spec_match_groups(
                tname@,
                sheetv.take(k as int),
                cnames.deep_view(),
                pnames.deep_view(),
            ).0,
            props.deep_view() == propsv0 + spec_match_groups(
                tname@,
                sheetv.take(k as int),
                cnames.deep_view(),
                pnames.deep_view(),
            ).1,
        decreases sheet@.len() - k,
    {
        proof {
            assert(sheetv.take(k as int + 1).drop_last() =~= sheetv.take(k as int));
            assert(sheetv.take(k as int + 1).last() == sheetv[k as int]);
        }
        if sheet[k].name == *tname {
            let (rc, rp) = route_attrs(&sheet[k], cnames, pnames);
            let mut rc = rc;
            let mut rp = rp;
            let ghost rcv = rc.deep_view();
            let ghost rpv = rp.deep_view();
            let ghost consv_before = cons.deep_view();
            let ghost propsv_before = props.deep_view();
            cons.append(&mut rc);
            props.append(&mut rp);
            proof {
                assert(cons.deep_view() =~= consv_before + rcv);
                assert(props.deep_view() =~= propsv_before + rpv);
                assert(cons.deep_view() =~= consv0 + spec_match_groups(
                    tname@,
                    sheetv.take(k as int + 1),
                    cnames.deep_view(),
                    pnames.deep_view(),
                ).0);
                assert(props.deep_view() =~= propsv0 + spec_match_groups(
                    tname@,
                    sheetv.take(k as int + 1),
                    cnames.deep_view(),
                    pnames.deep_view(),
                ).1);
            }
        } else {
            proof {
                assert(spec_match_groups(
                    tname@,
                    sheetv.take(k as int + 1),
                    cnames.deep_view(),
                    pnames.deep_view(),
                ) == spec_match_groups(
                    tname@,
                    sheetv.take(k as int),
                    cnames.deep_view(),
                    pnames.deep_view(),
                ));
            }
        }
        k = k + 1;
    }
    proof {
        assert(sheetv.take(sheet@.len() as int) =~= sheetv);
    }
}

/// Collates the styles of one node's traits against the stylesheet,
/// routing matched attributes into constraints and properties and
/// recording constrained trait names in the name-to-id table.
///
/// Fails, leaving the table unchanged, exactly when a constrained trait
/// name is already bound — a style rule with layout constraints cannot be
/// shared across nodes.
pub fn collate_styles(
    traits: &Vec<Trait>,
    stylesheet: &Vec<Style>,
    constraint_names: &Vec<String>,
    property_names: &Vec<String>,
    default_attributes: &Vec<(String, Vec<(Relation, Arith)>)>,
    id: usize,
    styles_to_id: &mut Vec<(String, usize)>,
) -> (r: Result<StyleGroups, BindError>)
    ensures
        match r {
            Ok(g) => spec_collate(
                traits.deep_view(),
                stylesheet.deep_view(),
                constraint_names.deep_view(),
                property_names.deep_view(),
                default_attributes.deep_view(),
                id as int,
                spec_bounds(old(styles_to_id)@),
            ) == Ok::<_, BindError>((g.deep_view(), spec_bounds(final(styles_to_id)@))),
            Err(_) => spec_collate(
                traits.deep_view(),
                stylesheet.deep_view(),
                constraint_names.deep_view(),
                property_names.deep_view(),
                default_attributes.deep_view(),
                id as int,
                spec_bounds(old(styles_to_id)@),
            ) is Err && *final(styles_to_id) == *old(styles_to_id),
        },
{
    let ghost traitsv = traits.deep_view();
    let ghost sheetv = stylesheet.deep_view();
    let ghost cnamesv = constraint_names.deep_view();
    let ghost pnamesv = property_names.deep_view();
    let ghost defaultsv = default_attributes.deep_view();
    let ghost bound0 = spec_bounds(styles_to_id@);

    let mut cons: Vec<(String, Vec<(Relation, Arith)>)> = Vec::new();
    let mut props: Vec<(String, Vec<(Relation, Arith)>)> = Vec::new();
    let mut added: Vec<(String, usize)> = Vec::new();
    let mut k: usize = 0;
    proof {
        assert(traitsv.skip(0) =~= traitsv);
        assert(spec_bounds(added@) =~= Seq::<(Seq<char>, int)>::empty());
        assert(bound0 + spec_bounds(added@) =~= bound0);
        assert(cons.deep_view() =~= Seq::<(Seq<char>, Seq<(Relation, ArithV)>)>::empty());
        assert(props.deep_view() =~= Seq::<(Seq<char>, Seq<(Relation, ArithV)>)>::empty());
    }
    while k < traits.len()
        invariant
            k <= traits@.len(),
            traitsv == traits.deep_view(),
            traitsv.len() == traits@.len(),
            sheetv == stylesheet.deep_view(),
            cnamesv == constraint_names.deep_view(),
            pnamesv == property_names.deep_view(),
            defaultsv == default_attributes.deep_view(),
            styles_to_id@ == old(styles_to_id)@,
            bound0 == spec_bounds(old(styles_to_id)@),
            spec_collate_acc(
                traitsv,
                sheetv,
                cnamesv,
                pnamesv,
                id as int,
                (
                    StyleGroupsV { constraints: Seq::empty(), properties: Seq::empty() },
                    bound0,
                ),
            ) == spec_collate_acc(
                traitsv.skip(k as int),
                sheetv,
                cnamesv,
                pnamesv,
                id as int,
                (
                    StyleGroupsV {
                        constraints: cons.deep_view(),
                        properties: props.deep_view(),
                    },
                    bound0 + spec_bounds(added@),
                ),
            ),
        decreases traits@.len() - k,
    {
        let tname = &traits[k].name;
        let ghost state_before = (
            StyleGroupsV { constraints: cons.deep_view(), properties: props.deep_view() },
            bound0 + spec_bounds(added@),
        );
        proof {
            assert(traits.deep_view()[k as int] == traits@[k as int].deep_view());
            assert(traitsv[k as int].name == tname@);
            assert(traitsv.skip(k as int)[0] == traitsv[k as int]);
            assert(traitsv.skip(k as int).drop_first() =~= traitsv.skip(k as int + 1));
        }
        let constrained = trait_constrained(tname, stylesheet, constraint_names);
        if constrained {
            let in_old = bound_has(styles_to_id, tname);
            let in_added = bound_has(&added, tname);
            proof {
                assert(spec_bound_contains(bound0 + spec_bounds(added@), tname@) == (
                spec_bound_contains(bound0, tname@) || spec_bound_contains(
                    spec_bounds(added@),
                    tname@,
                ))) by {
                    if spec_bound_contains(bound0, tname@) {
                        let x = choose|x: int|
                            0 <= x < bound0.len() && bound0[x].0 == tname@;
                        assert((bound0 + spec_bounds(added@))[x].0 == tname@);
                    }
                    if spec_bound_contains(spec_bounds(added@), tname@) {
                        let x = choose|x: int|
                            0 <= x < spec_bounds(added@).len() && spec_bounds(added@)[x].0
                                == tname@;
                        assert((bound0 + spec_bounds(added@))[bound0.len() + x].0 == tname@);
                    }
                    if spec_bound_contains(bound0 + spec_bounds(added@), tname@) {
                        let x = choose|x: int|
                            0 <= x < (bound0 + spec_bounds(added@)).len() && (bound0
                                + spec_bounds(added@))[x].0 == tname@;
                        if x < bound0.len() {
                            assert(bound0[x].0 == tname@);
                        } else {
                            assert(spec_bounds(added@)[x - bound0.len()].0 == tname@);
                        }
                    }
                };
            }
            if in_old || in_added {
                proof {
                    assert(spec_collate_acc(
                        traitsv.skip(k as int),
                        sheetv,
                        cnamesv,
                        pnamesv,
                        id as int,
                        state_before,
                    ) is Err);
                }
                return Err(BindError);
            }
            let ghost addedv_before = spec_bounds(added@);
            added.push((clone_string(tname), id));
            proof {
                assert(bound0 + spec_bounds(added@) =~= (bound0 + addedv_before).push(
                    (tname@, id as int),
                ));
            }
        }
        append_match_groups(
            tname,
            stylesheet,
            constraint_names,
            property_names,
            &mut cons,
            &mut props,
        );
        let ghost state_after = (
            StyleGroupsV { constraints: cons.deep_view(), properties: props.deep_view() },
            bound0 + spec_bounds(added@),
        );
        proof {
            assert(spec_collate_acc(
                traitsv.skip(k as int),
                sheetv,
                cnamesv,
                pnamesv,
                id as int,
                state_before,
            ) == spec_collate_acc(
                traitsv.skip(k as int + 1),
                sheetv,
                cnamesv,
                pnamesv,
                id as int,
                state_after,
            ));
        }
        k = k + 1;
    }
    proof {
        assert(traitsv.skip(traits@.len() as int) =~= Seq::<TraitV>::empty());
    }
    let ghost addedv = spec_bounds(added@);
    let ghost oldq = styles_to_id@;
    let ghost addedq = added@;
    styles_to_id.append(&mut added);
    proof {
        assert forall|x: int| 0 <= x < spec_bounds(styles_to_id@).len() implies spec_bounds(
            styles_to_id@,
        )[x] == (bound0 + addedv)[x] by {
            if x < oldq.len() {
                assert(styles_to_id@[x] == oldq[x]);
            } else {
                assert(styles_to_id@[x] == addedq[x - oldq.len()]);
            }
        }
        assert(spec_bounds(styles_to_id@) =~= bound0 + addedv);
    }
    // The default attributes join the constraints exactly once, whatever
    // the traits matched.
    let mut defs = clone_pairs(default_attributes);
    let ghost consv_acc = cons.deep_view();
    let ghost consq_acc = cons@;
    let ghost defsq = defs@;
    let ghost defsv = defs.deep_view();
    cons.append(&mut defs);
    proof {
        assert forall|x: int| 0 <= x < cons@.len() implies #[trigger] cons.deep_view()[x]
            == (consv_acc + defaultsv)[x] by {
            assert(cons.deep_view()[x] == cons@[x].deep_view());
            if x < consq_acc.len() {
                assert(cons@[x] == consq_acc[x]);
                assert(consv_acc[x] == consq_acc[x].deep_view());
            } else {
                assert(cons@[x] == defsq[x - consq_acc.len()]);
                assert(defsv[x - consq_acc.len()] == defsq[x - consq_acc.len()].deep_view());
            }
        }
        assert(cons.deep_view() =~= consv_acc + defaultsv);
    }
    let g = StyleGroups { constraints: cons, properties: props };
    Ok(g)
}

/// How many traits of `traits` carry the name `name`.
pub open spec fn spec_trait_count(traits: Seq<TraitV>, name: Seq<char>) -> int
    decreases traits.len(),
{
    if traits.len() == 0 {
        0
    } else {
        (if traits[0].name == name {
            1int
        } else {
            0int
        }) + spec_trait_count(traits.drop_first(), name)
    }
}

/// How many traits anywhere in the element tree carry the name `name`.
pub open spec fn spec_elem_count(e: ElemV, name: Seq<char>) -> int
    decreases e,
{
    match e {
        ElemV::Text(_) => 0,
        ElemV::Tag { traits, children } => spec_trait_count(traits, name) + spec_elems_count(
            children,
            name,
        ),
    }
}

/// The trait count over a list of sibling elements.
pub open spec fn spec_elems_count(es: Seq<ElemV>, name: Seq<char>) -> int
    decreases es,
{
    if es.len() == 0 {
        0
    } else {
        spec_elem_count(es[0], name) + spec_elems_count(es.drop_first(), name)
    }
}

proof fn lemma_trait_count_nonneg(traits: Seq<TraitV>, name: Seq<char>)
    ensures
        spec_trait_count(traits, name) >= 0,
    decreases traits.len(),
{
    if traits.len() > 0 {
        lemma_trait_count_nonneg(traits.drop_first(), name);
    }
}

proof fn lemma_elem_count_nonneg(e: ElemV, name: Seq<char>)
    ensures
        spec_elem_count(e, name) >= 0,
    decreases e,
{
    match e {
        ElemV::Text(_) => {},
        ElemV::Tag { traits, children } => {
            lemma_trait_count_nonneg(traits, name);
            lemma_elems_count_nonneg(children, name);
        },
    }
}

proof fn lemma_elems_count_nonneg(es: Seq<ElemV>, name: Seq<char>)
    ensures
        spec_elems_count(es, name) >= 0,
    decreases es,
{
    if es.len() > 0 {
        lemma_elem_count_nonneg(es[0], name);
        lemma_elems_count_nonneg(es.drop_first(), name);
    }
}

proof fn lemma_bound_push(b: Seq<(Seq<char>, int)>, p: (Seq<char>, int), name: Seq<char>)
    ensures
        spec_bound_contains(b.push(p), name) <==> (spec_bound_contains(b, name) || p.0 == name),
{
    if spec_bound_contains(b, name) {
        let x = choose|x: int| 0 <= x < b.len() && b[x].0 == name;
        assert(b.push(p)[x].0 == name);
    }
    if p.0 == name {
        assert(b.push(p)[b.len() as int].0 == name);
    }
    if spec_bound_contains(b.push(p), name) && p.0 != name {
        let x = choose|x: int| 0 <= x < b.push(p).len() && b.push(p)[x].0 == name;
        if x < b.len() {
            assert(b[x].0 == name);
        }
    }
}

proof fn lemma_collate_count(
    traits: Seq<TraitV>,
    sheet: Seq<StyleV>,
    cnames: Seq<Seq<char>>,
    pnames: Seq<Seq<char>>,
    id: int,
    state: (StyleGroupsV, Seq<(Seq<char>, int)>),
    name: Seq<char>,
)
    requires
        spec_trait_constrained(name, sheet, cnames),
    ensures
        match spec_collate_acc(traits, sheet, cnames, pnames, id, state) {
            Ok((g, b2)) => spec_trait_count(traits, name) + (if spec_bound_contains(
                state.1,
                name,
            ) {
                1int
            } else {
                0int
            }) <= 1 && (spec_bound_contains(b2, name) <==> (spec_bound_contains(state.1, name)
                || spec_trait_count(traits, name) >= 1)),
            Err(_) => true,
        },
    decreases traits.len(),
{
    lemma_trait_count_nonneg(traits, name);
    if traits.len() > 0 {
        let t = traits[0];
        let constrained = spec_trait_constrained(t.name, sheet, cnames);
        lemma_trait_count_nonneg(traits.drop_first(), name);
        if constrained && spec_bound_contains(state.1, t.name) {
        } else {
            let b2 = if constrained {
                state.1.push((t.name, id))
            } else {
                state.1
            };
            if constrained {
                lemma_bound_push(state.1, (t.name, id), name);
            }
            let (c0, p0) = spec_match_groups(t.name, sheet, cnames, pnames);
            let state2 = (
                StyleGroupsV {
                    constraints: state.0.constraints + c0,
                    properties: state.0.properties + p0,
                },
                b2,
            );
            lemma_collate_count(traits.drop_first(), sheet, cnames, pnames, id, state2, name);
        }
    }
}

proof fn lemma_build_count(
    e: ElemV,
    sheet: Seq<StyleV>,
    cnames: Seq<Seq<char>>,
    pnames: Seq<Seq<char>>,
    defaults: Seq<(Seq<char>, Seq<(Relation, ArithV)>)>,
    parent_id: int,
    id: int,
    bound: Seq<(Seq<char>, int)>,
    name: Seq<char>,
)
    requires
        spec_trait_constrained(name, sheet, cnames),
    ensures
        match spec_build(e, sheet, cnames, pnames, defaults, parent_id, id, bound) {
            Ok((n, id2, b2)) => spec_elem_count(e, name) + (if spec_bound_contains(bound, name) {
                1int
            } else {
                0int
            }) <= 1 && (spec_bound_contains(b2, name) <==> (spec_bound_contains(bound, name)
                || spec_elem_count(e, name) >= 1)),
            Err(_) => true,
        },
    decreases e,
{
    match e {
        ElemV::Text(_) => {},
        ElemV::Tag { traits, children } => {
            match spec_collate(traits, sheet, cnames, pnames, defaults, id + 1, bound) {
                Err(_) => {},
                Ok((groups, b2)) => {
                    lemma_collate_count(
                        traits,
                        sheet,
                        cnames,
                        pnames,
                        id + 1,
                        (
                            StyleGroupsV {
                                constraints: Seq::empty(),
                                properties: Seq::empty(),
                            },
                            bound,
                        ),
                        name,
                    );
                    lemma_trait_count_nonneg(traits, name);
                    lemma_elems_count_nonneg(children, name);
                    lemma_children_count(
                        children,
                        sheet,
                        cnames,
                        pnames,
                        defaults,
                        id + 1,
                        (Seq::empty(), id + 1, b2),
                        name,
                    );
                },
            }
        },
    }
}

proof fn lemma_children_count(
    es: Seq<ElemV>,
    sheet: Seq<StyleV>,
    cnames: Seq<Seq<char>>,
    pnames: Seq<Seq<char>>,
    defaults: Seq<(Seq<char>, Seq<(Relation, ArithV)>)>,
    parent_id: int,
    state: (Seq<StyleNodeV>, int, Seq<(Seq<char>, int)>),
    name: Seq<char>,
)
    requires
        spec_trait_constrained(name, sheet, cnames),
    ensures
        match spec_build_children(es, sheet, cnames, pnames, defaults, parent_id, state) {
            Ok((ns, id2, b2)) => spec_elems_count(es, name) + (if spec_bound_contains(
                state.2,
                name,
            ) {
                1int
            } else {
                0int
            }) <= 1 && (spec_bound_contains(b2, name) <==> (spec_bound_contains(state.2, name)
                || spec_elems_count(es, name) >= 1)),
            Err(_) => true,
        },
    decreases es,
{
    if es.len() > 0 {
        lemma_elem_count_nonneg(es[0], name);
        lemma_elems_count_nonneg(es.drop_first(), name);
        match spec_build(es[0], sheet, cnames, pnames, defaults, parent_id, state.1, state.2) {
            Err(_) => {},
            Ok((n, id2, b2)) => {
                lemma_build_count(
                    es[0],
                    sheet,
                    cnames,
                    pnames,
                    defaults,
                    parent_id,
                    state.1,
                    state.2,
                    name,
                );
                lemma_children_count(
                    es.drop_first(),
                    sheet,
                    cnames,
                    pnames,
                    defaults,
                    parent_id,
                    (state.0.push(n), id2, b2),
                    name,
                );
            },
        }
    }
}

/// Law: a style rule that contributes layout constraints is a unique
/// named anchor. Building a style tree in which two traits anywhere — on
/// one node or on two distinct nodes — reference the same constrained
/// rule name fails, as does re-binding a name the table already holds.
pub proof fn lemma_shared_constrained_rule_rejected(
    e: ElemV,
    sheet: Seq<StyleV>,
    cnames: Seq<Seq<char>>,
    pnames: Seq<Seq<char>>,
    defaults: Seq<(Seq<char>, Seq<(Relation, ArithV)>)>,
    parent_id: int,
    id: int,
    bound: Seq<(Seq<char>, int)>,
    name: Seq<char>,
)
    requires
        spec_trait_constrained(name, sheet, cnames),
        spec_elem_count(e, name) + (if spec_bound_contains(bound, name) {
            1int
        } else {
            0int
        }) >= 2,
    ensures
        spec_build(e, sheet, cnames, pnames, defaults, parent_id, id, bound) is Err,
{
    match spec_build(e, sheet, cnames, pnames, defaults, parent_id, id, bound) {
        Ok(_) => {
            lemma_build_count(e, sheet, cnames, pnames, defaults, parent_id, id, bound, name);
            assert(false);
        },
        Err(_) => {},
    }
}

/// Builds the style tree for `root`, assigning pre-order ids starting at
/// `*id + 1` and binding constrained trait names in `styles_to_id`.
///
/// Fails exactly when some constrained rule name would be bound to two
/// nodes; the id counter and the table then hold a partial walk's work and
/// the caller discards them.
#[verifier::loop_isolation(false)]
pub fn construct_style_tree(
    root: &Element,
    stylesheet: &Vec<Style>,
    constraint_names: &Vec<String>,
    property_names: &Vec<String>,
    parent_id: usize,
    id: &mut usize,
    default_attributes: &Vec<(String, Vec<(Relation, Arith)>)>,
    styles_to_id: &mut Vec<(String, usize)>,
) -> (r: Result<StyleNode, BindError>)
    requires
        *old(id) + spec_size(root.deep_view()) <= usize::MAX,
    ensures
        match r {
            Ok(node) => spec_build(
                root.deep_view(),
                stylesheet.deep_view(),
                constraint_names.deep_view(),
                property_names.deep_view(),
                default_attributes.deep_view(),
                parent_id as int,
                *old(id) as int,
                spec_bounds(old(styles_to_id)@),
            ) == Ok::<_, BindError>(
                (node.deep_view(), *final(id) as int, spec_bounds(final(styles_to_id)@)),
            ),
            Err(_) => spec_build(
                root.deep_view(),
                stylesheet.deep_view(),
                constraint_names.deep_view(),
                property_names.deep_view(),
                default_attributes.deep_view(),
                parent_id as int,
                *old(id) as int,
                spec_bounds(old(styles_to_id)@),
            ) is Err,
        },
    decreases spec_size(root.deep_view()),
{
    let ghost rootv = root.deep_view();
    let ghost sheetv = stylesheet.deep_view();
    let ghost cnamesv = constraint_names.deep_view();
    let ghost pnamesv = property_names.deep_view();
    let ghost defaultsv = default_attributes.deep_view();
    proof {
        lemma_size_pos(rootv);
    }
    let my_id = *id + 1;
    *id = my_id;
    match root {
        Element::Text(_) => {
            let constraints = clone_pairs(default_attributes);
            let node = StyleNode {
                id: my_id,
                pid: parent_id,
                element: ElemRef::TextAt(my_id),
                children: Vec::new(),
                styles: StyleGroups { constraints, properties: Vec::new() },
            };
            proof {
                let dv = node.deep_view();
                assert(dv.children =~= Seq::<StyleNodeV>::empty());
                assert(dv.styles.properties =~= Seq::<
                    (Seq<char>, Seq<(Relation, ArithV)>),
                >::empty());
                assert(dv =~~= StyleNodeV {
                    id: my_id as int,
                    pid: parent_id as int,
                    element: ElemRef::TextAt(my_id),
                    children: Seq::empty(),
                    styles: StyleGroupsV { constraints: defaultsv, properties: Seq::empty() },
                });
            }
            Ok(node)
        },
        Element::Tag { traits, children } => {
            let ghost childrenv = rootv->Tag_children;
            proof {
                assert(childrenv.len() == children@.len());
                assert forall|x: int| 0 <= x < children@.len() implies childrenv[x]
                    == children[x].deep_view() by {}
            }
            match collate_styles(
                traits,
                stylesheet,
                constraint_names,
                property_names,
                default_attributes,
                my_id,
                styles_to_id,
            ) {
                Err(e) => Err(e),
                Ok(groups) => {
                    let ghost bound_c = spec_bounds(styles_to_id@);
                    let ghost groupsv = groups.deep_view();
                    let mut chs: Vec<StyleNode> = Vec::new();
                    let mut k: usize = 0;
                    proof {
                        assert(childrenv.skip(0) =~= childrenv);
                        assert(chs.deep_view() =~= Seq::<StyleNodeV>::empty());
                        lemma_size_list_nonneg(childrenv);
                    }
                    while k < children.len()
                        invariant
                            k <= children@.len(),
                            chs@.len() == k,
                            childrenv.len() == children@.len(),
                            forall|x: int|
                                0 <= x < children@.len() ==> childrenv[x] == children[
                                    x
                                ].deep_view(),
                            sheetv == stylesheet.deep_view(),
                            cnamesv == constraint_names.deep_view(),
                            pnamesv == property_names.deep_view(),
                            defaultsv == default_attributes.deep_view(),
                            *id as int + spec_size_list(childrenv.skip(k as int))
                                <= usize::MAX,
                            spec_build_children(
                                childrenv,
                                sheetv,
                                cnamesv,
                                pnamesv,
                                defaultsv,
                                my_id as int,
                                (Seq::empty(), my_id as int, bound_c),
                            ) == spec_build_children(
                                childrenv.skip(k as int),
                                sheetv,
                                cnamesv,
                                pnamesv,
                                defaultsv,
                                my_id as int,
                                (chs.deep_view(), *id as int, spec_bounds(styles_to_id@)),
                            ),
                        decreases children@.len() - k,
                    {
                        let ghost state_k = (
                            chs.deep_view(),
                            *id as int,
                            spec_bounds(styles_to_id@),
                        );
                        proof {
                            assert(childrenv.skip(k as int)[0] == childrenv[k as int]);
                            assert(childrenv.skip(k as int).drop_first() =~= childrenv.skip(
                                k as int + 1,
                            ));
                            lemma_size_list_nonneg(childrenv.skip(k as int + 1));
                            lemma_size_pos(childrenv[k as int]);
                        }
                        let ghost chs_prevq = chs@;
                        let ghost chs_prevdv = chs.deep_view();
                        proof {
                            assert forall|x: int| 0 <= x < k implies chs_prevq[x].deep_view()
                                == chs_prevdv[x] by {
                                assert(chs.deep_view()[x] == chs@[x].deep_view());
                            }
                            lemma_size_list_elem(childrenv, k as int);
                            assert(children[k as int].deep_view() == childrenv[k as int]);
                            assert(spec_size(children[k as int].deep_view()) < spec_size(
                                rootv,
                            ));
                        }
                        match construct_style_tree(
                            &children[k],
                            stylesheet,
                            constraint_names,
                            property_names,
                            my_id,
                            id,
                            default_attributes,
                            styles_to_id,
                        ) {
                            Err(e) => {
                                proof {
                                    assert(spec_build_children(
                                        childrenv.skip(k as int),
                                        sheetv,
                                        cnamesv,
                                        pnamesv,
                                        defaultsv,
                                        my_id as int,
                                        state_k,
                                    ) is Err);
                                }
                                return Err(e);
                            },
                            Ok(child) => {
                                let ghost childdv = child.deep_view();
                                proof {
                                    lemma_build_id(
                                        childrenv[k as int],
                                        sheetv,
                                        cnamesv,
                                        pnamesv,
                                        defaultsv,
                                        my_id as int,
                                        state_k.1,
                                        state_k.2,
                                    );
                                }
                                chs.push(child);
                                proof {
                                    assert forall|x: int|
                                        0 <= x < k + 1 implies #[trigger] chs.deep_view()[x]
                                        == chs_prevdv.push(childdv)[x] by {
                                        assert(chs.deep_view()[x] == chs@[x].deep_view());
                                        if x < k {
                                            assert(chs@[x] == chs_prevq[x]);
                                        }
                                    }
                                    assert(chs.deep_view() =~= chs_prevdv.push(childdv));
                                }
                            },
                        }
                        k = k + 1;
                    }
                    proof {
                        assert(childrenv.skip(children@.len() as int) =~= Seq::<ElemV>::empty());
                    }
                    let ghost chs_final = chs.deep_view();
                    let ghost chs_q = chs@;
                    let node = StyleNode {
                        id: my_id,
                        pid: parent_id,
                        element: ElemRef::TagAt(my_id),
                        children: chs,
                        styles: groups,
                    };
                    proof {
                        let dv = node.deep_view();
                        lemma_node_children_view(node);
                        assert(node.children@ == chs_q);
                        assert forall|x: int|
                            0 <= x < dv.children.len() implies dv.children[x] == chs_final[
                            x
                        ] by {
                            assert(dv.children[x] == node.children@[x].deep_view());
                            assert(chs_final[x] == chs_q[x].deep_view());
                        }
                        assert(dv.children =~= chs_final);
                        assert(dv =~~= StyleNodeV {
                            id: my_id as int,
                            pid: parent_id as int,
                            element: ElemRef::TagAt(my_id),
                            children: chs_final,
                            styles: groupsv,
                        });
                    }
                    Ok(node)
                },
            }
        },
    }
}

} // verus!
