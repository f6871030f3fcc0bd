//! The solver variable pool and the linear constraint system.
//!
//! One solver variable exists per (node id, attribute name) pair. The
//! allocator walks the style tree in pre-order and gives every node a
//! variable for each attribute it declares plus every mandatory box-model
//! attribute not yet present. The generator then walks the tree again and
//! emits, per node, the box-model constraints (edges ordered, origin
//! non-negative, containment in the parent, text pinned to its parent) and
//! the user-declared constraint terms, as plain data: the external linear
//! solver consumes these batches and hands back real-valued solutions.
//!
//! `width` and `height` are sugar over edge differences: a literal term on
//! them becomes a required equality on `right - left` or `bottom - top`,
//! and a cross-node reference to them becomes a strong (not required)
//! equality between the two nodes' edge differences. A cross-node
//! reference to any other attribute relates the two raw variables at
//! required strength. References to the parent or window pseudo-entities
//! and arithmetic expressions are not supported here and are errors, as is
//! a reference to a rule name with no constrained binder.

use vstd::prelude::*;
use crate::ass_parser::Arith;
use crate::ass_parser::ArithV;
use crate::ass_parser::Entity;
use crate::ass_parser::EntityV;
use crate::ass_parser::Relation;
use crate::ass_parser::Style;
use crate::style_tree::contains_name;
use crate::style_tree::spec_bounds;
use crate::style_tree::clone_string;
use crate::style_tree::spec_style_node;
use crate::style_tree::ElemRef;
use crate::style_tree::StyleNode;
use crate::style_tree::StyleNodeV;

verus! {

/// A solver variable, identified by its node id and attribute name.
#[derive(Debug, PartialEq, Eq)]
pub struct VarRef {
    pub node: usize,
    pub attr: String,
}

/// One side of a constraint: a variable, a difference of two variables,
/// or a literal.
#[derive(Debug, PartialEq)]
pub enum Operand {
    Var(VarRef),
    Diff(VarRef, VarRef),
    Const(u32),
}

/// The strength tier a constraint is submitted at.
#[derive(Debug, PartialEq, Eq, Structural, Clone, Copy)]
pub enum Strength {
    Weak,
    Medium,
    Strong,
    Required,
}

/// One weighted linear constraint for the external solver.
#[derive(Debug, PartialEq)]
pub struct LayoutConstraint {
    pub lhs: Operand,
    pub rel: Relation,
    pub rhs: Operand,
    pub strength: Strength,
}

/// Why constraint generation failed.
#[derive(Debug, PartialEq, Eq, Structural, Clone, Copy)]
pub enum GenError {
    /// A node id has no entry in the variable pool.
    IdNotMapped,
    /// An attribute is not mapped in its node's pool entry.
    AttrNotMapped,
    /// A cross-reference names a style with no constrained binder.
    UnknownStyleRef,
    /// A reference to a pseudo-entity that is not a recognised position.
    StrangeEntity,
    /// An arithmetic expression where none is supported.
    InvalidExpression,
}

/// Mathematical model of a `VarRef`.
#[verifier::ext_equal]
pub struct VarRefV {
    pub node: int,
    pub attr: Seq<char>,
}

/// Mathematical model of an `Operand`.
#[verifier::ext_equal]
pub enum OperandV {
    Var(VarRefV),
    Diff(VarRefV, VarRefV),
    Const(u32),
}

/// Mathematical model of a `LayoutConstraint`.
#[verifier::ext_equal]
pub struct LayoutConstraintV {
    pub lhs: OperandV,
    pub rel: Relation,
    pub rhs: OperandV,
    pub strength: Strength,
}

impl DeepView for VarRef {
    type V = VarRefV;

    open spec fn deep_view(&self) -> VarRefV {
        VarRefV { node: self.node as int, attr: self.attr@ }
    }
}

impl DeepView for Operand {
    type V = OperandV;

    open spec fn deep_view(&self) -> OperandV {
        match self {
            Operand::Var(v) => OperandV::Var(v.deep_view()),
            Operand::Diff(a, b) => OperandV::Diff(a.deep_view(), b.deep_view()),
            Operand::Const(n) => OperandV::Const(*n),
        }
    }
}

impl DeepView for LayoutConstraint {
    type V = LayoutConstraintV;

    open spec fn deep_view(&self) -> LayoutConstraintV {
        LayoutConstraintV {
            lhs: self.lhs.deep_view(),
            rel: self.rel,
            rhs: self.rhs.deep_view(),
            strength: self.strength,
        }
    }
}

/// Mathematical model of the variable pool: node id to attribute names.
pub open spec fn spec_pool_view(p: Seq<(usize, Vec<String>)>) -> Seq<(int, Seq<Seq<char>>)> {
    Seq::new(p.len(), |i: int| (p[i].0 as int, p[i].1.deep_view()))
}

/// The mandatory edge attribute names.
pub open spec fn name_left() -> Seq<char> {
    seq!['l', 'e', 'f', 't']
}

pub open spec fn name_right() -> Seq<char> {
    seq!['r', 'i', 'g', 'h', 't']
}

pub open spec fn name_top() -> Seq<char> {
    seq!['t', 'o', 'p']
}

pub open spec fn name_bottom() -> Seq<char> {
    seq!['b', 'o', 't', 't', 'o', 'm']
}

pub open spec fn name_width() -> Seq<char> {
    seq!['w', 'i', 'd', 't', 'h']
}

pub open spec fn name_height() -> Seq<char> {
    seq!['h', 'e', 'i', 'g', 'h', 't']
}

/// The attribute-name list of a pool entry's source: first occurrence of
/// each name in `names` is appended to `acc`.
pub open spec fn spec_add_names(acc: Seq<Seq<char>>, names: Seq<Seq<char>>) -> Seq<Seq<char>>
    decreases names.len(),
{
    if names.len() == 0 {
        acc
    } else {
        spec_add_names(
            if acc.contains(names[0]) {
                acc
            } else {
                acc.push(names[0])
            },
            names.drop_first(),
        )
    }
}

/// The attribute names of a constraint list, in order.
pub open spec fn spec_attr_names(
    pairs: Seq<(Seq<char>, Seq<(Relation, ArithV)>)>,
) -> Seq<Seq<char>> {
    Seq::new(pairs.len(), |i: int| pairs[i].0)
}

/// The attribute names a node gets variables for: its declared constraint
/// attributes, then the mandatory names not yet present, without
/// duplicates.
pub open spec fn spec_node_attrs(n: StyleNodeV, cnames: Seq<Seq<char>>) -> Seq<Seq<char>> {
    spec_add_names(
        spec_add_names(Seq::empty(), spec_attr_names(n.styles.constraints)),
        cnames,
    )
}

/// The pool entries a subtree contributes, in pre-order.
pub open spec fn spec_pool_of(n: StyleNodeV, cnames: Seq<Seq<char>>) -> Seq<
    (int, Seq<Seq<char>>),
>
    decreases n,
{
    seq![(n.id, spec_node_attrs(n, cnames))] + spec_pool_list(n.children, cnames)
}

/// The pool entries of a list of sibling subtrees.
pub open spec fn spec_pool_list(ns: Seq<StyleNodeV>, cnames: Seq<Seq<char>>) -> Seq<
    (int, Seq<Seq<char>>),
>
    decreases ns,
{
    if ns.len() == 0 {
        Seq::empty()
    } else {
        spec_pool_of(ns[0], cnames) + spec_pool_list(ns.drop_first(), cnames)
    }
}

/// Appends to `names` each name of `source` not yet present, in order.
fn add_names(names: &mut Vec<String>, source: &Vec<String>)
    ensures
        final(names).deep_view() == spec_add_names(old(names).deep_view(), source.deep_view()),
{
    let ghost sourcev = source.deep_view();
    let ghost names0 = names.deep_view();
    let mut k: usize = 0;
    proof {
        assert(sourcev.skip(0) =~= sourcev);
    }
    while k < source.len()
        invariant
            k <= source@.len(),
            sourcev == source.deep_view(),
            sourcev.len() == source@.len(),
            spec_add_names(names0, sourcev) == spec_add_names(
                names.deep_view(),
                sourcev.skip(k as int),
            ),
        decreases source@.len() - k,
    {
        proof {
            assert(sourcev.skip(k as int)[0] == sourcev[k as int]);
            assert(sourcev.skip(k as int).drop_first() =~= sourcev.skip(k as int + 1));
            assert(sourcev[k as int] == source@[k as int]@);
        }
        if !contains_name(names, &source[k]) {
            let ghost prevq = names@;
            let ghost prevdv = names.deep_view();
            proof {
                assert forall|x: int| 0 <= x < prevq.len() implies prevq[x].deep_view()
                    == prevdv[x] by {
                    assert(names.deep_view()[x] == names@[x].deep_view());
                }
            }
            names.push(clone_string(&source[k]));
            proof {
                assert forall|x: int| 0 <= x < names@.len() implies #[trigger] names.deep_view()[
                    x
                ] == prevdv.push(sourcev[k as int])[x] by {
                    assert(names.deep_view()[x] == names@[x].deep_view());
                    if x < prevq.len() {
                        assert(names@[x] == prevq[x]);
                    }
                }
                assert(names.deep_view() =~= prevdv.push(sourcev[k as int]));
            }
        }
        k = k + 1;
    }
    proof {
        assert(sourcev.skip(source@.len() as int) =~= Seq::<Seq<char>>::empty());
    }
}

/// Allocates this subtree's variables: one per (node id, attribute) pair,
/// appended to the pool in pre-order.
#[verifier::loop_isolation(false)]
pub fn generate_variable_pool(
    root: &StyleNode,
    stylesheet: &Vec<Style>,
    constraint_names: &Vec<String>,
    variable_pool: &mut Vec<(usize, Vec<String>)>,
)
    ensures
        spec_pool_view(final(variable_pool)@) == spec_pool_view(old(variable_pool)@)
            + spec_pool_of(spec_style_node(*root), constraint_names.deep_view()),
    decreases *root,
{
    let ghost rootv = spec_style_node(*root);
    let ghost cnamesv = constraint_names.deep_view();
    let ghost pool0 = spec_pool_view(variable_pool@);

    // The declared constraint attribute names, first occurrences only.
    let mut names: Vec<String> = Vec::new();
    let mut attr_names: Vec<String> = Vec::new();
    let mut k: usize = 0;
    proof {
        assert(attr_names.deep_view() =~= spec_attr_names(
            rootv.styles.constraints,
        ).take(0));
    }
    while k < root.styles.constraints.len()
        invariant
            k <= root.styles.constraints@.len(),
            rootv.styles.constraints.len() == root.styles.constraints@.len(),
            attr_names.deep_view() =~= spec_attr_names(rootv.styles.constraints).take(k as int),
        decreases root.styles.constraints@.len() - k,
    {
        let ghost prevq = attr_names@;
        let ghost prevdv = attr_names.deep_view();
        proof {
            assert forall|x: int| 0 <= x < prevq.len() implies prevq[x].deep_view() == prevdv[
                x
            ] by {
                assert(attr_names.deep_view()[x] == attr_names@[x].deep_view());
            }
        }
        attr_names.push(clone_string(&root.styles.constraints[k].0));
        proof {
            assert(rootv.styles.constraints[k as int] == root.styles.constraints@[
                k as int
            ].deep_view());
            assert forall|x: int| 0 <= x < attr_names@.len() implies #[trigger] attr_names
                .deep_view()[x] == spec_attr_names(rootv.styles.constraints).take(k as int + 1)[
                x
            ] by {
                assert(attr_names.deep_view()[x] == attr_names@[x].deep_view());
                if x < prevq.len() {
                    assert(attr_names@[x] == prevq[x]);
                }
            }
            assert(attr_names.deep_view() =~= spec_attr_names(rootv.styles.constraints).take(
                k as int + 1,
            ));
        }
        k = k + 1;
    }
    proof {
        assert(spec_attr_names(rootv.styles.constraints).take(
            root.styles.constraints@.len() as int,
        ) =~= spec_attr_names(rootv.styles.constraints));
        assert(names.deep_view() =~= Seq::<Seq<char>>::empty());
    }
    add_names(&mut names, &attr_names);
    add_names(&mut names, constraint_names);
    let ghost namesv = names.deep_view();
    let ghost poolq = variable_pool@;
    variable_pool.push((root.id, names));
    proof {
        assert forall|x: int| 0 <= x < variable_pool@.len() implies #[trigger] spec_pool_view(
            variable_pool@,
        )[x] == pool0.push((root.id as int, namesv))[x] by {
            if x < poolq.len() {
                assert(variable_pool@[x] == poolq[x]);
            }
        }
        assert(spec_pool_view(variable_pool@) =~= pool0.push((root.id as int, namesv)));
        assert(namesv == spec_node_attrs(rootv, cnamesv));
        assert(pool0.push((rootv.id, namesv)) =~= pool0 + seq![(rootv.id, namesv)]);
    }
    let mut c: usize = 0;
    proof {
        assert(rootv.children.skip(0) =~= rootv.children);
        assert(spec_pool_view(variable_pool@) + spec_pool_list(rootv.children, cnamesv) =~= pool0
            + spec_pool_of(rootv, cnamesv));
    }
    while c < root.children.len()
        invariant
            c <= root.children@.len(),
            spec_pool_view(variable_pool@) + spec_pool_list(
                rootv.children.skip(c as int),
                cnamesv,
            ) =~= pool0 + spec_pool_of(rootv, cnamesv),
        decreases root.children@.len() - c,
    {
        proof {
            assert(rootv.children.skip(c as int)[0] == rootv.children[c as int]);
            assert(rootv.children.skip(c as int).drop_first() =~= rootv.children.skip(
                c as int + 1,
            ));
            assert(rootv.children[c as int] == spec_style_node(root.children@[c as int]));
        }
        let ghost poolv_before = spec_pool_view(variable_pool@);
        generate_variable_pool(&root.children[c], stylesheet, constraint_names, variable_pool);
        proof {
            assert(spec_pool_view(variable_pool@) + spec_pool_list(
                rootv.children.skip(c as int + 1),
                cnamesv,
            ) =~= poolv_before + spec_pool_of(rootv.children[c as int], cnamesv)
                + spec_pool_list(rootv.children.skip(c as int + 1), cnamesv));
            assert(poolv_before + spec_pool_of(rootv.children[c as int], cnamesv)
                + spec_pool_list(rootv.children.skip(c as int + 1), cnamesv) =~= poolv_before
                + spec_pool_list(rootv.children.skip(c as int), cnamesv));
            assert(spec_pool_view(variable_pool@) + spec_pool_list(
                rootv.children.skip(c as int + 1),
                cnamesv,
            ) =~= pool0 + spec_pool_of(rootv, cnamesv));
        }
        c = c + 1;
    }
    proof {
        assert(rootv.children.skip(root.children@.len() as int) =~= Seq::<StyleNodeV>::empty());
        assert(spec_pool_view(variable_pool@) + Seq::<(int, Seq<Seq<char>>)>::empty()
            =~= spec_pool_view(variable_pool@));
    }
}

/// The attribute names of the first pool entry for `id`, if any.
pub open spec fn spec_pool_lookup(pool: Seq<(int, Seq<Seq<char>>)>, id: int) -> Option<
    Seq<Seq<char>>,
>
    decreases pool.len(),
{
    if pool.len() == 0 {
        None
    } else if pool[0].0 == id {
        Some(pool[0].1)
    } else {
        spec_pool_lookup(pool.drop_first(), id)
    }
}

/// The variable for (id, attr): the pool must map the node id, and the
/// entry must hold the attribute.
pub open spec fn spec_retrieve(
    pool: Seq<(int, Seq<Seq<char>>)>,
    id: int,
    attr: Seq<char>,
) -> Result<VarRefV, GenError> {
    match spec_pool_lookup(pool, id) {
        None => Err(GenError::IdNotMapped),
        Some(attrs) => if attrs.contains(attr) {
            Ok(VarRefV { node: id, attr })
        } else {
            Err(GenError::AttrNotMapped)
        },
    }
}

/// Looks up the variable for (node_id, attr_name) in the pool.
///
/// Returns the variable exactly when the pool maps the node id and the
/// entry holds the attribute; the error says which lookup failed.
pub fn retrieve_variable(
    variable_pool: &Vec<(usize, Vec<String>)>,
    node_id: usize,
    attr_name: &String,
) -> (r: Result<VarRef, GenError>)
    ensures
        match r {
            Ok(v) => spec_retrieve(spec_pool_view(variable_pool@), node_id as int, attr_name@)
                == Ok::<_, GenError>(v.deep_view()),
            Err(e) => spec_retrieve(spec_pool_view(variable_pool@), node_id as int, attr_name@)
                == Err::<VarRefV, _>(e),
        },
{
    let ghost poolv = spec_pool_view(variable_pool@);
    let mut k: usize = 0;
    proof {
        assert(poolv.skip(0) =~= poolv);
    }
    while k < variable_pool.len()
        invariant
            k <= variable_pool@.len(),
            poolv == spec_pool_view(variable_pool@),
            poolv.len() == variable_pool@.len(),
            spec_pool_lookup(poolv, node_id as int) == spec_pool_lookup(
                poolv.skip(k as int),
                node_id as int,
            ),
        decreases variable_pool@.len() - k,
    {
        proof {
            assert(poolv.skip(k as int)[0] == poolv[k as int]);
            assert(poolv.skip(k as int).drop_first() =~= poolv.skip(k as int + 1));
        }
        if variable_pool[k].0 == node_id {
            if contains_name(&variable_pool[k].1, attr_name) {
                return Ok(VarRef { node: node_id, attr: clone_string(attr_name) });
            } else {
                return Err(GenError::AttrNotMapped);
            }
        }
        k = k + 1;
    }
    proof {
        assert(poolv.skip(variable_pool@.len() as int) =~= Seq::<(int, Seq<Seq<char>>)>::empty());
    }
    Err(GenError::IdNotMapped)
}

/// The id bound to `name` in the name-to-id table, first match.
pub open spec fn spec_bound_lookup(bound: Seq<(Seq<char>, int)>, name: Seq<char>) -> Option<int>
    decreases bound.len(),
{
    if bound.len() == 0 {
        None
    } else if bound[0].0 == name {
        Some(bound[0].1)
    } else {
        spec_bound_lookup(bound.drop_first(), name)
    }
}

fn bound_lookup(table: &Vec<(String, usize)>, name: &String) -> (r: Option<usize>)
    ensures
        match r {
            Some(t) => spec_bound_lookup(spec_bounds(table@), name@) == Some(t as int),
            None => spec_bound_lookup(spec_bounds(table@), name@) is None,
        },
{
    let ghost tv = spec_bounds(table@);
    let mut k: usize = 0;
    proof {
        assert(tv.skip(0) =~= tv);
    }
    while k < table.len()
        invariant
            k <= table@.len(),
            tv == spec_bounds(table@),
            tv.len() == table@.len(),
            spec_bound_lookup(tv, name@) == spec_bound_lookup(tv.skip(k as int), name@),
        decreases table@.len() - k,
    {
        proof {
            assert(tv.skip(k as int)[0] == tv[k as int]);
            assert(tv.skip(k as int).drop_first() =~= tv.skip(k as int + 1));
        }
        if table[k].0 == *name {
            return Some(table[k].1);
        }
        k = k + 1;
    }
    proof {
        assert(tv.skip(table@.len() as int) =~= Seq::<(Seq<char>, int)>::empty());
    }
    None
}

/// A constraint at the specification level.
pub open spec fn lc(lhs: OperandV, rel: Relation, rhs: OperandV, strength: Strength)
    -> LayoutConstraintV {
    LayoutConstraintV { lhs, rel, rhs, strength }
}

/// The four edge variables of a node, in lookup order.
pub open spec fn spec_edges(pool: Seq<(int, Seq<Seq<char>>)>, id: int) -> Result<
    (VarRefV, VarRefV, VarRefV, VarRefV),
    GenError,
> {
    match spec_retrieve(pool, id, name_left()) {
        Err(e) => Err(e),
        Ok(l) => match spec_retrieve(pool, id, name_right()) {
            Err(e) => Err(e),
            Ok(r) => match spec_retrieve(pool, id, name_top()) {
                Err(e) => Err(e),
                Ok(t) => match spec_retrieve(pool, id, name_bottom()) {
                    Err(e) => Err(e),
                    Ok(b) => Ok((l, r, t, b)),
                },
            },
        },
    }
}

/// The constraints one user-declared term contributes.
///
/// A literal on `width`/`height` is a required equality on the edge
/// difference; a cross-reference to another node's `width`/`height` is a
/// strong equality between the two edge differences; a cross-reference to
/// any other attribute relates the two raw variables; anything else is an
/// error.
pub open spec fn spec_term_cs(
    id: int,
    attr: Seq<char>,
    rel: Relation,
    a: ArithV,
    pool: Seq<(int, Seq<Seq<char>>)>,
    bound: Seq<(Seq<char>, int)>,
) -> Result<Seq<LayoutConstraintV>, GenError> {
    match spec_retrieve(pool, id, attr) {
        Err(e) => Err(e),
        Ok(lhs) => match a {
            ArithV::Num(n) => if attr == name_width() {
                match spec_retrieve(pool, id, name_right()) {
                    Err(e) => Err(e),
                    Ok(r) => match spec_retrieve(pool, id, name_left()) {
                        Err(e) => Err(e),
                        Ok(l) => Ok(
                            seq![
                                lc(
                                    OperandV::Diff(r, l),
                                    Relation::EQ,
                                    OperandV::Const(n),
                                    Strength::Required,
                                )
                            ],
                        ),
                    },
                }
            } else if attr == name_height() {
                match spec_retrieve(pool, id, name_bottom()) {
                    Err(e) => Err(e),
                    Ok(b) => match spec_retrieve(pool, id, name_top()) {
                        Err(e) => Err(e),
                        Ok(t) => Ok(
                            seq![
                                lc(
                                    OperandV::Diff(b, t),
                                    Relation::EQ,
                                    OperandV::Const(n),
                                    Strength::Required,
                                )
                            ],
                        ),
                    },
                }
            } else {
                Ok(seq![lc(OperandV::Var(lhs), rel, OperandV::Const(n), Strength::Required)])
            },
            ArithV::Ref(e, oattr) => match e {
                EntityV::Other(oname) => match spec_bound_lookup(bound, oname) {
                    None => Err(GenError::UnknownStyleRef),
                    Some(tid) => if oattr == name_height() {
                        match spec_retrieve(pool, id, name_bottom()) {
                            Err(e2) => Err(e2),
                            Ok(b) => match spec_retrieve(pool, id, name_top()) {
                                Err(e2) => Err(e2),
                                Ok(t) => match spec_retrieve(pool, tid, name_bottom()) {
                                    Err(e2) => Err(e2),
                                    Ok(tb) => match spec_retrieve(pool, tid, name_top()) {
                                        Err(e2) => Err(e2),
                                        Ok(tt) => Ok(
                                            seq![
                                                lc(
                                                    OperandV::Diff(b, t),
                                                    Relation::EQ,
                                                    OperandV::Diff(tb, tt),
                                                    Strength::Strong,
                                                )
                                            ],
                                        ),
                                    },
                                },
                            },
                        }
                    } else if oattr == name_width() {
                        match spec_retrieve(pool, id, name_right()) {
                            Err(e2) => Err(e2),
                            Ok(r) => match spec_retrieve(pool, id, name_left()) {
                                Err(e2) => Err(e2),
                                Ok(l) => match spec_retrieve(pool, tid, name_right()) {
                                    Err(e2) => Err(e2),
                                    Ok(tr) => match spec_retrieve(pool, tid, name_left()) {
                                        Err(e2) => Err(e2),
                                        Ok(tl) => Ok(
                                            seq![
                                                lc(
                                                    OperandV::Diff(r, l),
                                                    Relation::EQ,
                                                    OperandV::Diff(tr, tl),
                                                    Strength::Strong,
                                                )
                                            ],
                                        ),
                                    },
                                },
                            },
                        }
                    } else {
                        match spec_retrieve(pool, tid, oattr) {
                            Err(e2) => Err(e2),
                            Ok(tv) => Ok(
                                seq![
                                    lc(
                                        OperandV::Var(lhs),
                                        rel,
                                        OperandV::Var(tv),
                                        Strength::Required,
                                    )
                                ],
                            ),
                        }
                    },
                },
                _ => Err(GenError::StrangeEntity),
            },
            ArithV::Add(_, _) => Err(GenError::InvalidExpression),
            ArithV::Sub(_, _) => Err(GenError::InvalidExpression),
        },
    }
}

/// The constraints of one attribute's term list, appended to `acc`.
pub open spec fn spec_terms_cs(
    id: int,
    attr: Seq<char>,
    terms: Seq<(Relation, ArithV)>,
    pool: Seq<(int, Seq<Seq<char>>)>,
    bound: Seq<(Seq<char>, int)>,
    acc: Seq<LayoutConstraintV>,
) -> Result<Seq<LayoutConstraintV>, GenError>
    decreases terms.len(),
{
    if terms.len() == 0 {
        Ok(acc)
    } else {
        match spec_term_cs(id, attr, terms[0].0, terms[0].1, pool, bound) {
            Err(e) => Err(e),
            Ok(cs) => spec_terms_cs(id, attr, terms.drop_first(), pool, bound, acc + cs),
        }
    }
}

/// The constraints of a node's whole user-declared list, appended to
/// `acc`.
pub open spec fn spec_pairs_cs(
    id: int,
    pairs: Seq<(Seq<char>, Seq<(Relation, ArithV)>)>,
    pool: Seq<(int, Seq<Seq<char>>)>,
    bound: Seq<(Seq<char>, int)>,
    acc: Seq<LayoutConstraintV>,
) -> Result<Seq<LayoutConstraintV>, GenError>
    decreases pairs.len(),
{
    if pairs.len() == 0 {
        Ok(acc)
    } else {
        match spec_terms_cs(id, pairs[0].0, pairs[0].1, pool, bound, acc) {
            Err(e) => Err(e),
            Ok(acc2) => spec_pairs_cs(id, pairs.drop_first(), pool, bound, acc2),
        }
    }
}

/// All constraints of one node: structural edges, containment in the
/// parent when one exists, text pinned to its parent, then the
/// user-declared terms.
pub open spec fn spec_node_cs(
    n: StyleNodeV,
    pool: Seq<(int, Seq<Seq<char>>)>,
    bound: Seq<(Seq<char>, int)>,
) -> Result<Seq<LayoutConstraintV>, GenError> {
    match spec_edges(pool, n.id) {
        Err(e) => Err(e),
        Ok((l, r, t, b)) => {
            let base = seq![
                lc(OperandV::Var(l), Relation::LE, OperandV::Var(r), Strength::Required),
                lc(OperandV::Var(t), Relation::LE, OperandV::Var(b), Strength::Required),
                lc(OperandV::Var(t), Relation::GE, OperandV::Const(0), Strength::Required),
                lc(OperandV::Var(l), Relation::GE, OperandV::Const(0), Strength::Required),
            ];
            let step1 = if n.pid != 0 {
                match spec_edges(pool, n.pid) {
                    Err(e) => Err(e),
                    Ok((pl, pr, pt, pb)) => Ok(
                        base + seq![
                            lc(
                                OperandV::Var(l),
                                Relation::GE,
                                OperandV::Var(pl),
                                Strength::Required,
                            ),
                            lc(
                                OperandV::Var(r),
                                Relation::LE,
                                OperandV::Var(pr),
                                Strength::Required,
                            ),
                            lc(
                                OperandV::Var(b),
                                Relation::LE,
                                OperandV::Var(pb),
                                Strength::Required,
                            ),
                            lc(
                                OperandV::Var(t),
                                Relation::GE,
                                OperandV::Var(pt),
                                Strength::Required,
                            ),
                        ],
                    ),
                }
            } else {
                Ok(base)
            };
            match step1 {
                Err(e) => Err(e),
                Ok(cs1) => {
                    let step2 = if n.element is TextAt {
                        match spec_edges(pool, n.pid) {
                            Err(e) => Err(e),
                            Ok((pl, pr, pt, pb)) => Ok(
                                cs1 + seq![
                                    lc(
                                        OperandV::Var(l),
                                        Relation::EQ,
                                        OperandV::Var(pl),
                                        Strength::Required,
                                    ),
                                    lc(
                                        OperandV::Var(r),
                                        Relation::EQ,
                                        OperandV::Var(pr),
                                        Strength::Required,
                                    ),
                                    lc(
                                        OperandV::Var(b),
                                        Relation::EQ,
                                        OperandV::Var(pb),
                                        Strength::Required,
                                    ),
                                    lc(
                                        OperandV::Var(t),
                                        Relation::EQ,
                                        OperandV::Var(pt),
                                        Strength::Required,
                                    ),
                                ],
                            ),
                        }
                    } else {
                        Ok(cs1)
                    };
                    match step2 {
                        Err(e) => Err(e),
                        Ok(cs2) => spec_pairs_cs(n.id, n.styles.constraints, pool, bound, cs2),
                    }
                },
            }
        },
    }
}

/// The per-node constraint batches of a whole subtree, in pre-order,
/// appended to `acc`.
pub open spec fn spec_gen(
    n: StyleNodeV,
    pool: Seq<(int, Seq<Seq<char>>)>,
    bound: Seq<(Seq<char>, int)>,
    acc: Seq<(int, Seq<LayoutConstraintV>)>,
) -> Result<Seq<(int, Seq<LayoutConstraintV>)>, GenError>
    decreases n,
{
    match spec_node_cs(n, pool, bound) {
        Err(e) => Err(e),
        Ok(cs) => spec_gen_list(n.children, pool, bound, acc.push((n.id, cs))),
    }
}

/// The batches of a list of sibling subtrees, appended to `acc`.
pub open spec fn spec_gen_list(
    ns: Seq<StyleNodeV>,
    pool: Seq<(int, Seq<Seq<char>>)>,
    bound: Seq<(Seq<char>, int)>,
    acc: Seq<(int, Seq<LayoutConstraintV>)>,
) -> Result<Seq<(int, Seq<LayoutConstraintV>)>, GenError>
    decreases ns,
{
    if ns.len() == 0 {
        Ok(acc)
    } else {
        match spec_gen(ns[0], pool, bound, acc) {
            Err(e) => Err(e),
            Ok(a2) => spec_gen_list(ns.drop_first(), pool, bound, a2),
        }
    }
}

/// Mathematical model of the generated batch list.
pub open spec fn spec_batches_view(o: Seq<(usize, Vec<LayoutConstraint>)>) -> Seq<
    (int, Seq<LayoutConstraintV>),
> {
    Seq::new(o.len(), |i: int| (o[i].0 as int, o[i].1.deep_view()))
}

fn left_string() -> (s: String)
    ensures
        s@ == name_left(),
{
    let s = String::from_str("left");
    proof {
        reveal_strlit("left");
        assert(s@ =~= name_left());
    }
    s
}

fn right_string() -> (s: String)
    ensures
        s@ == name_right(),
{
    let s = String::from_str("right");
    proof {
        reveal_strlit("right");
        assert(s@ =~= name_right());
    }
    s
}

fn top_string() -> (s: String)
    ensures
        s@ == name_top(),
{
    let s = String::from_str("top");
    proof {
        reveal_strlit("top");
        assert(s@ =~= name_top());
    }
    s
}

fn bottom_string() -> (s: String)
    ensures
        s@ == name_bottom(),
{
    let s = String::from_str("bottom");
    proof {
        reveal_strlit("bottom");
        assert(s@ =~= name_bottom());
    }
    s
}

fn width_string() -> (s: String)
    ensures
        s@ == name_width(),
{
    let s = String::from_str("width");
    proof {
        reveal_strlit("width");
        assert(s@ =~= name_width());
    }
    s
}

fn height_string() -> (s: String)
    ensures
        s@ == name_height(),
{
    let s = String::from_str("height");
    proof {
        reveal_strlit("height");
        assert(s@ =~= name_height());
    }
    s
}

fn clone_var(v: &VarRef) -> (r: VarRef)
    ensures
        r.deep_view() == v.deep_view(),
{
    VarRef { node: v.node, attr: clone_string(&v.attr) }
}

/// Appends one constraint, at the model level a sequence push.
fn push_c(out: &mut Vec<LayoutConstraint>, c: LayoutConstraint)
    ensures
        final(out).deep_view() == old(out).deep_view().push(c.deep_view()),
{
    let ghost prevq = out@;
    let ghost prevdv = out.deep_view();
    let ghost cv = c.deep_view();
    proof {
        assert forall|x: int| 0 <= x < prevq.len() implies prevq[x].deep_view() == prevdv[
            x
        ] by {
            assert(out.deep_view()[x] == out@[x].deep_view());
        }
    }
    out.push(c);
    proof {
        assert forall|x: int| 0 <= x < out@.len() implies #[trigger] out.deep_view()[x]
            == prevdv.push(cv)[x] by {
            assert(out.deep_view()[x] == out@[x].deep_view());
            if x < prevq.len() {
                assert(out@[x] == prevq[x]);
            }
        }
        assert(out.deep_view() =~= prevdv.push(cv));
    }
}

/// A one-constraint batch.
fn single_c(c: LayoutConstraint) -> (r: Vec<LayoutConstraint>)
    ensures
        r.deep_view() == seq![c.deep_view()],
{
    let ghost cv = c.deep_view();
    let mut out: Vec<LayoutConstraint> = Vec::new();
    proof {
        assert(out.deep_view() =~= Seq::<LayoutConstraintV>::empty());
    }
    push_c(&mut out, c);
    proof {
        assert(out.deep_view() =~= seq![cv]);
    }
    out
}

/// Moves `src`'s constraints onto the end of `dst`.
fn append_cs(dst: &mut Vec<LayoutConstraint>, src: Vec<LayoutConstraint>)
    ensures
        final(dst).deep_view() == old(dst).deep_view() + src.deep_view(),
{
    let ghost dstq = dst@;
    let ghost dstdv = dst.deep_view();
    let ghost srcq = src@;
    let ghost srcdv = src.deep_view();
    proof {
        assert forall|x: int| 0 <= x < dstq.len() implies dstq[x].deep_view() == dstdv[x] by {
            assert(dst.deep_view()[x] == dst@[x].deep_view());
        }
        assert forall|x: int| 0 <= x < srcq.len() implies srcq[x].deep_view() == srcdv[x] by {
            assert(src.deep_view()[x] == src@[x].deep_view());
        }
    }
    let mut src = src;
    dst.append(&mut src);
    proof {
        assert forall|x: int| 0 <= x < dst@.len() implies #[trigger] dst.deep_view()[x] == (dstdv
            + srcdv)[x] by {
            assert(dst.deep_view()[x] == dst@[x].deep_view());
            if x < dstq.len() {
                assert(dst@[x] == dstq[x]);
            } else {
                assert(dst@[x] == srcq[x - dstq.len()]);
            }
        }
        assert(dst.deep_view() =~= dstdv + srcdv);
    }
}

fn edges(pool: &Vec<(usize, Vec<String>)>, id: usize) -> (r: Result<
    (VarRef, VarRef, VarRef, VarRef),
    GenError,
>)
    ensures
        match r {
            Ok(e4) => spec_edges(spec_pool_view(pool@), id as int) == Ok::<_, GenError>(
                (e4.0.deep_view(), e4.1.deep_view(), e4.2.deep_view(), e4.3.deep_view()),
            ),
            Err(e) => spec_edges(spec_pool_view(pool@), id as int) == Err::<
                (VarRefV, VarRefV, VarRefV, VarRefV),
                _,
            >(e),
        },
{
    let l = match retrieve_variable(pool, id, &left_string()) {
        Ok(v) => v,
        Err(e) => {
            return Err(e);
        },
    };
    let r = match retrieve_variable(pool, id, &right_string()) {
        Ok(v) => v,
        Err(e) => {
            return Err(e);
        },
    };
    let t = match retrieve_variable(pool, id, &top_string()) {
        Ok(v) => v,
        Err(e) => {
            return Err(e);
        },
    };
    let b = match retrieve_variable(pool, id, &bottom_string()) {
        Ok(v) => v,
        Err(e) => {
            return Err(e);
        },
    };
    Ok((l, r, t, b))
}

fn term_cs(
    id: usize,
    attr: &String,
    rel: Relation,
    a: &Arith,
    pool: &Vec<(usize, Vec<String>)>,
    table: &Vec<(String, usize)>,
) -> (r: Result<Vec<LayoutConstraint>, GenError>)
    ensures
        match r {
            Ok(cs) => spec_term_cs(
                id as int,
                attr@,
                rel,
                a.deep_view(),
                spec_pool_view(pool@),
                spec_bounds(table@),
            ) == Ok::<_, GenError>(cs.deep_view()),
            Err(e) => spec_term_cs(
                id as int,
                attr@,
                rel,
                a.deep_view(),
                spec_pool_view(pool@),
                spec_bounds(table@),
            ) == Err::<Seq<LayoutConstraintV>, _>(e),
        },
{
    let lhs = match retrieve_variable(pool, id, attr) {
        Ok(v) => v,
        Err(e) => {
            return Err(e);
        },
    };
    match a {
        Arith::Num(n) => {
            if *attr == width_string() {
                let r = match retrieve_variable(pool, id, &right_string()) {
                    Ok(v) => v,
                    Err(e) => {
                        return Err(e);
                    },
                };
                let l = match retrieve_variable(pool, id, &left_string()) {
                    Ok(v) => v,
                    Err(e) => {
                        return Err(e);
                    },
                };
                Ok(
                    single_c(
                        LayoutConstraint {
                            lhs: Operand::Diff(r, l),
                            rel: Relation::EQ,
                            rhs: Operand::Const(*n),
                            strength: Strength::Required,
                        },
                    ),
                )
            } else if *attr == height_string() {
                let b = match retrieve_variable(pool, id, &bottom_string()) {
                    Ok(v) => v,
                    Err(e) => {
                        return Err(e);
                    },
                };
                let t = match retrieve_variable(pool, id, &top_string()) {
                    Ok(v) => v,
                    Err(e) => {
                        return Err(e);
                    },
                };
                Ok(single_c(LayoutConstraint {
                            lhs: Operand::Diff(b, t),
                            rel: Relation::EQ,
                            rhs: Operand::Const(*n),
                            strength: Strength::Required,
                        }))
            } else {
                Ok(single_c(LayoutConstraint {
                            lhs: Operand::Var(lhs),
                            rel,
                            rhs: Operand::Const(*n),
                            strength: Strength::Required,
                        }))
            }
        },
        Arith::Ref(e, oattr) => match e {
            Entity::Other(oname) => {
                let tid = match bound_lookup(table, oname) {
                    Some(t) => t,
                    None => {
                        return Err(GenError::UnknownStyleRef);
                    },
                };
                if *oattr == height_string() {
                    let b = match retrieve_variable(pool, id, &bottom_string()) {
                        Ok(v) => v,
                        Err(e2) => {
                            return Err(e2);
                        },
                    };
                    let t = match retrieve_variable(pool, id, &top_string()) {
                        Ok(v) => v,
                        Err(e2) => {
                            return Err(e2);
                        },
                    };
                    let tb = match retrieve_variable(pool, tid, &bottom_string()) {
                        Ok(v) => v,
                        Err(e2) => {
                            return Err(e2);
                        },
                    };
                    let tt = match retrieve_variable(pool, tid, &top_string()) {
                        Ok(v) => v,
                        Err(e2) => {
                            return Err(e2);
                        },
                    };
                    Ok(single_c(LayoutConstraint {
                                lhs: Operand::Diff(b, t),
                                rel: Relation::EQ,
                                rhs: Operand::Diff(tb, tt),
                                strength: Strength::Strong,
                            }))
                } else if *oattr == width_string() {
                    let r = match retrieve_variable(pool, id, &right_string()) {
                        Ok(v) => v,
                        Err(e2) => {
                            return Err(e2);
                        },
                    };
                    let l = match retrieve_variable(pool, id, &left_string()) {
                        Ok(v) => v,
                        Err(e2) => {
                            return Err(e2);
                        },
                    };
                    let tr = match retrieve_variable(pool, tid, &right_string()) {
                        Ok(v) => v,
                        Err(e2) => {
                            return Err(e2);
                        },
                    };
                    let tl = match retrieve_variable(pool, tid, &left_string()) {
                        Ok(v) => v,
                        Err(e2) => {
                            return Err(e2);
                        },
                    };
                    Ok(single_c(LayoutConstraint {
                                lhs: Operand::Diff(r, l),
                                rel: Relation::EQ,
                                rhs: Operand::Diff(tr, tl),
                                strength: Strength::Strong,
                            }))
                } else {
                    let tv = match retrieve_variable(pool, tid, oattr) {
                        Ok(v) => v,
                        Err(e2) => {
                            return Err(e2);
                        },
                    };
                    Ok(single_c(LayoutConstraint {
                                lhs: Operand::Var(lhs),
                                rel,
                                rhs: Operand::Var(tv),
                                strength: Strength::Required,
                            }))
                }
            },
            Entity::Parent => Err(GenError::StrangeEntity),
            Entity::Window => Err(GenError::StrangeEntity),
        },
        Arith::Add(_, _) => Err(GenError::InvalidExpression),
        Arith::Sub(_, _) => Err(GenError::InvalidExpression),
    }
}

/// Appends the constraints of a node's user-declared list onto `out`.
#[verifier::loop_isolation(false)]
fn user_cs(
    id: usize,
    pairs: &Vec<(String, Vec<(Relation, Arith)>)>,
    pool: &Vec<(usize, Vec<String>)>,
    table: &Vec<(String, usize)>,
    out: &mut Vec<LayoutConstraint>,
) -> (r: Result<(), GenError>)
    ensures
        match r {
            Ok(_) => spec_pairs_cs(
                id as int,
                pairs.deep_view(),
                spec_pool_view(pool@),
                spec_bounds(table@),
                old(out).deep_view(),
            ) == Ok::<_, GenError>(final(out).deep_view()),
            Err(e) => spec_pairs_cs(
                id as int,
                pairs.deep_view(),
                spec_pool_view(pool@),
                spec_bounds(table@),
                old(out).deep_view(),
            ) == Err::<Seq<LayoutConstraintV>, _>(e),
        },
{
    let ghost pairsv = pairs.deep_view();
    let ghost poolv = spec_pool_view(pool@);
    let ghost boundv = spec_bounds(table@);
    let ghost acc0 = out.deep_view();
    let mut k: usize = 0;
    proof {
        assert(pairsv.skip(0) =~= pairsv);
    }
    while k < pairs.len()
        invariant
            k <= pairs@.len(),
            spec_pairs_cs(id as int, pairsv, poolv, boundv, acc0) == spec_pairs_cs(
                id as int,
                pairsv.skip(k as int),
                poolv,
                boundv,
                out.deep_view(),
            ),
        decreases pairs@.len() - k,
    {
        proof {
            assert(pairsv.skip(k as int)[0] == pairsv[k as int]);
            assert(pairsv.skip(k as int).drop_first() =~= pairsv.skip(k as int + 1));
            assert(pairsv[k as int] == pairs@[k as int].deep_view());
        }
        let ghost termsv = pairsv[k as int].1;
        let attr = &pairs[k].0;
        let terms = &pairs[k].1;
        let mut t: usize = 0;
        proof {
            assert(termsv.skip(0) =~= termsv);
        }
        while t < terms.len()
            invariant
                t <= terms@.len(),
                termsv == pairs@[k as int].deep_view().1,
                termsv.len() == terms@.len(),
                k < pairs@.len(),
                attr@ == pairsv[k as int].0,
                terms@ == pairs@[k as int].1@,
                spec_pairs_cs(id as int, pairsv, poolv, boundv, acc0) == match spec_terms_cs(
                    id as int,
                    pairsv[k as int].0,
                    termsv.skip(t as int),
                    poolv,
                    boundv,
                    out.deep_view(),
                ) {
                    Err(e) => Err(e),
                    Ok(a2) => spec_pairs_cs(
                        id as int,
                        pairsv.skip(k as int + 1),
                        poolv,
                        boundv,
                        a2,
                    ),
                },
            decreases terms@.len() - t,
        {
            proof {
                assert(termsv.skip(t as int)[0] == termsv[t as int]);
                assert(termsv.skip(t as int).drop_first() =~= termsv.skip(t as int + 1));
                assert(termsv[t as int] == terms@[t as int].deep_view());
            }
            match term_cs(id, attr, terms[t].0, &terms[t].1, pool, table) {
                Err(e) => {
                    return Err(e);
                },
                Ok(cs) => {
                    let ghost csv = cs.deep_view();
                    append_cs(out, cs);
                },
            }
            t = t + 1;
        }
        proof {
            assert(termsv.skip(terms@.len() as int) =~= Seq::<(Relation, ArithV)>::empty());
        }
        k = k + 1;
    }
    proof {
        assert(pairsv.skip(pairs@.len() as int) =~= Seq::<
            (Seq<char>, Seq<(Relation, ArithV)>),
        >::empty());
    }
    Ok(())
}

/// Builds every constraint of one node, in emission order.
#[verifier::loop_isolation(false)]
fn node_cs(
    node: &StyleNode,
    pool: &Vec<(usize, Vec<String>)>,
    table: &Vec<(String, usize)>,
) -> (r: Result<Vec<LayoutConstraint>, GenError>)
    ensures
        match r {
            Ok(cs) => spec_node_cs(
                spec_style_node(*node),
                spec_pool_view(pool@),
                spec_bounds(table@),
            ) == Ok::<_, GenError>(cs.deep_view()),
            Err(e) => spec_node_cs(
                spec_style_node(*node),
                spec_pool_view(pool@),
                spec_bounds(table@),
            ) == Err::<Seq<LayoutConstraintV>, _>(e),
        },
{
    let ghost nv = spec_style_node(*node);
    let (l, r, t, b) = match edges(pool, node.id) {
        Ok(x) => x,
        Err(e) => {
            return Err(e);
        },
    };
    let mut out: Vec<LayoutConstraint> = Vec::new();
    push_c(
        &mut out,
        LayoutConstraint {
            lhs: Operand::Var(clone_var(&l)),
            rel: Relation::LE,
            rhs: Operand::Var(clone_var(&r)),
            strength: Strength::Required,
        },
    );
    push_c(
        &mut out,
        LayoutConstraint {
            lhs: Operand::Var(clone_var(&t)),
            rel: Relation::LE,
            rhs: Operand::Var(clone_var(&b)),
            strength: Strength::Required,
        },
    );
    push_c(
        &mut out,
        LayoutConstraint {
            lhs: Operand::Var(clone_var(&t)),
            rel: Relation::GE,
            rhs: Operand::Const(0),
            strength: Strength::Required,
        },
    );
    push_c(
        &mut out,
        LayoutConstraint {
            lhs: Operand::Var(clone_var(&l)),
            rel: Relation::GE,
            rhs: Operand::Const(0),
            strength: Strength::Required,
        },
    );
    proof {
        assert(out.deep_view() =~= seq![
            lc(
                OperandV::Var(l.deep_view()),
                Relation::LE,
                OperandV::Var(r.deep_view()),
                Strength::Required,
            ),
            lc(
                OperandV::Var(t.deep_view()),
                Relation::LE,
                OperandV::Var(b.deep_view()),
                Strength::Required,
            ),
            lc(
                OperandV::Var(t.deep_view()),
                Relation::GE,
                OperandV::Const(0),
                Strength::Required,
            ),
            lc(
                OperandV::Var(l.deep_view()),
                Relation::GE,
                OperandV::Const(0),
                Strength::Required,
            ),
        ]);
    }
    if node.pid != 0 {
        let (pl, pr, pt, pb) = match edges(pool, node.pid) {
            Ok(x) => x,
            Err(e) => {
                return Err(e);
            },
        };
        let ghost before = out.deep_view();
        push_c(
            &mut out,
            LayoutConstraint {
                lhs: Operand::Var(clone_var(&l)),
                rel: Relation::GE,
                rhs: Operand::Var(clone_var(&pl)),
                strength: Strength::Required,
            },
        );
        push_c(
            &mut out,
            LayoutConstraint {
                lhs: Operand::Var(clone_var(&r)),
                rel: Relation::LE,
                rhs: Operand::Var(clone_var(&pr)),
                strength: Strength::Required,
            },
        );
        push_c(
            &mut out,
            LayoutConstraint {
                lhs: Operand::Var(clone_var(&b)),
                rel: Relation::LE,
                rhs: Operand::Var(clone_var(&pb)),
                strength: Strength::Required,
            },
        );
        push_c(
            &mut out,
            LayoutConstraint {
                lhs: Operand::Var(clone_var(&t)),
                rel: Relation::GE,
                rhs: Operand::Var(clone_var(&pt)),
                strength: Strength::Required,
            },
        );
        proof {
            assert(out.deep_view() =~= before + seq![
                lc(
                    OperandV::Var(l.deep_view()),
                    Relation::GE,
                    OperandV::Var(pl.deep_view()),
                    Strength::Required,
                ),
                lc(
                    OperandV::Var(r.deep_view()),
                    Relation::LE,
                    OperandV::Var(pr.deep_view()),
                    Strength::Required,
                ),
                lc(
                    OperandV::Var(b.deep_view()),
                    Relation::LE,
                    OperandV::Var(pb.deep_view()),
                    Strength::Required,
                ),
                lc(
                    OperandV::Var(t.deep_view()),
                    Relation::GE,
                    OperandV::Var(pt.deep_view()),
                    Strength::Required,
                ),
            ]);
        }
    }
    let is_text = match node.element {
        ElemRef::TextAt(_) => true,
        ElemRef::TagAt(_) => false,
    };
    if is_text {
        let (pl, pr, pt, pb) = match edges(pool, node.pid) {
            Ok(x) => x,
            Err(e) => {
                return Err(e);
            },
        };
        let ghost before = out.deep_view();
        push_c(
            &mut out,
            LayoutConstraint {
                lhs: Operand::Var(clone_var(&l)),
                rel: Relation::EQ,
                rhs: Operand::Var(clone_var(&pl)),
                strength: Strength::Required,
            },
        );
        push_c(
            &mut out,
            LayoutConstraint {
                lhs: Operand::Var(clone_var(&r)),
                rel: Relation::EQ,
                rhs: Operand::Var(clone_var(&pr)),
                strength: Strength::Required,
            },
        );
        push_c(
            &mut out,
            LayoutConstraint {
                lhs: Operand::Var(clone_var(&b)),
                rel: Relation::EQ,
                rhs: Operand::Var(clone_var(&pb)),
                strength: Strength::Required,
            },
        );
        push_c(
            &mut out,
            LayoutConstraint {
                lhs: Operand::Var(clone_var(&t)),
                rel: Relation::EQ,
                rhs: Operand::Var(clone_var(&pt)),
                strength: Strength::Required,
            },
        );
        proof {
            assert(out.deep_view() =~= before + seq![
                lc(
                    OperandV::Var(l.deep_view()),
                    Relation::EQ,
                    OperandV::Var(pl.deep_view()),
                    Strength::Required,
                ),
                lc(
                    OperandV::Var(r.deep_view()),
                    Relation::EQ,
                    OperandV::Var(pr.deep_view()),
                    Strength::Required,
                ),
                lc(
                    OperandV::Var(b.deep_view()),
                    Relation::EQ,
                    OperandV::Var(pb.deep_view()),
                    Strength::Required,
                ),
                lc(
                    OperandV::Var(t.deep_view()),
                    Relation::EQ,
                    OperandV::Var(pt.deep_view()),
                    Strength::Required,
                ),
            ]);
        }
    }
    match user_cs(node.id, &node.styles.constraints, pool, table, &mut out) {
        Err(e) => Err(e),
        Ok(_) => Ok(out),
    }
}

/// Generates the constraint batches of the whole subtree under `root`, one
/// batch per node in pre-order, appended to `out`.
///
/// Fails exactly when a variable lookup, a cross-reference or an
/// expression kind is invalid, as `spec_gen` states; `out` then holds a
/// partial walk's batches and the caller discards it.
#[verifier::loop_isolation(false)]
pub fn generate_constraints(
    root: &StyleNode,
    variable_pool: &Vec<(usize, Vec<String>)>,
    styles_to_id: &Vec<(String, usize)>,
    out: &mut Vec<(usize, Vec<LayoutConstraint>)>,
) -> (r: Result<(), GenError>)
    ensures
        match r {
            Ok(_) => spec_gen(
                spec_style_node(*root),
                spec_pool_view(variable_pool@),
                spec_bounds(styles_to_id@),
                spec_batches_view(old(out)@),
            ) == Ok::<_, GenError>(spec_batches_view(final(out)@)),
            Err(e) => spec_gen(
                spec_style_node(*root),
                spec_pool_view(variable_pool@),
                spec_bounds(styles_to_id@),
                spec_batches_view(old(out)@),
            ) == Err::<Seq<(int, Seq<LayoutConstraintV>)>, _>(e),
        },
    decreases *root,
{
    let ghost rootv = spec_style_node(*root);
    let ghost poolv = spec_pool_view(variable_pool@);
    let ghost boundv = spec_bounds(styles_to_id@);
    let ghost acc0 = spec_batches_view(out@);
    let cs = match node_cs(root, variable_pool, styles_to_id) {
        Ok(c) => c,
        Err(e) => {
            return Err(e);
        },
    };
    let ghost csv = cs.deep_view();
    let ghost outq = out@;
    out.push((root.id, cs));
    proof {
        assert forall|x: int| 0 <= x < out@.len() implies #[trigger] spec_batches_view(out@)[x]
            == acc0.push((rootv.id, csv))[x] by {
            if x < outq.len() {
                assert(out@[x] == outq[x]);
            }
        }
        assert(spec_batches_view(out@) =~= acc0.push((rootv.id, csv)));
    }
    let mut c: usize = 0;
    proof {
        assert(rootv.children.skip(0) =~= rootv.children);
    }
    while c < root.children.len()
        invariant
            c <= root.children@.len(),
            spec_gen(rootv, poolv, boundv, acc0) == spec_gen_list(
                rootv.children.skip(c as int),
                poolv,
                boundv,
                spec_batches_view(out@),
            ),
        decreases root.children@.len() - c,
    {
        proof {
            assert(rootv.children.skip(c as int)[0] == rootv.children[c as int]);
            assert(rootv.children.skip(c as int).drop_first() =~= rootv.children.skip(
                c as int + 1,
            ));
            assert(rootv.children[c as int] == spec_style_node(root.children@[c as int]));
        }
        match generate_constraints(&root.children[c], variable_pool, styles_to_id, out) {
            Err(e) => {
                return Err(e);
            },
            Ok(_) => {},
        }
        c = c + 1;
    }
    proof {
        assert(rootv.children.skip(root.children@.len() as int) =~= Seq::<StyleNodeV>::empty());
    }
    Ok(())
}

} // verus!
