use std::collections::HashMap;

use cassowary::strength::{MEDIUM, REQUIRED, STRONG, WEAK};
use cassowary::Solver;
use cassowary::Variable;
use cassowary::WeightedRelation;

use ass::asml_parser::tag;
use ass::ass_parser::Arith;
use ass::ass_parser::Relation;
use ass::ass_parser::stylesheet;
use ass::layout::generate_constraints;
use ass::layout::generate_variable_pool;
use ass::layout::retrieve_variable;
use ass::layout::GenError;
use ass::layout::LayoutConstraint;
use ass::layout::Operand;
use ass::layout::Strength;
use ass::layout::VarRef;
use ass::pipeline::layout_document;
use ass::pipeline::Layout;
use ass::render_tree::generate_render_tree;
use ass::render_tree::RenderError;
use ass::style_tree::construct_style_tree;
use ass::style_tree::StyleNode;

fn cnames() -> Vec<String> {
    vec![
        "left".to_string(),
        "right".to_string(),
        "top".to_string(),
        "bottom".to_string(),
        "width".to_string(),
        "height".to_string(),
        "x".to_string(),
        "y".to_string(),
    ]
}

fn pnames() -> Vec<String> {
    vec!["color".to_string()]
}

fn strength_of(s: &Strength) -> f64 {
    match s {
        Strength::Weak => WEAK,
        Strength::Medium => MEDIUM,
        Strength::Strong => STRONG,
        Strength::Required => REQUIRED,
    }
}

fn var_of(vars: &HashMap<(usize, String), Variable>, v: &VarRef) -> Variable {
    *vars.get(&(v.node, v.attr.clone())).unwrap()
}

fn constraint_of(
    c: &LayoutConstraint,
    vars: &HashMap<(usize, String), Variable>,
) -> cassowary::Constraint {
    let st = strength_of(&c.strength);
    let rel = match c.rel {
        ass::ass_parser::Relation::EQ => WeightedRelation::EQ(st),
        ass::ass_parser::Relation::GE => WeightedRelation::GE(st),
        ass::ass_parser::Relation::LE => WeightedRelation::LE(st),
    };
    match (&c.lhs, &c.rhs) {
        (Operand::Var(a), Operand::Var(b)) => var_of(vars, a) | rel | var_of(vars, b),
        (Operand::Var(a), Operand::Const(n)) => var_of(vars, a) | rel | (*n as f64),
        (Operand::Diff(a, b), Operand::Const(n)) => {
            (var_of(vars, a) - var_of(vars, b)) | rel | (*n as f64)
        }
        (Operand::Diff(a, b), Operand::Diff(c2, d)) => {
            (var_of(vars, a) - var_of(vars, b)) | rel | (var_of(vars, c2) - var_of(vars, d))
        }
        _ => unreachable!(),
    }
}

fn solve(
    pool: &Vec<(usize, Vec<String>)>,
    batches: &Vec<(usize, Vec<LayoutConstraint>)>,
) -> Vec<(usize, Vec<(String, f64)>)> {
    let mut solver = Solver::new();
    let mut vars: HashMap<(usize, String), Variable> = HashMap::new();
    for (id, attrs) in pool {
        for a in attrs {
            vars.insert((*id, a.clone()), Variable::new());
        }
    }
    for (_id, batch) in batches {
        let cs: Vec<cassowary::Constraint> =
            batch.iter().map(|c| constraint_of(c, &vars)).collect();
        // A duplicate or unsatisfiable batch degrades layout, it does not
        // abort the run.
        let _ = solver.add_constraints(&cs);
    }
    pool.iter()
        .map(|(id, attrs)| {
            (
                *id,
                attrs
                    .iter()
                    .map(|a| (a.clone(), solver.get_value(vars[&(*id, a.clone())])))
                    .collect(),
            )
        })
        .collect()
}

fn build_tree(markup: &str, sheet: &str) -> Result<
    (StyleNode, Vec<(usize, Vec<String>)>, Vec<(String, usize)>),
    ass::style_tree::BindError,
> {
    let elem = tag(markup).unwrap();
    let styles = stylesheet(sheet).unwrap();
    let mut id: usize = 0;
    let mut table: Vec<(String, usize)> = Vec::new();
    let defaults: Vec<(String, Vec<(ass::ass_parser::Relation, ass::ass_parser::Arith)>)> =
        Vec::new();
    let tree = construct_style_tree(
        &elem,
        &styles,
        &cnames(),
        &pnames(),
        0,
        &mut id,
        &defaults,
        &mut table,
    )?;
    let mut pool: Vec<(usize, Vec<String>)> = Vec::new();
    generate_variable_pool(&tree, &styles, &cnames(), &mut pool);
    Ok((tree, pool, table))
}

fn lookup(attrs: &Vec<(String, f64)>, key: &str) -> f64 {
    attrs
        .iter()
        .find(|(k, _)| k == key)
        .map(|(_, v)| *v)
        .unwrap()
}

// A document with one top-level tag sized 32 by 16 and no children
// resolves to a render root spanning exactly that box at the origin.
#[test]
fn end_to_end_single_tag() {
    let (tree, pool, table) = build_tree("<d/>", "d{width= 32 height= 16}").unwrap();
    let mut batches: Vec<(usize, Vec<LayoutConstraint>)> = Vec::new();
    generate_constraints(&tree, &pool, &table, &mut batches).unwrap();
    let solved = solve(&pool, &batches);
    let render = generate_render_tree::<f64>(&tree, &solved).unwrap();
    let attrs = &render.attrs.constraints;
    assert_eq!(lookup(attrs, "right") - lookup(attrs, "left"), 32.0);
    assert_eq!(lookup(attrs, "bottom") - lookup(attrs, "top"), 16.0);
    assert_eq!(lookup(attrs, "left"), 0.0);
    assert_eq!(lookup(attrs, "top"), 0.0);
    assert!(render.children.is_empty());
}

// Re-running the whole pipeline on identical input produces identical
// constraint systems and identical resolved values.
#[test]
fn pipeline_is_deterministic() {
    let source = "<style>d{width= 32 height= 16}</style><body><d/>hello</body>";
    let defaults: Vec<(String, Vec<(ass::ass_parser::Relation, ass::ass_parser::Arith)>)> =
        Vec::new();
    let l1: Layout = layout_document(source, &cnames(), &pnames(), &defaults).unwrap();
    let l2: Layout = layout_document(source, &cnames(), &pnames(), &defaults).unwrap();
    assert_eq!(l1, l2);
    let s1 = solve(&l1.variable_pool, &l1.batches);
    let s2 = solve(&l2.variable_pool, &l2.batches);
    assert_eq!(s1, s2);
    let r1 = generate_render_tree::<f64>(&l1.tree, &s1).unwrap();
    let r2 = generate_render_tree::<f64>(&l2.tree, &s2).unwrap();
    assert_eq!(r1, r2);
}

// Default attributes land on every node's constraints exactly once,
// whatever its traits: an unmatched tag, a matched tag and a text leaf
// all carry them.
#[test]
fn defaults_apply_to_every_node() {
    let elem = tag("<a><b/>hi</a>").unwrap();
    let styles = stylesheet("b{width= 5}").unwrap();
    let defaults: Vec<(String, Vec<(Relation, Arith)>)> = vec![(
        "left".to_string(),
        vec![(Relation::GE, Arith::Num(2))],
    )];
    let mut id: usize = 0;
    let mut table: Vec<(String, usize)> = Vec::new();
    let tree = construct_style_tree(
        &elem,
        &styles,
        &cnames(),
        &pnames(),
        0,
        &mut id,
        &defaults,
        &mut table,
    )
    .unwrap();
    // The root's trait matches no rule: the defaults alone, once.
    assert_eq!(tree.styles.constraints, defaults);
    // The matched child: its own term first, then the defaults once.
    let b = &tree.children[0];
    assert_eq!(b.styles.constraints.len(), 2);
    assert_eq!(
        b.styles.constraints[0],
        ("width".to_string(), vec![(Relation::EQ, Arith::Num(5))])
    );
    assert_eq!(b.styles.constraints[1], defaults[0]);
    // The text leaf: the defaults alone, once.
    let t = &tree.children[1];
    assert_eq!(t.styles.constraints, defaults);
}

// Even a node with several matching traits carries the defaults once.
#[test]
fn defaults_once_with_many_traits() {
    let elem = tag("<d e/>").unwrap();
    let styles = stylesheet("d{width= 1}e{height= 2}").unwrap();
    let defaults: Vec<(String, Vec<(Relation, Arith)>)> = vec![(
        "left".to_string(),
        vec![(Relation::GE, Arith::Num(2))],
    )];
    let mut id: usize = 0;
    let mut table: Vec<(String, usize)> = Vec::new();
    let tree = construct_style_tree(
        &elem,
        &styles,
        &cnames(),
        &pnames(),
        0,
        &mut id,
        &defaults,
        &mut table,
    )
    .unwrap();
    assert_eq!(
        tree.styles.constraints,
        vec![
            ("width".to_string(), vec![(Relation::EQ, Arith::Num(1))]),
            ("height".to_string(), vec![(Relation::EQ, Arith::Num(2))]),
            ("left".to_string(), vec![(Relation::GE, Arith::Num(2))]),
        ]
    );
}

// A rule with layout constraints cannot be bound to two nodes.
#[test]
fn shared_constrained_rule_fails() {
    assert!(build_tree("<a><b/><b/></a>", "b{width= 1}").is_err());
}

// A rule carrying only properties may be shared freely.
#[test]
fn shared_property_rule_allowed() {
    assert!(build_tree("<a><b/><b/></a>", "b{color= 1}").is_ok());
}

// A parent or window reference is not a supported constraint target.
#[test]
fn strange_entity_is_fatal() {
    let (tree, pool, table) = build_tree("<d/>", "d{width=$parent[width]}").unwrap();
    let mut batches: Vec<(usize, Vec<LayoutConstraint>)> = Vec::new();
    assert_eq!(
        generate_constraints(&tree, &pool, &table, &mut batches),
        Err(GenError::StrangeEntity)
    );
}

// Arithmetic expressions are not supported in constraint generation.
#[test]
fn arith_expression_is_fatal() {
    let (tree, pool, table) = build_tree("<d/>", "d{width=d[width]+3}").unwrap();
    let mut batches: Vec<(usize, Vec<LayoutConstraint>)> = Vec::new();
    assert_eq!(
        generate_constraints(&tree, &pool, &table, &mut batches),
        Err(GenError::InvalidExpression)
    );
}

// A cross-reference to a rule name with no constrained binder is fatal.
#[test]
fn unknown_style_ref_is_fatal() {
    let (tree, pool, table) = build_tree("<d/>", "d{width=e[width]}").unwrap();
    let mut batches: Vec<(usize, Vec<LayoutConstraint>)> = Vec::new();
    assert_eq!(
        generate_constraints(&tree, &pool, &table, &mut batches),
        Err(GenError::UnknownStyleRef)
    );
}

// A cross-reference between two bound nodes relates their variables.
#[test]
fn cross_reference_resolves() {
    let (tree, pool, table) = build_tree(
        "<a><b/><c/></a>",
        "b{width= 40}c{width=b[width]}",
    )
    .unwrap();
    let mut batches: Vec<(usize, Vec<LayoutConstraint>)> = Vec::new();
    generate_constraints(&tree, &pool, &table, &mut batches).unwrap();
    let solved = solve(&pool, &batches);
    let render = generate_render_tree::<f64>(&tree, &solved).unwrap();
    let b = &render.children[0].attrs.constraints;
    let c = &render.children[1].attrs.constraints;
    assert_eq!(lookup(b, "right") - lookup(b, "left"), 40.0);
    assert_eq!(lookup(c, "right") - lookup(c, "left"), 40.0);
}

// Variable lookups distinguish a missing node from a missing attribute.
#[test]
fn retrieve_variable_errors() {
    let (_tree, pool, _table) = build_tree("<d/>", "d{width= 1}").unwrap();
    assert!(retrieve_variable(&pool, 1, &"left".to_string()).is_ok());
    assert_eq!(
        retrieve_variable(&pool, 99, &"left".to_string()),
        Err(GenError::IdNotMapped)
    );
    assert_eq!(
        retrieve_variable(&pool, 1, &"nope".to_string()),
        Err(GenError::AttrNotMapped)
    );
}

// Every node gets variables for the mandatory attributes even when its
// style declares none of them.
#[test]
fn pool_holds_mandatory_attributes() {
    let (_tree, pool, _table) = build_tree("<d/>", "").unwrap();
    assert_eq!(pool.len(), 1);
    let (id, attrs) = &pool[0];
    assert_eq!(*id, 1);
    for name in cnames() {
        assert!(attrs.contains(&name));
    }
}

// A property whose expression is not a literal cannot be rendered.
#[test]
fn non_literal_property_is_fatal() {
    let (tree, pool, table) = build_tree("<d/>", "d{color=d[color]}").unwrap();
    let mut batches: Vec<(usize, Vec<LayoutConstraint>)> = Vec::new();
    generate_constraints(&tree, &pool, &table, &mut batches).unwrap();
    let solved = solve(&pool, &batches);
    assert_eq!(
        generate_render_tree::<f64>(&tree, &solved),
        Err(RenderError::InvalidExpression)
    );
}

// A node id absent from the solved table cannot be rendered.
#[test]
fn missing_node_is_fatal() {
    let (tree, _pool, _table) = build_tree("<d/>", "").unwrap();
    let empty: Vec<(usize, Vec<(String, f64)>)> = Vec::new();
    assert_eq!(
        generate_render_tree::<f64>(&tree, &empty),
        Err(RenderError::MissingNode)
    );
}

// A literal property lands in the render node's property map.
#[test]
fn literal_property_renders() {
    let (tree, pool, table) = build_tree("<d/>", "d{color= #0000ff width= 8}").unwrap();
    let mut batches: Vec<(usize, Vec<LayoutConstraint>)> = Vec::new();
    generate_constraints(&tree, &pool, &table, &mut batches).unwrap();
    let solved = solve(&pool, &batches);
    let render = generate_render_tree::<f64>(&tree, &solved).unwrap();
    assert_eq!(
        render.attrs.properties,
        vec![("color".to_string(), 0x0000FF)]
    );
}

// Text nodes are pinned to their parent's edges.
#[test]
fn text_pinned_to_parent() {
    let (tree, pool, table) = build_tree("<d>hi</d>", "d{width= 24 height= 10}").unwrap();
    let mut batches: Vec<(usize, Vec<LayoutConstraint>)> = Vec::new();
    generate_constraints(&tree, &pool, &table, &mut batches).unwrap();
    let solved = solve(&pool, &batches);
    let render = generate_render_tree::<f64>(&tree, &solved).unwrap();
    let parent = &render.attrs.constraints;
    let child = &render.children[0].attrs.constraints;
    assert_eq!(lookup(parent, "left"), lookup(child, "left"));
    assert_eq!(lookup(parent, "right"), lookup(child, "right"));
    assert_eq!(lookup(parent, "top"), lookup(child, "top"));
    assert_eq!(lookup(parent, "bottom"), lookup(child, "bottom"));
}
