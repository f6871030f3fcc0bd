//! The whole declaration-to-constraints pipeline in one call.
//!
//! A document is parsed into its markup tree and style rules, the style
//! tree is built with pre-order ids starting at 1 (the root's parent id 0
//! means "no parent"), every node gets its solver variables, and the
//! constraint batches are generated. What remains for the caller is the
//! external solving step: submit the batches to the linear solver, read
//! each variable's value, and hand the solved table to
//! [`crate::render_tree::generate_render_tree`].
//!
//! Every stage is a function of its inputs alone, so the pipeline is
//! deterministic: identical source and configuration yield the identical
//! constraint system, and identical solved values yield the identical
//! render tree ([`lemma_pipeline_deterministic`]).

use vstd::prelude::*;
use crate::ass_parser::Arith;
use crate::ass_parser::Relation;
use crate::ass_parser::Style;
use crate::ass_parser::StyleV;
use crate::document::parse_document;
use crate::document::spec_document;
use crate::document::DocError;
use crate::document::DocOutcome;
use crate::layout::generate_constraints;
use crate::layout::generate_variable_pool;
use crate::layout::spec_batches_view;
use crate::layout::spec_gen;
use crate::layout::spec_pool_of;
use crate::layout::spec_pool_view;
use crate::layout::GenError;
use crate::layout::LayoutConstraint;
use crate::layout::LayoutConstraintV;
use crate::style_tree::construct_style_tree;
use crate::style_tree::spec_bounds;
use crate::style_tree::spec_build;
use crate::style_tree::spec_style_node;
use crate::style_tree::BindError;
use crate::style_tree::StyleNode;
use crate::style_tree::StyleNodeV;

verus! {

/// Why the pipeline stopped.
#[derive(Debug, PartialEq, Eq, Clone, Copy)]
pub enum PipelineError {
    Doc(DocError),
    Bind(BindError),
    Gen(GenError),
}

/// Everything the pipeline produces short of solving: the parsed rules,
/// the style tree, the variable pool, the name-to-id table and the
/// constraint batches.
#[derive(Debug, PartialEq)]
pub struct Layout {
    pub styles: Vec<Style>,
    pub tree: StyleNode,
    pub variable_pool: Vec<(usize, Vec<String>)>,
    pub styles_to_id: Vec<(String, usize)>,
    pub batches: Vec<(usize, Vec<LayoutConstraint>)>,
}

/// Mathematical model of a `Layout`.
#[verifier::ext_equal]
pub struct LayoutV {
    pub styles: Seq<StyleV>,
    pub tree: StyleNodeV,
    pub variable_pool: Seq<(int, Seq<Seq<char>>)>,
    pub styles_to_id: Seq<(Seq<char>, int)>,
    pub batches: Seq<(int, Seq<LayoutConstraintV>)>,
}

/// Mathematical model of the whole pipeline: parse the document, build
/// the style tree from id 0 with an empty table, allocate the pool, and
/// generate the constraint batches.
pub open spec fn spec_pipeline(
    s: Seq<char>,
    cnames: Seq<Seq<char>>,
    pnames: Seq<Seq<char>>,
    defaults: Seq<(Seq<char>, Seq<(Relation, crate::ass_parser::ArithV)>)>,
) -> Result<LayoutV, PipelineError> {
    match spec_document(s) {
        DocOutcome::Failed(e) => Err(PipelineError::Doc(e)),
        DocOutcome::Parsed(elem, styles) => match spec_build(
            elem,
            styles,
            cnames,
            pnames,
            defaults,
            0,
            0,
            Seq::empty(),
        ) {
            Err(e) => Err(PipelineError::Bind(e)),
            Ok((tree, id2, bound)) => {
                let pool = spec_pool_of(tree, cnames);
                match spec_gen(tree, pool, bound, Seq::empty()) {
                    Err(e) => Err(PipelineError::Gen(e)),
                    Ok(batches) => Ok(
                        LayoutV {
                            styles,
                            tree,
                            variable_pool: pool,
                            styles_to_id: bound,
                            batches,
                        },
                    ),
                }
            },
        },
    }
}

/// Runs the declaration-to-constraints pipeline on one document.
///
/// Succeeds exactly when the document parses, no constrained rule is
/// shared between nodes, and every constraint term is supported; the
/// result is then the unique value `spec_pipeline` describes.
pub fn layout_document(
    source: &str,
    constraint_names: &Vec<String>,
    property_names: &Vec<String>,
    default_attributes: &Vec<(String, Vec<(Relation, Arith)>)>,
) -> (r: Result<Layout, PipelineError>)
    ensures
        match r {
            Ok(layout) => spec_pipeline(
                source@,
                constraint_names.deep_view(),
                property_names.deep_view(),
                default_attributes.deep_view(),
            ) == Ok::<_, PipelineError>(
                LayoutV {
                    styles: layout.styles.deep_view(),
                    tree: spec_style_node(layout.tree),
                    variable_pool: spec_pool_view(layout.variable_pool@),
                    styles_to_id: spec_bounds(layout.styles_to_id@),
                    batches: spec_batches_view(layout.batches@),
                },
            ),
            Err(e) => spec_pipeline(
                source@,
                constraint_names.deep_view(),
                property_names.deep_view(),
                default_attributes.deep_view(),
            ) == Err::<LayoutV, _>(e),
        },
{
    let n = source.unicode_len();
    let (elem, styles) = match parse_document(source) {
        Ok(p) => p,
        Err(e) => {
            return Err(PipelineError::Doc(e));
        },
    };
    let mut id: usize = 0;
    let mut styles_to_id: Vec<(String, usize)> = Vec::new();
    proof {
        assert(spec_bounds(styles_to_id@) =~= Seq::<(Seq<char>, int)>::empty());
    }
    let tree = match construct_style_tree(
        &elem,
        &styles,
        constraint_names,
        property_names,
        0,
        &mut id,
        default_attributes,
        &mut styles_to_id,
    ) {
        Ok(t) => t,
        Err(e) => {
            return Err(PipelineError::Bind(e));
        },
    };
    let mut variable_pool: Vec<(usize, Vec<String>)> = Vec::new();
    proof {
        assert(spec_pool_view(variable_pool@) =~= Seq::<(int, Seq<Seq<char>>)>::empty());
    }
    generate_variable_pool(&tree, &styles, constraint_names, &mut variable_pool);
    proof {
        assert(Seq::<(int, Seq<Seq<char>>)>::empty() + spec_pool_of(
            spec_style_node(tree),
            constraint_names.deep_view(),
        ) =~= spec_pool_of(spec_style_node(tree), constraint_names.deep_view()));
    }
    let mut batches: Vec<(usize, Vec<LayoutConstraint>)> = Vec::new();
    proof {
        assert(spec_batches_view(batches@) =~= Seq::<(int, Seq<LayoutConstraintV>)>::empty());
    }
    match generate_constraints(&tree, &variable_pool, &styles_to_id, &mut batches) {
        Ok(_) => {},
        Err(e) => {
            return Err(PipelineError::Gen(e));
        },
    }
    Ok(Layout { styles, tree, variable_pool, styles_to_id, batches })
}

/// Law: the pipeline is deterministic. Identical source text and
/// configuration produce the identical style tree, variable pool and
/// constraint system — resolving a document twice gives the same
/// submission, so, the solver being a function of its submission order,
/// the same resolved values.
pub proof fn lemma_pipeline_deterministic(
    s1: Seq<char>,
    s2: Seq<char>,
    cnames: Seq<Seq<char>>,
    pnames: Seq<Seq<char>>,
    defaults: Seq<(Seq<char>, Seq<(Relation, crate::ass_parser::ArithV)>)>,
)
    requires
        s1 == s2,
    ensures
        spec_pipeline(s1, cnames, pnames, defaults) == spec_pipeline(s2, cnames, pnames, defaults),
{
}

} // verus!
