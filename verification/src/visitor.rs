//! The analysis: one function for each kind of node. Each walks its node,
//! drives the context, and either leaves behind the context that the effect
//! of the node describes or stops at the first construct that the analysis
//! does not model.

use crate::ast::{
    AlterTableOperation, Cte, Expr, Function, FunctionArg, FunctionArgExpr, Join, ListAgg,
    ListAggOnOverflow, OrderByExpr, Query, Select, SelectItem, SetExpr, Statement, Table,
    TableAlias, TableFactor, TableWithJoins, WindowSpec, WindowType, With,
};
use crate::context::{all_distinct, Context, ContextView};
use crate::effect::{
    alias_name, alter_effect, alters_effect, alters_sourceless, arg_effect, arg_error,
    arg_expr_effect, arg_expr_error, arg_expr_sourceless, arg_sourceless, args_effect, args_error,
    args_sourceless, compound_effect, cte_effect, ctes_effect, ctes_error, default_table_effect,
    derived_column, expr_effect, expr_error, expr_lists_effect, expr_lists_error,
    expr_lists_sourceless, expr_sourceless, exprs_effect, exprs_error, exprs_sourceless,
    factor_effect, factor_error, factor_name, factor_name_error, function_effect, function_error,
    function_sourceless, identifier_effect, inputs_kept, is_cloud_location, item_effect,
    item_error, item_sourceless, joins_effect, joins_error, lineage_of, list_agg_effect,
    list_agg_error, list_agg_sourceless, named_source_effect, not_a_source, not_a_table,
    opt_expr_effect, opt_expr_error, opt_expr_sourceless, order_by_effect, order_by_error,
    order_by_sourceless, outputs_effect, overflow_effect, overflow_error, overflow_sourceless,
    placeholder, plain, projection_effect, projection_error, projection_sourceless, query_effect,
    query_error, query_sourceless, scoped_factor_effect, scoped_joins_effect, scoped_joins_error,
    scoped_sources_effect, scoped_sources_error, select_effect, select_error, select_sourceless,
    set_expr_effect, set_expr_error, set_expr_sourceless, source_effect, source_error,
    sources_effect, sources_error, stage_effect, statement_body_effect, statement_body_error,
    statement_effect, statement_error, statement_sourceless, table_effect, target_joins_effect,
    target_joins_error, targets_effect, targets_error, window_spec_effect, window_spec_error,
    window_spec_sourceless, window_type_effect, window_type_error, window_type_sourceless,
    with_effect, with_error,
};
use crate::frame::{lemma_without_stand_ins, Frame, FrameView};
use crate::lineage::{
    clone_opt_table, normalize, opt_string_view, strings_view, ColumnMeta, ColumnName, DbTableMeta,
    Dialect, Ident,
};
use crate::sets::views;
use crate::text::{contains_text, occurs, strip_quotes};
use vstd::prelude::*;

verus! {

/// A construct that the analysis does not model. The message names it by
/// its text.
#[derive(Debug)]
pub struct Unsupported {
    pub message: String,
}

impl View for Unsupported {
    type V = Seq<char>;

    open spec fn view(&self) -> Seq<char> {
        self.message@
    }
}

/// What a step of the walk promises. If it succeeds, the node holds no
/// construct that the analysis does not model, the context is the one its
/// effect describes, and the stack of frames is as high as before; if the
/// node names no source of rows, no frame has gained an input; and frames
/// whose collections held no element twice still hold none twice. If it
/// fails, the error is the first one in the node.
pub open spec fn walked(
    r: Result<(), Unsupported>,
    error: Option<Seq<char>>,
    before: ContextView,
    after: ContextView,
    expected: ContextView,
    sourceless: bool,
) -> bool {
    match r {
        Ok(_) => {
            &&& error is None
            &&& after == expected
            &&& after.frames.len() == before.frames.len()
            &&& sourceless ==> inputs_kept(before, after)
            &&& all_distinct(before) ==> all_distinct(after)
        },
        Err(e) => error == Some(e@),
    }
}

/// What a walk promises: what each of its steps promises, and all or
/// nothing. A walk that fails leaves the context as it was: no frame has
/// been pushed, and no frame has gained an input, an output, an alias or an
/// edge.
pub open spec fn outcome(
    r: Result<(), Unsupported>,
    error: Option<Seq<char>>,
    before: ContextView,
    after: ContextView,
    expected: ContextView,
    sourceless: bool,
) -> bool {
    &&& walked(r, error, before, after, expected, sourceless)
    &&& r is Err ==> after == before
}

/// A capability of each kind of node: to be walked with a context.
pub trait Visit {
    /// The first construct in the node that the analysis does not model.
    spec fn error(&self) -> Option<Seq<char>>;

    /// The context that a walk of the node leaves behind.
    spec fn effect(&self, c: ContextView) -> ContextView;

    /// Whether the node names no source of rows.
    spec fn sourceless(&self) -> bool;

    fn visit(&self, context: &mut Context) -> (r: Result<(), Unsupported>)
        requires
            old(context)@.wf(),
        ensures
            outcome(
                r,
                self.error(),
                old(context)@,
                final(context)@,
                self.effect(old(context)@),
                self.sourceless(),
            ),
    ;
}

fn unsupported_source(text: &str) -> (e: Unsupported)
    ensures
        e@ == not_a_source(text@),
{
    let message = String::from_str(
        "TableFactor other than table or subquery not implemented: ",
    ).concat(text);
    Unsupported { message }
}

fn unsupported_name(text: &str) -> (e: Unsupported)
    ensures
        e@ == not_a_table(text@),
{
    let message = String::from_str("Name can be got only from simple table, got ").concat(text);
    Unsupported { message }
}

/// A copy of a name.
pub fn clone_idents(v: &Vec<Ident>) -> (r: Vec<Ident>)
    ensures
        r@ == v@,
{
    let mut out: Vec<Ident> = Vec::new();
    let mut i: usize = 0;
    while i < v.len()
        invariant
            i <= v.len(),
            out@ == v@.take(i as int),
        decreases v.len() - i,
    {
        out.push(v[i].clone());
        assert(v@.take(i + 1) == v@.take(i as int).push(v@[i as int]));
        i = i + 1;
    }
    assert(v@.take(v.len() as int) == v@);
    out
}

fn alias_idents(alias: &TableAlias) -> (r: Vec<Ident>)
    ensures
        views(r@) == alias_name(*alias),
{
    let mut out: Vec<Ident> = Vec::new();
    out.push(alias.name.clone());
    assert(views(out@) =~= alias_name(*alias));
    out
}

fn plain_ident(value: String) -> (r: Vec<Ident>)
    ensures
        views(r@) == seq![plain(value@)],
{
    let mut out: Vec<Ident> = Vec::new();
    out.push(Ident { value, quote_style: None });
    assert(views(out@) =~= seq![plain(value@)]);
    out
}

/// The name of a source that must be a plain table.
pub fn get_table_name_from_table_factor(table: &TableFactor) -> (r: Result<Vec<Ident>, Unsupported>)
    ensures
        match r {
            Ok(name) => {
                &&& table is Table
                &&& name@ == table->Table_name@
                &&& factor_name_error(*table) is None
                &&& views(name@) == factor_name(*table)
            },
            Err(e) => !(table is Table) && factor_name_error(*table) == Some(e@),
        },
{
    match table {
        TableFactor::Table { name, .. } => Ok(clone_idents(name)),
        TableFactor::Pivot { text, .. } => Err(unsupported_name(text.as_str())),
        TableFactor::Derived { text, .. } => Err(unsupported_name(text.as_str())),
        TableFactor::TableFunction { text } => Err(unsupported_name(text.as_str())),
        TableFactor::Other { text } => Err(unsupported_name(text.as_str())),
    }
}

// Expressions

fn visit_identifier(id: &Ident, context: &mut Context)
    requires
        old(context)@.wf(),
    ensures
        final(context)@ == identifier_effect(id@.value, old(context)@),
        all_distinct(old(context)@) ==> all_distinct(final(context)@),
        inputs_kept(old(context)@, final(context)@),
{
    let descendant = match context.column_context() {
        Some(column) => Some(column.name.clone()),
        None => None,
    };
    if let Some(name) = descendant {
        let ancestor = ColumnMeta::new(id.value.clone(), clone_opt_table(context.table_context()));
        let mut ancestors: Vec<ColumnMeta> = Vec::new();
        ancestors.push(ancestor);
        assert(views(ancestors@) =~= seq![
            ColumnName { name: id.value@, origin: old(context)@.table_context },
        ]);
        context.add_column_ancestors(ColumnMeta::new(name, None), ancestors);
    }
}

fn visit_compound_identifier(ids: &Vec<Ident>, context: &mut Context)
    requires
        old(context)@.wf(),
    ensures
        final(context)@ == compound_effect(views(ids@), old(context)@),
        all_distinct(old(context)@) ==> all_distinct(final(context)@),
        inputs_kept(old(context)@, final(context)@),
{
    let descendant = match context.column_context() {
        Some(column) => Some(column.name.clone()),
        None => None,
    };
    if let Some(name) = descendant {
        if ids.len() > 0 {
            let mut qualifier: Vec<Ident> = Vec::new();
            let mut i: usize = 0;
            while i < ids.len() - 1
                invariant
                    ids.len() > 0,
                    i <= ids.len() - 1,
                    qualifier@ == ids@.take(i as int),
                decreases ids.len() - 1 - i,
            {
                qualifier.push(ids[i].clone());
                assert(ids@.take(i + 1) == ids@.take(i as int).push(ids@[i as int]));
                i = i + 1;
            }
            assert(ids@.take(ids.len() - 1) == ids@.drop_last());
            assert(views(qualifier@) =~= views(ids@).drop_last());
            let table = context.resolve(context.table_of(qualifier));
            let ancestor = ColumnMeta::new(ids[ids.len() - 1].value.clone(), Some(table));
            let mut ancestors: Vec<ColumnMeta> = Vec::new();
            ancestors.push(ancestor);
            assert(views(ancestors@) =~= seq![
                ColumnName { name: views(ids@).last().value, origin: Some(table@) },
            ]);
            context.add_column_ancestors(ColumnMeta::new(name, None), ancestors);
        }
    }
}

#[verifier::spinoff_prover]
fn walk_expr(e: &Expr, context: &mut Context) -> (r: Result<(), Unsupported>)
    requires
        old(context)@.wf(),
    ensures
        walked(
            r,
            expr_error(*e),
            old(context)@,
            final(context)@,
            expr_effect(*e, old(context)@),
            expr_sourceless(*e),
        ),
    decreases e, 0nat,
{
    proof {
        reveal(expr_effect);
        reveal(expr_error);
    }
    match e {
        Expr::Identifier(id) => {
            visit_identifier(id, context);
            Ok(())
        },
        Expr::CompoundIdentifier(ids) => {
            visit_compound_identifier(ids, context);
            Ok(())
        },
        Expr::Other => Ok(()),
        Expr::Subquery(q) | Expr::ArraySubquery(q) => walk_query(q, context),
        Expr::InSubquery { subquery } | Expr::Exists { subquery } => walk_query(subquery, context),
        Expr::IsFalse(a)
        | Expr::IsNotFalse(a)
        | Expr::IsTrue(a)
        | Expr::IsNotTrue(a)
        | Expr::IsNull(a)
        | Expr::IsNotNull(a)
        | Expr::IsUnknown(a)
        | Expr::IsNotUnknown(a)
        | Expr::Nested(a) => walk_expr(a, context),
        Expr::UnaryOp { expr }
        | Expr::Cast { expr }
        | Expr::TryCast { expr }
        | Expr::SafeCast { expr }
        | Expr::Extract { expr }
        | Expr::Collate { expr }
        | Expr::CompositeAccess { expr } => walk_expr(expr, context),
        Expr::AtTimeZone { timestamp } => walk_expr(timestamp, context),
        Expr::BinaryOp { left, right }
        | Expr::AnyOp { left, right }
        | Expr::AllOp { left, right }
        | Expr::JsonAccess { left, right } => {
            walk_expr(left, context)?;
            walk_expr(right, context)
        },
        Expr::IsDistinctFrom(a, b) | Expr::IsNotDistinctFrom(a, b) => {
            walk_expr(a, context)?;
            walk_expr(b, context)
        },
        Expr::Like { expr, pattern }
        | Expr::ILike { expr, pattern }
        | Expr::SimilarTo { expr, pattern } => {
            walk_expr(expr, context)?;
            walk_expr(pattern, context)
        },
        Expr::InUnnest { expr, array_expr } => {
            walk_expr(expr, context)?;
            walk_expr(array_expr, context)
        },
        Expr::Position { expr, within } => {
            walk_expr(expr, context)?;
            walk_expr(within, context)
        },
        Expr::Between { expr, low, high } => {
            walk_expr(expr, context)?;
            walk_expr(low, context)?;
            walk_expr(high, context)
        },
        Expr::Overlay { expr, overlay_what, overlay_from, overlay_for } => {
            walk_expr(expr, context)?;
            walk_expr(overlay_what, context)?;
            walk_expr(overlay_from, context)?;
            walk_opt_expr(overlay_for, context)
        },
        Expr::Substring { expr, substring_from, substring_for } => {
            walk_expr(expr, context)?;
            walk_opt_expr(substring_from, context)?;
            walk_opt_expr(substring_for, context)
        },
        Expr::Trim { expr, trim_what } => {
            walk_expr(expr, context)?;
            walk_opt_expr(trim_what, context)
        },
        Expr::InList { expr, list } => {
            walk_expr(expr, context)?;
            walk_exprs(list, context)
        },
        Expr::MapAccess { column, keys } => {
            walk_expr(column, context)?;
            walk_exprs(keys, context)
        },
        Expr::ArrayIndex { obj, indexes } => {
            walk_expr(obj, context)?;
            walk_exprs(indexes, context)
        },
        Expr::Tuple(v) => walk_exprs(v, context),
        Expr::Array { elem } => walk_exprs(elem, context),
        Expr::GroupingSets(v) | Expr::Cube(v) | Expr::Rollup(v) => walk_expr_lists(v, context),
        Expr::Case { operand, conditions, results, else_result } => {
            walk_opt_expr(operand, context)?;
            walk_exprs(conditions, context)?;
            walk_exprs(results, context)?;
            walk_opt_expr(else_result, context)
        },
        Expr::Function(f) => walk_function(f, context),
        Expr::ListAgg(l) => walk_list_agg(l, context),
    }
}

#[verifier::spinoff_prover]
fn walk_opt_expr(e: &Option<Box<Expr>>, context: &mut Context) -> (r: Result<
    (),
    Unsupported,
>)
    requires
        old(context)@.wf(),
    ensures
        walked(
            r,
            opt_expr_error(*e),
            old(context)@,
            final(context)@,
            opt_expr_effect(*e, old(context)@),
            opt_expr_sourceless(*e),
        ),
    decreases e, 0nat,
{
    proof {
        reveal(opt_expr_effect);
        reveal(opt_expr_error);
    }
    match e {
        Some(e) => walk_expr(e, context),
        None => Ok(()),
    }
}

#[verifier::spinoff_prover]
fn walk_exprs(v: &Vec<Expr>, context: &mut Context) -> (r: Result<(), Unsupported>)
    requires
        old(context)@.wf(),
    ensures
        walked(
            r,
            exprs_error(*v, 0),
            old(context)@,
            final(context)@,
            exprs_effect(*v, v.len() as nat, old(context)@),
            exprs_sourceless(*v, 0),
        ),
    decreases v, 1nat,
{
    proof {
        reveal(exprs_effect);
        reveal(exprs_error);
    }
    let mut i: usize = 0;
    while i < v.len()
        invariant
            i <= v.len(),
            old(context)@.wf(),
            exprs_error(*v, 0) == exprs_error(*v, i as nat),
            context@ == exprs_effect(*v, i as nat, old(context)@),
            context@.frames.len() == old(context)@.frames.len(),
            all_distinct(old(context)@) ==> all_distinct(context@),
            exprs_sourceless(*v, 0) ==> exprs_sourceless(*v, i as nat),
            exprs_sourceless(*v, 0) ==> inputs_kept(old(context)@, context@),
        decreases v.len() - i,
    {
        proof {
            reveal(exprs_effect);
            reveal(exprs_error);
        }
        walk_expr(&v[i], context)?;
        i = i + 1;
    }
    Ok(())
}

#[verifier::spinoff_prover]
fn walk_expr_lists(v: &Vec<Vec<Expr>>, context: &mut Context) -> (r: Result<
    (),
    Unsupported,
>)
    requires
        old(context)@.wf(),
    ensures
        walked(
            r,
            expr_lists_error(*v, 0),
            old(context)@,
            final(context)@,
            expr_lists_effect(*v, v.len() as nat, old(context)@),
            expr_lists_sourceless(*v, 0),
        ),
    decreases v, 1nat,
{
    proof {
        reveal(expr_lists_effect);
        reveal(expr_lists_error);
    }
    let mut i: usize = 0;
    while i < v.len()
        invariant
            i <= v.len(),
            old(context)@.wf(),
            expr_lists_error(*v, 0) == expr_lists_error(*v, i as nat),
            context@ == expr_lists_effect(*v, i as nat, old(context)@),
            context@.frames.len() == old(context)@.frames.len(),
            all_distinct(old(context)@) ==> all_distinct(context@),
            expr_lists_sourceless(*v, 0) ==> expr_lists_sourceless(*v, i as nat),
            expr_lists_sourceless(*v, 0) ==> inputs_kept(old(context)@, context@),
        decreases v.len() - i,
    {
        proof {
            reveal(expr_lists_effect);
            reveal(expr_lists_error);
        }
        walk_exprs(&v[i], context)?;
        i = i + 1;
    }
    Ok(())
}

#[verifier::spinoff_prover]
fn walk_order_by(v: &Vec<OrderByExpr>, context: &mut Context) -> (r: Result<
    (),
    Unsupported,
>)
    requires
        old(context)@.wf(),
    ensures
        walked(
            r,
            order_by_error(*v, 0),
            old(context)@,
            final(context)@,
            order_by_effect(*v, v.len() as nat, old(context)@),
            order_by_sourceless(*v, 0),
        ),
    decreases v, 1nat,
{
    proof {
        reveal(order_by_effect);
        reveal(order_by_error);
    }
    let mut i: usize = 0;
    while i < v.len()
        invariant
            i <= v.len(),
            old(context)@.wf(),
            order_by_error(*v, 0) == order_by_error(*v, i as nat),
            context@ == order_by_effect(*v, i as nat, old(context)@),
            context@.frames.len() == old(context)@.frames.len(),
            all_distinct(old(context)@) ==> all_distinct(context@),
            order_by_sourceless(*v, 0) ==> order_by_sourceless(*v, i as nat),
            order_by_sourceless(*v, 0) ==> inputs_kept(old(context)@, context@),
        decreases v.len() - i,
    {
        proof {
            reveal(order_by_effect);
            reveal(order_by_error);
        }
        walk_expr(&v[i].expr, context)?;
        i = i + 1;
    }
    Ok(())
}

// Function calls

#[verifier::spinoff_prover]
fn walk_function_arg_expr(a: &FunctionArgExpr, context: &mut Context) -> (r: Result<
    (),
    Unsupported,
>)
    requires
        old(context)@.wf(),
    ensures
        walked(
            r,
            arg_expr_error(*a),
            old(context)@,
            final(context)@,
            arg_expr_effect(*a, old(context)@),
            arg_expr_sourceless(*a),
        ),
    decreases a, 0nat,
{
    proof {
        reveal(arg_expr_effect);
        reveal(arg_expr_error);
    }
    match a {
        FunctionArgExpr::Expr(e) => walk_expr(e, context),
        FunctionArgExpr::Wildcard => Ok(()),
    }
}

#[verifier::spinoff_prover]
fn walk_function_arg(a: &FunctionArg, context: &mut Context) -> (r: Result<(), Unsupported>)
    requires
        old(context)@.wf(),
    ensures
        walked(
            r,
            arg_error(*a),
            old(context)@,
            final(context)@,
            arg_effect(*a, old(context)@),
            arg_sourceless(*a),
        ),
    decreases a, 0nat,
{
    proof {
        reveal(arg_effect);
        reveal(arg_error);
    }
    match a {
        FunctionArg::Named { arg } => walk_function_arg_expr(arg, context),
        FunctionArg::Unnamed(arg) => walk_function_arg_expr(arg, context),
    }
}

#[verifier::spinoff_prover]
fn walk_function_args(v: &Vec<FunctionArg>, context: &mut Context) -> (r: Result<
    (),
    Unsupported,
>)
    requires
        old(context)@.wf(),
    ensures
        walked(
            r,
            args_error(*v, 0),
            old(context)@,
            final(context)@,
            args_effect(*v, v.len() as nat, old(context)@),
            args_sourceless(*v, 0),
        ),
    decreases v, 1nat,
{
    proof {
        reveal(args_effect);
        reveal(args_error);
    }
    let mut i: usize = 0;
    while i < v.len()
        invariant
            i <= v.len(),
            old(context)@.wf(),
            args_error(*v, 0) == args_error(*v, i as nat),
            context@ == args_effect(*v, i as nat, old(context)@),
            context@.frames.len() == old(context)@.frames.len(),
            all_distinct(old(context)@) ==> all_distinct(context@),
            args_sourceless(*v, 0) ==> args_sourceless(*v, i as nat),
            args_sourceless(*v, 0) ==> inputs_kept(old(context)@, context@),
        decreases v.len() - i,
    {
        proof {
            reveal(args_effect);
            reveal(args_error);
        }
        walk_function_arg(&v[i], context)?;
        i = i + 1;
    }
    Ok(())
}

#[verifier::spinoff_prover]
fn walk_window_spec(w: &WindowSpec, context: &mut Context) -> (r: Result<(), Unsupported>)
    requires
        old(context)@.wf(),
    ensures
        walked(
            r,
            window_spec_error(*w),
            old(context)@,
            final(context)@,
            window_spec_effect(*w, old(context)@),
            window_spec_sourceless(*w),
        ),
    decreases w, 0nat,
{
    proof {
        reveal(window_spec_effect);
        reveal(window_spec_error);
    }
    walk_exprs(&w.partition_by, context)?;
    walk_order_by(&w.order_by, context)
}

#[verifier::spinoff_prover]
fn walk_window_type(w: &WindowType, context: &mut Context) -> (r: Result<(), Unsupported>)
    requires
        old(context)@.wf(),
    ensures
        walked(
            r,
            window_type_error(*w),
            old(context)@,
            final(context)@,
            window_type_effect(*w, old(context)@),
            window_type_sourceless(*w),
        ),
    decreases w, 0nat,
{
    proof {
        reveal(window_type_effect);
        reveal(window_type_error);
    }
    match w {
        WindowType::WindowSpec(spec) => walk_window_spec(spec, context),
        WindowType::NamedWindow => Ok(()),
    }
}

#[verifier::spinoff_prover]
fn walk_function(f: &Function, context: &mut Context) -> (r: Result<(), Unsupported>)
    requires
        old(context)@.wf(),
    ensures
        walked(
            r,
            function_error(*f),
            old(context)@,
            final(context)@,
            function_effect(*f, old(context)@),
            function_sourceless(*f),
        ),
    decreases f, 0nat,
{
    proof {
        reveal(function_effect);
        reveal(function_error);
    }
    walk_function_args(&f.args, context)?;
    match &f.over {
        Some(w) => walk_window_type(w, context),
        None => Ok(()),
    }
}

#[verifier::spinoff_prover]
fn walk_overflow(o: &Option<ListAggOnOverflow>, context: &mut Context) -> (r: Result<
    (),
    Unsupported,
>)
    requires
        old(context)@.wf(),
    ensures
        walked(
            r,
            overflow_error(*o),
            old(context)@,
            final(context)@,
            overflow_effect(*o, old(context)@),
            overflow_sourceless(*o),
        ),
    decreases o, 0nat,
{
    proof {
        reveal(overflow_effect);
        reveal(overflow_error);
    }
    match o {
        Some(ListAggOnOverflow::Truncate { filler: Some(e) }) => walk_expr(e, context),
        _ => Ok(()),
    }
}

#[verifier::spinoff_prover]
fn walk_list_agg(l: &ListAgg, context: &mut Context) -> (r: Result<(), Unsupported>)
    requires
        old(context)@.wf(),
    ensures
        walked(
            r,
            list_agg_error(*l),
            old(context)@,
            final(context)@,
            list_agg_effect(*l, old(context)@),
            list_agg_sourceless(*l),
        ),
    decreases l, 0nat,
{
    proof {
        reveal(list_agg_effect);
        reveal(list_agg_error);
    }
    walk_expr(&l.expr, context)?;
    walk_opt_expr(&l.separator, context)?;
    walk_overflow(&l.on_overflow, context)?;
    walk_order_by(&l.within_group, context)
}

// Sources

fn visit_named_source(name: Vec<Ident>, alias: &Option<TableAlias>, context: &mut Context)
    requires
        old(context)@.wf(),
    ensures
        final(context)@ == named_source_effect(views(name@), *alias, old(context)@),
        all_distinct(old(context)@) ==> all_distinct(final(context)@),
        final(context)@.frames.len() == old(context)@.frames.len(),
{
    if let Some(a) = alias {
        let table = context.table_of(clone_idents(&name));
        context.add_table_alias(table, alias_idents(a));
    }
    context.add_input(name);
}

#[verifier::spinoff_prover]
fn walk_table_factor(f: &TableFactor, context: &mut Context) -> (r: Result<(), Unsupported>)
    requires
        old(context)@.wf(),
    ensures
        walked(
            r,
            factor_error(*f),
            old(context)@,
            final(context)@,
            factor_effect(*f, old(context)@),
            false,
        ),
    decreases f, 0nat,
{
    proof {
        reveal(factor_effect);
        reveal(factor_error);
    }
    match f {
        TableFactor::Table { name, alias } => {
            visit_named_source(clone_idents(name), alias, context);
            Ok(())
        },
        TableFactor::Pivot { table, alias, .. } => {
            let ident = get_table_name_from_table_factor(table)?;
            visit_named_source(ident, alias, context);
            Ok(())
        },
        TableFactor::Derived { subquery, alias, .. } => {
            context.push_frame();
            walk_query(subquery, context)?;
            let frame = context.pop_frame().unwrap();
            match alias {
                Some(a) => {
                    let table = context.table_of(alias_idents(a));
                    context.collect_with_table(frame, table);
                },
                None => {
                    context.collect(frame);
                },
            }
            Ok(())
        },
        TableFactor::TableFunction { .. } => Ok(()),
        TableFactor::Other { text } => Err(unsupported_source(text.as_str())),
    }
}

#[verifier::spinoff_prover]
fn walk_scoped_factor(f: &TableFactor, context: &mut Context) -> (r: Result<(), Unsupported>)
    requires
        old(context)@.wf(),
    ensures
        walked(
            r,
            factor_error(*f),
            old(context)@,
            final(context)@,
            scoped_factor_effect(*f, old(context)@),
            false,
        ),
    decreases f, 1nat,
{
    proof {
        reveal(factor_error);
        reveal(scoped_factor_effect);
    }
    context.push_frame();
    walk_table_factor(f, context)?;
    let frame = context.pop_frame().unwrap();
    context.collect_aliases(&frame);
    context.collect(frame);
    Ok(())
}

#[verifier::spinoff_prover]
fn walk_scoped_joins(v: &Vec<Join>, context: &mut Context) -> (r: Result<(), Unsupported>)
    requires
        old(context)@.wf(),
    ensures
        walked(
            r,
            scoped_joins_error(*v, 0),
            old(context)@,
            final(context)@,
            scoped_joins_effect(*v, v.len() as nat, old(context)@),
            false,
        ),
    decreases v, 2nat,
{
    proof {
        reveal(scoped_joins_effect);
        reveal(scoped_joins_error);
    }
    let mut i: usize = 0;
    while i < v.len()
        invariant
            i <= v.len(),
            old(context)@.wf(),
            scoped_joins_error(*v, 0) == scoped_joins_error(*v, i as nat),
            context@ == scoped_joins_effect(*v, i as nat, old(context)@),
            context@.frames.len() == old(context)@.frames.len(),
            all_distinct(old(context)@) ==> all_distinct(context@),
        decreases v.len() - i,
    {
        proof {
            reveal(scoped_joins_effect);
            reveal(scoped_joins_error);
        }
        walk_scoped_factor(&v[i].relation, context)?;
        i = i + 1;
    }
    Ok(())
}

#[verifier::spinoff_prover]
fn walk_scoped_sources(v: &Vec<TableWithJoins>, context: &mut Context) -> (r: Result<
    (),
    Unsupported,
>)
    requires
        old(context)@.wf(),
    ensures
        walked(
            r,
            scoped_sources_error(*v, 0),
            old(context)@,
            final(context)@,
            scoped_sources_effect(*v, v.len() as nat, old(context)@),
            false,
        ),
    decreases v, 2nat,
{
    proof {
        reveal(scoped_sources_effect);
        reveal(scoped_sources_error);
    }
    let mut i: usize = 0;
    while i < v.len()
        invariant
            i <= v.len(),
            old(context)@.wf(),
            scoped_sources_error(*v, 0) == scoped_sources_error(*v, i as nat),
            context@ == scoped_sources_effect(*v, i as nat, old(context)@),
            context@.frames.len() == old(context)@.frames.len(),
            all_distinct(old(context)@) ==> all_distinct(context@),
        decreases v.len() - i,
    {
        proof {
            reveal(scoped_sources_effect);
            reveal(scoped_sources_error);
        }
        walk_scoped_factor(&v[i].relation, context)?;
        walk_scoped_joins(&v[i].joins, context)?;
        i = i + 1;
    }
    Ok(())
}

#[verifier::spinoff_prover]
fn walk_joins(v: &Vec<Join>, context: &mut Context) -> (r: Result<(), Unsupported>)
    requires
        old(context)@.wf(),
    ensures
        walked(
            r,
            joins_error(*v, 0),
            old(context)@,
            final(context)@,
            joins_effect(*v, v.len() as nat, old(context)@),
            false,
        ),
    decreases v, 1nat,
{
    proof {
        reveal(joins_effect);
        reveal(joins_error);
    }
    let mut i: usize = 0;
    while i < v.len()
        invariant
            i <= v.len(),
            old(context)@.wf(),
            joins_error(*v, 0) == joins_error(*v, i as nat),
            context@ == joins_effect(*v, i as nat, old(context)@),
            context@.frames.len() == old(context)@.frames.len(),
            all_distinct(old(context)@) ==> all_distinct(context@),
        decreases v.len() - i,
    {
        proof {
            reveal(joins_effect);
            reveal(joins_error);
        }
        walk_table_factor(&v[i].relation, context)?;
        i = i + 1;
    }
    Ok(())
}

#[verifier::spinoff_prover]
fn walk_source(t: &TableWithJoins, context: &mut Context) -> (r: Result<(), Unsupported>)
    requires
        old(context)@.wf(),
    ensures
        walked(
            r,
            source_error(*t),
            old(context)@,
            final(context)@,
            source_effect(*t, old(context)@),
            false,
        ),
    decreases t, 0nat,
{
    proof {
        reveal(source_effect);
        reveal(source_error);
    }
    walk_table_factor(&t.relation, context)?;
    walk_joins(&t.joins, context)
}

#[verifier::spinoff_prover]
fn walk_sources(v: &Vec<TableWithJoins>, context: &mut Context) -> (r: Result<(), Unsupported>)
    requires
        old(context)@.wf(),
    ensures
        walked(
            r,
            sources_error(*v, 0),
            old(context)@,
            final(context)@,
            sources_effect(*v, v.len() as nat, old(context)@),
            false,
        ),
    decreases v, 1nat,
{
    proof {
        reveal(sources_effect);
        reveal(sources_error);
    }
    let mut i: usize = 0;
    while i < v.len()
        invariant
            i <= v.len(),
            old(context)@.wf(),
            sources_error(*v, 0) == sources_error(*v, i as nat),
            context@ == sources_effect(*v, i as nat, old(context)@),
            context@.frames.len() == old(context)@.frames.len(),
            all_distinct(old(context)@) ==> all_distinct(context@),
        decreases v.len() - i,
    {
        proof {
            reveal(sources_effect);
            reveal(sources_error);
        }
        walk_source(&v[i], context)?;
        i = i + 1;
    }
    Ok(())
}

// Query blocks

fn set_derived_column(item: &SelectItem, context: &mut Context)
    ensures
        final(context)@ == old(context)@.set_column_context(derived_column(*item)),
        all_distinct(old(context)@) ==> all_distinct(final(context)@),
        inputs_kept(old(context)@, final(context)@),
{
    match item {
        SelectItem::UnnamedExpr(Expr::Identifier(id)) => {
            context.set_column_context(Some(ColumnMeta::new(id.value.clone(), None)));
        },
        SelectItem::UnnamedExpr(Expr::CompoundIdentifier(ids)) => {
            if ids.len() > 0 {
                let name = ids[ids.len() - 1].value.clone();
                context.set_column_context(Some(ColumnMeta::new(name, None)));
            } else {
                context.set_unnamed_column_context();
            }
        },
        SelectItem::UnnamedExpr(_) => {
            context.set_unnamed_column_context();
        },
        SelectItem::ExprWithAlias { alias, .. } => {
            context.set_column_context(Some(ColumnMeta::new(alias.value.clone(), None)));
        },
        SelectItem::Wildcard => {
            context.set_unnamed_column_context();
        },
    }
}

#[verifier::spinoff_prover]
fn walk_item(item: &SelectItem, context: &mut Context) -> (r: Result<(), Unsupported>)
    requires
        old(context)@.wf(),
    ensures
        walked(
            r,
            item_error(*item),
            old(context)@,
            final(context)@,
            item_effect(*item, old(context)@),
            item_sourceless(*item),
        ),
    decreases item, 0nat,
{
    proof {
        reveal(item_effect);
        reveal(item_error);
    }
    match item {
        SelectItem::UnnamedExpr(e) => {
            set_derived_column(item, context);
            walk_expr(e, context)
        },
        SelectItem::ExprWithAlias { expr, .. } => {
            set_derived_column(item, context);
            walk_expr(expr, context)
        },
        SelectItem::Wildcard => Ok(()),
    }
}

#[verifier::spinoff_prover]
fn walk_projection(v: &Vec<SelectItem>, context: &mut Context) -> (r: Result<(), Unsupported>)
    requires
        old(context)@.wf(),
    ensures
        walked(
            r,
            projection_error(*v, 0),
            old(context)@,
            final(context)@,
            projection_effect(*v, v.len() as nat, old(context)@),
            projection_sourceless(*v, 0),
        ),
    decreases v, 1nat,
{
    proof {
        reveal(projection_effect);
        reveal(projection_error);
    }
    let mut i: usize = 0;
    while i < v.len()
        invariant
            i <= v.len(),
            old(context)@.wf(),
            projection_error(*v, 0) == projection_error(*v, i as nat),
            context@ == projection_effect(*v, i as nat, old(context)@),
            context@.frames.len() == old(context)@.frames.len(),
            all_distinct(old(context)@) ==> all_distinct(context@),
            projection_sourceless(*v, 0) ==> projection_sourceless(*v, i as nat),
            projection_sourceless(*v, 0) ==> inputs_kept(old(context)@, context@),
        decreases v.len() - i,
    {
        proof {
            reveal(projection_effect);
            reveal(projection_error);
        }
        walk_item(&v[i], context)?;
        i = i + 1;
    }
    Ok(())
}

fn set_default_table(s: &Select, context: &mut Context)
    requires
        old(context)@.wf(),
    ensures
        final(context)@ == default_table_effect(*s, old(context)@),
        all_distinct(old(context)@) ==> all_distinct(final(context)@),
        final(context)@.frames.len() == old(context)@.frames.len(),
{
    if s.from.len() == 1 {
        match &s.from[0].relation {
            TableFactor::Table { name, alias } => {
                let table = context.table_of(clone_idents(name));
                if let Some(a) = alias {
                    context.add_table_alias(table.clone(), alias_idents(a));
                }
                context.set_table_context(Some(table));
            },
            _ => {},
        }
    }
}

#[verifier::spinoff_prover]
fn walk_select(s: &Select, context: &mut Context) -> (r: Result<(), Unsupported>)
    requires
        old(context)@.wf(),
    ensures
        walked(
            r,
            select_error(*s),
            old(context)@,
            final(context)@,
            select_effect(*s, old(context)@),
            select_sourceless(*s),
        ),
    decreases s, 0nat,
{
    proof {
        reveal(select_effect);
        reveal(select_error);
    }
    set_default_table(s, context);
    context.push_frame();
    proof {
        reveal(scoped_sources_effect);
    }
    walk_scoped_sources(&s.from, context)?;
    let tables_frame = context.pop_frame().unwrap();
    assert(select_sourceless(*s) ==> tables_frame@ == FrameView::empty() && context@ == old(
        context,
    )@) by {
        if select_sourceless(*s) {
            let start = old(context)@;
            assert(start.frames.push(FrameView::empty()).drop_last() =~= start.frames);
        }
    }
    context.collect_aliases(&tables_frame);
    walk_projection(&s.projection, context)?;
    context.set_column_context(None);
    if let Some(into) = &s.into {
        context.add_output(clone_idents(&into.name));
    }
    context.set_table_context(None);
    proof {
        if select_sourceless(*s) {
            lemma_without_stand_ins(context@.top().inputs, tables_frame@.aliases);
        }
    }
    context.coalesce(tables_frame);
    Ok(())
}

fn walk_table(t: &Table, context: &mut Context) -> (r: Result<(), Unsupported>)
    requires
        old(context)@.wf(),
    ensures
        walked(r, None, old(context)@, final(context)@, table_effect(*t, old(context)@), false),
{
    if let Some(name) = &t.table_name {
        context.add_input(plain_ident(name.clone()));
    }
    Ok(())
}

#[verifier::spinoff_prover]
fn walk_set_expr(s: &SetExpr, context: &mut Context) -> (r: Result<(), Unsupported>)
    requires
        old(context)@.wf(),
    ensures
        walked(
            r,
            set_expr_error(*s),
            old(context)@,
            final(context)@,
            set_expr_effect(*s, old(context)@),
            set_expr_sourceless(*s),
        ),
    decreases s, 0nat,
{
    proof {
        reveal(set_expr_effect);
        reveal(set_expr_error);
    }
    match s {
        SetExpr::Select(select) => walk_select(select, context),
        SetExpr::Query(q) => walk_query(q, context),
        SetExpr::SetOperation { left, right } => {
            walk_set_expr(left, context)?;
            walk_set_expr(right, context)
        },
        SetExpr::Values => Ok(()),
        SetExpr::Insert(stmt) => walk_statement(stmt, context),
        SetExpr::Update(stmt) => walk_statement(stmt, context),
        SetExpr::Table(t) => walk_table(t, context),
    }
}

#[verifier::spinoff_prover]
fn walk_cte(cte: &Cte, context: &mut Context) -> (r: Result<(), Unsupported>)
    requires
        old(context)@.wf(),
    ensures
        walked(
            r,
            query_error(*cte.query),
            old(context)@,
            final(context)@,
            cte_effect(*cte, old(context)@),
            false,
        ),
    decreases cte, 0nat,
{
    proof {
        reveal(cte_effect);
        reveal(query_error);
    }
    let standing = DbTableMeta::new_default_dialect(String::new());
    assert(standing@ =~= placeholder()) by {
        assert(normalize(Dialect::Generic, Seq::<char>::empty(), false) =~= Seq::<char>::empty());
    }
    context.add_table_alias(standing, alias_idents(&cte.alias));
    context.push_frame();
    walk_query(&cte.query, context)?;
    let frame = context.pop_frame();
    if let Some(f) = frame {
        let table = context.table_of(alias_idents(&cte.alias));
        context.collect_with_table(f, table);
    }
    Ok(())
}

#[verifier::spinoff_prover]
fn walk_with(w: &With, context: &mut Context) -> (r: Result<(), Unsupported>)
    requires
        old(context)@.wf(),
    ensures
        walked(
            r,
            with_error(*w),
            old(context)@,
            final(context)@,
            with_effect(*w, old(context)@),
            false,
        ),
    decreases w, 0nat,
{
    proof {
        reveal(with_effect);
        reveal(with_error);
    }
    walk_ctes(&w.cte_tables, context)
}

#[verifier::spinoff_prover]
fn walk_ctes(v: &Vec<Cte>, context: &mut Context) -> (r: Result<(), Unsupported>)
    requires
        old(context)@.wf(),
    ensures
        walked(
            r,
            ctes_error(*v, 0),
            old(context)@,
            final(context)@,
            ctes_effect(*v, v.len() as nat, old(context)@),
            false,
        ),
    decreases v, 1nat,
{
    proof {
        reveal(ctes_effect);
        reveal(ctes_error);
    }
    let mut i: usize = 0;
    while i < v.len()
        invariant
            i <= v.len(),
            old(context)@.wf(),
            ctes_error(*v, 0) == ctes_error(*v, i as nat),
            context@ == ctes_effect(*v, i as nat, old(context)@),
            context@.frames.len() == old(context)@.frames.len(),
            all_distinct(old(context)@) ==> all_distinct(context@),
        decreases v.len() - i,
    {
        proof {
            reveal(ctes_effect);
            reveal(ctes_error);
        }
        walk_cte(&v[i], context)?;
        i = i + 1;
    }
    Ok(())
}

#[verifier::spinoff_prover]
fn walk_query(q: &Query, context: &mut Context) -> (r: Result<(), Unsupported>)
    requires
        old(context)@.wf(),
    ensures
        walked(
            r,
            query_error(*q),
            old(context)@,
            final(context)@,
            query_effect(*q, old(context)@),
            query_sourceless(*q),
        ),
    decreases q, 0nat,
{
    proof {
        reveal(query_effect);
        reveal(query_error);
    }
    context.push_frame();
    match &q.with {
        Some(w) => {
            walk_with(w, context)?;
        },
        None => {},
    }
    let with_frame = context.pop_frame().unwrap();
    context.collect_aliases(&with_frame);
    context.push_frame();
    walk_set_expr(&q.body, context)?;
    let frame = context.pop_frame().unwrap();
    context.collect(frame);
    proof {
        if query_sourceless(*q) {
            lemma_without_stand_ins(context@.top().inputs, with_frame@.aliases);
        }
    }
    context.coalesce(with_frame);
    Ok(())
}

// Statements

fn visit_alter(op: &AlterTableOperation, name: &Vec<Ident>, context: &mut Context)
    requires
        old(context)@.wf(),
    ensures
        final(context)@ == alter_effect(*op, views(name@), old(context)@),
        all_distinct(old(context)@) ==> all_distinct(final(context)@),
        final(context)@.frames.len() == old(context)@.frames.len(),
        op is Other ==> inputs_kept(old(context)@, final(context)@),
{
    match op {
        AlterTableOperation::SwapWith { table_name } => {
            context.add_input(clone_idents(table_name));
            context.add_input(clone_idents(name));
            context.add_output(clone_idents(table_name));
            context.add_output(clone_idents(name));
        },
        AlterTableOperation::RenameTable { table_name } => {
            context.add_input(clone_idents(name));
            context.add_output(clone_idents(table_name));
        },
        AlterTableOperation::Other => {
            context.add_output(clone_idents(name));
        },
    }
}

#[verifier::spinoff_prover]
fn visit_alters(ops: &Vec<AlterTableOperation>, name: &Vec<Ident>, context: &mut Context)
    requires
        old(context)@.wf(),
    ensures
        final(context)@ == alters_effect(ops@, views(name@), old(context)@),
        all_distinct(old(context)@) ==> all_distinct(final(context)@),
        final(context)@.frames.len() == old(context)@.frames.len(),
        alters_sourceless(ops@) ==> inputs_kept(old(context)@, final(context)@),
{
    proof {
        reveal(alters_effect);
    }
    let mut i: usize = 0;
    while i < ops.len()
        invariant
            i <= ops.len(),
            old(context)@.wf(),
            context@ == alters_effect(ops@.take(i as int), views(name@), old(context)@),
            context@.frames.len() == old(context)@.frames.len(),
            all_distinct(old(context)@) ==> all_distinct(context@),
            alters_sourceless(ops@) ==> inputs_kept(old(context)@, context@),
        decreases ops.len() - i,
    {
        proof {
            reveal(alters_effect);
        }
        visit_alter(&ops[i], name, context);
        proof {
            assert(ops@.take(i + 1).drop_last() == ops@.take(i as int));
            assert(ops@.take(i + 1).last() == ops@[i as int]);
        }
        i = i + 1;
    }
    assert(ops@.take(ops.len() as int) == ops@);
}

#[verifier::spinoff_prover]
fn add_outputs(names: &Vec<Vec<Ident>>, context: &mut Context)
    requires
        old(context)@.wf(),
    ensures
        final(context)@ == outputs_effect(names@, old(context)@),
        all_distinct(old(context)@) ==> all_distinct(final(context)@),
        final(context)@.frames.len() == old(context)@.frames.len(),
        inputs_kept(old(context)@, final(context)@),
{
    proof {
        reveal(outputs_effect);
    }
    let mut i: usize = 0;
    while i < names.len()
        invariant
            i <= names.len(),
            old(context)@.wf(),
            context@ == outputs_effect(names@.take(i as int), old(context)@),
            context@.frames.len() == old(context)@.frames.len(),
            all_distinct(old(context)@) ==> all_distinct(context@),
            inputs_kept(old(context)@, context@),
        decreases names.len() - i,
    {
        proof {
            reveal(outputs_effect);
        }
        context.add_output(clone_idents(&names[i]));
        proof {
            assert(names@.take(i + 1).drop_last() == names@.take(i as int));
            assert(names@.take(i + 1).last() == names@[i as int]);
        }
        i = i + 1;
    }
    assert(names@.take(names.len() as int) == names@);
}

#[verifier::spinoff_prover]
fn walk_target_joins(v: &Vec<Join>, context: &mut Context) -> (r: Result<(), Unsupported>)
    requires
        old(context)@.wf(),
    ensures
        walked(
            r,
            target_joins_error(v@, 0),
            old(context)@,
            final(context)@,
            target_joins_effect(v@, old(context)@),
            true,
        ),
{
    proof {
        reveal(target_joins_effect);
        reveal(target_joins_error);
    }
    let mut i: usize = 0;
    while i < v.len()
        invariant
            i <= v.len(),
            old(context)@.wf(),
            target_joins_error(v@, 0) == target_joins_error(v@, i as nat),
            context@ == target_joins_effect(v@.take(i as int), old(context)@),
            context@.frames.len() == old(context)@.frames.len(),
            all_distinct(old(context)@) ==> all_distinct(context@),
            inputs_kept(old(context)@, context@),
        decreases v.len() - i,
    {
        proof {
            reveal(target_joins_effect);
            reveal(target_joins_error);
        }
        let name = get_table_name_from_table_factor(&v[i].relation)?;
        context.add_output(name);
        proof {
            assert(v@.take(i + 1).drop_last() == v@.take(i as int));
            assert(v@.take(i + 1).last() == v@[i as int]);
        }
        i = i + 1;
    }
    assert(v@.take(v.len() as int) == v@);
    Ok(())
}

#[verifier::spinoff_prover]
fn walk_targets(v: &Vec<TableWithJoins>, context: &mut Context) -> (r: Result<(), Unsupported>)
    requires
        old(context)@.wf(),
    ensures
        walked(
            r,
            targets_error(v@, 0),
            old(context)@,
            final(context)@,
            targets_effect(v@, old(context)@),
            true,
        ),
{
    proof {
        reveal(targets_effect);
        reveal(targets_error);
    }
    let mut i: usize = 0;
    while i < v.len()
        invariant
            i <= v.len(),
            old(context)@.wf(),
            targets_error(v@, 0) == targets_error(v@, i as nat),
            context@ == targets_effect(v@.take(i as int), old(context)@),
            context@.frames.len() == old(context)@.frames.len(),
            all_distinct(old(context)@) ==> all_distinct(context@),
            inputs_kept(old(context)@, context@),
        decreases v.len() - i,
    {
        proof {
            reveal(targets_effect);
            reveal(targets_error);
        }
        let name = get_table_name_from_table_factor(&v[i].relation)?;
        context.add_output(name);
        walk_target_joins(&v[i].joins, context)?;
        proof {
            assert(v@.take(i + 1).drop_last() == v@.take(i as int));
            assert(v@.take(i + 1).last() == v@[i as int]);
        }
        i = i + 1;
    }
    assert(v@.take(v.len() as int) == v@);
    Ok(())
}

/// Whether one of the marks `locations` stands in `text`.
pub fn names_location(text: &str, locations: &Vec<String>) -> (r: bool)
    ensures
        r == is_cloud_location(text@, strings_view(locations@)),
{
    let mut i: usize = 0;
    while i < locations.len()
        invariant
            i <= locations.len(),
            forall|j: int| 0 <= j < i ==> !occurs(text@, #[trigger] strings_view(locations@)[j]),
        decreases locations.len() - i,
    {
        if contains_text(text, locations[i].as_str()) {
            assert(occurs(text@, strings_view(locations@)[i as int]));
            return true;
        }
        i = i + 1;
    }
    false
}

fn visit_stage(from_stage: &Vec<Ident>, text: &String, context: &mut Context)
    requires
        old(context)@.wf(),
    ensures
        final(context)@ == stage_effect(views(from_stage@), text@, old(context)@),
        all_distinct(old(context)@) ==> all_distinct(final(context)@),
        final(context)@.frames.len() == old(context)@.frames.len(),
        inputs_kept(old(context)@, final(context)@),
{
    if names_location(text.as_str(), context.locations()) {
        let location = strip_quotes(text.as_str());
        context.add_non_table_input(plain_ident(location), true, true);
    } else {
        context.add_non_table_input(clone_idents(from_stage), true, true);
    }
}

#[verifier::spinoff_prover]
fn walk_statement_body(s: &Statement, context: &mut Context) -> (r: Result<(), Unsupported>)
    requires
        old(context)@.wf(),
    ensures
        walked(
            r,
            statement_body_error(*s),
            old(context)@,
            final(context)@,
            statement_body_effect(*s, old(context)@),
            statement_sourceless(*s),
        ),
    decreases s, 0nat,
{
    proof {
        reveal(statement_body_effect);
        reveal(statement_body_error);
    }
    match s {
        Statement::Query(q) => walk_query(q, context),
        Statement::Insert { table_name, source } => {
            if let Some(src) = source {
                walk_query(src, context)?;
            }
            context.add_output(clone_idents(table_name));
            Ok(())
        },
        Statement::Merge { table, source } => {
            let table_name = get_table_name_from_table_factor(table)?;
            context.add_output(table_name);
            walk_table_factor(source, context)
        },
        Statement::CreateTable { name, query, like, clone } => {
            if let Some(q) = query {
                walk_query(q, context)?;
            }
            if let Some(like_table) = like {
                context.add_input(clone_idents(like_table));
            }
            if let Some(source) = clone {
                context.add_input(clone_idents(source));
            }
            context.add_output(clone_idents(name));
            Ok(())
        },
        Statement::CreateView { name, query } => {
            walk_query(query, context)?;
            context.add_output(clone_idents(name));
            Ok(())
        },
        Statement::CreateStage { name, url } => {
            if let Some(u) = url {
                context.add_non_table_input(plain_ident(u.clone()), true, true);
            }
            context.add_non_table_output(clone_idents(name), false, true);
            Ok(())
        },
        Statement::Update { table, from, selection } => {
            let name = get_table_name_from_table_factor(&table.relation)?;
            context.add_output(name);
            if let Some(src) = from {
                walk_source(src, context)?;
            }
            if let Some(e) = selection {
                walk_expr(e, context)?;
            }
            Ok(())
        },
        Statement::AlterTable { name, operations } => {
            visit_alters(operations, name, context);
            Ok(())
        },
        Statement::Delete { from, using, selection } => {
            walk_targets(from, context)?;
            if let Some(sources) = using {
                walk_sources(sources, context)?;
            }
            if let Some(e) = selection {
                walk_expr(e, context)?;
            }
            Ok(())
        },
        Statement::Truncate { table_name } => {
            context.add_output(clone_idents(table_name));
            Ok(())
        },
        Statement::Drop { names } => {
            add_outputs(names, context);
            Ok(())
        },
        Statement::CopyIntoSnowflake { into, from_stage, from_stage_text } => {
            context.add_output(clone_idents(into));
            visit_stage(from_stage, from_stage_text, context);
            Ok(())
        },
        Statement::Other => Ok(()),
    }
}

#[verifier::spinoff_prover]
fn walk_statement(s: &Statement, context: &mut Context) -> (r: Result<(), Unsupported>)
    requires
        old(context)@.wf(),
    ensures
        walked(
            r,
            statement_error(*s),
            old(context)@,
            final(context)@,
            statement_effect(*s, old(context)@),
            statement_sourceless(*s),
        ),
    decreases s, 1nat,
{
    proof {
        reveal(statement_effect);
        reveal(statement_error);
    }
    context.push_frame();
    walk_statement_body(s, context)?;
    let frame = context.pop_frame().unwrap();
    context.collect(frame);
    Ok(())
}

// The walks

/// Walks the node; a walk that fails leaves the context as it was.
pub fn visit_expr(e: &Expr, context: &mut Context) -> (r: Result<(), Unsupported>)
    requires
        old(context)@.wf(),
    ensures
        outcome(
            r,
            expr_error(*e),
            old(context)@,
            final(context)@,
            expr_effect(*e, old(context)@),
            expr_sourceless(*e),
        ),
{
    let saved = context.copy();
    let r = walk_expr(e, context);
    if r.is_err() {
        *context = saved;
    }
    r
}

/// Walks the node; a walk that fails leaves the context as it was.
pub fn visit_opt_expr(e: &Option<Box<Expr>>, context: &mut Context) -> (r: Result<
    (),
    Unsupported,
>)
    requires
        old(context)@.wf(),
    ensures
        outcome(
            r,
            opt_expr_error(*e),
            old(context)@,
            final(context)@,
            opt_expr_effect(*e, old(context)@),
            opt_expr_sourceless(*e),
        ),
{
    let saved = context.copy();
    let r = walk_opt_expr(e, context);
    if r.is_err() {
        *context = saved;
    }
    r
}

/// Walks the node; a walk that fails leaves the context as it was.
pub fn visit_exprs(v: &Vec<Expr>, context: &mut Context) -> (r: Result<(), Unsupported>)
    requires
        old(context)@.wf(),
    ensures
        outcome(
            r,
            exprs_error(*v, 0),
            old(context)@,
            final(context)@,
            exprs_effect(*v, v.len() as nat, old(context)@),
            exprs_sourceless(*v, 0),
        ),
{
    let saved = context.copy();
    let r = walk_exprs(v, context);
    if r.is_err() {
        *context = saved;
    }
    r
}

/// Walks the node; a walk that fails leaves the context as it was.
pub fn visit_expr_lists(v: &Vec<Vec<Expr>>, context: &mut Context) -> (r: Result<
    (),
    Unsupported,
>)
    requires
        old(context)@.wf(),
    ensures
        outcome(
            r,
            expr_lists_error(*v, 0),
            old(context)@,
            final(context)@,
            expr_lists_effect(*v, v.len() as nat, old(context)@),
            expr_lists_sourceless(*v, 0),
        ),
{
    let saved = context.copy();
    let r = walk_expr_lists(v, context);
    if r.is_err() {
        *context = saved;
    }
    r
}

/// Walks the node; a walk that fails leaves the context as it was.
pub fn visit_order_by(v: &Vec<OrderByExpr>, context: &mut Context) -> (r: Result<
    (),
    Unsupported,
>)
    requires
        old(context)@.wf(),
    ensures
        outcome(
            r,
            order_by_error(*v, 0),
            old(context)@,
            final(context)@,
            order_by_effect(*v, v.len() as nat, old(context)@),
            order_by_sourceless(*v, 0),
        ),
{
    let saved = context.copy();
    let r = walk_order_by(v, context);
    if r.is_err() {
        *context = saved;
    }
    r
}

/// Walks the node; a walk that fails leaves the context as it was.
pub fn visit_function_arg_expr(a: &FunctionArgExpr, context: &mut Context) -> (r: Result<
    (),
    Unsupported,
>)
    requires
        old(context)@.wf(),
    ensures
        outcome(
            r,
            arg_expr_error(*a),
            old(context)@,
            final(context)@,
            arg_expr_effect(*a, old(context)@),
            arg_expr_sourceless(*a),
        ),
{
    let saved = context.copy();
    let r = walk_function_arg_expr(a, context);
    if r.is_err() {
        *context = saved;
    }
    r
}

/// Walks the node; a walk that fails leaves the context as it was.
pub fn visit_function_arg(a: &FunctionArg, context: &mut Context) -> (r: Result<(), Unsupported>)
    requires
        old(context)@.wf(),
    ensures
        outcome(
            r,
            arg_error(*a),
            old(context)@,
            final(context)@,
            arg_effect(*a, old(context)@),
            arg_sourceless(*a),
        ),
{
    let saved = context.copy();
    let r = walk_function_arg(a, context);
    if r.is_err() {
        *context = saved;
    }
    r
}

/// Walks the node; a walk that fails leaves the context as it was.
pub fn visit_function_args(v: &Vec<FunctionArg>, context: &mut Context) -> (r: Result<
    (),
    Unsupported,
>)
    requires
        old(context)@.wf(),
    ensures
        outcome(
            r,
            args_error(*v, 0),
            old(context)@,
            final(context)@,
            args_effect(*v, v.len() as nat, old(context)@),
            args_sourceless(*v, 0),
        ),
{
    let saved = context.copy();
    let r = walk_function_args(v, context);
    if r.is_err() {
        *context = saved;
    }
    r
}

/// Walks the node; a walk that fails leaves the context as it was.
pub fn visit_window_spec(w: &WindowSpec, context: &mut Context) -> (r: Result<(), Unsupported>)
    requires
        old(context)@.wf(),
    ensures
        outcome(
            r,
            window_spec_error(*w),
            old(context)@,
            final(context)@,
            window_spec_effect(*w, old(context)@),
            window_spec_sourceless(*w),
        ),
{
    let saved = context.copy();
    let r = walk_window_spec(w, context);
    if r.is_err() {
        *context = saved;
    }
    r
}

/// Walks the node; a walk that fails leaves the context as it was.
pub fn visit_window_type(w: &WindowType, context: &mut Context) -> (r: Result<(), Unsupported>)
    requires
        old(context)@.wf(),
    ensures
        outcome(
            r,
            window_type_error(*w),
            old(context)@,
            final(context)@,
            window_type_effect(*w, old(context)@),
            window_type_sourceless(*w),
        ),
{
    let saved = context.copy();
    let r = walk_window_type(w, context);
    if r.is_err() {
        *context = saved;
    }
    r
}

/// Walks the node; a walk that fails leaves the context as it was.
pub fn visit_function(f: &Function, context: &mut Context) -> (r: Result<(), Unsupported>)
    requires
        old(context)@.wf(),
    ensures
        outcome(
            r,
            function_error(*f),
            old(context)@,
            final(context)@,
            function_effect(*f, old(context)@),
            function_sourceless(*f),
        ),
{
    let saved = context.copy();
    let r = walk_function(f, context);
    if r.is_err() {
        *context = saved;
    }
    r
}

/// Walks the node; a walk that fails leaves the context as it was.
pub fn visit_list_agg(l: &ListAgg, context: &mut Context) -> (r: Result<(), Unsupported>)
    requires
        old(context)@.wf(),
    ensures
        outcome(
            r,
            list_agg_error(*l),
            old(context)@,
            final(context)@,
            list_agg_effect(*l, old(context)@),
            list_agg_sourceless(*l),
        ),
{
    let saved = context.copy();
    let r = walk_list_agg(l, context);
    if r.is_err() {
        *context = saved;
    }
    r
}

/// Walks the node; a walk that fails leaves the context as it was.
pub fn visit_table_factor(f: &TableFactor, context: &mut Context) -> (r: Result<(), Unsupported>)
    requires
        old(context)@.wf(),
    ensures
        outcome(
            r,
            factor_error(*f),
            old(context)@,
            final(context)@,
            factor_effect(*f, old(context)@),
            false,
        ),
{
    let saved = context.copy();
    let r = walk_table_factor(f, context);
    if r.is_err() {
        *context = saved;
    }
    r
}

/// Walks the node; a walk that fails leaves the context as it was.
pub fn visit_select(s: &Select, context: &mut Context) -> (r: Result<(), Unsupported>)
    requires
        old(context)@.wf(),
    ensures
        outcome(
            r,
            select_error(*s),
            old(context)@,
            final(context)@,
            select_effect(*s, old(context)@),
            select_sourceless(*s),
        ),
{
    let saved = context.copy();
    let r = walk_select(s, context);
    if r.is_err() {
        *context = saved;
    }
    r
}

/// Walks the node; a walk that fails leaves the context as it was.
pub fn visit_table(t: &Table, context: &mut Context) -> (r: Result<(), Unsupported>)
    requires
        old(context)@.wf(),
    ensures
        outcome(r, None, old(context)@, final(context)@, table_effect(*t, old(context)@), false),
{
    let saved = context.copy();
    let r = walk_table(t, context);
    if r.is_err() {
        *context = saved;
    }
    r
}

/// Walks the node; a walk that fails leaves the context as it was.
pub fn visit_set_expr(s: &SetExpr, context: &mut Context) -> (r: Result<(), Unsupported>)
    requires
        old(context)@.wf(),
    ensures
        outcome(
            r,
            set_expr_error(*s),
            old(context)@,
            final(context)@,
            set_expr_effect(*s, old(context)@),
            set_expr_sourceless(*s),
        ),
{
    let saved = context.copy();
    let r = walk_set_expr(s, context);
    if r.is_err() {
        *context = saved;
    }
    r
}

/// Walks the node; a walk that fails leaves the context as it was.
pub fn visit_with(w: &With, context: &mut Context) -> (r: Result<(), Unsupported>)
    requires
        old(context)@.wf(),
    ensures
        outcome(
            r,
            with_error(*w),
            old(context)@,
            final(context)@,
            with_effect(*w, old(context)@),
            false,
        ),
{
    let saved = context.copy();
    let r = walk_with(w, context);
    if r.is_err() {
        *context = saved;
    }
    r
}

/// Walks the node; a walk that fails leaves the context as it was.
pub fn visit_query(q: &Query, context: &mut Context) -> (r: Result<(), Unsupported>)
    requires
        old(context)@.wf(),
    ensures
        outcome(
            r,
            query_error(*q),
            old(context)@,
            final(context)@,
            query_effect(*q, old(context)@),
            query_sourceless(*q),
        ),
{
    let saved = context.copy();
    let r = walk_query(q, context);
    if r.is_err() {
        *context = saved;
    }
    r
}

/// Walks the node; a walk that fails leaves the context as it was.
pub fn visit_statement(s: &Statement, context: &mut Context) -> (r: Result<(), Unsupported>)
    requires
        old(context)@.wf(),
    ensures
        outcome(
            r,
            statement_error(*s),
            old(context)@,
            final(context)@,
            statement_effect(*s, old(context)@),
            statement_sourceless(*s),
        ),
{
    let saved = context.copy();
    let r = walk_statement(s, context);
    if r.is_err() {
        *context = saved;
    }
    r
}

/// The lineage of one statement: what it reads, what it writes, and how the
/// columns it derives descend from the columns it reads. The statement is
/// analysed from a fresh context; the result is all or nothing.
#[verifier::spinoff_prover]
pub fn lineage(s: &Statement, dialect: Dialect, default_schema: Option<String>) -> (r: Result<
    Frame,
    Unsupported,
>)
    ensures
        match r {
            Ok(frame) => {
                &&& statement_error(*s) is None
                &&& frame@ == lineage_of(*s, dialect, opt_string_view(default_schema))
                &&& frame@.distinct()
                &&& statement_sourceless(*s) ==> frame@.inputs.len() == 0
            },
            Err(e) => statement_error(*s) == Some(e@),
        },
{
    proof {
        reveal(statement_error);
    }
    let mut context = Context::new(dialect, default_schema);
    match walk_statement(s, &mut context) {
        Ok(_) => Ok(context.into_lineage()),
        Err(e) => Err(e),
    }
}

impl Visit for With {
    open spec fn error(&self) -> Option<Seq<char>> {
        with_error(*self)
    }

    open spec fn effect(&self, c: ContextView) -> ContextView {
        with_effect(*self, c)
    }

    open spec fn sourceless(&self) -> bool {
        false
    }

    fn visit(&self, context: &mut Context) -> (r: Result<(), Unsupported>) {
        visit_with(self, context)
    }
}

impl Visit for TableFactor {
    open spec fn error(&self) -> Option<Seq<char>> {
        factor_error(*self)
    }

    open spec fn effect(&self, c: ContextView) -> ContextView {
        factor_effect(*self, c)
    }

    open spec fn sourceless(&self) -> bool {
        false
    }

    fn visit(&self, context: &mut Context) -> (r: Result<(), Unsupported>) {
        visit_table_factor(self, context)
    }
}

impl Visit for Expr {
    open spec fn error(&self) -> Option<Seq<char>> {
        expr_error(*self)
    }

    open spec fn effect(&self, c: ContextView) -> ContextView {
        expr_effect(*self, c)
    }

    open spec fn sourceless(&self) -> bool {
        expr_sourceless(*self)
    }

    fn visit(&self, context: &mut Context) -> (r: Result<(), Unsupported>) {
        visit_expr(self, context)
    }
}

impl Visit for Function {
    open spec fn error(&self) -> Option<Seq<char>> {
        function_error(*self)
    }

    open spec fn effect(&self, c: ContextView) -> ContextView {
        function_effect(*self, c)
    }

    open spec fn sourceless(&self) -> bool {
        function_sourceless(*self)
    }

    fn visit(&self, context: &mut Context) -> (r: Result<(), Unsupported>) {
        visit_function(self, context)
    }
}

impl Visit for FunctionArg {
    open spec fn error(&self) -> Option<Seq<char>> {
        arg_error(*self)
    }

    open spec fn effect(&self, c: ContextView) -> ContextView {
        arg_effect(*self, c)
    }

    open spec fn sourceless(&self) -> bool {
        arg_sourceless(*self)
    }

    fn visit(&self, context: &mut Context) -> (r: Result<(), Unsupported>) {
        visit_function_arg(self, context)
    }
}

impl Visit for FunctionArgExpr {
    open spec fn error(&self) -> Option<Seq<char>> {
        arg_expr_error(*self)
    }

    open spec fn effect(&self, c: ContextView) -> ContextView {
        arg_expr_effect(*self, c)
    }

    open spec fn sourceless(&self) -> bool {
        arg_expr_sourceless(*self)
    }

    fn visit(&self, context: &mut Context) -> (r: Result<(), Unsupported>) {
        visit_function_arg_expr(self, context)
    }
}

impl Visit for WindowType {
    open spec fn error(&self) -> Option<Seq<char>> {
        window_type_error(*self)
    }

    open spec fn effect(&self, c: ContextView) -> ContextView {
        window_type_effect(*self, c)
    }

    open spec fn sourceless(&self) -> bool {
        window_type_sourceless(*self)
    }

    fn visit(&self, context: &mut Context) -> (r: Result<(), Unsupported>) {
        visit_window_type(self, context)
    }
}

impl Visit for WindowSpec {
    open spec fn error(&self) -> Option<Seq<char>> {
        window_spec_error(*self)
    }

    open spec fn effect(&self, c: ContextView) -> ContextView {
        window_spec_effect(*self, c)
    }

    open spec fn sourceless(&self) -> bool {
        window_spec_sourceless(*self)
    }

    fn visit(&self, context: &mut Context) -> (r: Result<(), Unsupported>) {
        visit_window_spec(self, context)
    }
}

impl Visit for Select {
    open spec fn error(&self) -> Option<Seq<char>> {
        select_error(*self)
    }

    open spec fn effect(&self, c: ContextView) -> ContextView {
        select_effect(*self, c)
    }

    open spec fn sourceless(&self) -> bool {
        select_sourceless(*self)
    }

    fn visit(&self, context: &mut Context) -> (r: Result<(), Unsupported>) {
        visit_select(self, context)
    }
}

impl Visit for SetExpr {
    open spec fn error(&self) -> Option<Seq<char>> {
        set_expr_error(*self)
    }

    open spec fn effect(&self, c: ContextView) -> ContextView {
        set_expr_effect(*self, c)
    }

    open spec fn sourceless(&self) -> bool {
        set_expr_sourceless(*self)
    }

    fn visit(&self, context: &mut Context) -> (r: Result<(), Unsupported>) {
        visit_set_expr(self, context)
    }
}

impl Visit for Query {
    open spec fn error(&self) -> Option<Seq<char>> {
        query_error(*self)
    }

    open spec fn effect(&self, c: ContextView) -> ContextView {
        query_effect(*self, c)
    }

    open spec fn sourceless(&self) -> bool {
        query_sourceless(*self)
    }

    fn visit(&self, context: &mut Context) -> (r: Result<(), Unsupported>) {
        visit_query(self, context)
    }
}

impl Visit for Statement {
    open spec fn error(&self) -> Option<Seq<char>> {
        statement_error(*self)
    }

    open spec fn effect(&self, c: ContextView) -> ContextView {
        statement_effect(*self, c)
    }

    open spec fn sourceless(&self) -> bool {
        statement_sourceless(*self)
    }

    fn visit(&self, context: &mut Context) -> (r: Result<(), Unsupported>) {
        visit_statement(self, context)
    }
}

impl Visit for Table {
    open spec fn error(&self) -> Option<Seq<char>> {
        None
    }

    open spec fn effect(&self, c: ContextView) -> ContextView {
        table_effect(*self, c)
    }

    open spec fn sourceless(&self) -> bool {
        false
    }

    fn visit(&self, context: &mut Context) -> (r: Result<(), Unsupported>) {
        visit_table(self, context)
    }
}

} // verus!
