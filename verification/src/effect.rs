//! What the analysis of a node means.
//!
//! Two functions describe each kind of node. Its *error* is the message of
//! the first construct in it that the analysis does not model, if there is
//! one: it depends on the shape of the tree alone. Its *effect* is the
//! context that the analysis of a tree without such a construct leaves
//! behind, as a function of the context it starts from.
//!
//! A list is walked from its first element to its last. The effect of a list
//! takes the number of elements that have been walked; the error of a list
//! takes the index from which it is looked for.

use crate::ast::{
    AlterTableOperation, Cte, Expr, Function, FunctionArg, FunctionArgExpr, Join, ListAgg,
    ListAggOnOverflow, OrderByExpr, Query, Select, SelectItem, SetExpr, Statement, Table,
    TableAlias, TableFactor, TableWithJoins, WindowSpec, WindowType, With,
};
use crate::context::ContextView;
use crate::lineage::{ColumnName, Ident, IdentName, TableName};
use crate::sets::views;
use crate::text::{occurs, unquoted};
use vstd::prelude::*;

verus! {

/// The message for a source that is neither a table nor a subquery.
pub open spec fn not_a_source(text: Seq<char>) -> Seq<char> {
    "TableFactor other than table or subquery not implemented: "@ + text
}

/// The message for a source that should have been a plain table.
pub open spec fn not_a_table(text: Seq<char>) -> Seq<char> {
    "Name can be got only from simple table, got "@ + text
}

/// The first of two errors that may be there.
pub open spec fn first_of(a: Option<Seq<char>>, b: Option<Seq<char>>) -> Option<Seq<char>> {
    if a is Some {
        a
    } else {
        b
    }
}

/// The name under which a common table expression stands while its own
/// body is analysed.
pub open spec fn placeholder() -> TableName {
    seq![Seq::<char>::empty()]
}

/// The name that an alias gives.
pub open spec fn alias_name(alias: TableAlias) -> Seq<IdentName> {
    seq![alias.name@]
}

/// Whether the text of a stage names a location in cloud storage: one of
/// the marks `locations` stands in it.
pub open spec fn is_cloud_location(text: Seq<char>, locations: Seq<Seq<char>>) -> bool {
    exists|i: int| 0 <= i < locations.len() && occurs(text, #[trigger] locations[i])
}

/// The identifier with the text `value`, unquoted.
pub open spec fn plain(value: Seq<char>) -> IdentName {
    IdentName { value, quoted: false }
}

/// The column `name` with no owner.
pub open spec fn unowned(name: Seq<char>) -> ColumnName {
    ColumnName { name, origin: None }
}

// Expressions

/// A bare identifier: with a column being derived, that column gains the
/// identifier as an ancestor, owned by the table of the query block.
pub open spec fn identifier_effect(value: Seq<char>, c: ContextView) -> ContextView {
    match c.column_context {
        Some(column) => c.add_column_ancestors(
            unowned(column.name),
            seq![ColumnName { name: value, origin: c.table_context }],
        ),
        None => c,
    }
}

/// A compound identifier: with a column being derived, that column gains the
/// last part as an ancestor, owned by the table that the parts before it
/// stand for.
pub open spec fn compound_effect(ids: Seq<IdentName>, c: ContextView) -> ContextView {
    if c.column_context is Some && ids.len() > 0 {
        let table = c.resolve(c.name_of(ids.drop_last()));
        c.add_column_ancestors(
            unowned(c.column_context->0.name),
            seq![ColumnName { name: ids.last().value, origin: Some(table) }],
        )
    } else {
        c
    }
}

#[verifier::opaque]
pub open spec fn expr_error(e: Expr) -> Option<Seq<char>>
    decreases e, 0nat,
{
    match e {
        Expr::Identifier(_) | Expr::CompoundIdentifier(_) | Expr::Other => None,
        Expr::Subquery(q) | Expr::ArraySubquery(q) => query_error(*q),
        Expr::InSubquery { subquery } | Expr::Exists { subquery } => query_error(*subquery),
        Expr::IsFalse(a)
        | Expr::IsNotFalse(a)
        | Expr::IsTrue(a)
        | Expr::IsNotTrue(a)
        | Expr::IsNull(a)
        | Expr::IsNotNull(a)
        | Expr::IsUnknown(a)
        | Expr::IsNotUnknown(a)
        | Expr::Nested(a) => expr_error(*a),
        Expr::UnaryOp { expr }
        | Expr::Cast { expr }
        | Expr::TryCast { expr }
        | Expr::SafeCast { expr }
        | Expr::Extract { expr }
        | Expr::Collate { expr }
        | Expr::CompositeAccess { expr } => expr_error(*expr),
        Expr::AtTimeZone { timestamp } => expr_error(*timestamp),
        Expr::BinaryOp { left, right }
        | Expr::AnyOp { left, right }
        | Expr::AllOp { left, right }
        | Expr::JsonAccess { left, right } => first_of(expr_error(*left), expr_error(*right)),
        Expr::IsDistinctFrom(a, b) | Expr::IsNotDistinctFrom(a, b) => first_of(
            expr_error(*a),
            expr_error(*b),
        ),
        Expr::Like { expr, pattern }
        | Expr::ILike { expr, pattern }
        | Expr::SimilarTo { expr, pattern } => first_of(expr_error(*expr), expr_error(*pattern)),
        Expr::InUnnest { expr, array_expr } => first_of(
            expr_error(*expr),
            expr_error(*array_expr),
        ),
        Expr::Position { expr, within } => first_of(expr_error(*expr), expr_error(*within)),
        Expr::Between { expr, low, high } => first_of(
            expr_error(*expr),
            first_of(expr_error(*low), expr_error(*high)),
        ),
        Expr::Overlay { expr, overlay_what, overlay_from, overlay_for } => first_of(
            expr_error(*expr),
            first_of(
                expr_error(*overlay_what),
                first_of(expr_error(*overlay_from), opt_expr_error(overlay_for)),
            ),
        ),
        Expr::Substring { expr, substring_from, substring_for } => first_of(
            expr_error(*expr),
            first_of(opt_expr_error(substring_from), opt_expr_error(substring_for)),
        ),
        Expr::Trim { expr, trim_what } => first_of(expr_error(*expr), opt_expr_error(trim_what)),
        Expr::InList { expr, list } => first_of(
            expr_error(*expr),
            exprs_error(list, 0),
        ),
        Expr::MapAccess { column, keys } => first_of(
            expr_error(*column),
            exprs_error(keys, 0),
        ),
        Expr::ArrayIndex { obj, indexes } => first_of(
            expr_error(*obj),
            exprs_error(indexes, 0),
        ),
        Expr::Tuple(v) => exprs_error(v, 0),
        Expr::Array { elem } => exprs_error(elem, 0),
        Expr::GroupingSets(v) | Expr::Cube(v) | Expr::Rollup(v) => expr_lists_error(v, 0),
        Expr::Case { operand, conditions, results, else_result } => first_of(
            opt_expr_error(operand),
            first_of(
                exprs_error(conditions, 0),
                first_of(exprs_error(results, 0), opt_expr_error(else_result)),
            ),
        ),
        Expr::Function(f) => function_error(f),
        Expr::ListAgg(l) => list_agg_error(l),
    }
}

#[verifier::opaque]
pub open spec fn expr_effect(e: Expr, c: ContextView) -> ContextView
    decreases e, 0nat,
{
    match e {
        Expr::Identifier(id) => identifier_effect(id@.value, c),
        Expr::CompoundIdentifier(ids) => compound_effect(views(ids@), c),
        Expr::Other => c,
        Expr::Subquery(q) | Expr::ArraySubquery(q) => query_effect(*q, c),
        Expr::InSubquery { subquery } | Expr::Exists { subquery } => query_effect(*subquery, c),
        Expr::IsFalse(a)
        | Expr::IsNotFalse(a)
        | Expr::IsTrue(a)
        | Expr::IsNotTrue(a)
        | Expr::IsNull(a)
        | Expr::IsNotNull(a)
        | Expr::IsUnknown(a)
        | Expr::IsNotUnknown(a)
        | Expr::Nested(a) => expr_effect(*a, c),
        Expr::UnaryOp { expr }
        | Expr::Cast { expr }
        | Expr::TryCast { expr }
        | Expr::SafeCast { expr }
        | Expr::Extract { expr }
        | Expr::Collate { expr }
        | Expr::CompositeAccess { expr } => expr_effect(*expr, c),
        Expr::AtTimeZone { timestamp } => expr_effect(*timestamp, c),
        Expr::BinaryOp { left, right }
        | Expr::AnyOp { left, right }
        | Expr::AllOp { left, right }
        | Expr::JsonAccess { left, right } => expr_effect(*right, expr_effect(*left, c)),
        Expr::IsDistinctFrom(a, b) | Expr::IsNotDistinctFrom(a, b) => expr_effect(
            *b,
            expr_effect(*a, c),
        ),
        Expr::Like { expr, pattern }
        | Expr::ILike { expr, pattern }
        | Expr::SimilarTo { expr, pattern } => expr_effect(*pattern, expr_effect(*expr, c)),
        Expr::InUnnest { expr, array_expr } => expr_effect(*array_expr, expr_effect(*expr, c)),
        Expr::Position { expr, within } => expr_effect(*within, expr_effect(*expr, c)),
        Expr::Between { expr, low, high } => expr_effect(
            *high,
            expr_effect(*low, expr_effect(*expr, c)),
        ),
        Expr::Overlay { expr, overlay_what, overlay_from, overlay_for } => opt_expr_effect(
            overlay_for,
            expr_effect(*overlay_from, expr_effect(*overlay_what, expr_effect(*expr, c))),
        ),
        Expr::Substring { expr, substring_from, substring_for } => opt_expr_effect(
            substring_for,
            opt_expr_effect(substring_from, expr_effect(*expr, c)),
        ),
        Expr::Trim { expr, trim_what } => opt_expr_effect(trim_what, expr_effect(*expr, c)),
        Expr::InList { expr, list } => exprs_effect(
            list,
            list.len() as nat,
            expr_effect(*expr, c),
        ),
        Expr::MapAccess { column, keys } => exprs_effect(
            keys,
            keys.len() as nat,
            expr_effect(*column, c),
        ),
        Expr::ArrayIndex { obj, indexes } => exprs_effect(
            indexes,
            indexes.len() as nat,
            expr_effect(*obj, c),
        ),
        Expr::Tuple(v) => exprs_effect(v, v.len() as nat, c),
        Expr::Array { elem } => exprs_effect(elem, elem.len() as nat, c),
        Expr::GroupingSets(v) | Expr::Cube(v) | Expr::Rollup(v) => expr_lists_effect(
            v,
            v.len() as nat,
            c,
        ),
        Expr::Case { operand, conditions, results, else_result } => opt_expr_effect(
            else_result,
            exprs_effect(
                results,
                results.len() as nat,
                exprs_effect(conditions, conditions.len() as nat, opt_expr_effect(operand, c)),
            ),
        ),
        Expr::Function(f) => function_effect(f, c),
        Expr::ListAgg(l) => list_agg_effect(l, c),
    }
}

#[verifier::opaque]
pub open spec fn opt_expr_error(e: Option<Box<Expr>>) -> Option<Seq<char>>
    decreases e, 0nat,
{
    match e {
        Some(e) => expr_error(*e),
        None => None,
    }
}

#[verifier::opaque]
pub open spec fn opt_expr_effect(e: Option<Box<Expr>>, c: ContextView) -> ContextView
    decreases e, 0nat,
{
    match e {
        Some(e) => expr_effect(*e, c),
        None => c,
    }
}

#[verifier::opaque]
pub open spec fn exprs_error(v: Vec<Expr>, from: nat) -> Option<Seq<char>>
    decreases v, v.len() - from,
{
    if from >= v.len() {
        None
    } else {
        first_of(expr_error(v[from as int]), exprs_error(v, from + 1))
    }
}

#[verifier::opaque]
pub open spec fn exprs_effect(v: Vec<Expr>, n: nat, c: ContextView) -> ContextView
    decreases v, n,
{
    if n == 0 || n > v.len() {
        c
    } else {
        expr_effect(v[n - 1], exprs_effect(v, (n - 1) as nat, c))
    }
}

#[verifier::opaque]
pub open spec fn expr_lists_error(v: Vec<Vec<Expr>>, from: nat) -> Option<Seq<char>>
    decreases v, v.len() - from,
{
    if from >= v.len() {
        None
    } else {
        first_of(exprs_error(v[from as int], 0), expr_lists_error(v, from + 1))
    }
}

#[verifier::opaque]
pub open spec fn expr_lists_effect(v: Vec<Vec<Expr>>, n: nat, c: ContextView) -> ContextView
    decreases v, n,
{
    if n == 0 || n > v.len() {
        c
    } else {
        exprs_effect(v[n - 1], v[n - 1].len() as nat, expr_lists_effect(v, (n - 1) as nat, c))
    }
}

#[verifier::opaque]
pub open spec fn order_by_error(v: Vec<OrderByExpr>, from: nat) -> Option<Seq<char>>
    decreases v, v.len() - from,
{
    if from >= v.len() {
        None
    } else {
        first_of(expr_error(v[from as int].expr), order_by_error(v, from + 1))
    }
}

#[verifier::opaque]
pub open spec fn order_by_effect(v: Vec<OrderByExpr>, n: nat, c: ContextView) -> ContextView
    decreases v, n,
{
    if n == 0 || n > v.len() {
        c
    } else {
        expr_effect(v[n - 1].expr, order_by_effect(v, (n - 1) as nat, c))
    }
}

// Function calls

#[verifier::opaque]
pub open spec fn arg_expr_error(a: FunctionArgExpr) -> Option<Seq<char>>
    decreases a, 0nat,
{
    match a {
        FunctionArgExpr::Expr(e) => expr_error(e),
        FunctionArgExpr::Wildcard => None,
    }
}

#[verifier::opaque]
pub open spec fn arg_expr_effect(a: FunctionArgExpr, c: ContextView) -> ContextView
    decreases a, 0nat,
{
    match a {
        FunctionArgExpr::Expr(e) => expr_effect(e, c),
        FunctionArgExpr::Wildcard => c,
    }
}

#[verifier::opaque]
pub open spec fn arg_error(a: FunctionArg) -> Option<Seq<char>>
    decreases a, 0nat,
{
    match a {
        FunctionArg::Named { arg } => arg_expr_error(arg),
        FunctionArg::Unnamed(arg) => arg_expr_error(arg),
    }
}

#[verifier::opaque]
pub open spec fn arg_effect(a: FunctionArg, c: ContextView) -> ContextView
    decreases a, 0nat,
{
    match a {
        FunctionArg::Named { arg } => arg_expr_effect(arg, c),
        FunctionArg::Unnamed(arg) => arg_expr_effect(arg, c),
    }
}

#[verifier::opaque]
pub open spec fn args_error(v: Vec<FunctionArg>, from: nat) -> Option<Seq<char>>
    decreases v, v.len() - from,
{
    if from >= v.len() {
        None
    } else {
        first_of(arg_error(v[from as int]), args_error(v, from + 1))
    }
}

#[verifier::opaque]
pub open spec fn args_effect(v: Vec<FunctionArg>, n: nat, c: ContextView) -> ContextView
    decreases v, n,
{
    if n == 0 || n > v.len() {
        c
    } else {
        arg_effect(v[n - 1], args_effect(v, (n - 1) as nat, c))
    }
}

#[verifier::opaque]
pub open spec fn window_spec_error(w: WindowSpec) -> Option<Seq<char>>
    decreases w, 0nat,
{
    first_of(
        exprs_error(w.partition_by, 0),
        order_by_error(w.order_by, 0),
    )
}

#[verifier::opaque]
pub open spec fn window_spec_effect(w: WindowSpec, c: ContextView) -> ContextView
    decreases w, 0nat,
{
    order_by_effect(
        w.order_by,
        w.order_by.len() as nat,
        exprs_effect(w.partition_by, w.partition_by.len() as nat, c),
    )
}

#[verifier::opaque]
pub open spec fn window_type_error(w: WindowType) -> Option<Seq<char>>
    decreases w, 0nat,
{
    match w {
        WindowType::WindowSpec(spec) => window_spec_error(spec),
        WindowType::NamedWindow => None,
    }
}

#[verifier::opaque]
pub open spec fn window_type_effect(w: WindowType, c: ContextView) -> ContextView
    decreases w, 0nat,
{
    match w {
        WindowType::WindowSpec(spec) => window_spec_effect(spec, c),
        WindowType::NamedWindow => c,
    }
}

#[verifier::opaque]
pub open spec fn function_error(f: Function) -> Option<Seq<char>>
    decreases f, 0nat,
{
    first_of(
        args_error(f.args, 0),
        match f.over {
            Some(w) => window_type_error(w),
            None => None,
        },
    )
}

#[verifier::opaque]
pub open spec fn function_effect(f: Function, c: ContextView) -> ContextView
    decreases f, 0nat,
{
    let c1 = args_effect(f.args, f.args.len() as nat, c);
    match f.over {
        Some(w) => window_type_effect(w, c1),
        None => c1,
    }
}

#[verifier::opaque]
pub open spec fn overflow_error(o: Option<ListAggOnOverflow>) -> Option<Seq<char>>
    decreases o, 0nat,
{
    match o {
        Some(ListAggOnOverflow::Truncate { filler: Some(e) }) => expr_error(*e),
        _ => None,
    }
}

#[verifier::opaque]
pub open spec fn overflow_effect(o: Option<ListAggOnOverflow>, c: ContextView) -> ContextView
    decreases o, 0nat,
{
    match o {
        Some(ListAggOnOverflow::Truncate { filler: Some(e) }) => expr_effect(*e, c),
        _ => c,
    }
}

#[verifier::opaque]
pub open spec fn list_agg_error(l: ListAgg) -> Option<Seq<char>>
    decreases l, 0nat,
{
    first_of(
        expr_error(*l.expr),
        first_of(
            opt_expr_error(l.separator),
            first_of(
                overflow_error(l.on_overflow),
                order_by_error(l.within_group, 0),
            ),
        ),
    )
}

#[verifier::opaque]
pub open spec fn list_agg_effect(l: ListAgg, c: ContextView) -> ContextView
    decreases l, 0nat,
{
    order_by_effect(
        l.within_group,
        l.within_group.len() as nat,
        overflow_effect(l.on_overflow, opt_expr_effect(l.separator, expr_effect(*l.expr, c))),
    )
}

// Sources

/// The text by which an error names a source.
pub open spec fn factor_text(f: TableFactor) -> Seq<char> {
    match f {
        TableFactor::Table { .. } => Seq::empty(),
        TableFactor::Pivot { text, .. } => text@,
        TableFactor::Derived { text, .. } => text@,
        TableFactor::TableFunction { text } => text@,
        TableFactor::Other { text } => text@,
    }
}

/// The error of taking the name of a source: only a plain table has one.
pub open spec fn factor_name_error(f: TableFactor) -> Option<Seq<char>> {
    match f {
        TableFactor::Table { .. } => None,
        _ => Some(not_a_table(factor_text(f))),
    }
}

/// The name of a source that is a plain table.
pub open spec fn factor_name(f: TableFactor) -> Seq<IdentName> {
    match f {
        TableFactor::Table { name, .. } => views(name@),
        _ => Seq::empty(),
    }
}

/// A table that is read, under its alias if it has one.
pub open spec fn named_source_effect(
    name: Seq<IdentName>,
    alias: Option<TableAlias>,
    c: ContextView,
) -> ContextView {
    let c1 = match alias {
        Some(a) => c.add_table_alias(c.name_of(name), alias_name(a)),
        None => c,
    };
    c1.add_input(name)
}

#[verifier::opaque]
pub open spec fn factor_error(f: TableFactor) -> Option<Seq<char>>
    decreases f, 0nat,
{
    match f {
        TableFactor::Table { .. } => None,
        TableFactor::Pivot { table, .. } => factor_name_error(*table),
        TableFactor::Derived { subquery, .. } => query_error(*subquery),
        TableFactor::TableFunction { .. } => None,
        TableFactor::Other { text } => Some(not_a_source(text@)),
    }
}

#[verifier::opaque]
pub open spec fn factor_effect(f: TableFactor, c: ContextView) -> ContextView
    decreases f, 0nat,
{
    match f {
        TableFactor::Table { name, alias } => named_source_effect(views(name@), alias, c),
        TableFactor::Pivot { table, alias, .. } => named_source_effect(
            factor_name(*table),
            alias,
            c,
        ),
        TableFactor::Derived { subquery, alias, .. } => {
            let c1 = query_effect(*subquery, c.push_frame());
            let frame = c1.top();
            let c2 = c1.pop_frame();
            match alias {
                Some(a) => c2.collect_with_table(frame, c2.name_of(alias_name(a))),
                None => c2.collect(frame),
            }
        },
        TableFactor::TableFunction { .. } => c,
        TableFactor::Other { .. } => c,
    }
}

/// A source of a `SELECT`, analysed in a frame of its own: its aliases and
/// then its facts are handed to the frame below.
#[verifier::opaque]
pub open spec fn scoped_factor_effect(f: TableFactor, c: ContextView) -> ContextView
    decreases f, 1nat,
{
    let c1 = factor_effect(f, c.push_frame());
    let frame = c1.top();
    c1.pop_frame().collect_aliases(frame).collect(frame)
}

#[verifier::opaque]
pub open spec fn scoped_joins_error(v: Vec<Join>, from: nat) -> Option<Seq<char>>
    decreases v, v.len() - from,
{
    if from >= v.len() {
        None
    } else {
        first_of(factor_error(v[from as int].relation), scoped_joins_error(v, from + 1))
    }
}

#[verifier::opaque]
pub open spec fn scoped_joins_effect(v: Vec<Join>, n: nat, c: ContextView) -> ContextView
    decreases v, n,
{
    if n == 0 || n > v.len() {
        c
    } else {
        scoped_factor_effect(v[n - 1].relation, scoped_joins_effect(v, (n - 1) as nat, c))
    }
}

#[verifier::opaque]
pub open spec fn scoped_sources_error(v: Vec<TableWithJoins>, from: nat) -> Option<Seq<char>>
    decreases v, v.len() - from,
{
    if from >= v.len() {
        None
    } else {
        first_of(
            first_of(
                factor_error(v[from as int].relation),
                scoped_joins_error(v[from as int].joins, 0),
            ),
            scoped_sources_error(v, from + 1),
        )
    }
}

#[verifier::opaque]
pub open spec fn scoped_sources_effect(v: Vec<TableWithJoins>, n: nat, c: ContextView)
    -> ContextView
    decreases v, n,
{
    if n == 0 || n > v.len() {
        c
    } else {
        scoped_joins_effect(
            v[n - 1].joins,
            v[n - 1].joins.len() as nat,
            scoped_factor_effect(v[n - 1].relation, scoped_sources_effect(v, (n - 1) as nat, c)),
        )
    }
}

/// The joins of a source that is analysed in the frame at hand.
#[verifier::opaque]
pub open spec fn joins_error(v: Vec<Join>, from: nat) -> Option<Seq<char>>
    decreases v, v.len() - from,
{
    if from >= v.len() {
        None
    } else {
        first_of(factor_error(v[from as int].relation), joins_error(v, from + 1))
    }
}

#[verifier::opaque]
pub open spec fn joins_effect(v: Vec<Join>, n: nat, c: ContextView) -> ContextView
    decreases v, n,
{
    if n == 0 || n > v.len() {
        c
    } else {
        factor_effect(v[n - 1].relation, joins_effect(v, (n - 1) as nat, c))
    }
}

/// A source and its joins, analysed in the frame at hand.
#[verifier::opaque]
pub open spec fn source_error(t: TableWithJoins) -> Option<Seq<char>>
    decreases t, 0nat,
{
    first_of(factor_error(t.relation), joins_error(t.joins, 0))
}

#[verifier::opaque]
pub open spec fn source_effect(t: TableWithJoins, c: ContextView) -> ContextView
    decreases t, 0nat,
{
    joins_effect(t.joins, t.joins.len() as nat, factor_effect(t.relation, c))
}

#[verifier::opaque]
pub open spec fn sources_error(v: Vec<TableWithJoins>, from: nat) -> Option<Seq<char>>
    decreases v, v.len() - from,
{
    if from >= v.len() {
        None
    } else {
        first_of(source_error(v[from as int]), sources_error(v, from + 1))
    }
}

#[verifier::opaque]
pub open spec fn sources_effect(v: Vec<TableWithJoins>, n: nat, c: ContextView) -> ContextView
    decreases v, n,
{
    if n == 0 || n > v.len() {
        c
    } else {
        source_effect(v[n - 1], sources_effect(v, (n - 1) as nat, c))
    }
}

// Query blocks

/// The column that a projection item derives, if it has a name.
pub open spec fn derived_column(item: SelectItem) -> Option<ColumnName> {
    match item {
        SelectItem::UnnamedExpr(Expr::Identifier(id)) => Some(unowned(id.value@)),
        SelectItem::UnnamedExpr(Expr::CompoundIdentifier(ids)) => if ids.len() > 0 {
            Some(unowned(ids@.last().value@))
        } else {
            None
        },
        SelectItem::UnnamedExpr(_) => None,
        SelectItem::ExprWithAlias { alias, .. } => Some(unowned(alias.value@)),
        SelectItem::Wildcard => None,
    }
}

#[verifier::opaque]
pub open spec fn item_error(item: SelectItem) -> Option<Seq<char>>
    decreases item, 0nat,
{
    match item {
        SelectItem::UnnamedExpr(e) => expr_error(e),
        SelectItem::ExprWithAlias { expr, .. } => expr_error(expr),
        SelectItem::Wildcard => None,
    }
}

#[verifier::opaque]
pub open spec fn item_effect(item: SelectItem, c: ContextView) -> ContextView
    decreases item, 0nat,
{
    match item {
        SelectItem::UnnamedExpr(e) => expr_effect(e, c.set_column_context(derived_column(item))),
        SelectItem::ExprWithAlias { expr, .. } => expr_effect(
            expr,
            c.set_column_context(derived_column(item)),
        ),
        SelectItem::Wildcard => c,
    }
}

#[verifier::opaque]
pub open spec fn projection_error(v: Vec<SelectItem>, from: nat) -> Option<Seq<char>>
    decreases v, v.len() - from,
{
    if from >= v.len() {
        None
    } else {
        first_of(item_error(v[from as int]), projection_error(v, from + 1))
    }
}

#[verifier::opaque]
pub open spec fn projection_effect(v: Vec<SelectItem>, n: nat, c: ContextView) -> ContextView
    decreases v, n,
{
    if n == 0 || n > v.len() {
        c
    } else {
        item_effect(v[n - 1], projection_effect(v, (n - 1) as nat, c))
    }
}

/// Whether a `SELECT` reads from one plain table alone, joins aside.
pub open spec fn has_default_table(s: Select) -> bool {
    s.from.len() == 1 && s.from[0].relation is Table
}

/// A `SELECT` that reads from one plain table makes it the table of its
/// bare columns, and registers its alias.
pub open spec fn default_table_effect(s: Select, c: ContextView) -> ContextView {
    if has_default_table(s) {
        let name = factor_name(s.from[0].relation);
        let table = c.name_of(name);
        let c1 = match s.from[0].relation->Table_alias {
            Some(a) => c.add_table_alias(table, alias_name(a)),
            None => c,
        };
        c1.set_table_context(Some(table))
    } else {
        c
    }
}

#[verifier::opaque]
pub open spec fn select_error(s: Select) -> Option<Seq<char>>
    decreases s, 0nat,
{
    first_of(
        scoped_sources_error(s.from, 0),
        projection_error(s.projection, 0),
    )
}

#[verifier::opaque]
pub open spec fn select_effect(s: Select, c: ContextView) -> ContextView
    decreases s, 0nat,
{
    let c1 = default_table_effect(s, c);
    let c2 = scoped_sources_effect(s.from, s.from.len() as nat, c1.push_frame());
    let tables = c2.top();
    let c3 = c2.pop_frame().collect_aliases(tables);
    let c4 = projection_effect(s.projection, s.projection.len() as nat, c3);
    let c5 = c4.set_column_context(None);
    let c6 = match s.into {
        Some(into) => c5.add_output(views(into.name@)),
        None => c5,
    };
    c6.set_table_context(None).coalesce(tables)
}

/// A `TABLE name` body reads the table it names.
pub open spec fn table_effect(t: Table, c: ContextView) -> ContextView {
    match t.table_name {
        Some(name) => c.add_input(seq![plain(name@)]),
        None => c,
    }
}

#[verifier::opaque]
pub open spec fn set_expr_error(s: SetExpr) -> Option<Seq<char>>
    decreases s, 0nat,
{
    match s {
        SetExpr::Select(select) => select_error(*select),
        SetExpr::Query(q) => query_error(*q),
        SetExpr::SetOperation { left, right } => first_of(
            set_expr_error(*left),
            set_expr_error(*right),
        ),
        SetExpr::Values => None,
        SetExpr::Insert(stmt) => statement_error(*stmt),
        SetExpr::Update(stmt) => statement_error(*stmt),
        SetExpr::Table(_) => None,
    }
}

#[verifier::opaque]
pub open spec fn set_expr_effect(s: SetExpr, c: ContextView) -> ContextView
    decreases s, 0nat,
{
    match s {
        SetExpr::Select(select) => select_effect(*select, c),
        SetExpr::Query(q) => query_effect(*q, c),
        SetExpr::SetOperation { left, right } => set_expr_effect(
            *right,
            set_expr_effect(*left, c),
        ),
        SetExpr::Values => c,
        SetExpr::Insert(stmt) => statement_effect(*stmt, c),
        SetExpr::Update(stmt) => statement_effect(*stmt, c),
        SetExpr::Table(t) => table_effect(*t, c),
    }
}

#[verifier::opaque]
pub open spec fn cte_effect(cte: Cte, c: ContextView) -> ContextView
    decreases cte, 0nat,
{
    let c1 = c.add_table_alias(placeholder(), alias_name(cte.alias));
    let c2 = query_effect(*cte.query, c1.push_frame());
    let frame = c2.top();
    let c3 = c2.pop_frame();
    c3.collect_with_table(frame, c3.name_of(alias_name(cte.alias)))
}

#[verifier::opaque]
pub open spec fn ctes_error(v: Vec<Cte>, from: nat) -> Option<Seq<char>>
    decreases v, v.len() - from,
{
    if from >= v.len() {
        None
    } else {
        first_of(query_error(*v[from as int].query), ctes_error(v, from + 1))
    }
}

#[verifier::opaque]
pub open spec fn ctes_effect(v: Vec<Cte>, n: nat, c: ContextView) -> ContextView
    decreases v, n,
{
    if n == 0 || n > v.len() {
        c
    } else {
        cte_effect(v[n - 1], ctes_effect(v, (n - 1) as nat, c))
    }
}

#[verifier::opaque]
pub open spec fn with_error(w: With) -> Option<Seq<char>>
    decreases w, 0nat,
{
    ctes_error(w.cte_tables, 0)
}

#[verifier::opaque]
pub open spec fn with_effect(w: With, c: ContextView) -> ContextView
    decreases w, 0nat,
{
    ctes_effect(w.cte_tables, w.cte_tables.len() as nat, c)
}

#[verifier::opaque]
pub open spec fn query_error(q: Query) -> Option<Seq<char>>
    decreases q, 0nat,
{
    first_of(
        match q.with {
            Some(w) => with_error(w),
            None => None,
        },
        set_expr_error(*q.body),
    )
}

/// A query: its `WITH` is analysed in a frame of its own, whose aliases are
/// in force while the body is analysed in another; the facts of the body are
/// collected, and the frame of the `WITH` is folded in at the end.
#[verifier::opaque]
pub open spec fn query_effect(q: Query, c: ContextView) -> ContextView
    decreases q, 0nat,
{
    let c1 = match q.with {
        Some(w) => with_effect(w, c.push_frame()),
        None => c.push_frame(),
    };
    let with_frame = c1.top();
    let c2 = c1.pop_frame().collect_aliases(with_frame);
    let c3 = set_expr_effect(*q.body, c2.push_frame());
    let body = c3.top();
    c3.pop_frame().collect(body).coalesce(with_frame)
}

// Statements

/// One operation of an `ALTER TABLE` on the table `name`.
pub open spec fn alter_effect(op: AlterTableOperation, name: Seq<IdentName>, c: ContextView)
    -> ContextView {
    match op {
        AlterTableOperation::SwapWith { table_name } => c.add_input(views(table_name@)).add_input(
            name,
        ).add_output(views(table_name@)).add_output(name),
        AlterTableOperation::RenameTable { table_name } => c.add_input(name).add_output(
            views(table_name@),
        ),
        AlterTableOperation::Other => c.add_output(name),
    }
}

#[verifier::opaque]
pub open spec fn alters_effect(
    v: Seq<AlterTableOperation>,
    name: Seq<IdentName>,
    c: ContextView,
) -> ContextView
    decreases v.len(),
{
    if v.len() == 0 {
        c
    } else {
        alter_effect(v.last(), name, alters_effect(v.drop_last(), name, c))
    }
}

/// Each of `names` is written.
#[verifier::opaque]
pub open spec fn outputs_effect(names: Seq<Vec<Ident>>, c: ContextView) -> ContextView
    decreases names.len(),
{
    if names.len() == 0 {
        c
    } else {
        outputs_effect(names.drop_last(), c).add_output(views(names.last()@))
    }
}

/// The joins of a target of a `DELETE`: each must be a plain table, and is
/// written.
#[verifier::opaque]
pub open spec fn target_joins_error(v: Seq<Join>, from: nat) -> Option<Seq<char>>
    decreases v.len() - from,
{
    if from >= v.len() {
        None
    } else {
        first_of(factor_name_error(v[from as int].relation), target_joins_error(v, from + 1))
    }
}

#[verifier::opaque]
pub open spec fn target_joins_effect(v: Seq<Join>, c: ContextView) -> ContextView
    decreases v.len(),
{
    if v.len() == 0 {
        c
    } else {
        target_joins_effect(v.drop_last(), c).add_output(factor_name(v.last().relation))
    }
}

/// The targets of a `DELETE`: each and each of its joins must be a plain
/// table, and is written.
#[verifier::opaque]
pub open spec fn targets_error(v: Seq<TableWithJoins>, from: nat) -> Option<Seq<char>>
    decreases v.len() - from,
{
    if from >= v.len() {
        None
    } else {
        first_of(
            first_of(
                factor_name_error(v[from as int].relation),
                target_joins_error(v[from as int].joins@, 0),
            ),
            targets_error(v, from + 1),
        )
    }
}

#[verifier::opaque]
pub open spec fn targets_effect(v: Seq<TableWithJoins>, c: ContextView) -> ContextView
    decreases v.len(),
{
    if v.len() == 0 {
        c
    } else {
        target_joins_effect(
            v.last().joins@,
            targets_effect(v.drop_last(), c).add_output(factor_name(v.last().relation)),
        )
    }
}

/// The source of a bulk load: a location in cloud storage is read under its
/// text without quotes, any other stage under its name.
pub open spec fn stage_effect(from_stage: Seq<IdentName>, text: Seq<char>, c: ContextView)
    -> ContextView {
    if is_cloud_location(text, c.locations) {
        c.add_non_table_input(seq![plain(unquoted(text))], true, true)
    } else {
        c.add_non_table_input(from_stage, true, true)
    }
}

#[verifier::opaque]
pub open spec fn statement_body_error(s: Statement) -> Option<Seq<char>>
    decreases s, 0nat,
{
    match s {
        Statement::Query(q) => query_error(*q),
        Statement::Insert { source, .. } => match source {
            Some(q) => query_error(*q),
            None => None,
        },
        Statement::Merge { table, source } => first_of(
            factor_name_error(table),
            factor_error(source),
        ),
        Statement::CreateTable { query, .. } => match query {
            Some(q) => query_error(*q),
            None => None,
        },
        Statement::CreateView { query, .. } => query_error(*query),
        Statement::CreateStage { .. } => None,
        Statement::Update { table, from, selection } => first_of(
            factor_name_error(table.relation),
            first_of(
                match from {
                    Some(t) => source_error(t),
                    None => None,
                },
                match selection {
                    Some(e) => expr_error(e),
                    None => None,
                },
            ),
        ),
        Statement::AlterTable { .. } => None,
        Statement::Delete { from, using, selection } => first_of(
            targets_error(from@, 0),
            first_of(
                match using {
                    Some(v) => sources_error(v, 0),
                    None => None,
                },
                match selection {
                    Some(e) => expr_error(e),
                    None => None,
                },
            ),
        ),
        Statement::Truncate { .. } => None,
        Statement::Drop { .. } => None,
        Statement::CopyIntoSnowflake { .. } => None,
        Statement::Other => None,
    }
}

#[verifier::opaque]
pub open spec fn statement_body_effect(s: Statement, c: ContextView) -> ContextView
    decreases s, 0nat,
{
    match s {
        Statement::Query(q) => query_effect(*q, c),
        Statement::Insert { table_name, source } => {
            let c1 = match source {
                Some(q) => query_effect(*q, c),
                None => c,
            };
            c1.add_output(views(table_name@))
        },
        Statement::Merge { table, source } => factor_effect(
            source,
            c.add_output(factor_name(table)),
        ),
        Statement::CreateTable { name, query, like, clone } => {
            let c1 = match query {
                Some(q) => query_effect(*q, c),
                None => c,
            };
            let c2 = match like {
                Some(t) => c1.add_input(views(t@)),
                None => c1,
            };
            let c3 = match clone {
                Some(t) => c2.add_input(views(t@)),
                None => c2,
            };
            c3.add_output(views(name@))
        },
        Statement::CreateView { name, query } => query_effect(*query, c).add_output(views(name@)),
        Statement::CreateStage { name, url } => {
            let c1 = match url {
                Some(u) => c.add_non_table_input(seq![plain(u@)], true, true),
                None => c,
            };
            c1.add_non_table_output(views(name@), false, true)
        },
        Statement::Update { table, from, selection } => {
            let c1 = c.add_output(factor_name(table.relation));
            let c2 = match from {
                Some(t) => source_effect(t, c1),
                None => c1,
            };
            match selection {
                Some(e) => expr_effect(e, c2),
                None => c2,
            }
        },
        Statement::AlterTable { name, operations } => alters_effect(operations@, views(name@), c),
        Statement::Delete { from, using, selection } => {
            let c1 = targets_effect(from@, c);
            let c2 = match using {
                Some(v) => sources_effect(v, v.len() as nat, c1),
                None => c1,
            };
            match selection {
                Some(e) => expr_effect(e, c2),
                None => c2,
            }
        },
        Statement::Truncate { table_name } => c.add_output(views(table_name@)),
        Statement::Drop { names } => outputs_effect(names@, c),
        Statement::CopyIntoSnowflake { into, from_stage, from_stage_text } => stage_effect(
            views(from_stage@),
            from_stage_text@,
            c.add_output(views(into@)),
        ),
        Statement::Other => c,
    }
}

#[verifier::opaque]
pub open spec fn statement_error(s: Statement) -> Option<Seq<char>>
    decreases s, 1nat,
{
    statement_body_error(s)
}

/// A statement is analysed in a frame of its own, whose facts are collected
/// into the frame below when it is done.
#[verifier::opaque]
pub open spec fn statement_effect(s: Statement, c: ContextView) -> ContextView
    decreases s, 1nat,
{
    let c1 = statement_body_effect(s, c.push_frame());
    c1.pop_frame().collect(c1.top())
}

// Nodes that name no source of rows

/// Whether `after` has the frames of `before` with the same inputs.
pub open spec fn inputs_kept(before: ContextView, after: ContextView) -> bool {
    &&& after.frames.len() == before.frames.len()
    &&& forall|i: int|
        0 <= i < before.frames.len() ==> (#[trigger] after.frames[i]).inputs
            == before.frames[i].inputs
}

/// Whether an expression holds no subquery.
pub open spec fn expr_sourceless(e: Expr) -> bool
    decreases e, 0nat,
{
    match e {
        Expr::Identifier(_) | Expr::CompoundIdentifier(_) | Expr::Other => true,
        Expr::Subquery(_) | Expr::ArraySubquery(_) => false,
        Expr::InSubquery { .. } | Expr::Exists { .. } => false,
        Expr::IsFalse(a)
        | Expr::IsNotFalse(a)
        | Expr::IsTrue(a)
        | Expr::IsNotTrue(a)
        | Expr::IsNull(a)
        | Expr::IsNotNull(a)
        | Expr::IsUnknown(a)
        | Expr::IsNotUnknown(a)
        | Expr::Nested(a) => expr_sourceless(*a),
        Expr::UnaryOp { expr }
        | Expr::Cast { expr }
        | Expr::TryCast { expr }
        | Expr::SafeCast { expr }
        | Expr::Extract { expr }
        | Expr::Collate { expr }
        | Expr::CompositeAccess { expr } => expr_sourceless(*expr),
        Expr::AtTimeZone { timestamp } => expr_sourceless(*timestamp),
        Expr::BinaryOp { left, right }
        | Expr::AnyOp { left, right }
        | Expr::AllOp { left, right }
        | Expr::JsonAccess { left, right } => expr_sourceless(*left) && expr_sourceless(*right),
        Expr::IsDistinctFrom(a, b) | Expr::IsNotDistinctFrom(a, b) => expr_sourceless(*a)
            && expr_sourceless(*b),
        Expr::Like { expr, pattern }
        | Expr::ILike { expr, pattern }
        | Expr::SimilarTo { expr, pattern } => expr_sourceless(*expr) && expr_sourceless(*pattern),
        Expr::InUnnest { expr, array_expr } => expr_sourceless(*expr) && expr_sourceless(
            *array_expr,
        ),
        Expr::Position { expr, within } => expr_sourceless(*expr) && expr_sourceless(*within),
        Expr::Between { expr, low, high } => expr_sourceless(*expr) && expr_sourceless(*low)
            && expr_sourceless(*high),
        Expr::Overlay { expr, overlay_what, overlay_from, overlay_for } => expr_sourceless(*expr)
            && expr_sourceless(*overlay_what) && expr_sourceless(*overlay_from)
            && opt_expr_sourceless(overlay_for),
        Expr::Substring { expr, substring_from, substring_for } => expr_sourceless(*expr)
            && opt_expr_sourceless(substring_from) && opt_expr_sourceless(substring_for),
        Expr::Trim { expr, trim_what } => expr_sourceless(*expr) && opt_expr_sourceless(trim_what),
        Expr::InList { expr, list } => expr_sourceless(*expr) && exprs_sourceless(list, 0),
        Expr::MapAccess { column, keys } => expr_sourceless(*column) && exprs_sourceless(keys, 0),
        Expr::ArrayIndex { obj, indexes } => expr_sourceless(*obj) && exprs_sourceless(indexes, 0),
        Expr::Tuple(v) => exprs_sourceless(v, 0),
        Expr::Array { elem } => exprs_sourceless(elem, 0),
        Expr::GroupingSets(v) | Expr::Cube(v) | Expr::Rollup(v) => expr_lists_sourceless(v, 0),
        Expr::Case { operand, conditions, results, else_result } => opt_expr_sourceless(operand)
            && exprs_sourceless(conditions, 0) && exprs_sourceless(results, 0)
            && opt_expr_sourceless(else_result),
        Expr::Function(f) => function_sourceless(f),
        Expr::ListAgg(l) => list_agg_sourceless(l),
    }
}

pub open spec fn opt_expr_sourceless(e: Option<Box<Expr>>) -> bool
    decreases e, 0nat,
{
    match e {
        Some(e) => expr_sourceless(*e),
        None => true,
    }
}

pub open spec fn exprs_sourceless(v: Vec<Expr>, from: nat) -> bool
    decreases v, v.len() - from,
{
    from >= v.len() || (expr_sourceless(v[from as int]) && exprs_sourceless(v, from + 1))
}

pub open spec fn expr_lists_sourceless(v: Vec<Vec<Expr>>, from: nat) -> bool
    decreases v, v.len() - from,
{
    from >= v.len() || (exprs_sourceless(v[from as int], 0) && expr_lists_sourceless(v, from + 1))
}

pub open spec fn order_by_sourceless(v: Vec<OrderByExpr>, from: nat) -> bool
    decreases v, v.len() - from,
{
    from >= v.len() || (expr_sourceless(v[from as int].expr) && order_by_sourceless(v, from + 1))
}

pub open spec fn arg_expr_sourceless(a: FunctionArgExpr) -> bool
    decreases a, 0nat,
{
    match a {
        FunctionArgExpr::Expr(e) => expr_sourceless(e),
        FunctionArgExpr::Wildcard => true,
    }
}

pub open spec fn arg_sourceless(a: FunctionArg) -> bool
    decreases a, 0nat,
{
    match a {
        FunctionArg::Named { arg } => arg_expr_sourceless(arg),
        FunctionArg::Unnamed(arg) => arg_expr_sourceless(arg),
    }
}

pub open spec fn args_sourceless(v: Vec<FunctionArg>, from: nat) -> bool
    decreases v, v.len() - from,
{
    from >= v.len() || (arg_sourceless(v[from as int]) && args_sourceless(v, from + 1))
}

pub open spec fn window_spec_sourceless(w: WindowSpec) -> bool
    decreases w, 0nat,
{
    exprs_sourceless(w.partition_by, 0) && order_by_sourceless(w.order_by, 0)
}

pub open spec fn window_type_sourceless(w: WindowType) -> bool
    decreases w, 0nat,
{
    match w {
        WindowType::WindowSpec(spec) => window_spec_sourceless(spec),
        WindowType::NamedWindow => true,
    }
}

pub open spec fn function_sourceless(f: Function) -> bool
    decreases f, 0nat,
{
    args_sourceless(f.args, 0) && match f.over {
        Some(w) => window_type_sourceless(w),
        None => true,
    }
}

pub open spec fn overflow_sourceless(o: Option<ListAggOnOverflow>) -> bool
    decreases o, 0nat,
{
    match o {
        Some(ListAggOnOverflow::Truncate { filler: Some(e) }) => expr_sourceless(*e),
        _ => true,
    }
}

pub open spec fn list_agg_sourceless(l: ListAgg) -> bool
    decreases l, 0nat,
{
    expr_sourceless(*l.expr) && opt_expr_sourceless(l.separator) && overflow_sourceless(
        l.on_overflow,
    ) && order_by_sourceless(l.within_group, 0)
}

pub open spec fn item_sourceless(item: SelectItem) -> bool {
    match item {
        SelectItem::UnnamedExpr(e) => expr_sourceless(e),
        SelectItem::ExprWithAlias { expr, .. } => expr_sourceless(expr),
        SelectItem::Wildcard => true,
    }
}

pub open spec fn projection_sourceless(v: Vec<SelectItem>, from: nat) -> bool
    decreases v.len() - from,
{
    from >= v.len() || (item_sourceless(v[from as int]) && projection_sourceless(v, from + 1))
}

/// Whether a `SELECT` has no `FROM` and no subquery.
pub open spec fn select_sourceless(s: Select) -> bool {
    s.from.len() == 0 && projection_sourceless(s.projection, 0)
}

/// Whether the body of a query names no source of rows.
pub open spec fn set_expr_sourceless(s: SetExpr) -> bool
    decreases s, 0nat,
{
    match s {
        SetExpr::Select(select) => select_sourceless(*select),
        SetExpr::Query(q) => query_sourceless(*q),
        SetExpr::SetOperation { left, right } => set_expr_sourceless(*left) && set_expr_sourceless(
            *right,
        ),
        SetExpr::Values => true,
        SetExpr::Insert(stmt) => statement_sourceless(*stmt),
        SetExpr::Update(stmt) => statement_sourceless(*stmt),
        SetExpr::Table(_) => false,
    }
}

/// Whether a query has no `WITH` and names no source of rows.
pub open spec fn query_sourceless(q: Query) -> bool
    decreases q, 0nat,
{
    q.with is None && set_expr_sourceless(*q.body)
}

/// Whether every operation of an `ALTER TABLE` leaves other tables alone.
pub open spec fn alters_sourceless(v: Seq<AlterTableOperation>) -> bool {
    forall|i: int| 0 <= i < v.len() ==> (#[trigger] v[i]) is Other
}

/// Whether a statement names no source of rows: it has no `FROM`, no
/// `JOIN`, no `USING` and no subquery, and is none of the statements that
/// read a table they name otherwise: a `MERGE`, an `ALTER TABLE` that swaps
/// or renames, a `CREATE TABLE` with `LIKE` or `CLONE`.
pub open spec fn statement_sourceless(s: Statement) -> bool
    decreases s, 0nat,
{
    match s {
        Statement::Query(q) => query_sourceless(*q),
        Statement::Insert { source, .. } => match source {
            Some(q) => query_sourceless(*q),
            None => true,
        },
        Statement::Merge { .. } => false,
        Statement::CreateTable { query, like, clone, .. } => like is None && clone is None
            && match query {
            Some(q) => query_sourceless(*q),
            None => true,
        },
        Statement::CreateView { query, .. } => query_sourceless(*query),
        Statement::CreateStage { .. } => true,
        Statement::Update { from, selection, .. } => from is None && match selection {
            Some(e) => expr_sourceless(e),
            None => true,
        },
        Statement::AlterTable { operations, .. } => alters_sourceless(operations@),
        Statement::Delete { using, selection, .. } => using is None && match selection {
            Some(e) => expr_sourceless(e),
            None => true,
        },
        Statement::Truncate { .. } => true,
        Statement::Drop { .. } => true,
        Statement::CopyIntoSnowflake { .. } => true,
        Statement::Other => true,
    }
}

/// The lineage of one statement, analysed from a fresh context.
pub open spec fn lineage_of(s: Statement, dialect: crate::lineage::Dialect, default_schema: Option<
    Seq<char>,
>) -> crate::frame::FrameView {
    statement_effect(s, ContextView::fresh(dialect, default_schema)).root()
}

} // verus!
