//! The syntax tree that the analysis walks: a closed set of node kinds, each
//! holding what the analysis reads of it.
//!
//! A node that can be named in an error carries its own text, as the parser
//! renders it.

use crate::lineage::Ident;
use vstd::prelude::*;

verus! {

/// The alias given to a table or a subquery.
#[derive(Debug)]
pub struct TableAlias {
    pub name: Ident,
}

/// A source of rows in a `FROM` or `JOIN`.
#[derive(Debug)]
pub enum TableFactor {
    /// A table by name.
    Table { name: Vec<Ident>, alias: Option<TableAlias> },
    /// A pivoted table.
    Pivot { table: Box<TableFactor>, alias: Option<TableAlias>, text: String },
    /// A subquery.
    Derived { subquery: Box<Query>, alias: Option<TableAlias>, text: String },
    /// A call of a table function.
    TableFunction { text: String },
    /// Any other source.
    Other { text: String },
}

/// One `JOIN` of a source.
#[derive(Debug)]
pub struct Join {
    pub relation: TableFactor,
}

/// A source and what is joined to it.
#[derive(Debug)]
pub struct TableWithJoins {
    pub relation: TableFactor,
    pub joins: Vec<Join>,
}

/// An expression of an `ORDER BY`.
#[derive(Debug)]
pub struct OrderByExpr {
    pub expr: Expr,
}

/// What a `LISTAGG` does when its result grows too long.
#[derive(Debug)]
pub enum ListAggOnOverflow {
    Error,
    Truncate { filler: Option<Box<Expr>> },
}

/// A `LISTAGG` call.
#[derive(Debug)]
pub struct ListAgg {
    pub expr: Box<Expr>,
    pub separator: Option<Box<Expr>>,
    pub on_overflow: Option<ListAggOnOverflow>,
    pub within_group: Vec<OrderByExpr>,
}

/// The window of a window function.
#[derive(Debug)]
pub struct WindowSpec {
    pub partition_by: Vec<Expr>,
    pub order_by: Vec<OrderByExpr>,
}

/// A window, written out or by name.
#[derive(Debug)]
pub enum WindowType {
    WindowSpec(WindowSpec),
    NamedWindow,
}

/// What stands in the place of a function argument.
#[derive(Debug)]
pub enum FunctionArgExpr {
    Expr(Expr),
    /// A wildcard, qualified or not.
    Wildcard,
}

/// A function argument.
#[derive(Debug)]
pub enum FunctionArg {
    Named { arg: FunctionArgExpr },
    Unnamed(FunctionArgExpr),
}

/// A function call.
#[derive(Debug)]
pub struct Function {
    pub args: Vec<FunctionArg>,
    pub over: Option<WindowType>,
}

/// An expression.
#[derive(Debug)]
pub enum Expr {
    Identifier(Ident),
    CompoundIdentifier(Vec<Ident>),
    JsonAccess { left: Box<Expr>, right: Box<Expr> },
    CompositeAccess { expr: Box<Expr> },
    IsFalse(Box<Expr>),
    IsNotFalse(Box<Expr>),
    IsTrue(Box<Expr>),
    IsNotTrue(Box<Expr>),
    IsNull(Box<Expr>),
    IsNotNull(Box<Expr>),
    IsUnknown(Box<Expr>),
    IsNotUnknown(Box<Expr>),
    IsDistinctFrom(Box<Expr>, Box<Expr>),
    IsNotDistinctFrom(Box<Expr>, Box<Expr>),
    InList { expr: Box<Expr>, list: Vec<Expr> },
    InSubquery { subquery: Box<Query> },
    InUnnest { expr: Box<Expr>, array_expr: Box<Expr> },
    Between { expr: Box<Expr>, low: Box<Expr>, high: Box<Expr> },
    BinaryOp { left: Box<Expr>, right: Box<Expr> },
    Like { expr: Box<Expr>, pattern: Box<Expr> },
    ILike { expr: Box<Expr>, pattern: Box<Expr> },
    SimilarTo { expr: Box<Expr>, pattern: Box<Expr> },
    AnyOp { left: Box<Expr>, right: Box<Expr> },
    AllOp { left: Box<Expr>, right: Box<Expr> },
    UnaryOp { expr: Box<Expr> },
    Cast { expr: Box<Expr> },
    TryCast { expr: Box<Expr> },
    SafeCast { expr: Box<Expr> },
    AtTimeZone { timestamp: Box<Expr> },
    Extract { expr: Box<Expr> },
    Position { expr: Box<Expr>, within: Box<Expr> },
    Substring {
        expr: Box<Expr>,
        substring_from: Option<Box<Expr>>,
        substring_for: Option<Box<Expr>>,
    },
    Trim { expr: Box<Expr>, trim_what: Option<Box<Expr>> },
    Overlay {
        expr: Box<Expr>,
        overlay_what: Box<Expr>,
        overlay_from: Box<Expr>,
        overlay_for: Option<Box<Expr>>,
    },
    Collate { expr: Box<Expr> },
    Nested(Box<Expr>),
    MapAccess { column: Box<Expr>, keys: Vec<Expr> },
    Function(Function),
    Case {
        operand: Option<Box<Expr>>,
        conditions: Vec<Expr>,
        results: Vec<Expr>,
        else_result: Option<Box<Expr>>,
    },
    Exists { subquery: Box<Query> },
    Subquery(Box<Query>),
    ArraySubquery(Box<Query>),
    ListAgg(ListAgg),
    GroupingSets(Vec<Vec<Expr>>),
    Cube(Vec<Vec<Expr>>),
    Rollup(Vec<Vec<Expr>>),
    Tuple(Vec<Expr>),
    ArrayIndex { obj: Box<Expr>, indexes: Vec<Expr> },
    Array { elem: Vec<Expr> },
    /// Any other expression: a value, a wildcard, a typed string.
    Other,
}

/// One item of a projection list.
#[derive(Debug)]
pub enum SelectItem {
    UnnamedExpr(Expr),
    ExprWithAlias { expr: Expr, alias: Ident },
    /// A wildcard, qualified or not.
    Wildcard,
}

/// The target of `SELECT ... INTO`.
#[derive(Debug)]
pub struct SelectInto {
    pub name: Vec<Ident>,
}

/// A `SELECT` block.
#[derive(Debug)]
pub struct Select {
    pub projection: Vec<SelectItem>,
    pub into: Option<SelectInto>,
    pub from: Vec<TableWithJoins>,
}

/// A `TABLE name` query body.
#[derive(Debug)]
pub struct Table {
    pub table_name: Option<String>,
}

/// The body of a query.
#[derive(Debug)]
pub enum SetExpr {
    Select(Box<Select>),
    Query(Box<Query>),
    SetOperation { left: Box<SetExpr>, right: Box<SetExpr> },
    Values,
    Insert(Box<Statement>),
    Update(Box<Statement>),
    Table(Box<Table>),
}

/// One common table expression of a `WITH`.
#[derive(Debug)]
pub struct Cte {
    pub alias: TableAlias,
    pub query: Box<Query>,
}

/// A `WITH` clause.
#[derive(Debug)]
pub struct With {
    pub cte_tables: Vec<Cte>,
}

/// A query: an optional `WITH` and a body.
#[derive(Debug)]
pub struct Query {
    pub with: Option<With>,
    pub body: Box<SetExpr>,
}

/// One operation of an `ALTER TABLE`.
#[derive(Debug)]
pub enum AlterTableOperation {
    SwapWith { table_name: Vec<Ident> },
    RenameTable { table_name: Vec<Ident> },
    /// Any other operation.
    Other,
}

/// A statement.
#[derive(Debug)]
#[allow(inconsistent_fields)]
pub enum Statement {
    Query(Box<Query>),
    Insert { table_name: Vec<Ident>, source: Option<Box<Query>> },
    Merge { table: TableFactor, source: TableFactor },
    CreateTable {
        name: Vec<Ident>,
        query: Option<Box<Query>>,
        like: Option<Vec<Ident>>,
        clone: Option<Vec<Ident>>,
    },
    CreateView { name: Vec<Ident>, query: Box<Query> },
    /// `url` is the location behind the stage, if the statement gives one.
    CreateStage { name: Vec<Ident>, url: Option<String> },
    Update { table: TableWithJoins, from: Option<TableWithJoins>, selection: Option<Expr> },
    AlterTable { name: Vec<Ident>, operations: Vec<AlterTableOperation> },
    Delete {
        from: Vec<TableWithJoins>,
        using: Option<Vec<TableWithJoins>>,
        selection: Option<Expr>,
    },
    Truncate { table_name: Vec<Ident> },
    Drop { names: Vec<Vec<Ident>> },
    /// `from_stage_text` is the source as the statement writes it.
    CopyIntoSnowflake { into: Vec<Ident>, from_stage: Vec<Ident>, from_stage_text: String },
    /// Any other statement.
    Other,
}

} // verus!
