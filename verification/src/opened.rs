//! The definitions of the analysis, each opened once for the shapes that
//! the laws speak of.

use crate::ast::{
    Cte, Expr, Query, Select, SelectItem, SetExpr, Statement, TableFactor, TableWithJoins, With,
};
use crate::context::ContextView;
use crate::effect::{
    alias_name, compound_effect, cte_effect, ctes_effect, default_table_effect, derived_column,
    expr_effect, factor_effect, factor_name, item_effect, named_source_effect, placeholder,
    projection_effect, query_effect, scoped_factor_effect, scoped_joins_effect,
    scoped_sources_effect, select_effect, set_expr_effect, statement_body_effect, statement_effect,
    with_effect,
};
use crate::sets::views;
use vstd::prelude::*;

verus! {

/// A statement is analysed in a frame of its own.
#[verifier::spinoff_prover]
pub proof fn lemma_open_statement(s: Statement, c: ContextView)
    ensures
        statement_effect(s, c) == ({
            let c1 = statement_body_effect(s, c.push_frame());
            c1.pop_frame().collect(c1.top())
        }),
{
    reveal(statement_effect);
}

/// A statement that is a query has the effect of the query.
#[verifier::spinoff_prover]
pub proof fn lemma_open_statement_query(s: Statement, c: ContextView)
    requires
        s is Query,
    ensures
        statement_body_effect(s, c) == query_effect(*s->Query_0, c),
{
    reveal(statement_body_effect);
}

/// A query without a `WITH`.
#[verifier::spinoff_prover]
pub proof fn lemma_open_query(q: Query, c: ContextView)
    requires
        q.with is None,
    ensures
        query_effect(q, c) == ({
            let c1 = c.push_frame();
            let with_frame = c1.top();
            let c2 = c1.pop_frame().collect_aliases(with_frame);
            let c3 = set_expr_effect(*q.body, c2.push_frame());
            let body = c3.top();
            c3.pop_frame().collect(body).coalesce(with_frame)
        }),
{
    reveal(query_effect);
}

/// A body that is a `SELECT` has the effect of the `SELECT`.
#[verifier::spinoff_prover]
pub proof fn lemma_open_set_expr_select(b: SetExpr, c: ContextView)
    requires
        b is Select,
    ensures
        set_expr_effect(b, c) == select_effect(*b->Select_0, c),
{
    reveal(set_expr_effect);
}

/// A `SELECT` without an `INTO`.
#[verifier::spinoff_prover]
pub proof fn lemma_open_select(s: Select, c: ContextView)
    requires
        s.into is None,
    ensures
        select_effect(s, c) == ({
            let c1 = default_table_effect(s, c);
            let c2 = scoped_sources_effect(s.from, s.from.len() as nat, c1.push_frame());
            let tables = c2.top();
            let c3 = c2.pop_frame().collect_aliases(tables);
            let c4 = projection_effect(s.projection, s.projection.len() as nat, c3);
            c4.set_column_context(None).set_table_context(None).coalesce(tables)
        }),
{
    reveal(select_effect);
}

/// The sources of a `SELECT` that reads one plain table and joins nothing.
#[verifier::spinoff_prover]
pub proof fn lemma_open_single_source(s: Select, c: ContextView)
    requires
        s.from.len() == 1,
        s.from[0].joins.len() == 0,
        s.from[0].relation is Table,
    ensures
        scoped_sources_effect(s.from, 1, c) == ({
            let c1 = named_source_effect(
                factor_name(s.from[0].relation),
                s.from[0].relation->Table_alias,
                c.push_frame(),
            );
            let frame = c1.top();
            c1.pop_frame().collect_aliases(frame).collect(frame)
        }),
{
    reveal(scoped_sources_effect);
    reveal(scoped_joins_effect);
    reveal(scoped_factor_effect);
    reveal(factor_effect);
    assert(scoped_sources_effect(s.from, 0, c) == c);
    let t = s.from[0];
    assert(scoped_joins_effect(t.joins, 0, scoped_factor_effect(t.relation, c))
        == scoped_factor_effect(t.relation, c));
}

/// An `INSERT` with a source query writes its target after the query has
/// been analysed.
#[verifier::spinoff_prover]
pub proof fn lemma_open_statement_insert(s: Statement, c: ContextView)
    requires
        s is Insert,
        s->Insert_source is Some,
    ensures
        statement_body_effect(s, c) == query_effect(*s->Insert_source->0, c).add_output(
            views(s->Insert_table_name@),
        ),
{
    reveal(statement_body_effect);
}

/// A query with a `WITH`.
#[verifier::spinoff_prover]
pub proof fn lemma_open_query_with(q: Query, c: ContextView)
    requires
        q.with is Some,
    ensures
        query_effect(q, c) == ({
            let c1 = with_effect(q.with->0, c.push_frame());
            let with_frame = c1.top();
            let c2 = c1.pop_frame().collect_aliases(with_frame);
            let c3 = set_expr_effect(*q.body, c2.push_frame());
            let body = c3.top();
            c3.pop_frame().collect(body).coalesce(with_frame)
        }),
{
    reveal(query_effect);
}

/// A `WITH` has the effect of its common table expressions, in order.
#[verifier::spinoff_prover]
pub proof fn lemma_open_with(w: With, c: ContextView)
    ensures
        with_effect(w, c) == ctes_effect(w.cte_tables, w.cte_tables.len() as nat, c),
{
    reveal(with_effect);
}

/// One common table expression alone.
#[verifier::spinoff_prover]
pub proof fn lemma_open_ctes_of_one(v: Vec<Cte>, c: ContextView)
    requires
        v.len() == 1,
    ensures
        ctes_effect(v, 1, c) == cte_effect(v[0], c),
{
    reveal(ctes_effect);
    assert(ctes_effect(v, 0, c) == c);
}

/// A common table expression: its query is analysed in a frame of its own,
/// and collected under the name of the expression.
#[verifier::spinoff_prover]
pub proof fn lemma_open_cte(cte: Cte, c: ContextView)
    ensures
        cte_effect(cte, c) == ({
            let c1 = c.add_table_alias(placeholder(), alias_name(cte.alias));
            let c2 = query_effect(*cte.query, c1.push_frame());
            let frame = c2.top();
            let c3 = c2.pop_frame();
            c3.collect_with_table(frame, c3.name_of(alias_name(cte.alias)))
        }),
{
    reveal(cte_effect);
}

/// A projection of one item.
#[verifier::spinoff_prover]
pub proof fn lemma_open_projection_of_one(v: Vec<SelectItem>, c: ContextView)
    requires
        v.len() == 1,
    ensures
        projection_effect(v, 1, c) == item_effect(v[0], c),
{
    reveal(projection_effect);
    assert(projection_effect(v, 0, c) == c);
}

/// A wildcard derives no column.
#[verifier::spinoff_prover]
pub proof fn lemma_open_wildcard(item: SelectItem, c: ContextView)
    requires
        item is Wildcard,
    ensures
        item_effect(item, c) == c,
{
    reveal(item_effect);
}

/// An item with an alias derives the column of that name from its
/// expression.
#[verifier::spinoff_prover]
pub proof fn lemma_open_renamed_item(item: SelectItem, c: ContextView)
    requires
        item is ExprWithAlias,
    ensures
        item_effect(item, c) == expr_effect(
            item->ExprWithAlias_expr,
            c.set_column_context(derived_column(item)),
        ),
{
    reveal(item_effect);
}

/// A compound identifier.
#[verifier::spinoff_prover]
pub proof fn lemma_open_compound(e: Expr, c: ContextView)
    requires
        e is CompoundIdentifier,
    ensures
        expr_effect(e, c) == compound_effect(views(e->CompoundIdentifier_0@), c),
{
    reveal(expr_effect);
}

/// A subquery without an alias: its query is analysed in a frame of its
/// own, which is then collected.
#[verifier::spinoff_prover]
pub proof fn lemma_open_derived(f: TableFactor, c: ContextView)
    requires
        f is Derived,
        f->Derived_alias is None,
    ensures
        factor_effect(f, c) == ({
            let c1 = query_effect(*f->Derived_subquery, c.push_frame());
            c1.pop_frame().collect(c1.top())
        }),
{
    reveal(factor_effect);
}

/// A source of a `SELECT` is analysed in a frame of its own.
#[verifier::spinoff_prover]
pub proof fn lemma_open_scoped_factor(f: TableFactor, c: ContextView)
    ensures
        scoped_factor_effect(f, c) == ({
            let c1 = factor_effect(f, c.push_frame());
            c1.pop_frame().collect_aliases(c1.top()).collect(c1.top())
        }),
{
    reveal(scoped_factor_effect);
}

/// One source with one join: the source, then what is joined to it.
#[verifier::spinoff_prover]
pub proof fn lemma_open_source_with_a_join(v: Vec<TableWithJoins>, c: ContextView)
    requires
        v.len() == 1,
        v[0].joins.len() == 1,
    ensures
        scoped_sources_effect(v, 1, c) == scoped_factor_effect(
            v[0].joins[0].relation,
            scoped_factor_effect(v[0].relation, c),
        ),
{
    reveal_with_fuel(scoped_sources_effect, 2);
    reveal_with_fuel(scoped_joins_effect, 2);
    assert(scoped_sources_effect(v, 0, c) == c);
    let first = scoped_factor_effect(v[0].relation, c);
    assert(scoped_joins_effect(v[0].joins, 0, first) == first);
    assert(scoped_joins_effect(v[0].joins, 1, first) == scoped_factor_effect(
        v[0].joins[0].relation,
        first,
    ));
}

} // verus!
