//! The law of the single table: a query that reads one table and projects
//! bare columns derives each of them from the column of that name in that
//! table, and from nothing else.

use crate::ast::{Expr, Query, Select, SelectItem, Statement};
use crate::context::{resolve_in, ContextView};
use crate::effect::{
    default_table_effect, expr_effect, factor_name, identifier_effect, item_effect, lineage_of,
    projection_effect, query_effect, scoped_sources_effect, select_effect, statement_effect,
    unowned,
};
use crate::frame::{backing, edges_from, Edge, FrameView};
use crate::laws::{lemma_backing, lemma_substituted_nothing};
use crate::lineage::{table_name, ColumnName, Dialect, TableName};
use crate::opened::{
    lemma_open_query, lemma_open_select, lemma_open_set_expr_select, lemma_open_single_source,
    lemma_open_statement, lemma_open_statement_query,
};
use crate::sets::{insert, lemma_insert, lemma_union, union};
use vstd::prelude::*;

verus! {

/// Whether every item of a projection is a bare identifier.
pub open spec fn bare_projection(items: Seq<SelectItem>) -> bool {
    forall|i: int|
        0 <= i < items.len() ==> (#[trigger] items[i]) is UnnamedExpr
            && items[i]->UnnamedExpr_0 is Identifier
}

/// The name of a projection item that is a bare identifier.
pub open spec fn bare_name(item: SelectItem) -> Seq<char> {
    item->UnnamedExpr_0->Identifier_0.value@
}

/// The edge that a bare identifier records when `table` is the table of the
/// query block.
pub open spec fn bare_edge(item: SelectItem, table: TableName) -> Edge {
    (unowned(bare_name(item)), ColumnName { name: bare_name(item), origin: Some(table) })
}

/// The edges of the first `n` items of a projection of bare identifiers.
pub open spec fn bare_edges(items: Seq<SelectItem>, n: nat, table: TableName) -> Set<Edge> {
    Set::new(
        |e: Edge| exists|j: int| 0 <= j < n && j < items.len() && e == bare_edge(items[j], table),
    )
}

/// Whether a `SELECT` reads one table without an alias, joins nothing,
/// writes nothing, and projects bare identifiers alone.
pub open spec fn reads_one_table(s: Select) -> bool {
    &&& s.from.len() == 1
    &&& s.from[0].relation is Table
    &&& s.from[0].relation->Table_alias is None
    &&& s.from[0].joins.len() == 0
    &&& s.into is None
    &&& bare_projection(s.projection@)
}

/// A context whose frames are all empty.
pub open spec fn blank(c: ContextView) -> bool {
    forall|i: int| 0 <= i < c.frames.len() ==> (#[trigger] c.frames[i]) == FrameView::empty()
}

/// Where no frame knows an alias, every name stands for itself.
pub proof fn lemma_resolve_without_alias(frames: Seq<FrameView>, name: TableName)
    requires
        forall|i: int| 0 <= i < frames.len() ==> (#[trigger] frames[i]).aliases.len() == 0,
    ensures
        resolve_in(frames, name) == name,
    decreases frames.len(),
{
    if frames.len() > 0 {
        assert(frames[frames.len() - 1].aliases.len() == 0);
        assert forall|i: int| 0 <= i < frames.drop_last().len() implies (
        #[trigger] frames.drop_last()[i]).aliases.len() == 0 by {
            assert(frames.drop_last()[i] == frames[i]);
        }
        lemma_resolve_without_alias(frames.drop_last(), name);
    }
}

/// A projection of bare identifiers adds one edge for each item to the top
/// frame, and changes nothing else but the column that is being derived.
#[verifier::spinoff_prover]
proof fn lemma_bare_projection(v: Vec<SelectItem>, n: nat, c: ContextView, table: TableName)
    requires
        bare_projection(v@),
        n <= v.len(),
        c.wf(),
        c.table_context == Some(table),
    ensures
        ({
            let after = projection_effect(v, n, c);
            &&& after.frames.len() == c.frames.len()
            &&& after.table_context == c.table_context
            &&& after.dialect == c.dialect
            &&& after.default_schema == c.default_schema
            &&& after.frames.drop_last() == c.frames.drop_last()
            &&& after.top() == FrameView { column_lineage: after.top().column_lineage, ..c.top() }
            &&& after.top().column_lineage.to_set() == c.top().column_lineage.to_set().union(
                bare_edges(v@, n, table),
            )
        }),
    decreases n,
{
    reveal(projection_effect);
    if n == 0 {
        assert(c.top().column_lineage.to_set().union(bare_edges(v@, 0, table))
            =~= c.top().column_lineage.to_set());
    } else {
        let m = (n - 1) as nat;
        lemma_bare_projection(v, m, c, table);
        let before = projection_effect(v, m, c);
        let item = v[n - 1];
        assert(v@[n - 1] is UnnamedExpr);
        let with_column = before.set_column_context(Some(unowned(bare_name(item))));
        let after = projection_effect(v, n, c);
        lemma_bare_item(item, before);
        assert(after == identifier_effect(bare_name(item), with_column));
        let edge = bare_edge(item, table);
        let lineage = before.top().column_lineage;
        assert(after.top().column_lineage == union(lineage, seq![edge])) by {
            assert(edges_from(
                unowned(bare_name(item)),
                seq![ColumnName { name: bare_name(item), origin: Some(table) }],
            ) =~= seq![edge]);
        }
        let one = seq![edge];
        assert(one.drop_last() =~= Seq::<Edge>::empty());
        assert(union(lineage, Seq::<Edge>::empty()) == lineage);
        assert(union(lineage, one.drop_last()) == lineage);
        assert(one.last() == edge);
        assert(union(lineage, one) == insert(lineage, edge));
        lemma_insert(lineage, edge);
        assert(after.frames.drop_last() =~= before.frames.drop_last());
        assert(bare_edges(v@, n, table) =~= bare_edges(v@, m, table).insert(edge)) by {
            assert forall|e: Edge| bare_edges(v@, n, table).contains(e) == bare_edges(
                v@,
                m,
                table,
            ).insert(edge).contains(e) by {
                if bare_edges(v@, n, table).contains(e) {
                    let j = choose|j: int|
                        0 <= j < n && j < v@.len() && e == bare_edge(v@[j], table);
                    if j < m {
                        assert(bare_edges(v@, m, table).contains(e));
                    }
                }
                if bare_edges(v@, m, table).contains(e) {
                    let j = choose|j: int|
                        0 <= j < m && j < v@.len() && e == bare_edge(v@[j], table);
                    assert(0 <= j < n && j < v@.len() && e == bare_edge(v@[j], table));
                }
                if e == edge {
                    assert(0 <= n - 1 < n && n - 1 < v@.len() && e == bare_edge(
                        v@[n - 1],
                        table,
                    ));
                }
            }
        }
        assert(after.top().column_lineage.to_set() =~= c.top().column_lineage.to_set().union(
            bare_edges(v@, n, table),
        ));
    }
}

#[verifier::spinoff_prover]
proof fn lemma_bare_item(item: SelectItem, c: ContextView)
    requires
        item is UnnamedExpr,
        item->UnnamedExpr_0 is Identifier,
    ensures
        item_effect(item, c) == identifier_effect(
            bare_name(item),
            c.set_column_context(Some(unowned(bare_name(item)))),
        ),
{
    reveal(item_effect);
    lemma_identifier(item->UnnamedExpr_0, c.set_column_context(Some(unowned(bare_name(item)))));
}

#[verifier::spinoff_prover]
proof fn lemma_identifier(e: Expr, c: ContextView)
    requires
        e is Identifier,
    ensures
        expr_effect(e, c) == identifier_effect(e->Identifier_0.value@, c),
{
    reveal(expr_effect);
}

/// On a context of empty frames, a `SELECT` that reads one table and
/// projects bare columns leaves the frames below the top as they were, and
/// gives the top frame one edge for each projected column.
pub proof fn lemma_select_on_blank(s: Select, c: ContextView, table: TableName)
    requires
        reads_one_table(s),
        c.wf(),
        blank(c),
        table == c.name_of(factor_name(s.from[0].relation)),
    ensures
        ({
            let after = select_effect(s, c);
            &&& after.frames.len() == c.frames.len()
            &&& after.frames.drop_last() == c.frames.drop_last()
            &&& after.top().column_lineage.to_set() == bare_edges(
                s.projection@,
                s.projection.len() as nat,
                table,
            )
        }),
{
    lemma_open_select(s, c);
    let empty = FrameView::empty();
    let name = factor_name(s.from[0].relation);
    let c1 = default_table_effect(s, c);
    assert(c1 == c.set_table_context(Some(table)));
    let pushed = c1.push_frame();
    lemma_open_single_source(s, pushed);
    let inner = pushed.push_frame();
    assert(inner.name_of(name) == table);
    assert forall|i: int| 0 <= i < inner.frames.len() implies (
    #[trigger] inner.frames[i]).aliases.len() == 0 by {
        if i < c.frames.len() {
            assert(inner.frames[i] == c.frames[i]);
        }
    }
    lemma_resolve_without_alias(inner.frames, table);
    let read = inner.add_input(name);
    let frame = read.top();
    assert(frame == FrameView { inputs: insert(Seq::<TableName>::empty(), table), ..empty });
    assert(read.pop_frame().frames =~= pushed.frames);
    let back = read.pop_frame();
    assert(back == pushed);
    assert(back.collect_aliases(frame).frames =~= pushed.frames);
    let c2 = scoped_sources_effect(s.from, 1, pushed);
    assert(c2 == pushed.collect(frame));
    let tables = c2.top();
    assert(tables.aliases == Seq::<(TableName, TableName)>::empty());
    assert(tables.column_lineage == union(Seq::<Edge>::empty(), Seq::<Edge>::empty()));
    assert(tables.column_lineage == Seq::<Edge>::empty());
    assert(c2.pop_frame().frames =~= c1.frames);
    let c3 = c2.pop_frame().collect_aliases(tables);
    assert(c3.frames =~= c1.frames);
    assert(c3 == c1);
    let n = s.projection.len() as nat;
    lemma_bare_projection(s.projection, n, c3, table);
    let c4 = projection_effect(s.projection, n, c3);
    let ready = c4.set_column_context(None).set_table_context(None);
    let after = ready.coalesce(tables);
    assert(after == select_effect(s, c));
    assert(c.frames[c.frames.len() - 1] == empty);
    lemma_substituted_nothing(ready.top().column_lineage);
    assert(after.frames.drop_last() =~= c.frames.drop_last());
    assert(c3.top().column_lineage.to_set() =~= Set::<Edge>::empty());
    assert(after.top().column_lineage.to_set() =~= bare_edges(s.projection@, n, table));
}

/// Edges that are the edges of a projection of bare columns give each
/// projected column one ancestor: the column of its name in the table.
pub proof fn lemma_one_ancestor(
    edges: Seq<Edge>,
    items: Seq<SelectItem>,
    table: TableName,
    i: int,
)
    requires
        edges.to_set() == bare_edges(items, items.len(), table),
        0 <= i < items.len(),
    ensures
        backing(edges, unowned(bare_name(items[i]))).to_set() == set![
            ColumnName { name: bare_name(items[i]), origin: Some(table) },
        ],
{
    let name = bare_name(items[i]);
    let column = unowned(name);
    let ancestor = ColumnName { name, origin: Some(table) };
    lemma_backing(edges, column);
    assert forall|a: ColumnName|
        backing(edges, column).to_set().contains(a) == set![ancestor].contains(a) by {
        if backing(edges, column).to_set().contains(a) {
            assert(backing(edges, column).contains(a));
            assert(edges.to_set().contains((column, a)));
            let j = choose|j: int|
                0 <= j < items.len() && j < items.len() && (column, a) == bare_edge(
                    items[j],
                    table,
                );
            assert(a == ancestor);
        }
        if a == ancestor {
            assert((column, a) == bare_edge(items[i], table));
            assert(bare_edges(items, items.len(), table).contains((column, a)));
            assert(edges.contains((column, a)));
            assert(backing(edges, column).contains(a));
        }
    }
    assert(backing(edges, column).to_set() =~= set![ancestor]);
}

/// In a `SELECT` that reads one table without an alias and projects bare
/// columns, walked in a context of empty frames, each projected column has
/// exactly one ancestor: the column of its name in that table.
pub proof fn lemma_bare_columns_of_a_select(s: Select, c: ContextView, i: int)
    requires
        reads_one_table(s),
        c.wf(),
        blank(c),
        0 <= i < s.projection.len(),
    ensures
        select_effect(s, c).top().ancestors(unowned(bare_name(s.projection[i]))) == set![
            ColumnName {
                name: bare_name(s.projection[i]),
                origin: Some(c.name_of(factor_name(s.from[0].relation))),
            },
        ],
{
    let table = c.name_of(factor_name(s.from[0].relation));
    lemma_select_on_blank(s, c, table);
    lemma_one_ancestor(select_effect(s, c).top().column_lineage, s.projection@, table, i);
}

/// Whether a statement is a query without a `WITH` whose body is a `SELECT`
/// that reads one table and projects bare columns.
pub open spec fn single_table_query(s: Statement) -> bool {
    &&& s is Query
    &&& s->Query_0.with is None
    &&& *s->Query_0.body is Select
    &&& reads_one_table(*(*s->Query_0.body)->Select_0)
}

/// The `SELECT` of such a statement.
pub open spec fn select_of(s: Statement) -> Select {
    *(*s->Query_0.body)->Select_0
}

/// In a query that reads one table without an alias and projects bare
/// columns, each projected column has exactly one ancestor: the column of
/// its name in that table.
pub proof fn lemma_bare_columns_have_one_ancestor(
    s: Statement,
    dialect: Dialect,
    default_schema: Option<Seq<char>>,
    i: int,
)
    requires
        single_table_query(s),
        0 <= i < select_of(s).projection.len(),
    ensures
        ({
            let name = bare_name(select_of(s).projection[i]);
            let table = table_name(
                dialect,
                factor_name(select_of(s).from[0].relation),
                default_schema,
            );
            lineage_of(s, dialect, default_schema).ancestors(unowned(name)) == set![
                ColumnName { name, origin: Some(table) },
            ]
        }),
{
    let select = select_of(s);
    let q = *s->Query_0;
    let empty = FrameView::empty();
    let none = Seq::<Edge>::empty();
    let c0 = ContextView::fresh(dialect, default_schema);
    let table = table_name(dialect, factor_name(select.from[0].relation), default_schema);
    let n = select.projection.len() as nat;
    lemma_open_statement(s, c0);
    let cs = c0.push_frame();
    lemma_open_statement_query(s, cs);
    lemma_open_query(q, cs);
    let c1 = cs.push_frame();
    let with_frame = c1.top();
    assert(with_frame == empty);
    assert(c1.pop_frame().frames =~= cs.frames);
    let c2 = c1.pop_frame().collect_aliases(with_frame);
    assert(c2.frames =~= cs.frames);
    assert(c2 == cs);
    let cb = c2.push_frame();
    lemma_open_set_expr_select(*q.body, cb);
    assert(blank(cb)) by {
        assert forall|k: int| 0 <= k < cb.frames.len() implies (#[trigger] cb.frames[k])
            == empty by {}
    }
    lemma_select_on_blank(select, cb, table);
    let c3 = select_effect(select, cb);
    let body = c3.top();
    let popped = c3.pop_frame();
    assert(popped.frames =~= cs.frames) by {
        assert(c3.frames.drop_last() == cb.frames.drop_last());
        assert(cb.frames.drop_last() =~= cs.frames);
    }
    let collected = popped.collect(body);
    lemma_union(none, body.column_lineage);
    assert(collected.top().column_lineage.to_set() =~= body.column_lineage.to_set());
    let folded = collected.coalesce(with_frame);
    lemma_substituted_nothing(collected.top().column_lineage);
    assert(folded == query_effect(q, cs));
    assert(folded.top().column_lineage.to_set() =~= bare_edges(select.projection@, n, table));
    assert(folded.frames.len() == 2);
    let done = folded.pop_frame().collect(folded.top());
    assert(done == statement_effect(s, c0));
    assert(folded.pop_frame().frames[0] == empty);
    lemma_union(none, folded.top().column_lineage);
    let root = done.root();
    assert(root == lineage_of(s, dialect, default_schema));
    assert(root.column_lineage.to_set() =~= bare_edges(select.projection@, n, table));
    let name = bare_name(select.projection[i]);
    let column = unowned(name);
    let ancestor = ColumnName { name, origin: Some(table) };
    lemma_backing(root.column_lineage, column);
    assert forall|a: ColumnName| root.ancestors(column).contains(a) == set![ancestor].contains(
        a,
    ) by {
        if root.ancestors(column).contains(a) {
            assert(backing(root.column_lineage, column).contains(a));
            assert(root.column_lineage.to_set().contains((column, a)));
            let j = choose|j: int|
                0 <= j < n && j < select.projection@.len() && (column, a) == bare_edge(
                    select.projection@[j],
                    table,
                );
            assert(a == ancestor);
        }
        if a == ancestor {
            assert((column, a) == bare_edge(select.projection@[i], table));
            assert(bare_edges(select.projection@, n, table).contains((column, a)));
            assert(root.column_lineage.contains((column, a)));
            assert(backing(root.column_lineage, column).contains(a));
        }
    }
    assert(root.ancestors(column) =~= set![ancestor]);
}

} // verus!
