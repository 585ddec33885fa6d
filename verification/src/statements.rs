//! Laws of whole statements: what a statement of a given shape reads and
//! writes, whatever names stand in it.

use crate::ast::{Query, Select, Statement, TableFactor, TableWithJoins};
use crate::context::{default_locations, resolve_in, ContextView};
use crate::effect::{
    alias_name, alter_effect, alters_effect, compound_effect, cte_effect, default_table_effect,
    derived_column, factor_effect, factor_name, is_cloud_location, lineage_of, outputs_effect,
    placeholder, plain, projection_effect, query_effect, scoped_factor_effect,
    scoped_sources_effect, select_effect, statement_body_effect, statement_effect, unowned,
};
use crate::frame::{
    bind, edges_from, lemma_without_stand_ins, lookup, stands_in, substituted, without_stand_ins,
    AliasPair, Edge, FrameView, ResourceName,
};
use crate::laws::{
    lemma_bind_all_is_a_union, lemma_bind_all_of_one, lemma_bind_is_an_update,
    lemma_substituted_nothing_keeps_order,
};
use crate::lineage::{
    table_name, verbatim_parts, ColumnName, Dialect, Ident, IdentName, TableName,
};
use crate::opened::{
    lemma_open_compound, lemma_open_cte, lemma_open_ctes_of_one, lemma_open_derived,
    lemma_open_projection_of_one, lemma_open_query, lemma_open_query_with,
    lemma_open_renamed_item, lemma_open_scoped_factor, lemma_open_select,
    lemma_open_set_expr_select, lemma_open_single_source, lemma_open_source_with_a_join,
    lemma_open_statement, lemma_open_statement_insert, lemma_open_statement_query,
    lemma_open_wildcard, lemma_open_with,
};
use crate::sets::{insert, lemma_insert, lemma_union, lemma_union_onto_nothing, union, views};
use crate::single_table::{blank, lemma_resolve_without_alias};
use crate::text::unquoted;
use vstd::prelude::*;

verus! {

/// The context in which the body of a statement is analysed.
pub open spec fn at_start(dialect: Dialect, default_schema: Option<Seq<char>>) -> ContextView {
    ContextView::fresh(dialect, default_schema).push_frame()
}

/// Whether no frame of `c` knows an alias.
pub open spec fn no_alias(c: ContextView) -> bool {
    forall|i: int| 0 <= i < c.frames.len() ==> (#[trigger] c.frames[i]).aliases.len() == 0
}

/// Where the body of a statement leaves the root as it was, the lineage of
/// the statement is what the body leaves in the frame of the statement,
/// collected into an empty root.
pub proof fn lemma_lineage_of_body(
    s: Statement,
    dialect: Dialect,
    default_schema: Option<Seq<char>>,
)
    requires
        statement_body_effect(s, at_start(dialect, default_schema)).frames.len() == 2,
        statement_body_effect(s, at_start(dialect, default_schema)).frames[0]
            == FrameView::empty(),
    ensures
        lineage_of(s, dialect, default_schema) == FrameView::empty().collect(
            statement_body_effect(s, at_start(dialect, default_schema)).top(),
        ),
{
    lemma_open_statement(s, ContextView::fresh(dialect, default_schema));
    let after = statement_body_effect(s, at_start(dialect, default_schema));
    let popped = after.pop_frame();
    assert(popped.frames =~= seq![after.frames[0]]);
    assert(popped.top() == FrameView::empty());
    let merged = popped.collect(after.top());
    assert(merged.frames[0] == FrameView::empty().collect(after.top()));
    assert(statement_effect(s, ContextView::fresh(dialect, default_schema)) == merged);
}

/// The tables that the first `n` of `names` denote.
pub open spec fn denoted(
    names: Seq<Vec<Ident>>,
    n: nat,
    dialect: Dialect,
    default_schema: Option<Seq<char>>,
) -> Set<TableName> {
    Set::new(
        |t: TableName|
            exists|i: int|
                0 <= i < n && i < names.len() && t == table_name(
                    dialect,
                    views(#[trigger] names[i]@),
                    default_schema,
                ),
    )
}

proof fn lemma_outputs(names: Seq<Vec<Ident>>, c: ContextView)
    requires
        c.wf(),
        no_alias(c),
    ensures
        ({
            let after = outputs_effect(names, c);
            &&& after.frames.len() == c.frames.len()
            &&& after.frames.drop_last() == c.frames.drop_last()
            &&& after.dialect == c.dialect
            &&& after.default_schema == c.default_schema
            &&& after.top() == FrameView { outputs: after.top().outputs, ..c.top() }
            &&& after.top().outputs.to_set() == c.top().outputs.to_set().union(
                denoted(names, names.len(), c.dialect, c.default_schema),
            )
        }),
    decreases names.len(),
{
    reveal(outputs_effect);
    let all = denoted(names, names.len(), c.dialect, c.default_schema);
    if names.len() == 0 {
        assert(c.top().outputs.to_set().union(all) =~= c.top().outputs.to_set());
    } else {
        let rest = names.drop_last();
        lemma_outputs(rest, c);
        let before = outputs_effect(rest, c);
        let after = outputs_effect(names, c);
        let name = c.name_of(views(names.last()@));
        assert forall|i: int| 0 <= i < before.frames.len() implies (
        #[trigger] before.frames[i]).aliases.len() == 0 by {
            if i < before.frames.len() - 1 {
                assert(before.frames[i] == before.frames.drop_last()[i]);
                assert(c.frames[i] == c.frames.drop_last()[i]);
            } else {
                assert(before.frames[i] == before.top());
                assert(c.frames[i] == c.top());
            }
        }
        lemma_resolve_without_alias(before.frames, name);
        lemma_insert(before.top().outputs, name);
        assert(after.frames.drop_last() =~= before.frames.drop_last());
        let earlier = denoted(rest, rest.len(), c.dialect, c.default_schema);
        assert(all =~= earlier.insert(name)) by {
            assert forall|t: TableName| all.contains(t) == earlier.insert(name).contains(t) by {
                if all.contains(t) {
                    let i = choose|i: int|
                        0 <= i < names.len() && t == table_name(
                            c.dialect,
                            views(#[trigger] names[i]@),
                            c.default_schema,
                        );
                    if i < rest.len() {
                        assert(rest[i] == names[i]);
                    }
                }
                if earlier.contains(t) {
                    let i = choose|i: int|
                        0 <= i < rest.len() && t == table_name(
                            c.dialect,
                            views(#[trigger] rest[i]@),
                            c.default_schema,
                        );
                    assert(rest[i] == names[i]);
                }
                if t == name {
                    assert(names[names.len() - 1] == names.last());
                }
            }
        }
        assert(after.top().outputs.to_set() =~= c.top().outputs.to_set().union(all));
    }
}

/// `DROP TABLE` writes the tables that it names and reads nothing.
pub proof fn lemma_drop_writes_only(
    s: Statement,
    dialect: Dialect,
    default_schema: Option<Seq<char>>,
)
    requires
        s is Drop,
    ensures
        lineage_of(s, dialect, default_schema).inputs.len() == 0,
        lineage_of(s, dialect, default_schema).outputs.to_set() == denoted(
            s->Drop_names@,
            s->Drop_names.len() as nat,
            dialect,
            default_schema,
        ),
{
    reveal(statement_body_effect);
    let start = at_start(dialect, default_schema);
    let names = s->Drop_names@;
    lemma_outputs(names, start);
    let after = statement_body_effect(s, start);
    assert(after.frames[0] == after.frames.drop_last()[0]);
    assert(start.frames[0] == start.frames.drop_last()[0]);
    lemma_lineage_of_body(s, dialect, default_schema);
    let top = after.top();
    lemma_union(Seq::<TableName>::empty(), top.outputs);
    let all = denoted(names, names.len(), dialect, default_schema);
    assert(Seq::<TableName>::empty().to_set() =~= Set::<TableName>::empty());
    assert(Set::<TableName>::empty().union(all) =~= all);
    assert(Set::<TableName>::empty().union(top.outputs.to_set()) =~= top.outputs.to_set());
}

/// `ALTER TABLE a SWAP WITH b` reads both tables and writes both.
pub proof fn lemma_swap_reads_and_writes_both(
    s: Statement,
    dialect: Dialect,
    default_schema: Option<Seq<char>>,
)
    requires
        s is AlterTable,
        s->AlterTable_operations.len() == 1,
        s->AlterTable_operations[0] is SwapWith,
    ensures
        ({
            let a = table_name(dialect, views(s->AlterTable_name@), default_schema);
            let b = table_name(
                dialect,
                views(s->AlterTable_operations[0]->SwapWith_table_name@),
                default_schema,
            );
            let found = lineage_of(s, dialect, default_schema);
            &&& found.inputs.to_set() == set![a, b]
            &&& found.outputs.to_set() == set![a, b]
        }),
{
    reveal(statement_body_effect);
    reveal_with_fuel(alters_effect, 2);
    let start = at_start(dialect, default_schema);
    let name = views(s->AlterTable_name@);
    let op = s->AlterTable_operations[0];
    let other = views(op->SwapWith_table_name@);
    let ops = s->AlterTable_operations@;
    assert(ops.last() == op);
    assert(ops.drop_last().len() == 0);
    assert(statement_body_effect(s, start) == alter_effect(op, name, start));
    let a = table_name(dialect, name, default_schema);
    let b = table_name(dialect, other, default_schema);
    let c1 = start.add_input(other);
    let c2 = c1.add_input(name);
    let c3 = c2.add_output(other);
    let c4 = c3.add_output(name);
    lemma_resolve_without_alias(start.frames, b);
    lemma_resolve_without_alias(c1.frames, a);
    lemma_resolve_without_alias(c2.frames, b);
    lemma_resolve_without_alias(c3.frames, a);
    let none = Seq::<TableName>::empty();
    lemma_insert(none, b);
    lemma_insert(insert(none, b), a);
    assert(c4.top().inputs == insert(insert(none, b), a));
    assert(c4.top().outputs == insert(insert(none, b), a));
    lemma_lineage_of_body(s, dialect, default_schema);
    lemma_union(none, c4.top().inputs);
    assert(none.to_set() =~= Set::<TableName>::empty());
    assert(Set::<TableName>::empty().union(c4.top().inputs.to_set()) =~= set![a, b]);
}

/// `ALTER TABLE a RENAME TO b` reads the old name and writes the new one.
pub proof fn lemma_rename_reads_the_old_and_writes_the_new(
    s: Statement,
    dialect: Dialect,
    default_schema: Option<Seq<char>>,
)
    requires
        s is AlterTable,
        s->AlterTable_operations.len() == 1,
        s->AlterTable_operations[0] is RenameTable,
    ensures
        ({
            let a = table_name(dialect, views(s->AlterTable_name@), default_schema);
            let b = table_name(
                dialect,
                views(s->AlterTable_operations[0]->RenameTable_table_name@),
                default_schema,
            );
            let found = lineage_of(s, dialect, default_schema);
            &&& found.inputs == seq![a]
            &&& found.outputs == seq![b]
            &&& found.column_lineage.len() == 0
        }),
{
    reveal(statement_body_effect);
    reveal_with_fuel(alters_effect, 2);
    let start = at_start(dialect, default_schema);
    let name = views(s->AlterTable_name@);
    let op = s->AlterTable_operations[0];
    let other = views(op->RenameTable_table_name@);
    let ops = s->AlterTable_operations@;
    assert(ops.last() == op);
    assert(ops.drop_last().len() == 0);
    assert(statement_body_effect(s, start) == alter_effect(op, name, start));
    let a = table_name(dialect, name, default_schema);
    let b = table_name(dialect, other, default_schema);
    let c1 = start.add_input(name);
    let c2 = c1.add_output(other);
    lemma_resolve_without_alias(start.frames, a);
    lemma_resolve_without_alias(c1.frames, b);
    assert(c2.top().inputs =~= seq![a]);
    assert(c2.top().outputs =~= seq![b]);
    lemma_lineage_of_body(s, dialect, default_schema);
    lemma_union_onto_nothing(seq![a]);
    lemma_union_onto_nothing(seq![b]);
    lemma_union_onto_nothing(Seq::<Edge>::empty());
}

/// A statement that the analysis does not know is passed over: its lineage
/// holds nothing.
pub proof fn lemma_unknown_statement_is_passed_over(
    s: Statement,
    dialect: Dialect,
    default_schema: Option<Seq<char>>,
)
    requires
        s is Other,
    ensures
        lineage_of(s, dialect, default_schema) == FrameView::empty(),
{
    reveal(statement_body_effect);
    let start = at_start(dialect, default_schema);
    assert(statement_body_effect(s, start) == start);
    lemma_lineage_of_body(s, dialect, default_schema);
    let found = lineage_of(s, dialect, default_schema);
    assert(found.inputs =~= Seq::empty());
    assert(found.outputs =~= Seq::empty());
    assert(found.non_table_inputs =~= Seq::empty());
    assert(found.non_table_outputs =~= Seq::empty());
    assert(found.column_lineage =~= Seq::empty());
}

/// A bulk load from a location in cloud storage writes its target, reads no
/// table, and reads the location, under its text without quotes, as a
/// resource that is no table.
pub proof fn lemma_copy_reads_the_location(
    s: Statement,
    dialect: Dialect,
    default_schema: Option<Seq<char>>,
)
    requires
        s is CopyIntoSnowflake,
        is_cloud_location(s->CopyIntoSnowflake_from_stage_text@, default_locations()),
    ensures
        ({
            let found = lineage_of(s, dialect, default_schema);
            let path = unquoted(s->CopyIntoSnowflake_from_stage_text@);
            &&& found.inputs.len() == 0
            &&& found.outputs == seq![
                table_name(dialect, views(s->CopyIntoSnowflake_into@), default_schema),
            ]
            &&& found.non_table_inputs == seq![
                ResourceName { name: seq![path], table_like: true, quoted: true },
            ]
            &&& found.non_table_outputs.len() == 0
        }),
{
    reveal(statement_body_effect);
    let start = at_start(dialect, default_schema);
    let into = views(s->CopyIntoSnowflake_into@);
    let path = unquoted(s->CopyIntoSnowflake_from_stage_text@);
    let target = table_name(dialect, into, default_schema);
    let c1 = start.add_output(into);
    let c2 = c1.add_non_table_input(seq![plain(path)], true, true);
    assert(statement_body_effect(s, start) == c2);
    lemma_resolve_without_alias(start.frames, target);
    let name = verbatim_parts(seq![plain(path)]);
    lemma_resolve_without_alias(c1.frames, name);
    lemma_lineage_of_body(s, dialect, default_schema);
    let resource = ResourceName { name, table_like: true, quoted: true };
    assert(c2.top().outputs =~= seq![target]);
    assert(c2.top().non_table_inputs =~= seq![resource]);
    reveal_with_fuel(union, 3);
    assert(seq![target].drop_last() =~= Seq::<TableName>::empty());
    assert(seq![resource].drop_last() =~= Seq::<ResourceName>::empty());
    assert(union(Seq::<TableName>::empty(), seq![target]) =~= seq![target]);
    assert(union(Seq::<ResourceName>::empty(), seq![resource]) =~= seq![resource]);
    assert(name =~= seq![path]);
}

/// A name that each frame either does not know or knows as standing for
/// itself stands for itself.
pub proof fn lemma_resolve_to_itself(frames: Seq<FrameView>, name: TableName)
    requires
        forall|i: int|
            0 <= i < frames.len() ==> lookup((#[trigger] frames[i]).aliases, name) is None
                || lookup(frames[i].aliases, name) == Some(name),
    ensures
        resolve_in(frames, name) == name,
    decreases frames.len(),
{
    if frames.len() > 0 {
        let last = frames[frames.len() - 1];
        assert(lookup(last.aliases, name) is None || lookup(last.aliases, name) == Some(name));
        assert forall|i: int| 0 <= i < frames.drop_last().len() implies lookup(
            (#[trigger] frames.drop_last()[i]).aliases,
            name,
        ) is None || lookup(frames.drop_last()[i].aliases, name) == Some(name) by {
            assert(frames.drop_last()[i] == frames[i]);
        }
        lemma_resolve_to_itself(frames.drop_last(), name);
    }
}

/// Whether a `SELECT` reads one plain table under an alias, joins nothing,
/// writes nothing, and projects one column of that alias under a new name.
pub open spec fn renames_one_column(s: Select) -> bool {
    &&& s.from.len() == 1
    &&& s.from[0].relation is Table
    &&& s.from[0].relation->Table_alias is Some
    &&& s.from[0].joins.len() == 0
    &&& s.into is None
    &&& s.projection.len() == 1
    &&& s.projection[0] is ExprWithAlias
    &&& s.projection[0]->ExprWithAlias_expr is CompoundIdentifier
    &&& s.projection[0]->ExprWithAlias_expr->CompoundIdentifier_0.len() == 2
    &&& s.projection[0]->ExprWithAlias_expr->CompoundIdentifier_0[0]@
        == s.from[0].relation->Table_alias->0.name@
}

/// The edge that such a `SELECT` records when `table` is the table that it
/// reads: from the new name to the column of the table.
pub open spec fn renamed_edge(s: Select, table: TableName) -> Edge {
    (
        unowned(s.projection[0]->ExprWithAlias_alias.value@),
        ColumnName {
            name: s.projection[0]->ExprWithAlias_expr->CompoundIdentifier_0[1].value@,
            origin: Some(table),
        },
    )
}

/// On a context without aliases whose top frame is empty, a `SELECT` that
/// renames one column of one aliased table gives the top frame the table,
/// the alias and the edge.
proof fn lemma_renaming_select(s: Select, c: ContextView)
    requires
        renames_one_column(s),
        c.wf(),
        c.top() == FrameView::empty(),
        no_alias(c),
    ensures
        ({
            let table = c.name_of(factor_name(s.from[0].relation));
            let key = c.name_of(alias_name(s.from[0].relation->Table_alias->0));
            let after = select_effect(s, c);
            &&& after.frames.len() == c.frames.len()
            &&& after.frames.drop_last() == c.frames.drop_last()
            &&& after.dialect == c.dialect
            &&& after.default_schema == c.default_schema
            &&& after.top() == FrameView {
                inputs: seq![table],
                aliases: seq![(key, table)],
                column_lineage: seq![renamed_edge(s, table)],
                ..FrameView::empty()
            }
        }),
{
    let empty = FrameView::empty();
    let relation = s.from[0].relation;
    let name = factor_name(relation);
    let alias = alias_name(relation->Table_alias->0);
    let table = c.name_of(name);
    let key = c.name_of(alias);
    let pair = seq![(key, table)];
    let none = Seq::<AliasPair>::empty();
    let edge = renamed_edge(s, table);
    lemma_open_select(s, c);
    lemma_bind_all_of_one(none, key, table);
    lemma_bind_all_of_one(pair, key, table);
    assert(bind(none, key, table) =~= pair);
    assert(bind(pair, key, table) == pair);
    // The table of the block and its alias.
    let d1 = default_table_effect(s, c);
    let known = FrameView { aliases: pair, ..empty };
    assert(c.top() == empty);
    assert(d1.top() == known);
    assert(d1.frames.drop_last() =~= c.frames.drop_last());
    // The source, in frames of its own.
    let p = d1.push_frame();
    lemma_open_single_source(s, p);
    let n1 = p.push_frame().add_table_alias(table, alias);
    assert(n1.top() == known);
    assert forall|i: int| 0 <= i < n1.frames.len() implies lookup(
        (#[trigger] n1.frames[i]).aliases,
        table,
    ) is None || lookup(n1.frames[i].aliases, table) == Some(table) by {
        assert(pair.drop_last() =~= none);
        assert(lookup(none, table) is None);
        if i < c.frames.len() - 1 {
            assert(n1.frames[i] == c.frames[i]);
            assert(c.frames[i].aliases.len() == 0);
        } else if i == c.frames.len() - 1 {
            assert(n1.frames[i] == d1.top());
        } else if i == c.frames.len() {
            assert(n1.frames[i] == empty);
        } else {
            assert(n1.frames[i] == n1.top());
        }
    }
    lemma_resolve_to_itself(n1.frames, table);
    let n2 = n1.add_input(name);
    let read = FrameView { inputs: seq![table], aliases: pair, ..empty };
    assert(n2.top().inputs =~= seq![table]);
    assert(n2.top() == read);
    assert(n2.pop_frame().frames =~= p.frames);
    assert(n2.pop_frame() == p);
    lemma_union_onto_nothing(seq![table]);
    let d2 = p.collect_aliases(read).collect(read);
    assert(d2 == scoped_sources_effect(s.from, 1, p));
    assert(d2.top().inputs == seq![table]);
    assert(d2.top() == read);
    assert(d2.pop_frame().frames =~= d1.frames);
    let d3 = d2.pop_frame().collect_aliases(read);
    assert(d3.frames =~= d1.frames);
    assert(d3 == d1);
    // The projection.
    let item = s.projection[0];
    let ids = views(item->ExprWithAlias_expr->CompoundIdentifier_0@);
    lemma_open_projection_of_one(s.projection, d3);
    lemma_open_renamed_item(item, d3);
    let with_column = d3.set_column_context(derived_column(item));
    lemma_open_compound(item->ExprWithAlias_expr, with_column);
    assert(ids.drop_last() =~= alias);
    assert(resolve_in(with_column.frames, key) == table);
    let d4 = projection_effect(s.projection, 1, d3);
    assert(d4 == compound_effect(ids, with_column));
    let ancestor = edge.1;
    assert(edges_from(edge.0, seq![ancestor]) =~= seq![edge]);
    lemma_union_onto_nothing(seq![edge]);
    assert(d4.top() == FrameView { aliases: pair, column_lineage: seq![edge], ..empty });
    // The sources are folded in.
    lemma_without_stand_ins(Seq::<TableName>::empty(), pair);
    assert(without_stand_ins(Seq::<TableName>::empty(), pair) =~= Seq::<TableName>::empty());
    lemma_substituted_nothing_keeps_order(seq![edge]);
    let after = d4.set_column_context(None).set_table_context(None).coalesce(read);
    assert(after == select_effect(s, c));
    assert(after.frames.drop_last() =~= c.frames.drop_last());
}

/// Whether a statement is `INSERT INTO out SELECT a.x AS y FROM src a`,
/// whatever names stand for `out`, `a`, `x`, `y` and `src`.
pub open spec fn copies_one_column(s: Statement) -> bool {
    &&& s is Insert
    &&& s->Insert_source is Some
    &&& s->Insert_source->0.with is None
    &&& *s->Insert_source->0.body is Select
    &&& renames_one_column(*(*s->Insert_source->0.body)->Select_0)
}

/// `INSERT INTO out SELECT a.x AS y FROM src a` reads `src`, writes `out`,
/// and derives `y` from the column `x` of `src`.
pub proof fn lemma_insert_of_a_renamed_column(
    s: Statement,
    dialect: Dialect,
    default_schema: Option<Seq<char>>,
)
    requires
        copies_one_column(s),
    ensures
        ({
            let select = *(*s->Insert_source->0.body)->Select_0;
            let source = table_name(dialect, factor_name(select.from[0].relation), default_schema);
            let target = table_name(dialect, views(s->Insert_table_name@), default_schema);
            let found = lineage_of(s, dialect, default_schema);
            &&& found.inputs == seq![source]
            &&& found.outputs == seq![target]
            &&& found.column_lineage == seq![renamed_edge(select, source)]
            &&& found.non_table_inputs.len() == 0
            &&& found.non_table_outputs.len() == 0
        }),
{
    let empty = FrameView::empty();
    let q = *s->Insert_source->0;
    let select = *(*q.body)->Select_0;
    let start = at_start(dialect, default_schema);
    let source = table_name(dialect, factor_name(select.from[0].relation), default_schema);
    let target = table_name(dialect, views(s->Insert_table_name@), default_schema);
    let edge = renamed_edge(select, source);
    lemma_open_statement_insert(s, start);
    lemma_open_query(q, start);
    // The query has no `WITH`.
    let c1 = start.push_frame();
    assert(c1.pop_frame().frames =~= start.frames);
    let c2 = c1.pop_frame().collect_aliases(empty);
    assert(c2.frames =~= start.frames);
    assert(c2 == start);
    // Its body.
    let inner = start.push_frame();
    lemma_open_set_expr_select(*q.body, inner);
    assert(blank(inner)) by {
        assert forall|k: int| 0 <= k < inner.frames.len() implies (#[trigger] inner.frames[k])
            == empty by {}
    }
    assert(no_alias(inner));
    lemma_renaming_select(select, inner);
    let c3 = select_effect(select, inner);
    let body = c3.top();
    assert(c3.pop_frame().frames =~= start.frames) by {
        assert(inner.frames.drop_last() =~= start.frames);
    }
    lemma_union_onto_nothing(seq![source]);
    lemma_union_onto_nothing(seq![edge]);
    let collected = c3.pop_frame().collect(body);
    lemma_without_stand_ins(seq![source], Seq::<AliasPair>::empty());
    lemma_substituted_nothing_keeps_order(seq![edge]);
    let folded = collected.coalesce(empty);
    assert(folded == query_effect(q, start));
    let read = FrameView { inputs: seq![source], column_lineage: seq![edge], ..empty };
    assert(folded.top() == read);
    assert(folded.frames =~= seq![empty, read]);
    // The target is written.
    lemma_resolve_without_alias(folded.frames, target);
    let written = folded.add_output(views(s->Insert_table_name@));
    assert(written == statement_body_effect(s, start));
    let done = FrameView { outputs: seq![target], ..read };
    assert(written.top().outputs =~= seq![target]);
    assert(written.top() == done);
    lemma_lineage_of_body(s, dialect, default_schema);
    lemma_union_onto_nothing(seq![target]);
}

/// Whether a `SELECT` is `SELECT * FROM t`: it reads one plain table
/// without an alias, joins nothing and writes nothing.
pub open spec fn reads_all_of_one_table(s: Select) -> bool {
    &&& s.from.len() == 1
    &&& s.from[0].relation is Table
    &&& s.from[0].relation->Table_alias is None
    &&& s.from[0].joins.len() == 0
    &&& s.into is None
    &&& s.projection.len() == 1
    &&& s.projection[0] is Wildcard
}

/// A frame that reads `table` and holds nothing else.
pub open spec fn reading(table: TableName) -> FrameView {
    FrameView { inputs: seq![table], ..FrameView::empty() }
}

/// An empty frame decides no name.
proof fn lemma_resolve_under_empty(frames: Seq<FrameView>, name: TableName)
    ensures
        resolve_in(frames.push(FrameView::empty()), name) == resolve_in(frames, name),
{
    let more = frames.push(FrameView::empty());
    assert(more.drop_last() =~= frames);
    assert(lookup(more.last().aliases, name) is None);
}

/// With an empty frame on top, `SELECT * FROM t` leaves in it the table
/// that `t` stands for, and nothing else.
proof fn lemma_select_of_all(s: Select, c: ContextView)
    requires
        reads_all_of_one_table(s),
        c.wf(),
        c.top() == FrameView::empty(),
    ensures
        ({
            let table = c.resolve(c.name_of(factor_name(s.from[0].relation)));
            let after = select_effect(s, c);
            &&& after.frames == c.frames.drop_last().push(reading(table))
            &&& after.dialect == c.dialect
            &&& after.default_schema == c.default_schema
        }),
{
    let empty = FrameView::empty();
    let name = factor_name(s.from[0].relation);
    let given = c.name_of(name);
    let table = c.resolve(given);
    let none = Seq::<AliasPair>::empty();
    lemma_open_select(s, c);
    let d1 = default_table_effect(s, c);
    assert(d1 == c.set_table_context(Some(given)));
    let p = d1.push_frame();
    lemma_open_single_source(s, p);
    let inner = p.push_frame();
    assert(c.frames =~= c.frames.drop_last().push(empty));
    lemma_resolve_under_empty(c.frames.drop_last(), given);
    lemma_resolve_under_empty(c.frames, given);
    lemma_resolve_under_empty(p.frames, given);
    assert(inner.resolve(given) == table);
    let n = inner.add_input(name);
    assert(n.top().inputs =~= seq![table]);
    assert(n.top() == reading(table));
    assert(n.pop_frame().frames =~= p.frames);
    assert(n.pop_frame() == p);
    lemma_bind_all_of_one(none, given, given);
    lemma_union_onto_nothing(seq![table]);
    let d2 = p.collect_aliases(reading(table)).collect(reading(table));
    assert(d2 == scoped_sources_effect(s.from, 1, p));
    assert(d2.top() == reading(table));
    assert(d2.pop_frame().frames =~= d1.frames);
    let d3 = d2.pop_frame().collect_aliases(reading(table));
    assert(d3.frames =~= d1.frames);
    assert(d3 == d1);
    lemma_open_projection_of_one(s.projection, d3);
    lemma_open_wildcard(s.projection[0], d3);
    lemma_without_stand_ins(Seq::<TableName>::empty(), none);
    let after = d3.set_column_context(None).set_table_context(None).coalesce(reading(table));
    assert(after == select_effect(s, c));
    assert(substituted(Seq::<Edge>::empty(), Seq::<Edge>::empty()) =~= Seq::<Edge>::empty());
    assert(after.top() == reading(table));
    assert(after.frames =~= c.frames.drop_last().push(reading(table)));
}

/// Whether a query is `SELECT * FROM t` without a `WITH`.
pub open spec fn query_of_all(q: Query) -> bool {
    &&& q.with is None
    &&& *q.body is Select
    &&& reads_all_of_one_table(*(*q.body)->Select_0)
}

/// The name of the table that such a query reads.
pub open spec fn table_read(q: Query) -> Seq<IdentName> {
    factor_name((*(*q.body)->Select_0).from[0].relation)
}

/// With an empty frame on top, the query `SELECT * FROM t` leaves in it the
/// table that `t` stands for, and nothing else.
proof fn lemma_query_of_all(q: Query, c: ContextView)
    requires
        query_of_all(q),
        c.wf(),
        c.top() == FrameView::empty(),
    ensures
        ({
            let table = c.resolve(c.name_of(table_read(q)));
            let after = query_effect(q, c);
            &&& after.frames == c.frames.drop_last().push(reading(table))
            &&& after.dialect == c.dialect
            &&& after.default_schema == c.default_schema
        }),
{
    let empty = FrameView::empty();
    let select = *(*q.body)->Select_0;
    let given = c.name_of(table_read(q));
    let table = c.resolve(given);
    lemma_open_query(q, c);
    let c1 = c.push_frame();
    assert(c1.pop_frame().frames =~= c.frames);
    let c2 = c1.pop_frame().collect_aliases(empty);
    assert(c2.frames =~= c.frames);
    assert(c2 == c);
    let inner = c.push_frame();
    lemma_open_set_expr_select(*q.body, inner);
    lemma_resolve_under_empty(c.frames, given);
    lemma_select_of_all(select, inner);
    let c3 = select_effect(select, inner);
    assert(inner.frames.drop_last() =~= c.frames);
    assert(c3.top() == reading(table));
    assert(c3.pop_frame().frames =~= c.frames);
    lemma_union_onto_nothing(seq![table]);
    let collected = c3.pop_frame().collect(reading(table));
    assert(collected.top() == reading(table));
    lemma_without_stand_ins(seq![table], Seq::<AliasPair>::empty());
    assert(substituted(Seq::<Edge>::empty(), Seq::<Edge>::empty()) =~= Seq::<Edge>::empty());
    let folded = collected.coalesce(empty);
    assert(folded == query_effect(q, c));
    assert(folded.top() == reading(table));
    assert(folded.frames =~= c.frames.drop_last().push(reading(table)));
}

/// Whether a statement is `WITH c AS (SELECT * FROM t) SELECT * FROM c`,
/// whatever names stand for `c` and `t`.
pub open spec fn reads_through_one_expression(s: Statement) -> bool {
    &&& s is Query
    &&& s->Query_0.with is Some
    &&& s->Query_0.with->0.cte_tables.len() == 1
    &&& query_of_all(*s->Query_0.with->0.cte_tables[0].query)
    &&& *s->Query_0.body is Select
    &&& reads_all_of_one_table(*(*s->Query_0.body)->Select_0)
    &&& factor_name((*(*s->Query_0.body)->Select_0).from[0].relation) == alias_name(
        s->Query_0.with->0.cte_tables[0].alias,
    )
}

/// A common table expression is transparent: the statement
/// `WITH c AS (SELECT * FROM t) SELECT * FROM c` reads `t`, and does not
/// read `c`, where `c` and `t` are different names.
pub proof fn lemma_expression_is_transparent(
    s: Statement,
    dialect: Dialect,
    default_schema: Option<Seq<char>>,
)
    requires
        reads_through_one_expression(s),
        table_name(dialect, alias_name(s->Query_0.with->0.cte_tables[0].alias), default_schema)
            != table_name(
            dialect,
            table_read(*s->Query_0.with->0.cte_tables[0].query),
            default_schema,
        ),
    ensures
        lineage_of(s, dialect, default_schema).inputs == seq![
            table_name(
                dialect,
                table_read(*s->Query_0.with->0.cte_tables[0].query),
                default_schema,
            ),
        ],
        lineage_of(s, dialect, default_schema).outputs.len() == 0,
{
    let empty = FrameView::empty();
    let none = Seq::<AliasPair>::empty();
    let q = *s->Query_0;
    let cte = q.with->0.cte_tables[0];
    let select = *(*q.body)->Select_0;
    let start = at_start(dialect, default_schema);
    let name = start.name_of(alias_name(cte.alias));
    let table = start.name_of(table_read(*cte.query));
    lemma_open_statement_query(s, start);
    lemma_open_query_with(q, start);
    // The expression.
    let w0 = start.push_frame();
    lemma_open_with(q.with->0, w0);
    lemma_open_ctes_of_one(q.with->0.cte_tables, w0);
    lemma_open_cte(cte, w0);
    let k1 = w0.add_table_alias(placeholder(), alias_name(cte.alias));
    let held = bind(none, name, placeholder());
    assert(held =~= seq![(name, placeholder())]);
    lemma_bind_is_an_update(none, name, placeholder(), table);
    assert(lookup(none, table) is None);
    assert(lookup(held, table) is None);
    let inner = k1.push_frame();
    assert(inner.resolve(table) == table) by {
        lemma_resolve_under_empty(k1.frames, table);
        assert(k1.frames.drop_last() =~= start.frames);
        lemma_resolve_without_alias(start.frames, table);
    }
    lemma_query_of_all(*cte.query, inner);
    let k2 = query_effect(*cte.query, inner);
    assert(inner.frames.drop_last() =~= k1.frames);
    assert(k2.top() == reading(table));
    let k3 = k2.pop_frame();
    assert(k3.frames =~= k1.frames);
    let c1 = k3.collect_with_table(reading(table), name);
    assert(c1 == cte_effect(cte, w0));
    lemma_union_onto_nothing(seq![table]);
    let known = bind(held, name, name);
    lemma_bind_all_of_one(held, name, name);
    let with_frame = c1.top();
    assert(with_frame.inputs == seq![table]);
    assert(with_frame.aliases == known);
    assert(with_frame.outputs =~= Seq::<TableName>::empty());
    // Its name is in force while the body is analysed.
    assert(c1.pop_frame().frames =~= start.frames);
    let c2 = c1.pop_frame().collect_aliases(with_frame);
    lemma_bind_all_is_a_union(none, known, name);
    assert(lookup(c2.top().aliases, name) == Some(name));
    let body_start = c2.push_frame();
    lemma_open_set_expr_select(*q.body, body_start);
    assert(body_start.resolve(name) == name) by {
        lemma_resolve_under_empty(c2.frames, name);
    }
    lemma_select_of_all(select, body_start);
    let c3 = select_effect(select, body_start);
    assert(body_start.frames.drop_last() =~= c2.frames);
    assert(c3.top() == reading(name));
    assert(c3.pop_frame().frames =~= c2.frames);
    // The body is collected, and the expression folded in.
    lemma_union_onto_nothing(seq![name]);
    let collected = c3.pop_frame().collect(reading(name));
    assert(collected.top().inputs == seq![name]);
    assert(seq![name].drop_last() =~= Seq::<TableName>::empty());
    assert(seq![name].last() == name);
    assert(stands_in(known, name));
    assert(without_stand_ins(Seq::<TableName>::empty(), known) =~= Seq::<TableName>::empty());
    assert(without_stand_ins(seq![name], known) =~= Seq::<TableName>::empty());
    let folded = collected.coalesce(with_frame);
    assert(folded == statement_body_effect(s, start));
    assert(folded.top().inputs == seq![table]);
    assert(folded.top().outputs =~= Seq::<TableName>::empty());
    assert(folded.frames[0] == empty);
    lemma_lineage_of_body(s, dialect, default_schema);
}

/// Whether a query is `SELECT a.x AS y FROM t a` without a `WITH`.
pub open spec fn renaming_query(q: Query) -> bool {
    &&& q.with is None
    &&& *q.body is Select
    &&& renames_one_column(*(*q.body)->Select_0)
}

/// What such a query leaves in the frame it is walked in: the table that
/// it reads, and the edge from the new name to the column of that table.
pub open spec fn renamed_by(q: Query, c: ContextView) -> FrameView {
    let select = *(*q.body)->Select_0;
    let table = c.name_of(factor_name(select.from[0].relation));
    FrameView {
        inputs: seq![table],
        column_lineage: seq![renamed_edge(select, table)],
        ..FrameView::empty()
    }
}

/// On a context without aliases whose top frame is empty, the query
/// `SELECT a.x AS y FROM t a` leaves in the top frame the table and the
/// edge, and keeps its alias to itself.
proof fn lemma_renaming_query(q: Query, c: ContextView)
    requires
        renaming_query(q),
        c.wf(),
        c.top() == FrameView::empty(),
        no_alias(c),
    ensures
        query_effect(q, c).frames == c.frames.drop_last().push(renamed_by(q, c)),
        query_effect(q, c).dialect == c.dialect,
        query_effect(q, c).default_schema == c.default_schema,
{
    let empty = FrameView::empty();
    let select = *(*q.body)->Select_0;
    let table = c.name_of(factor_name(select.from[0].relation));
    let edge = renamed_edge(select, table);
    lemma_open_query(q, c);
    let c1 = c.push_frame();
    assert(c1.pop_frame().frames =~= c.frames);
    let c2 = c1.pop_frame().collect_aliases(empty);
    assert(c2.frames =~= c.frames);
    let inner = c2.push_frame();
    lemma_open_set_expr_select(*q.body, inner);
    assert(no_alias(inner)) by {
        assert forall|k: int| 0 <= k < inner.frames.len() implies (
        #[trigger] inner.frames[k]).aliases.len() == 0 by {
            if k < c.frames.len() {
                assert(inner.frames[k] == c.frames[k]);
            }
        }
    }
    lemma_renaming_select(select, inner);
    let c3 = select_effect(select, inner);
    let body = c3.top();
    assert(inner.frames.drop_last() =~= c.frames);
    assert(c3.pop_frame().frames =~= c.frames);
    lemma_union_onto_nothing(seq![table]);
    lemma_union_onto_nothing(seq![edge]);
    let collected = c3.pop_frame().collect(body);
    lemma_without_stand_ins(seq![table], Seq::<AliasPair>::empty());
    lemma_substituted_nothing_keeps_order(seq![edge]);
    let folded = collected.coalesce(empty);
    assert(folded == query_effect(q, c));
    assert(folded.top() == renamed_by(q, c));
    assert(folded.frames =~= c.frames.drop_last().push(renamed_by(q, c)));
}

/// Whether a source is the subquery `(SELECT a.x AS y FROM t a)` without
/// an alias of its own.
pub open spec fn renaming_branch(f: TableFactor) -> bool {
    &&& f is Derived
    &&& f->Derived_alias is None
    &&& renaming_query(*f->Derived_subquery)
}

/// On a context without aliases, such a source adds its table and its edge
/// to the top frame, and no alias.
proof fn lemma_renaming_branch(f: TableFactor, c: ContextView)
    requires
        renaming_branch(f),
        c.wf(),
        no_alias(c),
    ensures
        scoped_factor_effect(f, c).frames == c.frames.update(
            c.frames.len() - 1,
            c.top().collect(renamed_by(*f->Derived_subquery, c)),
        ),
        scoped_factor_effect(f, c).dialect == c.dialect,
        scoped_factor_effect(f, c).default_schema == c.default_schema,
{
    let q = *f->Derived_subquery;
    let read = renamed_by(q, c);
    lemma_open_scoped_factor(f, c);
    let p = c.push_frame();
    lemma_open_derived(f, p);
    let pp = p.push_frame();
    assert(no_alias(pp)) by {
        assert forall|k: int| 0 <= k < pp.frames.len() implies (#[trigger] pp.frames[k]).aliases.len()
            == 0 by {
            if k < c.frames.len() {
                assert(pp.frames[k] == c.frames[k]);
            }
        }
    }
    lemma_renaming_query(q, pp);
    let c1 = query_effect(q, pp);
    assert(pp.frames.drop_last() =~= p.frames);
    assert(c1.top() == read);
    assert(c1.pop_frame().frames =~= p.frames);
    let select = *(*q.body)->Select_0;
    let table = c.name_of(factor_name(select.from[0].relation));
    lemma_union_onto_nothing(seq![table]);
    lemma_union_onto_nothing(seq![renamed_edge(select, table)]);
    let branch = c1.pop_frame().collect(read);
    assert(branch == factor_effect(f, p));
    assert(branch.top() == read);
    assert(branch.pop_frame().frames =~= c.frames);
    let after = branch.pop_frame().collect_aliases(read).collect(read);
    assert(after == scoped_factor_effect(f, c));
    assert(after.frames =~= c.frames.update(c.frames.len() - 1, c.top().collect(read)));
}

/// Whether the sources of a `SELECT` are two such subqueries, one joined to
/// the other: `(SELECT a.x AS y FROM t a) JOIN (SELECT a.x AS z FROM u a)`,
/// whatever names stand in them.
pub open spec fn two_renaming_branches(from: Vec<TableWithJoins>) -> bool {
    &&& from.len() == 1
    &&& renaming_branch(from[0].relation)
    &&& from[0].joins.len() == 1
    &&& renaming_branch(from[0].joins[0].relation)
}

/// Two joined subqueries resolve their aliases on their own: each derives
/// its column from the table that its own alias stands for, also where both
/// use one alias for different tables; and neither alias is left in the
/// frame of the sources.
pub proof fn lemma_branches_resolve_on_their_own(from: Vec<TableWithJoins>, c: ContextView)
    requires
        two_renaming_branches(from),
        c.wf(),
        blank(c),
    ensures
        ({
            let first = renamed_by(*from[0].relation->Derived_subquery, c);
            let second = renamed_by(*from[0].joins[0].relation->Derived_subquery, c);
            let found = scoped_sources_effect(from, 1, c).top();
            &&& found.inputs == union(first.inputs, second.inputs)
            &&& found.column_lineage == union(first.column_lineage, second.column_lineage)
            &&& found.aliases.len() == 0
        }),
{
    let left = from[0].relation;
    let right = from[0].joins[0].relation;
    let first = renamed_by(*left->Derived_subquery, c);
    let second = renamed_by(*right->Derived_subquery, c);
    lemma_open_source_with_a_join(from, c);
    assert(no_alias(c));
    lemma_renaming_branch(left, c);
    let c1 = scoped_factor_effect(left, c);
    lemma_union_onto_nothing(first.inputs);
    lemma_union_onto_nothing(first.column_lineage);
    assert(c.top() == FrameView::empty());
    assert(c1.top().inputs == first.inputs);
    assert(c1.top().column_lineage == first.column_lineage);
    assert(no_alias(c1)) by {
        assert forall|k: int| 0 <= k < c1.frames.len() implies (#[trigger] c1.frames[k]).aliases.len()
            == 0 by {
            if k < c.frames.len() - 1 {
                assert(c1.frames[k] == c.frames[k]);
            }
        }
    }
    lemma_renaming_branch(right, c1);
    assert(renamed_by(*right->Derived_subquery, c1) == second);
}

} // verus!
