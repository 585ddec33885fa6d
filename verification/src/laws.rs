//! Laws of the analysis, each proved from the definitions.

use crate::ast::Statement;
use crate::context::ContextView;
use crate::frame::{
    attributed, backing, bind, bind_all, edges_from, lemma_without_stand_ins, lookup, stands_in,
    substituted, without_stand_ins, AliasPair, Edge, Frame, FrameView,
};
use crate::lineage::{
    fold_char, is_wrapped, lower_char, normalize, quote_of, upper_char, ColumnName, Dialect,
    IdentName, TableName,
};
use crate::sets::{insert, lemma_insert, lemma_union, union};
use crate::visitor::{lineage, Unsupported};
use vstd::prelude::*;

verus! {

/// An alias lives in the frame that registered it. Once that frame is
/// popped the context is what it was, so a frame pushed next does not see
/// the alias; and an alias registered there decides, whatever a frame
/// before it registered under the same name.
pub proof fn lemma_alias_stays_in_its_frame(
    c: ContextView,
    first: TableName,
    second: TableName,
    alias: Seq<IdentName>,
)
    requires
        c.wf(),
    ensures
        c.push_frame().add_table_alias(first, alias).pop_frame() == c,
        c.push_frame().add_table_alias(first, alias).resolve(c.name_of(alias)) == first,
        c.push_frame().add_table_alias(first, alias).pop_frame().push_frame().add_table_alias(
            second,
            alias,
        ).resolve(c.name_of(alias)) == second,
{
    let pushed = c.push_frame();
    let bound = pushed.add_table_alias(first, alias);
    assert(bound.frames.drop_last() =~= c.frames);
    assert(bound.pop_frame() == c);
    lemma_bound_alias_resolves(c, first, alias);
    lemma_bound_alias_resolves(c, second, alias);
}

proof fn lemma_bound_alias_resolves(c: ContextView, table: TableName, alias: Seq<IdentName>)
    requires
        c.wf(),
    ensures
        c.push_frame().add_table_alias(table, alias).resolve(c.name_of(alias)) == table,
{
    let bound = c.push_frame().add_table_alias(table, alias);
    let key = c.name_of(alias);
    let empty = Seq::<AliasPair>::empty();
    assert(lookup(empty, key) is None);
    assert(bind(empty, key, table) == empty.push((key, table)));
    assert(empty.push((key, table)).drop_last() =~= empty);
    assert(lookup(bind(empty, key, table), key) == Some(table));
    assert(bound.frames.last().aliases == bind(empty, key, table));
}

/// The lineage of a statement is a function of the statement and the
/// configuration: two analyses of the same statement, each from a context of
/// its own, end alike and with the same record.
pub proof fn lemma_lineage_is_repeatable(
    s: &Statement,
    dialect: Dialect,
    default_schema: Option<String>,
    first: Result<Frame, Unsupported>,
    second: Result<Frame, Unsupported>,
)
    requires
        call_ensures(lineage, (s, dialect, default_schema), first),
        call_ensures(lineage, (s, dialect, default_schema), second),
    ensures
        first is Ok <==> second is Ok,
        first is Ok ==> first->Ok_0@ == second->Ok_0@,
        first is Err ==> first->Err_0@ == second->Err_0@,
{
}

// The collections of a frame as sets, and its aliases as a map

/// Registering an alias is an update of a map: afterwards the alias stands
/// for the table, and every other name stands for what it stood for.
pub proof fn lemma_bind_is_an_update(
    aliases: Seq<AliasPair>,
    alias: TableName,
    table: TableName,
    name: TableName,
)
    ensures
        lookup(bind(aliases, alias, table), name) == if name == alias {
            Some(table)
        } else {
            lookup(aliases, name)
        },
{
    let bound = aliases.push((alias, table));
    assert(bound.drop_last() =~= aliases);
    assert(bound.last() == (alias, table));
}

/// Registering the aliases of another frame is a union of maps in which the
/// other frame decides: a name that it knows stands for what it says, and
/// every other name stands for what it stood for.
pub proof fn lemma_bind_all_is_a_union(
    aliases: Seq<AliasPair>,
    more: Seq<AliasPair>,
    name: TableName,
)
    ensures
        lookup(bind_all(aliases, more), name) == match lookup(more, name) {
            Some(table) => Some(table),
            None => lookup(aliases, name),
        },
    decreases more.len(),
{
    if more.len() > 0 {
        lemma_bind_all_is_a_union(aliases, more.drop_last(), name);
        lemma_bind_is_an_update(
            bind_all(aliases, more.drop_last()),
            more.last().0,
            more.last().1,
            name,
        );
    }
}

/// Merging a frame in as it stands is the union of sets, collection by
/// collection; the order in which the elements arrived does not matter to
/// what the sets hold.
pub proof fn lemma_collect_is_a_union(f: FrameView, child: FrameView)
    ensures
        f.collect(child).inputs.to_set() == f.inputs.to_set().union(child.inputs.to_set()),
        f.collect(child).outputs.to_set() == f.outputs.to_set().union(child.outputs.to_set()),
        f.collect(child).non_table_inputs.to_set() == f.non_table_inputs.to_set().union(
            child.non_table_inputs.to_set(),
        ),
        f.collect(child).non_table_outputs.to_set() == f.non_table_outputs.to_set().union(
            child.non_table_outputs.to_set(),
        ),
        f.collect(child).column_lineage.to_set() == f.column_lineage.to_set().union(
            child.column_lineage.to_set(),
        ),
        f.collect(child).aliases == f.aliases,
{
    lemma_union(f.inputs, child.inputs);
    lemma_union(f.outputs, child.outputs);
    lemma_union(f.non_table_inputs, child.non_table_inputs);
    lemma_union(f.non_table_outputs, child.non_table_outputs);
    lemma_union(f.column_lineage, child.column_lineage);
}

/// Merging a frame in under a name adds what it reads, keeps what was
/// written, and makes the name stand for itself.
pub proof fn lemma_collect_with_table_as_sets(f: FrameView, child: FrameView, table: TableName)
    ensures
        f.collect_with_table(child, table).inputs.to_set() == f.inputs.to_set().union(
            child.inputs.to_set(),
        ),
        f.collect_with_table(child, table).outputs == f.outputs,
        f.collect_with_table(child, table).non_table_outputs == f.non_table_outputs,
        stands_in(f.collect_with_table(child, table).aliases, table),
        f.collect_with_table(child, table).column_lineage.to_set()
            == f.column_lineage.to_set().union(attributed(child.column_lineage, table).to_set()),
{
    lemma_union(f.inputs, child.inputs);
    lemma_union(f.column_lineage, attributed(child.column_lineage, table));
    lemma_bind_is_an_update(f.aliases, table, table, table);
}

/// Folding an outer frame in leaves, of the tables read, those that do not
/// stand in for a subquery of the outer frame, and adds the tables that the
/// outer frame reads.
pub proof fn lemma_coalesce_inputs(f: FrameView, outer: FrameView)
    ensures
        forall|t: TableName| #[trigger]
            f.coalesce(outer).inputs.contains(t) <==> (f.inputs.contains(t) && !stands_in(
                outer.aliases,
                t,
            )) || outer.inputs.contains(t),
        f.coalesce(outer).outputs.to_set() == f.outputs.to_set().union(outer.outputs.to_set()),
{
    let kept = without_stand_ins(f.inputs, outer.aliases);
    lemma_without_stand_ins(f.inputs, outer.aliases);
    lemma_union(kept, outer.inputs);
    lemma_union(f.outputs, outer.outputs);
    assert forall|t: TableName| #[trigger]
        f.coalesce(outer).inputs.contains(t) <==> (f.inputs.contains(t) && !stands_in(
            outer.aliases,
            t,
        )) || outer.inputs.contains(t) by {
        let merged = union(kept, outer.inputs);
        assert(merged.to_set().contains(t) == merged.contains(t));
        assert(kept.to_set().contains(t) == kept.contains(t));
        assert(outer.inputs.to_set().contains(t) == outer.inputs.contains(t));
    }
}

/// Adding an edge or a number of edges is the insertion into a set.
pub proof fn lemma_edges_are_a_set(
    edges: Seq<Edge>,
    descendant: ColumnName,
    ancestors: Seq<ColumnName>,
    e: Edge,
)
    ensures
        union(edges, edges_from(descendant, ancestors)).contains(e) <==> edges.contains(e) || (e.0
            == descendant && ancestors.contains(e.1)),
{
    let more = edges_from(descendant, ancestors);
    lemma_union(edges, more);
    let merged = union(edges, more);
    assert(merged.to_set().contains(e) == merged.contains(e));
    assert(edges.to_set().contains(e) == edges.contains(e));
    assert(more.to_set().contains(e) == more.contains(e));
    if more.contains(e) {
        let i = choose|i: int| 0 <= i < more.len() && more[i] == e;
        assert(ancestors[i] == e.1);
    }
    if e.0 == descendant && ancestors.contains(e.1) {
        let i = choose|i: int| 0 <= i < ancestors.len() && ancestors[i] == e.1;
        assert(more[i] == e);
    }
}

/// Whether the edge at the place `i` of `edges` gives the edge `e` when the
/// outer frame with the edges `outer` is folded in: `e` begins where that
/// edge begins, and it ends at what `outer` derives the ancestor of that
/// edge from, or at that ancestor itself where `outer` does not derive it.
pub open spec fn gives(edges: Seq<Edge>, outer: Seq<Edge>, e: Edge, i: int) -> bool {
    &&& 0 <= i < edges.len()
    &&& edges[i].0 == e.0
    &&& if backing(outer, edges[i].1).len() == 0 {
        edges[i].1 == e.1
    } else {
        outer.contains((edges[i].1, e.1))
    }
}

/// Folding an outer frame in puts, for each edge, what the outer frame
/// derives its ancestor from in the place of the ancestor; an edge whose
/// ancestor the outer frame does not derive stays as it is.
pub proof fn lemma_substituted_as_a_set(edges: Seq<Edge>, outer: Seq<Edge>, e: Edge)
    ensures
        substituted(edges, outer).contains(e) <==> exists|i: int| gives(edges, outer, e, i),
    decreases edges.len(),
{
    if edges.len() == 0 {
    } else {
        let rest = edges.drop_last();
        let last = edges.last();
        let done = substituted(rest, outer);
        lemma_substituted_as_a_set(rest, outer, e);
        let b = backing(outer, last.1);
        lemma_backing(outer, last.1);
        let grown = substituted(edges, outer);
        if b.len() == 0 {
            lemma_insert(done, last);
            assert(grown.to_set().contains(e) == grown.contains(e));
            assert(done.to_set().contains(e) == done.contains(e));
        } else {
            lemma_edges_are_a_set(done, last.0, b, e);
            assert(b.contains(e.1) <==> outer.contains((last.1, e.1)));
        }
        if grown.contains(e) {
            if done.contains(e) {
                let i = choose|i: int| gives(rest, outer, e, i);
                assert(edges[i] == rest[i]);
                assert(gives(edges, outer, e, i));
            } else {
                assert(edges[edges.len() - 1] == last);
                assert(gives(edges, outer, e, edges.len() - 1));
            }
        }
        if exists|i: int| gives(edges, outer, e, i) {
            let i = choose|i: int| gives(edges, outer, e, i);
            if i < rest.len() {
                assert(rest[i] == edges[i]);
                assert(gives(rest, outer, e, i));
                assert(done.contains(e));
            } else {
                assert(edges[i] == last);
                if b.len() == 0 {
                    assert(e == last);
                }
            }
        }
    }
}

/// The ancestors that a list of edges records for a column are the second
/// halves of the edges that begin with it.
pub proof fn lemma_backing(edges: Seq<Edge>, column: ColumnName)
    ensures
        forall|a: ColumnName| #[trigger]
            backing(edges, column).contains(a) <==> edges.contains((column, a)),
    decreases edges.len(),
{
    let b = backing(edges, column);
    if edges.len() == 0 {
    } else {
        let rest = edges.drop_last();
        let last = edges.last();
        let br = backing(rest, column);
        lemma_backing(rest, column);
        assert forall|a: ColumnName| #[trigger] b.contains(a) <==> edges.contains((column, a)) by {
            if edges.contains((column, a)) {
                let i = choose|i: int| 0 <= i < edges.len() && edges[i] == (column, a);
                if i < rest.len() {
                    assert(rest[i] == (column, a));
                    assert(br.contains(a));
                    let k = choose|k: int| 0 <= k < br.len() && br[k] == a;
                    assert(b[k] == a);
                } else {
                    assert(last == (column, a));
                    assert(b[br.len() as int] == a);
                }
            }
            if b.contains(a) {
                let k = choose|k: int| 0 <= k < b.len() && b[k] == a;
                if k < br.len() {
                    assert(br[k] == a);
                    assert(br.contains(a));
                    assert(rest.contains((column, a)));
                    let i = choose|i: int| 0 <= i < rest.len() && rest[i] == (column, a);
                    assert(edges[i] == (column, a));
                } else {
                    assert(edges[edges.len() - 1] == (column, a));
                }
            }
        }
    }
}

/// Folding in a frame that derives nothing keeps the edges.
pub proof fn lemma_substituted_nothing(edges: Seq<Edge>)
    ensures
        substituted(edges, Seq::empty()).to_set() == edges.to_set(),
    decreases edges.len(),
{
    let none = Seq::<Edge>::empty();
    if edges.len() == 0 {
        assert(substituted(edges, none).to_set() =~= edges.to_set());
    } else {
        let rest = edges.drop_last();
        lemma_substituted_nothing(rest);
        lemma_insert(substituted(rest, none), edges.last());
        assert(backing(none, edges.last().1).len() == 0);
        assert forall|e: Edge| edges.to_set().contains(e) == rest.to_set().insert(
            edges.last(),
        ).contains(e) by {
            if edges.contains(e) {
                let i = choose|i: int| 0 <= i < edges.len() && edges[i] == e;
                if i < rest.len() {
                    assert(rest[i] == e);
                }
            }
            if rest.contains(e) {
                let i = choose|i: int| 0 <= i < rest.len() && rest[i] == e;
                assert(edges[i] == e);
            }
            assert(edges[edges.len() - 1] == edges.last());
        }
        assert(edges.to_set() =~= rest.to_set().insert(edges.last()));
    }
}

/// Folding in a frame that derives nothing keeps edges that are free of
/// repetitions as they are, in their order.
pub proof fn lemma_substituted_nothing_keeps_order(edges: Seq<Edge>)
    requires
        edges.no_duplicates(),
    ensures
        substituted(edges, Seq::empty()) == edges,
    decreases edges.len(),
{
    let none = Seq::<Edge>::empty();
    if edges.len() == 0 {
        assert(substituted(edges, none) =~= edges);
    } else {
        let rest = edges.drop_last();
        lemma_substituted_nothing_keeps_order(rest);
        assert(backing(none, edges.last().1).len() == 0);
        if rest.contains(edges.last()) {
            let i = choose|i: int| 0 <= i < rest.len() && rest[i] == edges.last();
            assert(edges[i] == edges[edges.len() - 1]);
        }
        assert(rest.push(edges.last()) =~= edges);
    }
}

/// Registering one pair after another is registering the pair.
pub proof fn lemma_bind_all_of_one(aliases: Seq<AliasPair>, alias: TableName, table: TableName)
    ensures
        bind_all(aliases, seq![(alias, table)]) == bind(aliases, alias, table),
        bind_all(aliases, Seq::empty()) == aliases,
        lookup(bind(aliases, alias, table), alias) == Some(table),
        bind(bind(aliases, alias, table), alias, table) == bind(aliases, alias, table),
{
    let one = seq![(alias, table)];
    assert(one.drop_last() =~= Seq::<AliasPair>::empty());
    assert(bind_all(aliases, one.drop_last()) == aliases);
    assert(one.last() == (alias, table));
    if lookup(aliases, alias) != Some(table) {
        assert(aliases.push((alias, table)).drop_last() =~= aliases);
    }
}

/// Folding is idempotent: a character that has been folded folds to
/// itself, so a name that has been normalized stays as it is when it is
/// normalized again.
pub proof fn lemma_folding_is_idempotent(d: Dialect, value: Seq<char>)
    requires
        !is_wrapped(value, quote_of(d)),
        !is_wrapped(normalize(d, value, false), quote_of(d)),
    ensures
        normalize(d, normalize(d, value, false), false) == normalize(d, value, false),
{
    let once = normalize(d, value, false);
    assert forall|i: int| 0 <= i < value.len() implies fold_char(d, fold_char(d, value[i]))
        == fold_char(d, value[i]) by {
        let c = value[i];
        if 'A' <= c && c <= 'Z' {
            assert(lower_char(c) as u8 == c as u8 + 32);
        }
        if 'a' <= c && c <= 'z' {
            assert(upper_char(c) as u8 == c as u8 - 32);
        }
    }
    assert(normalize(d, once, false) =~= once);
}

} // verus!
