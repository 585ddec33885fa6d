//! A frame gathers the lineage facts of one query block: the tables read
//! and written, the resources that are no relations, the aliases in force
//! and the column ancestry.
//!
//! Each collection is an ordered set. The column ancestry is kept as the
//! set of its (descendant, ancestor) pairs: the ancestors of a column are
//! the second halves of the pairs that begin with it.

use crate::lineage::{opt_table_view, ColumnMeta, ColumnName, DbTableMeta, TableName};
use crate::sets::{copy_all, insert, lemma_insert, lemma_union, put, put_all, union, views, Entry};
use vstd::prelude::*;

verus! {

/// A resource that is read or written like a table but is no relation.
pub struct ResourceName {
    pub name: TableName,
    pub table_like: bool,
    pub quoted: bool,
}

/// An alias and the table it stands for.
pub type AliasPair = (TableName, TableName);

/// A descendant column and one of its ancestors.
pub type Edge = (ColumnName, ColumnName);

/// A resource that is read or written like a table but is no relation, such
/// as a stage or a storage location.
#[derive(Debug)]
pub struct NonTable {
    pub name: DbTableMeta,
    pub table_like: bool,
    pub quoted: bool,
}

impl View for NonTable {
    type V = ResourceName;

    open spec fn view(&self) -> ResourceName {
        ResourceName { name: self.name@, table_like: self.table_like, quoted: self.quoted }
    }
}

/// An alias and the table it stands for.
#[derive(Debug)]
pub struct Alias {
    pub alias: DbTableMeta,
    pub table: DbTableMeta,
}

impl View for Alias {
    type V = AliasPair;

    open spec fn view(&self) -> AliasPair {
        (self.alias@, self.table@)
    }
}

/// One step of column ancestry: `descendant` is derived from `ancestor`.
#[derive(Debug)]
pub struct ColumnEdge {
    pub descendant: ColumnMeta,
    pub ancestor: ColumnMeta,
}

impl View for ColumnEdge {
    type V = Edge;

    open spec fn view(&self) -> Edge {
        (self.descendant@, self.ancestor@)
    }
}

impl Entry for DbTableMeta {
    fn same(&self, other: &DbTableMeta) -> (r: bool) {
        self.same_as(other)
    }

    fn copy(&self) -> (r: DbTableMeta) {
        self.clone()
    }
}

impl Entry for ColumnMeta {
    fn same(&self, other: &ColumnMeta) -> (r: bool) {
        self.same_as(other)
    }

    fn copy(&self) -> (r: ColumnMeta) {
        self.clone()
    }
}

impl Entry for NonTable {
    fn same(&self, other: &NonTable) -> (r: bool) {
        self.name.same_as(&other.name) && self.table_like == other.table_like && self.quoted
            == other.quoted
    }

    fn copy(&self) -> (r: NonTable) {
        NonTable { name: self.name.clone(), table_like: self.table_like, quoted: self.quoted }
    }
}

impl Entry for Alias {
    fn same(&self, other: &Alias) -> (r: bool) {
        self.alias.same_as(&other.alias) && self.table.same_as(&other.table)
    }

    fn copy(&self) -> (r: Alias) {
        Alias { alias: self.alias.clone(), table: self.table.clone() }
    }
}

impl Entry for ColumnEdge {
    fn same(&self, other: &ColumnEdge) -> (r: bool) {
        self.descendant.same_as(&other.descendant) && self.ancestor.same_as(&other.ancestor)
    }

    fn copy(&self) -> (r: ColumnEdge) {
        ColumnEdge { descendant: self.descendant.clone(), ancestor: self.ancestor.clone() }
    }
}

/// The table that `name` stands for among `aliases`, if it is an alias. The
/// pair registered last decides.
pub open spec fn lookup(aliases: Seq<AliasPair>, name: TableName) -> Option<TableName>
    decreases aliases.len(),
{
    if aliases.len() == 0 {
        None
    } else if aliases.last().0 == name {
        Some(aliases.last().1)
    } else {
        lookup(aliases.drop_last(), name)
    }
}

/// `aliases` after `alias` has been registered for `table`.
pub open spec fn bind(aliases: Seq<AliasPair>, alias: TableName, table: TableName) -> Seq<
    AliasPair,
> {
    if lookup(aliases, alias) == Some(table) {
        aliases
    } else {
        aliases.push((alias, table))
    }
}

/// `aliases` after each pair of `more` has been registered, in order.
pub open spec fn bind_all(aliases: Seq<AliasPair>, more: Seq<AliasPair>) -> Seq<AliasPair>
    decreases more.len(),
{
    if more.len() == 0 {
        aliases
    } else {
        bind(bind_all(aliases, more.drop_last()), more.last().0, more.last().1)
    }
}

/// Whether `name` is registered in `aliases` as standing for itself: the
/// mark of a name that stands in for a subquery.
pub open spec fn stands_in(aliases: Seq<AliasPair>, name: TableName) -> bool {
    lookup(aliases, name) == Some(name)
}

/// `tables` without the names that stand in for a subquery in `aliases`.
pub open spec fn without_stand_ins(tables: Seq<TableName>, aliases: Seq<AliasPair>) -> Seq<
    TableName,
>
    decreases tables.len(),
{
    if tables.len() == 0 {
        Seq::empty()
    } else if stands_in(aliases, tables.last()) {
        without_stand_ins(tables.drop_last(), aliases)
    } else {
        without_stand_ins(tables.drop_last(), aliases).push(tables.last())
    }
}

/// The ancestors that `edges` records for `column`, in order.
pub open spec fn backing(edges: Seq<Edge>, column: ColumnName) -> Seq<ColumnName>
    decreases edges.len(),
{
    if edges.len() == 0 {
        Seq::empty()
    } else if edges.last().0 == column {
        backing(edges.drop_last(), column).push(edges.last().1)
    } else {
        backing(edges.drop_last(), column)
    }
}

/// One edge from `descendant` to each of `ancestors`.
pub open spec fn edges_from(descendant: ColumnName, ancestors: Seq<ColumnName>) -> Seq<Edge> {
    ancestors.map_values(|a: ColumnName| (descendant, a))
}

/// `edges` with each ancestor that `outer` knows as a descendant replaced by
/// what `outer` derives it from.
pub open spec fn substituted(edges: Seq<Edge>, outer: Seq<Edge>) -> Seq<Edge>
    decreases edges.len(),
{
    if edges.len() == 0 {
        Seq::empty()
    } else {
        let rest = substituted(edges.drop_last(), outer);
        let e = edges.last();
        let b = backing(outer, e.1);
        if b.len() == 0 {
            insert(rest, e)
        } else {
            union(rest, edges_from(e.0, b))
        }
    }
}

/// `edges` with every descendant attributed to `table`.
pub open spec fn attributed(edges: Seq<Edge>, table: TableName) -> Seq<Edge> {
    edges.map_values(|e: Edge| (ColumnName { name: e.0.name, origin: Some(table) }, e.1))
}

/// The model of a frame.
pub struct FrameView {
    pub inputs: Seq<TableName>,
    pub outputs: Seq<TableName>,
    pub non_table_inputs: Seq<ResourceName>,
    pub non_table_outputs: Seq<ResourceName>,
    pub aliases: Seq<AliasPair>,
    pub column_lineage: Seq<Edge>,
}

impl FrameView {
    /// The frame that holds nothing.
    pub open spec fn empty() -> FrameView {
        FrameView {
            inputs: Seq::empty(),
            outputs: Seq::empty(),
            non_table_inputs: Seq::empty(),
            non_table_outputs: Seq::empty(),
            aliases: Seq::empty(),
            column_lineage: Seq::empty(),
        }
    }

    /// Whether no collection of the frame holds an element twice.
    pub open spec fn distinct(self) -> bool {
        &&& self.inputs.no_duplicates()
        &&& self.outputs.no_duplicates()
        &&& self.non_table_inputs.no_duplicates()
        &&& self.non_table_outputs.no_duplicates()
        &&& self.column_lineage.no_duplicates()
    }

    /// The ancestors of `column`.
    pub open spec fn ancestors(self, column: ColumnName) -> Set<ColumnName> {
        backing(self.column_lineage, column).to_set()
    }

    /// The frame after `child` has been merged in as it stands: what it
    /// reads, writes and derives is added. Its aliases stay behind.
    pub open spec fn collect(self, child: FrameView) -> FrameView {
        FrameView {
            inputs: union(self.inputs, child.inputs),
            outputs: union(self.outputs, child.outputs),
            non_table_inputs: union(self.non_table_inputs, child.non_table_inputs),
            non_table_outputs: union(self.non_table_outputs, child.non_table_outputs),
            aliases: self.aliases,
            column_lineage: union(self.column_lineage, child.column_lineage),
        }
    }

    /// The frame after `child` has been merged in under the name `table`:
    /// what it reads is added, what it writes is dropped, `table` is
    /// registered as standing for itself, and each column that `child`
    /// derives becomes a column of `table`.
    pub open spec fn collect_with_table(self, child: FrameView, table: TableName) -> FrameView {
        FrameView {
            inputs: union(self.inputs, child.inputs),
            outputs: self.outputs,
            non_table_inputs: union(self.non_table_inputs, child.non_table_inputs),
            non_table_outputs: self.non_table_outputs,
            aliases: bind(self.aliases, table, table),
            column_lineage: union(self.column_lineage, attributed(child.column_lineage, table)),
        }
    }

    /// The frame after the aliases of `child` have been registered in it.
    pub open spec fn collect_aliases(self, child: FrameView) -> FrameView {
        FrameView { aliases: bind_all(self.aliases, child.aliases), ..self }
    }

    /// The frame after the outer frame `outer` has been folded into it. The
    /// aliases and resources of `outer` are added. The names that stand in
    /// for a subquery in `outer` leave the inputs, and the inputs of
    /// `outer` arrive. Each ancestor that `outer` derives is replaced by
    /// what `outer` derives it from.
    pub open spec fn coalesce(self, outer: FrameView) -> FrameView {
        FrameView {
            inputs: union(without_stand_ins(self.inputs, outer.aliases), outer.inputs),
            outputs: union(self.outputs, outer.outputs),
            non_table_inputs: union(self.non_table_inputs, outer.non_table_inputs),
            non_table_outputs: union(self.non_table_outputs, outer.non_table_outputs),
            aliases: bind_all(self.aliases, outer.aliases),
            column_lineage: substituted(self.column_lineage, outer.column_lineage),
        }
    }
}

/// Taking out the names that stand in for a subquery keeps the order of the
/// others, and keeps a sequence free of repetitions free of them.
pub proof fn lemma_without_stand_ins(tables: Seq<TableName>, aliases: Seq<AliasPair>)
    ensures
        forall|t: TableName| #[trigger]
            without_stand_ins(tables, aliases).contains(t) <==> tables.contains(t) && lookup(
                aliases,
                t,
            ) != Some(t),
        tables.no_duplicates() ==> without_stand_ins(tables, aliases).no_duplicates(),
        aliases.len() == 0 ==> without_stand_ins(tables, aliases) == tables,
    decreases tables.len(),
{
    let r = without_stand_ins(tables, aliases);
    if tables.len() == 0 {
        assert(r =~= tables);
    } else {
        let rest = tables.drop_last();
        let last = tables.last();
        let rr = without_stand_ins(rest, aliases);
        lemma_without_stand_ins(rest, aliases);
        assert forall|t: TableName| #[trigger]
            r.contains(t) <==> tables.contains(t) && lookup(aliases, t) != Some(t) by {
            if tables.contains(t) {
                let i = choose|i: int| 0 <= i < tables.len() && tables[i] == t;
                if i < rest.len() {
                    assert(rest[i] == t);
                }
            }
            if rest.contains(t) {
                let i = choose|i: int| 0 <= i < rest.len() && rest[i] == t;
                assert(tables[i] == t);
            }
            if lookup(aliases, last) == Some(last) {
            } else {
                if rr.contains(t) {
                    let i = choose|i: int| 0 <= i < rr.len() && rr[i] == t;
                    assert(r[i] == t);
                }
                if r.contains(t) {
                    let i = choose|i: int| 0 <= i < r.len() && r[i] == t;
                    if i < rr.len() {
                        assert(rr[i] == t);
                    }
                }
                assert(r[rr.len() as int] == last);
                assert(tables[tables.len() - 1] == last);
            }
        }
        if tables.no_duplicates() {
            assert forall|i: int, j: int| 0 <= i < rest.len() && 0 <= j < rest.len() && i
                != j implies rest[i] != rest[j] by {
                assert(rest[i] == tables[i] && rest[j] == tables[j]);
            }
            if lookup(aliases, last) != Some(last) {
                if rr.contains(last) {
                    let i = choose|i: int| 0 <= i < rest.len() && rest[i] == last;
                    assert(tables[i] == tables[tables.len() - 1]);
                }
                assert(r.no_duplicates());
            }
        }
        if aliases.len() == 0 {
            assert(r =~= tables);
        }
    }
}

/// What is put for an ancestor never holds an edge twice.
pub proof fn lemma_substituted_distinct(edges: Seq<Edge>, outer: Seq<Edge>)
    ensures
        substituted(edges, outer).no_duplicates(),
    decreases edges.len(),
{
    if edges.len() > 0 {
        let rest = substituted(edges.drop_last(), outer);
        lemma_substituted_distinct(edges.drop_last(), outer);
        let e = edges.last();
        lemma_insert(rest, e);
        lemma_union(rest, edges_from(e.0, backing(outer, e.1)));
    }
}

/// Every way of merging frames keeps a frame whose collections hold no
/// element twice in that state: the collections of a frame are sets.
pub proof fn lemma_frames_stay_distinct(f: FrameView, other: FrameView, table: TableName)
    requires
        f.distinct(),
    ensures
        FrameView::empty().distinct(),
        f.collect(other).distinct(),
        f.collect_with_table(other, table).distinct(),
        f.collect_aliases(other).distinct(),
        f.coalesce(other).distinct(),
{
    lemma_union(f.inputs, other.inputs);
    lemma_union(f.outputs, other.outputs);
    lemma_union(f.non_table_inputs, other.non_table_inputs);
    lemma_union(f.non_table_outputs, other.non_table_outputs);
    lemma_union(f.column_lineage, other.column_lineage);
    lemma_union(f.column_lineage, attributed(other.column_lineage, table));
    lemma_without_stand_ins(f.inputs, other.aliases);
    lemma_union(without_stand_ins(f.inputs, other.aliases), other.inputs);
    lemma_substituted_distinct(f.column_lineage, other.column_lineage);
}

/// The table that `name` stands for among `aliases`, if it is an alias.
pub fn find_alias(aliases: &Vec<Alias>, name: &DbTableMeta) -> (r: Option<DbTableMeta>)
    ensures
        opt_table_view(r) == lookup(views(aliases@), name@),
{
    let mut i: usize = aliases.len();
    assert(views(aliases@).take(aliases.len() as int) == views(aliases@));
    while i > 0
        invariant
            i <= aliases.len(),
            lookup(views(aliases@), name@) == lookup(views(aliases@).take(i as int), name@),
        decreases i,
    {
        proof {
            let all = views(aliases@);
            assert(all.take(i as int).drop_last() == all.take(i - 1));
            assert(all.take(i as int).last() == aliases@[i - 1]@);
        }
        if aliases[i - 1].alias.same_as(name) {
            return Some(aliases[i - 1].table.clone());
        }
        i = i - 1;
    }
    None
}

/// Registers `alias` for `table` in `aliases`.
pub fn put_alias(aliases: &mut Vec<Alias>, alias: DbTableMeta, table: DbTableMeta)
    ensures
        views(final(aliases)@) == bind(views(old(aliases)@), alias@, table@),
{
    let known = find_alias(aliases, &alias);
    let same = match &known {
        Some(t) => t.same_as(&table),
        None => false,
    };
    if !same {
        aliases.push(Alias { alias, table });
        assert(views(aliases@) =~= views(old(aliases)@).push((alias@, table@)));
    }
}

/// Registers each alias of `more` in `aliases`, in order.
pub fn put_aliases(aliases: &mut Vec<Alias>, more: &Vec<Alias>)
    ensures
        views(final(aliases)@) == bind_all(views(old(aliases)@), views(more@)),
{
    let mut i: usize = 0;
    while i < more.len()
        invariant
            i <= more.len(),
            views(aliases@) == bind_all(views(old(aliases)@), views(more@).take(i as int)),
        decreases more.len() - i,
    {
        put_alias(aliases, more[i].alias.clone(), more[i].table.clone());
        proof {
            let all = views(more@);
            assert(all.take(i + 1).drop_last() == all.take(i as int));
            assert(all.take(i + 1).last() == more@[i as int]@);
        }
        i = i + 1;
    }
    assert(views(more@).take(more.len() as int) == views(more@));
}

/// The tables of `tables` that do not stand in for a subquery in `aliases`.
pub fn drop_stand_ins(tables: &Vec<DbTableMeta>, aliases: &Vec<Alias>) -> (r: Vec<DbTableMeta>)
    ensures
        views(r@) == without_stand_ins(views(tables@), views(aliases@)),
{
    let mut out: Vec<DbTableMeta> = Vec::new();
    let mut i: usize = 0;
    while i < tables.len()
        invariant
            i <= tables.len(),
            views(out@) == without_stand_ins(views(tables@).take(i as int), views(aliases@)),
        decreases tables.len() - i,
    {
        let target = find_alias(aliases, &tables[i]);
        let stand_in = match &target {
            Some(t) => t.same_as(&tables[i]),
            None => false,
        };
        let ghost before = views(out@);
        if !stand_in {
            out.push(tables[i].clone());
            assert(views(out@) =~= before.push(tables@[i as int]@));
        }
        proof {
            let all = views(tables@);
            assert(all.take(i + 1).drop_last() == all.take(i as int));
            assert(all.take(i + 1).last() == tables@[i as int]@);
        }
        i = i + 1;
    }
    assert(views(tables@).take(tables.len() as int) == views(tables@));
    out
}

/// The ancestors that `edges` records for `column`, in order.
pub fn backing_of(edges: &Vec<ColumnEdge>, column: &ColumnMeta) -> (r: Vec<ColumnMeta>)
    ensures
        views(r@) == backing(views(edges@), column@),
{
    let mut out: Vec<ColumnMeta> = Vec::new();
    let mut i: usize = 0;
    while i < edges.len()
        invariant
            i <= edges.len(),
            views(out@) == backing(views(edges@).take(i as int), column@),
        decreases edges.len() - i,
    {
        let ghost before = views(out@);
        if edges[i].descendant.same_as(column) {
            out.push(edges[i].ancestor.clone());
            assert(views(out@) =~= before.push(edges@[i as int].ancestor@));
        }
        proof {
            let all = views(edges@);
            assert(all.take(i + 1).drop_last() == all.take(i as int));
            assert(all.take(i + 1).last() == edges@[i as int]@);
        }
        i = i + 1;
    }
    assert(views(edges@).take(edges.len() as int) == views(edges@));
    out
}

/// Adds one edge from `descendant` to each of `ancestors`.
pub fn put_edges(edges: &mut Vec<ColumnEdge>, descendant: &ColumnMeta, ancestors: &Vec<ColumnMeta>)
    ensures
        views(final(edges)@) == union(
            views(old(edges)@),
            edges_from(descendant@, views(ancestors@)),
        ),
{
    let mut i: usize = 0;
    while i < ancestors.len()
        invariant
            i <= ancestors.len(),
            views(edges@) == union(
                views(old(edges)@),
                edges_from(descendant@, views(ancestors@).take(i as int)),
            ),
        decreases ancestors.len() - i,
    {
        put(edges, ColumnEdge { descendant: descendant.clone(), ancestor: ancestors[i].clone() });
        proof {
            let all = views(ancestors@);
            let next = edges_from(descendant@, all.take(i + 1));
            assert(next.drop_last() =~= edges_from(descendant@, all.take(i as int)));
            assert(next.last() == (descendant@, ancestors@[i as int]@));
        }
        i = i + 1;
    }
    assert(views(ancestors@).take(ancestors.len() as int) == views(ancestors@));
}

/// `edges` with each ancestor that `outer` knows as a descendant replaced by
/// what `outer` derives it from.
pub fn substitute(edges: &Vec<ColumnEdge>, outer: &Vec<ColumnEdge>) -> (r: Vec<ColumnEdge>)
    ensures
        views(r@) == substituted(views(edges@), views(outer@)),
{
    let mut out: Vec<ColumnEdge> = Vec::new();
    let mut i: usize = 0;
    while i < edges.len()
        invariant
            i <= edges.len(),
            views(out@) == substituted(views(edges@).take(i as int), views(outer@)),
        decreases edges.len() - i,
    {
        let b = backing_of(outer, &edges[i].ancestor);
        proof {
            let all = views(edges@);
            assert(all.take(i + 1).drop_last() == all.take(i as int));
            assert(all.take(i + 1).last() == edges@[i as int]@);
        }
        if b.len() == 0 {
            put(&mut out, edges[i].copy());
        } else {
            put_edges(&mut out, &edges[i].descendant, &b);
        }
        i = i + 1;
    }
    assert(views(edges@).take(edges.len() as int) == views(edges@));
    out
}

/// The lineage facts of one query block.
#[derive(Debug)]
pub struct Frame {
    pub inputs: Vec<DbTableMeta>,
    pub outputs: Vec<DbTableMeta>,
    pub non_table_inputs: Vec<NonTable>,
    pub non_table_outputs: Vec<NonTable>,
    pub aliases: Vec<Alias>,
    pub column_lineage: Vec<ColumnEdge>,
}

impl View for Frame {
    type V = FrameView;

    open spec fn view(&self) -> FrameView {
        FrameView {
            inputs: views(self.inputs@),
            outputs: views(self.outputs@),
            non_table_inputs: views(self.non_table_inputs@),
            non_table_outputs: views(self.non_table_outputs@),
            aliases: views(self.aliases@),
            column_lineage: views(self.column_lineage@),
        }
    }
}

impl Frame {
    /// The frame that holds nothing.
    pub fn new() -> (r: Frame)
        ensures
            r@ == FrameView::empty(),
    {
        let r = Frame {
            inputs: Vec::new(),
            outputs: Vec::new(),
            non_table_inputs: Vec::new(),
            non_table_outputs: Vec::new(),
            aliases: Vec::new(),
            column_lineage: Vec::new(),
        };
        assert(r@.inputs =~= Seq::empty());
        assert(r@.outputs =~= Seq::empty());
        assert(r@.non_table_inputs =~= Seq::empty());
        assert(r@.non_table_outputs =~= Seq::empty());
        assert(r@.aliases =~= Seq::empty());
        assert(r@.column_lineage =~= Seq::empty());
        r
    }

    /// Merges `child` in as it stands.
    pub fn collect(&mut self, child: Frame)
        ensures
            final(self)@ == old(self)@.collect(child@),
    {
        put_all(&mut self.inputs, &child.inputs);
        put_all(&mut self.outputs, &child.outputs);
        put_all(&mut self.non_table_inputs, &child.non_table_inputs);
        put_all(&mut self.non_table_outputs, &child.non_table_outputs);
        put_all(&mut self.column_lineage, &child.column_lineage);
    }

    /// Merges `child` in under the name `table`.
    pub fn collect_with_table(&mut self, child: Frame, table: DbTableMeta)
        ensures
            final(self)@ == old(self)@.collect_with_table(child@, table@),
    {
        put_all(&mut self.inputs, &child.inputs);
        put_all(&mut self.non_table_inputs, &child.non_table_inputs);
        put_alias(&mut self.aliases, table.clone(), table.clone());
        let mut i: usize = 0;
        while i < child.column_lineage.len()
            invariant
                i <= child.column_lineage.len(),
                views(self.column_lineage@) == union(
                    views(old(self).column_lineage@),
                    attributed(views(child.column_lineage@).take(i as int), table@),
                ),
                views(self.inputs@) == union(views(old(self).inputs@), views(child.inputs@)),
                views(self.non_table_inputs@) == union(
                    views(old(self).non_table_inputs@),
                    views(child.non_table_inputs@),
                ),
                views(self.aliases@) == bind(views(old(self).aliases@), table@, table@),
                self.outputs == old(self).outputs,
                self.non_table_outputs == old(self).non_table_outputs,
            decreases child.column_lineage.len() - i,
        {
            let e = &child.column_lineage[i];
            let descendant = ColumnMeta::new(e.descendant.name.clone(), Some(table.clone()));
            put(&mut self.column_lineage, ColumnEdge { descendant, ancestor: e.ancestor.clone() });
            proof {
                let all = views(child.column_lineage@);
                let next = attributed(all.take(i + 1), table@);
                assert(next.drop_last() =~= attributed(all.take(i as int), table@));
                assert(next.last() == (
                    ColumnName { name: e.descendant.name@, origin: Some(table@) },
                    e.ancestor@,
                ));
            }
            i = i + 1;
        }
        assert(views(child.column_lineage@).take(child.column_lineage.len() as int) == views(
            child.column_lineage@,
        ));
    }

    /// Registers the aliases of `child`.
    pub fn collect_aliases(&mut self, child: &Frame)
        ensures
            final(self)@ == old(self)@.collect_aliases(child@),
    {
        put_aliases(&mut self.aliases, &child.aliases);
    }

    /// Folds the outer frame `outer` into this one.
    pub fn coalesce(&mut self, outer: Frame)
        ensures
            final(self)@ == old(self)@.coalesce(outer@),
    {
        let mut inputs = drop_stand_ins(&self.inputs, &outer.aliases);
        put_all(&mut inputs, &outer.inputs);
        self.inputs = inputs;
        put_all(&mut self.outputs, &outer.outputs);
        put_all(&mut self.non_table_inputs, &outer.non_table_inputs);
        put_all(&mut self.non_table_outputs, &outer.non_table_outputs);
        put_aliases(&mut self.aliases, &outer.aliases);
        self.column_lineage = substitute(&self.column_lineage, &outer.column_lineage);
    }

    /// The ancestors of `column`, in the order in which they arrived.
    pub fn ancestors_of(&self, column: &ColumnMeta) -> (r: Vec<ColumnMeta>)
        ensures
            views(r@) == backing(self@.column_lineage, column@),
            views(r@).to_set() == self@.ancestors(column@),
    {
        backing_of(&self.column_lineage, column)
    }
}

impl Entry for Frame {
    fn same(&self, other: &Frame) -> (r: bool) {
        let r = same_all(&self.inputs, &other.inputs) && same_all(&self.outputs, &other.outputs)
            && same_all(&self.non_table_inputs, &other.non_table_inputs) && same_all(
            &self.non_table_outputs,
            &other.non_table_outputs,
        ) && same_all(&self.aliases, &other.aliases) && same_all(
            &self.column_lineage,
            &other.column_lineage,
        );
        r
    }

    fn copy(&self) -> (r: Frame) {
        Frame {
            inputs: copy_all(&self.inputs),
            outputs: copy_all(&self.outputs),
            non_table_inputs: copy_all(&self.non_table_inputs),
            non_table_outputs: copy_all(&self.non_table_outputs),
            aliases: copy_all(&self.aliases),
            column_lineage: copy_all(&self.column_lineage),
        }
    }
}

/// Whether the two vectors hold elements with the same views in the same
/// order.
pub fn same_all<T: Entry>(a: &Vec<T>, b: &Vec<T>) -> (r: bool)
    ensures
        r == (views(a@) == views(b@)),
{
    if a.len() != b.len() {
        assert(views(a@).len() != views(b@).len());
        return false;
    }
    let mut i: usize = 0;
    while i < a.len()
        invariant
            i <= a.len(),
            a.len() == b.len(),
            forall|j: int| 0 <= j < i ==> a@[j]@ == b@[j]@,
        decreases a.len() - i,
    {
        if !a[i].same(&b[i]) {
            assert(views(a@)[i as int] != views(b@)[i as int]);
            return false;
        }
        i = i + 1;
    }
    assert(views(a@) =~= views(b@));
    true
}

} // verus!
