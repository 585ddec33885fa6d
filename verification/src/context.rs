//! The state of one analysis: a stack of frames, the table and the column
//! that an expression is currently resolved against, and the configuration.
//!
//! The bottom frame of the stack is the root: it is there from the start,
//! and holds the result when the analysis is done. Every operation that
//! records a fact writes to the top frame, so it asks for a frame to be
//! there; a walk pops the frames that it pushed, and no others.

use crate::frame::{
    bind, edges_from, find_alias, lemma_frames_stay_distinct, lookup, put_alias, put_edges, Frame,
    FrameView, NonTable, ResourceName,
};
use crate::lineage::{
    clone_opt_table, clone_strings, opt_string_view, opt_table_view, strings_view, table_name,
    verbatim_parts, ColumnMeta, ColumnName, DbTableMeta, Dialect, Ident, IdentName, TableName,
};
use crate::sets::{copy_all, insert, lemma_insert, lemma_union, put, union, views, Entry};
use vstd::prelude::*;

verus! {

/// The view of an optional column.
pub open spec fn opt_column_view(c: Option<ColumnMeta>) -> Option<ColumnName> {
    match c {
        Some(c) => Some(c@),
        None => None,
    }
}

/// The table that `name` stands for in `frames`: the innermost frame that
/// knows `name` as an alias decides, and a name that no frame knows stands
/// for itself.
pub open spec fn resolve_in(frames: Seq<FrameView>, name: TableName) -> TableName
    decreases frames.len(),
{
    if frames.len() == 0 {
        name
    } else {
        match lookup(frames.last().aliases, name) {
            Some(t) => t,
            None => resolve_in(frames.drop_last(), name),
        }
    }
}

/// The marks of cloud storage that a context knows unless it is told
/// otherwise.
pub open spec fn default_locations() -> Seq<Seq<char>> {
    seq!["gcs://"@, "s3://"@, "azure://"@]
}

/// The model of a context.
pub struct ContextView {
    pub dialect: Dialect,
    pub default_schema: Option<Seq<char>>,
    /// The marks by which the text of a stage is known to name a location
    /// in cloud storage.
    pub locations: Seq<Seq<char>>,
    pub frames: Seq<FrameView>,
    pub table_context: Option<TableName>,
    pub column_context: Option<ColumnName>,
}

impl ContextView {
    /// The context at the start of an analysis.
    pub open spec fn fresh(dialect: Dialect, default_schema: Option<Seq<char>>) -> ContextView {
        ContextView::fresh_with(dialect, default_schema, default_locations())
    }

    /// The context at the start of an analysis that knows cloud storage by
    /// the marks `locations`.
    pub open spec fn fresh_with(
        dialect: Dialect,
        default_schema: Option<Seq<char>>,
        locations: Seq<Seq<char>>,
    ) -> ContextView {
        ContextView {
            dialect,
            default_schema,
            locations,
            frames: seq![FrameView::empty()],
            table_context: None,
            column_context: None,
        }
    }

    /// The root frame is there.
    pub open spec fn wf(self) -> bool {
        self.frames.len() >= 1
    }

    /// The root frame: the result of the analysis.
    pub open spec fn root(self) -> FrameView {
        self.frames[0]
    }

    /// The frame that the operations write to.
    pub open spec fn top(self) -> FrameView {
        self.frames.last()
    }

    /// The context with `f` in place of its top frame.
    pub open spec fn with_top(self, f: FrameView) -> ContextView {
        ContextView { frames: self.frames.update(self.frames.len() - 1, f), ..self }
    }

    /// The table that the identifiers `name` denote under the configuration.
    pub open spec fn name_of(self, name: Seq<IdentName>) -> TableName {
        table_name(self.dialect, name, self.default_schema)
    }

    /// The table that `name` stands for, by the aliases in force.
    pub open spec fn resolve(self, name: TableName) -> TableName {
        resolve_in(self.frames, name)
    }

    pub open spec fn push_frame(self) -> ContextView {
        ContextView { frames: self.frames.push(FrameView::empty()), ..self }
    }

    /// Whether there is a frame to pop.
    pub open spec fn can_pop(self) -> bool {
        self.frames.len() >= 1
    }

    /// The context without its top frame; an empty stack stays as it is.
    pub open spec fn pop_frame(self) -> ContextView {
        if self.can_pop() {
            ContextView { frames: self.frames.drop_last(), ..self }
        } else {
            self
        }
    }

    pub open spec fn add_input(self, name: Seq<IdentName>) -> ContextView {
        let t = self.resolve(self.name_of(name));
        self.with_top(FrameView { inputs: insert(self.top().inputs, t), ..self.top() })
    }

    pub open spec fn add_output(self, name: Seq<IdentName>) -> ContextView {
        let t = self.resolve(self.name_of(name));
        self.with_top(FrameView { outputs: insert(self.top().outputs, t), ..self.top() })
    }

    /// The resource that `name` denotes: its text as it stands, unless it is
    /// an alias in force.
    pub open spec fn resource(self, name: Seq<IdentName>, table_like: bool, quoted: bool)
        -> ResourceName {
        ResourceName { name: self.resolve(verbatim_parts(name)), table_like, quoted }
    }

    pub open spec fn add_non_table_input(self, name: Seq<IdentName>, table_like: bool, quoted: bool)
        -> ContextView {
        let r = self.resource(name, table_like, quoted);
        self.with_top(
            FrameView { non_table_inputs: insert(self.top().non_table_inputs, r), ..self.top() },
        )
    }

    pub open spec fn add_non_table_output(
        self,
        name: Seq<IdentName>,
        table_like: bool,
        quoted: bool,
    ) -> ContextView {
        let r = self.resource(name, table_like, quoted);
        self.with_top(
            FrameView { non_table_outputs: insert(self.top().non_table_outputs, r), ..self.top() },
        )
    }

    pub open spec fn add_table_alias(self, table: TableName, alias: Seq<IdentName>) -> ContextView {
        self.with_top(
            FrameView {
                aliases: bind(self.top().aliases, self.name_of(alias), table),
                ..self.top()
            },
        )
    }

    pub open spec fn add_column_ancestors(self, descendant: ColumnName, ancestors: Seq<ColumnName>)
        -> ContextView {
        self.with_top(
            FrameView {
                column_lineage: union(
                    self.top().column_lineage,
                    edges_from(descendant, ancestors),
                ),
                ..self.top()
            },
        )
    }

    pub open spec fn collect(self, child: FrameView) -> ContextView {
        self.with_top(self.top().collect(child))
    }

    pub open spec fn collect_with_table(self, child: FrameView, table: TableName) -> ContextView {
        self.with_top(self.top().collect_with_table(child, table))
    }

    pub open spec fn collect_aliases(self, child: FrameView) -> ContextView {
        self.with_top(self.top().collect_aliases(child))
    }

    pub open spec fn coalesce(self, outer: FrameView) -> ContextView {
        self.with_top(self.top().coalesce(outer))
    }

    pub open spec fn set_table_context(self, table: Option<TableName>) -> ContextView {
        ContextView { table_context: table, ..self }
    }

    pub open spec fn set_column_context(self, column: Option<ColumnName>) -> ContextView {
        ContextView { column_context: column, ..self }
    }
}

/// Whether no collection of any frame of `c` holds an element twice.
pub open spec fn all_distinct(c: ContextView) -> bool {
    forall|i: int| 0 <= i < c.frames.len() ==> (#[trigger] c.frames[i]).distinct()
}

/// Putting a frame without repetitions on top keeps a context without
/// repetitions.
pub proof fn lemma_with_top_distinct(c: ContextView, f: FrameView)
    requires
        c.wf(),
        all_distinct(c),
        f.distinct(),
    ensures
        all_distinct(c.with_top(f)),
        c.with_top(f).wf(),
{
    assert forall|i: int| 0 <= i < c.with_top(f).frames.len() implies (#[trigger] c.with_top(
        f,
    ).frames[i]).distinct() by {
        if i < c.frames.len() - 1 {
            assert(c.with_top(f).frames[i] == c.frames[i]);
        }
    }
}

/// The state of one analysis.
#[derive(Debug)]
pub struct Context {
    dialect: Dialect,
    default_schema: Option<String>,
    locations: Vec<String>,
    frames: Vec<Frame>,
    table_context: Option<DbTableMeta>,
    column_context: Option<ColumnMeta>,
}

impl View for Context {
    type V = ContextView;

    closed spec fn view(&self) -> ContextView {
        ContextView {
            dialect: self.dialect,
            default_schema: opt_string_view(self.default_schema),
            locations: strings_view(self.locations@),
            frames: views(self.frames@),
            table_context: opt_table_view(self.table_context),
            column_context: opt_column_view(self.column_context),
        }
    }
}

impl Context {
    /// A context for one statement: the root frame alone, nothing resolved.
    pub fn new(dialect: Dialect, default_schema: Option<String>) -> (r: Context)
        ensures
            r@ == ContextView::fresh(dialect, opt_string_view(default_schema)),
            r@.wf(),
            all_distinct(r@),
    {
        let mut locations: Vec<String> = Vec::new();
        locations.push("gcs://".to_owned());
        locations.push("s3://".to_owned());
        locations.push("azure://".to_owned());
        assert(strings_view(locations@) =~= default_locations());
        Context::with_locations(dialect, default_schema, locations)
    }

    /// A context for one statement that knows cloud storage by the marks
    /// `locations`: the text of a stage names a location in cloud storage
    /// where one of the marks stands in it.
    pub fn with_locations(dialect: Dialect, default_schema: Option<String>, locations: Vec<String>)
        -> (r: Context)
        ensures
            r@ == ContextView::fresh_with(
                dialect,
                opt_string_view(default_schema),
                strings_view(locations@),
            ),
            r@.wf(),
            all_distinct(r@),
    {
        let mut frames: Vec<Frame> = Vec::new();
        frames.push(Frame::new());
        assert(views(frames@) =~= seq![FrameView::empty()]);
        Context {
            dialect,
            default_schema,
            locations,
            frames,
            table_context: None,
            column_context: None,
        }
    }

    /// A copy of the context, to go back to.
    pub fn copy(&self) -> (r: Context)
        ensures
            r@ == self@,
    {
        let default_schema = match &self.default_schema {
            Some(schema) => Some(schema.clone()),
            None => None,
        };
        let column_context = match &self.column_context {
            Some(column) => Some(column.clone()),
            None => None,
        };
        Context {
            dialect: self.dialect,
            default_schema,
            locations: clone_strings(&self.locations),
            frames: copy_all(&self.frames),
            table_context: clone_opt_table(&self.table_context),
            column_context,
        }
    }

    /// The marks by which cloud storage is known.
    pub fn locations(&self) -> (r: &Vec<String>)
        ensures
            strings_view(r@) == self@.locations,
    {
        &self.locations
    }

    pub fn dialect(&self) -> (d: Dialect)
        ensures
            d == self@.dialect,
    {
        self.dialect
    }

    pub fn default_schema(&self) -> (s: &Option<String>)
        ensures
            opt_string_view(*s) == self@.default_schema,
    {
        &self.default_schema
    }

    /// The table that a bare column of the current query block belongs to.
    pub fn table_context(&self) -> (t: &Option<DbTableMeta>)
        ensures
            opt_table_view(*t) == self@.table_context,
    {
        &self.table_context
    }

    /// The column that is being derived.
    pub fn column_context(&self) -> (c: &Option<ColumnMeta>)
        ensures
            opt_column_view(*c) == self@.column_context,
    {
        &self.column_context
    }

    pub fn set_table_context(&mut self, table: Option<DbTableMeta>)
        ensures
            final(self)@ == old(self)@.set_table_context(opt_table_view(table)),
            all_distinct(old(self)@) ==> all_distinct(final(self)@),
    {
        self.table_context = table;
    }

    pub fn set_column_context(&mut self, column: Option<ColumnMeta>)
        ensures
            final(self)@ == old(self)@.set_column_context(opt_column_view(column)),
            all_distinct(old(self)@) ==> all_distinct(final(self)@),
    {
        self.column_context = column;
    }

    /// Says that what is derived next belongs to no named column: no
    /// ancestry is recorded for it.
    pub fn set_unnamed_column_context(&mut self)
        ensures
            final(self)@ == old(self)@.set_column_context(None),
            all_distinct(old(self)@) ==> all_distinct(final(self)@),
    {
        self.column_context = None;
    }

    /// The number of frames above the root.
    pub fn depth(&self) -> (n: usize)
        requires
            self@.wf(),
        ensures
            n == self@.frames.len() - 1,
    {
        self.frames.len() - 1
    }

    /// The root frame: the result, once the analysis is done.
    pub fn lineage(&self) -> (f: &Frame)
        requires
            self@.wf(),
        ensures
            f@ == self@.root(),
            all_distinct(self@) ==> f@.distinct(),
    {
        assert(self@.frames[0] == self.frames[0]@);
        &self.frames[0]
    }

    /// Gives up the context for its root frame.
    pub fn into_lineage(self) -> (f: Frame)
        requires
            self@.wf(),
        ensures
            f@ == self@.root(),
            all_distinct(self@) ==> f@.distinct(),
    {
        assert(self@.frames[0] == self.frames[0]@);
        self.frames[0].copy()
    }

    /// Opens an empty frame on top of the stack.
    pub fn push_frame(&mut self)
        ensures
            final(self)@ == old(self)@.push_frame(),
            all_distinct(old(self)@) ==> all_distinct(final(self)@),
    {
        self.frames.push(Frame::new());
        assert(views(self.frames@) =~= views(old(self).frames@).push(FrameView::empty()));
        proof {
            if all_distinct(old(self)@) {
                assert forall|i: int| 0 <= i < self@.frames.len() implies (
                #[trigger] self@.frames[i]).distinct() by {
                    if i < old(self)@.frames.len() {
                        assert(self@.frames[i] == old(self)@.frames[i]);
                    }
                }
            }
        }
    }

    /// Takes the top frame off the stack and returns it; `None` only where
    /// the stack is empty. Once the root has been popped the context holds
    /// no frame, and a frame must be pushed before anything is recorded.
    pub fn pop_frame(&mut self) -> (r: Option<Frame>)
        ensures
            final(self)@ == old(self)@.pop_frame(),
            r is Some == old(self)@.can_pop(),
            r is Some ==> r->0@ == old(self)@.top(),
            all_distinct(old(self)@) ==> all_distinct(final(self)@),
            all_distinct(old(self)@) && r is Some ==> r->0@.distinct(),
    {
        if self.frames.len() >= 1 {
            let f = self.frames.pop();
            assert(views(self.frames@) =~= views(old(self).frames@).drop_last());
            proof {
                if all_distinct(old(self)@) {
                    assert(f->0@ == old(self)@.frames[old(self)@.frames.len() - 1]);
                    assert forall|i: int| 0 <= i < self@.frames.len() implies (
                    #[trigger] self@.frames[i]).distinct() by {
                        assert(self@.frames[i] == old(self)@.frames[i]);
                    }
                }
            }
            f
        } else {
            None
        }
    }

    /// The table that `table` stands for, by the aliases in force.
    pub fn resolve(&self, table: DbTableMeta) -> (r: DbTableMeta)
        ensures
            r@ == self@.resolve(table@),
    {
        let mut i: usize = self.frames.len();
        assert(views(self.frames@).take(i as int) == views(self.frames@));
        while i > 0
            invariant
                i <= self.frames.len(),
                resolve_in(views(self.frames@), table@) == resolve_in(
                    views(self.frames@).take(i as int),
                    table@,
                ),
            decreases i,
        {
            proof {
                let all = views(self.frames@);
                assert(all.take(i as int).drop_last() == all.take(i - 1));
                assert(all.take(i as int).last() == self.frames@[i - 1]@);
            }
            match find_alias(&self.frames[i - 1].aliases, &table) {
                Some(t) => {
                    return t;
                },
                None => {},
            }
            i = i - 1;
        }
        table
    }

    /// The table that the identifiers `name` denote under the configuration.
    pub fn table_of(&self, name: Vec<Ident>) -> (r: DbTableMeta)
        ensures
            r@ == self@.name_of(views(name@)),
    {
        let schema = match &self.default_schema {
            Some(s) => Some(s.clone()),
            None => None,
        };
        DbTableMeta::new(name, self.dialect, schema)
    }

    fn take_top(&mut self) -> (f: Frame)
        requires
            old(self)@.wf(),
        ensures
            f@ == old(self)@.top(),
            all_distinct(old(self)@) ==> f@.distinct(),
            views(final(self).frames@) == old(self)@.frames.drop_last(),
            final(self).dialect == old(self).dialect,
            final(self).default_schema == old(self).default_schema,
            final(self).locations == old(self).locations,
            final(self).table_context == old(self).table_context,
            final(self).column_context == old(self).column_context,
    {
        let f = self.frames.pop().unwrap();
        assert(views(self.frames@) =~= views(old(self).frames@).drop_last());
        assert(f@ == old(self)@.frames[old(self)@.frames.len() - 1]);
        f
    }

    fn put_top(&mut self, f: Frame, Ghost(before): Ghost<ContextView>)
        requires
            before.wf(),
            views(old(self).frames@) == before.frames.drop_last(),
            old(self).dialect == before.dialect,
            opt_string_view(old(self).default_schema) == before.default_schema,
            strings_view(old(self).locations@) == before.locations,
            opt_table_view(old(self).table_context) == before.table_context,
            opt_column_view(old(self).column_context) == before.column_context,
        ensures
            final(self)@ == before.with_top(f@),
            all_distinct(before) && f@.distinct() ==> all_distinct(final(self)@),
    {
        self.frames.push(f);
        assert(views(self.frames@) =~= views(old(self).frames@).push(f@));
        assert(views(self.frames@) =~= before.frames.update(before.frames.len() - 1, f@));
        proof {
            if all_distinct(before) && f@.distinct() {
                lemma_with_top_distinct(before, f@);
            }
        }
    }

    /// Records that the table `name` is read.
    pub fn add_input(&mut self, name: Vec<Ident>)
        requires
            old(self)@.wf(),
        ensures
            final(self)@ == old(self)@.add_input(views(name@)),
            all_distinct(old(self)@) ==> all_distinct(final(self)@),
    {
        let t = self.resolve(self.table_of(name));
        let ghost before = self@;
        let mut top = self.take_top();
        proof {
            lemma_insert(top@.inputs, t@);
        }
        put(&mut top.inputs, t);
        self.put_top(top, Ghost(before));
    }

    /// Records that the table `name` is written.
    pub fn add_output(&mut self, name: Vec<Ident>)
        requires
            old(self)@.wf(),
        ensures
            final(self)@ == old(self)@.add_output(views(name@)),
            all_distinct(old(self)@) ==> all_distinct(final(self)@),
    {
        let t = self.resolve(self.table_of(name));
        let ghost before = self@;
        let mut top = self.take_top();
        proof {
            lemma_insert(top@.outputs, t@);
        }
        put(&mut top.outputs, t);
        self.put_top(top, Ghost(before));
    }

    /// Records that the resource `name`, which is no relation, is read.
    pub fn add_non_table_input(&mut self, name: Vec<Ident>, table_like: bool, quoted: bool)
        requires
            old(self)@.wf(),
        ensures
            final(self)@ == old(self)@.add_non_table_input(views(name@), table_like, quoted),
            all_distinct(old(self)@) ==> all_distinct(final(self)@),
    {
        let t = self.resolve(DbTableMeta::verbatim(name, self.dialect));
        let ghost before = self@;
        let mut top = self.take_top();
        let resource = NonTable { name: t, table_like, quoted };
        proof {
            lemma_insert(top@.non_table_inputs, resource@);
        }
        put(&mut top.non_table_inputs, resource);
        self.put_top(top, Ghost(before));
    }

    /// Records that the resource `name`, which is no relation, is written.
    pub fn add_non_table_output(&mut self, name: Vec<Ident>, table_like: bool, quoted: bool)
        requires
            old(self)@.wf(),
        ensures
            final(self)@ == old(self)@.add_non_table_output(views(name@), table_like, quoted),
            all_distinct(old(self)@) ==> all_distinct(final(self)@),
    {
        let t = self.resolve(DbTableMeta::verbatim(name, self.dialect));
        let ghost before = self@;
        let mut top = self.take_top();
        let resource = NonTable { name: t, table_like, quoted };
        proof {
            lemma_insert(top@.non_table_outputs, resource@);
        }
        put(&mut top.non_table_outputs, resource);
        self.put_top(top, Ghost(before));
    }

    /// Registers `alias` for `table` in the top frame.
    pub fn add_table_alias(&mut self, table: DbTableMeta, alias: Vec<Ident>)
        requires
            old(self)@.wf(),
        ensures
            final(self)@ == old(self)@.add_table_alias(table@, views(alias@)),
            all_distinct(old(self)@) ==> all_distinct(final(self)@),
    {
        let key = self.table_of(alias);
        let ghost before = self@;
        let mut top = self.take_top();
        put_alias(&mut top.aliases, key, table);
        self.put_top(top, Ghost(before));
    }

    /// Records that `descendant` is derived from each of `ancestors`.
    pub fn add_column_ancestors(&mut self, descendant: ColumnMeta, ancestors: Vec<ColumnMeta>)
        requires
            old(self)@.wf(),
        ensures
            final(self)@ == old(self)@.add_column_ancestors(descendant@, views(ancestors@)),
            all_distinct(old(self)@) ==> all_distinct(final(self)@),
    {
        let ghost before = self@;
        let mut top = self.take_top();
        proof {
            lemma_union(top@.column_lineage, edges_from(descendant@, views(ancestors@)));
        }
        put_edges(&mut top.column_lineage, &descendant, &ancestors);
        self.put_top(top, Ghost(before));
    }

    /// Merges a popped frame into the top frame as it stands.
    pub fn collect(&mut self, child: Frame)
        requires
            old(self)@.wf(),
        ensures
            final(self)@ == old(self)@.collect(child@),
            all_distinct(old(self)@) ==> all_distinct(final(self)@),
    {
        let ghost before = self@;
        let mut top = self.take_top();
        proof {
            if top@.distinct() {
                lemma_frames_stay_distinct(top@, child@, Seq::empty());
            }
        }
        top.collect(child);
        self.put_top(top, Ghost(before));
    }

    /// Merges a popped frame into the top frame under the name `table`.
    pub fn collect_with_table(&mut self, child: Frame, table: DbTableMeta)
        requires
            old(self)@.wf(),
        ensures
            final(self)@ == old(self)@.collect_with_table(child@, table@),
            all_distinct(old(self)@) ==> all_distinct(final(self)@),
    {
        let ghost before = self@;
        let mut top = self.take_top();
        proof {
            if top@.distinct() {
                lemma_frames_stay_distinct(top@, child@, table@);
            }
        }
        top.collect_with_table(child, table);
        self.put_top(top, Ghost(before));
    }

    /// Registers the aliases of a popped frame in the top frame.
    pub fn collect_aliases(&mut self, child: &Frame)
        requires
            old(self)@.wf(),
        ensures
            final(self)@ == old(self)@.collect_aliases(child@),
            all_distinct(old(self)@) ==> all_distinct(final(self)@),
    {
        let ghost before = self@;
        let mut top = self.take_top();
        proof {
            if top@.distinct() {
                lemma_frames_stay_distinct(top@, child@, Seq::empty());
            }
        }
        top.collect_aliases(child);
        self.put_top(top, Ghost(before));
    }

    /// Folds an outer frame into the top frame.
    pub fn coalesce(&mut self, outer: Frame)
        requires
            old(self)@.wf(),
        ensures
            final(self)@ == old(self)@.coalesce(outer@),
            all_distinct(old(self)@) ==> all_distinct(final(self)@),
    {
        let ghost before = self@;
        let mut top = self.take_top();
        proof {
            if top@.distinct() {
                lemma_frames_stay_distinct(top@, outer@, Seq::empty());
            }
        }
        top.coalesce(outer);
        self.put_top(top, Ghost(before));
    }
}

} // verus!
