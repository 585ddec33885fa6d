use sql_lineage::ast::{
    Expr, Function, FunctionArg, FunctionArgExpr, Join, Query, Select, SelectItem, SetExpr,
    Statement, TableAlias, TableFactor, TableWithJoins,
};
use sql_lineage::context::Context;
use sql_lineage::frame::{Frame, NonTable};
use sql_lineage::lineage::{ColumnMeta, DbTableMeta, Dialect, Ident};
use sql_lineage::sets::Entry;
use sql_lineage::text::{contains_text, strip_quotes};
use sql_lineage::visitor::{lineage, Visit};

fn idents(parts: &[&str]) -> Vec<Ident> {
    parts.iter().map(|p| Ident::new(p)).collect()
}

fn meta(parts: &[&str]) -> DbTableMeta {
    DbTableMeta::new(idents(parts), Dialect::Generic, None)
}

fn names(v: &Vec<DbTableMeta>) -> Vec<String> {
    v.iter().map(|t| t.qualified_name()).collect()
}

fn table(parts: &[&str], alias: Option<&str>) -> TableFactor {
    TableFactor::Table {
        name: idents(parts),
        alias: alias.map(|a| TableAlias { name: Ident::new(a) }),
    }
}

fn select_from(from: Vec<TableWithJoins>, projection: Vec<SelectItem>) -> Statement {
    Statement::Query(Box::new(Query {
        with: None,
        body: Box::new(SetExpr::Select(Box::new(Select { projection, into: None, from }))),
    }))
}

#[test]
fn names_are_folded_by_the_dialect() {
    let t = DbTableMeta::new(idents(&["Sales", "Orders"]), Dialect::Snowflake, None);
    assert_eq!(t.qualified_name(), "SALES.ORDERS");
    let t = DbTableMeta::new(idents(&["Sales", "Orders"]), Dialect::Postgres, None);
    assert_eq!(t.qualified_name(), "sales.orders");
    let t = DbTableMeta::new(idents(&["Sales", "Orders"]), Dialect::Generic, None);
    assert_eq!(t.qualified_name(), "Sales.Orders");
    assert_eq!(t.dialect(), Dialect::Generic);
    assert_eq!(t.parts(), &vec!["Sales".to_string(), "Orders".to_string()]);
}

#[test]
fn quoted_names_keep_their_text() {
    let quoted = DbTableMeta::new(vec![Ident::with_quote('"', "Orders")], Dialect::Postgres, None);
    assert_eq!(quoted.qualified_name(), "Orders");
    let wrapped = DbTableMeta::new(idents(&["\"Orders\""]), Dialect::Postgres, None);
    assert_eq!(wrapped.qualified_name(), "Orders");
    let backticks = DbTableMeta::new(idents(&["`Orders`"]), Dialect::BigQuery, None);
    assert_eq!(backticks.qualified_name(), "Orders");
    let foreign_quotes = DbTableMeta::new(idents(&["`Orders`"]), Dialect::Postgres, None);
    assert_eq!(foreign_quotes.qualified_name(), "`orders`");
    assert_eq!(quoted, wrapped);
}

#[test]
fn default_schema_goes_before_a_bare_name_only() {
    let schema = Some("public".to_string());
    let bare = DbTableMeta::new(idents(&["t"]), Dialect::Generic, schema.clone());
    assert_eq!(bare.qualified_name(), "public.t");
    let qualified = DbTableMeta::new(idents(&["s", "t"]), Dialect::Generic, schema.clone());
    assert_eq!(qualified.qualified_name(), "s.t");
    let full = DbTableMeta::new(idents(&["d", "s", "t"]), Dialect::Generic, schema);
    assert_eq!(full.qualified_name(), "d.s.t");
    assert_eq!(DbTableMeta::new_default_dialect("x".to_string()).qualified_name(), "x");
    assert_eq!(DbTableMeta::verbatim(idents(&["s3://Bucket/a.b"]), Dialect::Snowflake).qualified_name(), "s3://Bucket/a.b");
}

#[test]
fn tables_are_equal_by_their_normalized_names() {
    let a = DbTableMeta::new(idents(&["ORDERS"]), Dialect::Postgres, None);
    let b = DbTableMeta::new(idents(&["orders"]), Dialect::Postgres, None);
    let c = DbTableMeta::new(idents(&["orders"]), Dialect::Postgres, Some("s".to_string()));
    assert_eq!(a, b);
    assert!(a.same_as(&b));
    assert_ne!(a, c);
    assert_eq!(a.clone(), a);
    let x = ColumnMeta::new("x".to_string(), Some(a.clone()));
    let y = ColumnMeta::new("x".to_string(), Some(b));
    let z = ColumnMeta::new("x".to_string(), None);
    assert_eq!(x, y);
    assert_ne!(x, z);
    assert_eq!(z.clone(), z);
}

#[test]
fn frames_are_pushed_and_popped() {
    let mut c = Context::new(Dialect::Generic, None);
    assert_eq!(c.depth(), 0);
    c.push_frame();
    assert_eq!(c.depth(), 1);
    c.add_input(idents(&["t"]));
    c.add_input(idents(&["t"]));
    c.add_output(idents(&["o"]));
    let f = c.pop_frame().unwrap();
    assert_eq!(names(&f.inputs), vec!["t".to_string()]);
    assert_eq!(names(&f.outputs), vec!["o".to_string()]);
    assert!(c.lineage().inputs.is_empty());
    c.collect(f);
    assert_eq!(names(&c.lineage().inputs), vec!["t".to_string()]);
    assert_eq!(c.dialect(), Dialect::Generic);
    assert_eq!(c.default_schema(), &None);
    // The root can be popped too; only an empty stack gives nothing.
    let root = c.pop_frame().unwrap();
    assert_eq!(names(&root.inputs), vec!["t".to_string()]);
    assert!(c.pop_frame().is_none());
    assert!(c.pop_frame().is_none());
}

#[test]
fn aliases_stand_for_their_tables() {
    let mut c = Context::new(Dialect::Generic, None);
    c.add_table_alias(meta(&["real"]), idents(&["a"]));
    c.push_frame();
    c.add_input(idents(&["a"]));
    assert_eq!(c.resolve(meta(&["a"])).qualified_name(), "real");
    assert_eq!(c.resolve(meta(&["b"])).qualified_name(), "b");
    c.add_table_alias(meta(&["other"]), idents(&["a"]));
    assert_eq!(c.resolve(meta(&["a"])).qualified_name(), "other");
    let f = c.pop_frame().unwrap();
    assert_eq!(names(&f.inputs), vec!["real".to_string()]);
    assert_eq!(c.resolve(meta(&["a"])).qualified_name(), "real");
}

#[test]
fn an_alias_does_not_leak_into_a_sibling_frame() {
    let mut c = Context::new(Dialect::Generic, None);
    c.push_frame();
    c.add_table_alias(meta(&["t1"]), idents(&["x"]));
    assert_eq!(c.resolve(meta(&["x"])).qualified_name(), "t1");
    let _first = c.pop_frame().unwrap();
    c.push_frame();
    assert_eq!(c.resolve(meta(&["x"])).qualified_name(), "x");
    c.add_table_alias(meta(&["t2"]), idents(&["x"]));
    assert_eq!(c.resolve(meta(&["x"])).qualified_name(), "t2");
}

#[test]
fn two_join_branches_with_one_alias_resolve_on_their_own() {
    let stmt = select_from(
        vec![TableWithJoins {
            relation: table(&["t1"], Some("x")),
            joins: vec![Join { relation: table(&["t2"], Some("x")) }],
        }],
        vec![SelectItem::Wildcard],
    );
    let f = lineage(&stmt, Dialect::Generic, None).unwrap();
    let mut inputs = names(&f.inputs);
    inputs.sort();
    assert_eq!(inputs, vec!["t1".to_string(), "t2".to_string()]);
}

#[test]
fn contexts_of_columns_and_tables() {
    let mut c = Context::new(Dialect::Generic, Some("s".to_string()));
    assert!(c.table_context().is_none());
    assert!(c.column_context().is_none());
    c.set_table_context(Some(meta(&["t"])));
    c.set_column_context(Some(ColumnMeta::new("y".to_string(), None)));
    assert_eq!(c.table_context().as_ref().unwrap().qualified_name(), "t");
    assert_eq!(c.column_context().as_ref().unwrap().name, "y");
    c.add_column_ancestors(
        ColumnMeta::new("y".to_string(), None),
        vec![ColumnMeta::new("a".to_string(), None), ColumnMeta::new("a".to_string(), None)],
    );
    assert_eq!(c.lineage().column_lineage.len(), 1);
    assert_eq!(c.lineage().ancestors_of(&ColumnMeta::new("y".to_string(), None)).len(), 1);
    c.set_unnamed_column_context();
    assert!(c.column_context().is_none());
    c.set_table_context(None);
    assert!(c.table_context().is_none());
    assert_eq!(c.table_of(idents(&["t"])).qualified_name(), "s.t");
}

#[test]
fn resources_that_are_no_relations() {
    let mut c = Context::new(Dialect::Snowflake, None);
    c.add_non_table_input(idents(&["s3://b/p"]), true, true);
    c.add_non_table_input(idents(&["s3://b/p"]), true, true);
    c.add_non_table_input(idents(&["s3://b/p"]), false, true);
    c.add_non_table_output(idents(&["stage"]), false, true);
    let f = c.into_lineage();
    assert_eq!(f.non_table_inputs.len(), 2);
    assert_eq!(f.non_table_inputs[0].name.qualified_name(), "s3://b/p");
    assert_eq!(f.non_table_outputs.len(), 1);
    assert!(!f.non_table_outputs[0].table_like);
    assert!(f.non_table_outputs[0].quoted);
    let same = NonTable { name: meta(&["stage"]), table_like: false, quoted: true };
    assert!(f.non_table_outputs[0].same(&same));
}

#[test]
fn statements_without_sources_read_nothing() {
    let no_from = select_from(
        vec![],
        vec![SelectItem::UnnamedExpr(Expr::BinaryOp {
            left: Box::new(Expr::Identifier(Ident::new("a"))),
            right: Box::new(Expr::Function(Function {
                args: vec![FunctionArg::Unnamed(FunctionArgExpr::Expr(Expr::Other))],
                over: None,
            })),
        })],
    );
    assert!(lineage(&no_from, Dialect::Generic, None).unwrap().inputs.is_empty());
    let insert_values = Statement::Insert {
        table_name: idents(&["t"]),
        source: Some(Box::new(Query { with: None, body: Box::new(SetExpr::Values) })),
    };
    let f = lineage(&insert_values, Dialect::Generic, None).unwrap();
    assert!(f.inputs.is_empty());
    assert_eq!(names(&f.outputs), vec!["t".to_string()]);
    let truncate = Statement::Truncate { table_name: idents(&["t"]) };
    assert!(lineage(&truncate, Dialect::Generic, None).unwrap().inputs.is_empty());
    assert!(lineage(&Statement::Other, Dialect::Generic, None).unwrap().inputs.is_empty());
}

#[test]
fn one_statement_gives_one_record_every_time() {
    let stmt = select_from(
        vec![TableWithJoins {
            relation: table(&["a"], Some("x")),
            joins: vec![Join { relation: table(&["b"], None) }],
        }],
        vec![
            SelectItem::UnnamedExpr(Expr::CompoundIdentifier(idents(&["x", "c"]))),
            SelectItem::ExprWithAlias { expr: Expr::Identifier(Ident::new("d")), alias: Ident::new("e") },
        ],
    );
    let first: Frame = lineage(&stmt, Dialect::Generic, None).unwrap();
    let second: Frame = lineage(&stmt, Dialect::Generic, None).unwrap();
    assert!(first.same(&second));
    assert!(first.same(&first.copy()));
}

#[test]
fn rename_reads_the_old_and_writes_the_new_name() {
    let stmt = Statement::AlterTable {
        name: idents(&["old"]),
        operations: vec![sql_lineage::ast::AlterTableOperation::RenameTable {
            table_name: idents(&["new"]),
        }],
    };
    let f = lineage(&stmt, Dialect::Generic, None).unwrap();
    assert_eq!(names(&f.inputs), vec!["old".to_string()]);
    assert_eq!(names(&f.outputs), vec!["new".to_string()]);
    let other = Statement::AlterTable {
        name: idents(&["t"]),
        operations: vec![sql_lineage::ast::AlterTableOperation::Other],
    };
    let f = lineage(&other, Dialect::Generic, None).unwrap();
    assert!(f.inputs.is_empty());
    assert_eq!(names(&f.outputs), vec!["t".to_string()]);
}

#[test]
fn create_stage_reads_its_location_and_writes_the_stage() {
    let stmt = Statement::CreateStage {
        name: idents(&["my_stage"]),
        url: Some("s3://bucket/dir".to_string()),
    };
    let f = lineage(&stmt, Dialect::Generic, None).unwrap();
    assert_eq!(f.non_table_inputs.len(), 1);
    assert_eq!(f.non_table_inputs[0].name.qualified_name(), "s3://bucket/dir");
    assert_eq!(f.non_table_outputs.len(), 1);
    assert_eq!(f.non_table_outputs[0].name.qualified_name(), "my_stage");
    assert!(f.inputs.is_empty() && f.outputs.is_empty());
}

#[test]
fn delete_writes_its_targets_and_reads_what_it_uses() {
    let stmt = Statement::Delete {
        from: vec![TableWithJoins { relation: table(&["t"], None), joins: vec![] }],
        using: Some(vec![TableWithJoins { relation: table(&["u"], None), joins: vec![] }]),
        selection: None,
    };
    let f = lineage(&stmt, Dialect::Generic, None).unwrap();
    assert_eq!(names(&f.outputs), vec!["t".to_string()]);
    assert_eq!(names(&f.inputs), vec!["u".to_string()]);
}

#[test]
fn update_and_merge_and_create() {
    let update = Statement::Update {
        table: TableWithJoins { relation: table(&["t"], None), joins: vec![] },
        from: Some(TableWithJoins { relation: table(&["s"], None), joins: vec![] }),
        selection: Some(Expr::Identifier(Ident::new("c"))),
    };
    let f = lineage(&update, Dialect::Generic, None).unwrap();
    assert_eq!(names(&f.outputs), vec!["t".to_string()]);
    assert_eq!(names(&f.inputs), vec!["s".to_string()]);
    let merge = Statement::Merge { table: table(&["t"], None), source: table(&["s"], None) };
    let f = lineage(&merge, Dialect::Generic, None).unwrap();
    assert_eq!(names(&f.outputs), vec!["t".to_string()]);
    assert_eq!(names(&f.inputs), vec!["s".to_string()]);
    let create = Statement::CreateTable {
        name: idents(&["n"]),
        query: None,
        like: Some(idents(&["l"])),
        clone: Some(idents(&["c"])),
    };
    let f = lineage(&create, Dialect::Generic, None).unwrap();
    assert_eq!(names(&f.outputs), vec!["n".to_string()]);
    assert_eq!(names(&f.inputs), vec!["l".to_string(), "c".to_string()]);
}

#[test]
fn every_node_can_be_visited() {
    let mut c = Context::new(Dialect::Generic, None);
    c.set_column_context(Some(ColumnMeta::new("y".to_string(), None)));
    Expr::Identifier(Ident::new("a")).visit(&mut c).unwrap();
    table(&["t"], Some("x")).visit(&mut c).unwrap();
    let f = c.into_lineage();
    assert_eq!(names(&f.inputs), vec!["t".to_string()]);
    assert_eq!(f.column_lineage.len(), 1);
    assert_eq!(f.aliases.len(), 1);
}

#[test]
fn texts_are_searched_and_stripped() {
    assert!(contains_text("'s3://bucket'", "s3://"));
    assert!(!contains_text("s3:/bucket", "s3://"));
    assert!(contains_text("abc", ""));
    assert!(!contains_text("ab", "abc"));
    assert_eq!(strip_quotes("'a\"b'c"), "abc");
}

#[test]
fn dialects_by_name() {
    assert_eq!(Dialect::by_name("snowflake"), Some(Dialect::Snowflake));
    assert_eq!(Dialect::by_name("postgresql"), Some(Dialect::Postgres));
    assert_eq!(Dialect::by_name("postgres"), Some(Dialect::Postgres));
    assert_eq!(Dialect::by_name("generic"), Some(Dialect::Generic));
    assert_eq!(Dialect::by_name("ansi"), Some(Dialect::Ansi));
    assert_eq!(Dialect::by_name("bigquery"), Some(Dialect::BigQuery));
    assert_eq!(Dialect::by_name("mysql"), Some(Dialect::MySql));
    assert_eq!(Dialect::by_name("Snowflake"), None);
    assert_eq!(Dialect::by_name("oracle"), None);
}

#[test]
fn cloud_storage_is_known_by_its_marks() {
    let stmt = Statement::CopyIntoSnowflake {
        into: idents(&["tgt"]),
        from_stage: vec![Ident::with_quote('\'', "hdfs://cluster/dir")],
        from_stage_text: "'hdfs://cluster/dir'".to_string(),
    };
    let mut known = Context::with_locations(Dialect::Generic, None, vec!["hdfs://".to_string()]);
    assert_eq!(known.locations(), &vec!["hdfs://".to_string()]);
    stmt.visit(&mut known).unwrap();
    let f = known.into_lineage();
    assert_eq!(f.non_table_inputs.len(), 1);
    assert_eq!(f.non_table_inputs[0].name.qualified_name(), "hdfs://cluster/dir");
    assert_eq!(names(&f.outputs), vec!["tgt".to_string()]);

    let cloud = Statement::CopyIntoSnowflake {
        into: idents(&["tgt"]),
        from_stage: vec![Ident::with_quote('\'', "s3://bucket/\"dir\"")],
        from_stage_text: "'s3://bucket/\"dir\"'".to_string(),
    };
    let mut other = Context::with_locations(Dialect::Generic, None, vec!["hdfs://".to_string()]);
    cloud.visit(&mut other).unwrap();
    let f = other.into_lineage();
    assert_eq!(f.non_table_inputs[0].name.qualified_name(), "s3://bucket/\"dir\"");
    let f = lineage(&cloud, Dialect::Generic, None).unwrap();
    assert_eq!(f.non_table_inputs[0].name.qualified_name(), "s3://bucket/dir");
    let mut usual = Context::new(Dialect::Generic, None);
    assert_eq!(usual.locations().len(), 3);
    cloud.visit(&mut usual).unwrap();
    assert_eq!(usual.into_lineage().non_table_inputs[0].name.qualified_name(), "s3://bucket/dir");
}

/// What can be seen of a context: how high its stack is, its root frame,
/// and the table and the column it resolves against.
fn seen(c: &Context) -> String {
    format!("{:?}", (c.depth(), c.lineage(), c.table_context(), c.column_context()))
}

#[test]
fn a_walk_that_fails_leaves_the_context_as_it_was() {
    let unsupported = || TableFactor::Other { text: "UNNEST(arr)".to_string() };
    let mut c = Context::new(Dialect::Generic, None);
    c.add_input(idents(&["known"]));
    c.add_table_alias(meta(&["known"]), idents(&["k"]));
    c.set_table_context(Some(meta(&["known"])));
    c.set_column_context(Some(ColumnMeta::new("y".to_string(), None)));
    let before = seen(&c);

    // A source that is no table fails before anything is written.
    let e = unsupported().visit(&mut c).unwrap_err();
    assert_eq!(
        e.message,
        "TableFactor other than table or subquery not implemented: UNNEST(arr)"
    );
    assert!(seen(&c) == before);

    // A `SELECT` registers its table and walks its first source before it
    // meets the join that fails.
    let failing = Select {
        projection: vec![SelectItem::UnnamedExpr(Expr::Identifier(Ident::new("a")))],
        into: None,
        from: vec![TableWithJoins {
            relation: table(&["t"], Some("x")),
            joins: vec![Join { relation: unsupported() }],
        }],
    };
    assert!(failing.visit(&mut c).is_err());
    assert!(seen(&c) == before);

    // An `UPDATE` writes its target before its source fails.
    let update = Statement::Update {
        table: TableWithJoins { relation: table(&["target"], None), joins: vec![] },
        from: Some(TableWithJoins { relation: unsupported(), joins: vec![] }),
        selection: None,
    };
    assert!(update.visit(&mut c).is_err());
    assert!(seen(&c) == before);

    // The context still works.
    table(&["t"], None).visit(&mut c).unwrap();
    assert_eq!(names(&c.lineage().inputs), vec!["known".to_string(), "t".to_string()]);
}
