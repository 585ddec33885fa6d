use sql_lineage::ast::{
    AlterTableOperation, Cte, Expr, Join, Query, Select, SelectItem, SetExpr, Statement,
    TableAlias, TableFactor, TableWithJoins, With,
};
use sql_lineage::frame::Frame;
use sql_lineage::lineage::{Dialect, Ident};
use sql_lineage::visitor::lineage;

fn name(parts: &[&str]) -> Vec<Ident> {
    parts.iter().map(|p| Ident::new(p)).collect()
}

fn table(parts: &[&str], alias: Option<&str>) -> TableFactor {
    TableFactor::Table {
        name: name(parts),
        alias: alias.map(|a| TableAlias { name: Ident::new(a) }),
    }
}

fn from(relation: TableFactor) -> TableWithJoins {
    TableWithJoins { relation, joins: vec![] }
}

fn select(projection: Vec<SelectItem>, from: Vec<TableWithJoins>) -> Query {
    Query {
        with: None,
        body: Box::new(SetExpr::Select(Box::new(Select { projection, into: None, from }))),
    }
}

fn tables(v: &Vec<sql_lineage::lineage::DbTableMeta>) -> Vec<String> {
    let mut out: Vec<String> = v.iter().map(|t| t.qualified_name()).collect();
    out.sort();
    out
}

fn edges(f: &Frame) -> Vec<(String, String)> {
    let mut out: Vec<(String, String)> = f
        .column_lineage
        .iter()
        .map(|e| {
            let owner = match &e.ancestor.origin {
                Some(t) => format!("{}.", t.qualified_name()),
                None => String::new(),
            };
            (e.descendant.name.clone(), format!("{}{}", owner, e.ancestor.name))
        })
        .collect();
    out.sort();
    out
}

#[test]
fn insert_select_end_to_end() {
    let stmt = Statement::Insert {
        table_name: name(&["out"]),
        source: Some(Box::new(select(
            vec![SelectItem::ExprWithAlias {
                expr: Expr::CompoundIdentifier(name(&["a", "x"])),
                alias: Ident::new("y"),
            }],
            vec![from(table(&["src"], Some("a")))],
        ))),
    };
    let f = lineage(&stmt, Dialect::Generic, None).unwrap();
    assert_eq!(tables(&f.inputs), vec!["src".to_string()]);
    assert_eq!(tables(&f.outputs), vec!["out".to_string()]);
    assert_eq!(edges(&f), vec![("y".to_string(), "src.x".to_string())]);
}

#[test]
fn cte_is_transparent() {
    let cte_body = select(vec![SelectItem::Wildcard], vec![from(table(&["real_table"], None))]);
    let mut main = select(vec![SelectItem::Wildcard], vec![from(table(&["cte"], None))]);
    main.with = Some(With {
        cte_tables: vec![Cte { alias: TableAlias { name: Ident::new("cte") }, query: Box::new(cte_body) }],
    });
    let f = lineage(&Statement::Query(Box::new(main)), Dialect::Generic, None).unwrap();
    assert_eq!(tables(&f.inputs), vec!["real_table".to_string()]);
    assert!(f.outputs.is_empty());
}

#[test]
fn cte_columns_reach_the_real_table() {
    let cte_body = select(
        vec![SelectItem::UnnamedExpr(Expr::Identifier(Ident::new("a")))],
        vec![from(table(&["real_table"], None))],
    );
    let mut main = select(
        vec![SelectItem::UnnamedExpr(Expr::Identifier(Ident::new("a")))],
        vec![from(table(&["cte"], None))],
    );
    main.with = Some(With {
        cte_tables: vec![Cte { alias: TableAlias { name: Ident::new("cte") }, query: Box::new(cte_body) }],
    });
    let f = lineage(&Statement::Query(Box::new(main)), Dialect::Generic, None).unwrap();
    assert_eq!(tables(&f.inputs), vec!["real_table".to_string()]);
    assert_eq!(edges(&f), vec![("a".to_string(), "real_table.a".to_string())]);
}

#[test]
fn alter_table_swap_reads_and_writes_both() {
    let stmt = Statement::AlterTable {
        name: name(&["a"]),
        operations: vec![AlterTableOperation::SwapWith { table_name: name(&["b"]) }],
    };
    let f = lineage(&stmt, Dialect::Generic, None).unwrap();
    assert_eq!(tables(&f.inputs), vec!["a".to_string(), "b".to_string()]);
    assert_eq!(tables(&f.outputs), vec!["a".to_string(), "b".to_string()]);
}

#[test]
fn copy_into_from_cloud_location() {
    let stmt = Statement::CopyIntoSnowflake {
        into: name(&["tgt"]),
        from_stage: vec![Ident::with_quote('\'', "s3://bucket/path")],
        from_stage_text: "'s3://bucket/path'".to_string(),
    };
    let f = lineage(&stmt, Dialect::Generic, None).unwrap();
    assert_eq!(tables(&f.outputs), vec!["tgt".to_string()]);
    assert!(f.inputs.is_empty());
    assert_eq!(f.non_table_inputs.len(), 1);
    assert_eq!(f.non_table_inputs[0].name.qualified_name(), "s3://bucket/path");
    assert!(f.non_table_inputs[0].table_like);
    assert!(f.non_table_inputs[0].quoted);
}

#[test]
fn copy_into_from_named_stage() {
    let stmt = Statement::CopyIntoSnowflake {
        into: name(&["tgt"]),
        from_stage: name(&["@my_stage"]),
        from_stage_text: "@my_stage".to_string(),
    };
    let f = lineage(&stmt, Dialect::Generic, None).unwrap();
    assert_eq!(f.non_table_inputs.len(), 1);
    assert_eq!(f.non_table_inputs[0].name.qualified_name(), "@my_stage");
}

#[test]
fn drop_table_writes_only() {
    let stmt = Statement::Drop { names: vec![name(&["t"])] };
    let f = lineage(&stmt, Dialect::Generic, None).unwrap();
    assert_eq!(tables(&f.outputs), vec!["t".to_string()]);
    assert!(f.inputs.is_empty());
}

#[test]
fn bare_columns_belong_to_the_single_table() {
    let q = select(
        vec![
            SelectItem::UnnamedExpr(Expr::Identifier(Ident::new("a"))),
            SelectItem::UnnamedExpr(Expr::Identifier(Ident::new("b"))),
        ],
        vec![from(table(&["t"], None))],
    );
    let f = lineage(&Statement::Query(Box::new(q)), Dialect::Generic, None).unwrap();
    assert_eq!(tables(&f.inputs), vec!["t".to_string()]);
    assert_eq!(
        edges(&f),
        vec![("a".to_string(), "t.a".to_string()), ("b".to_string(), "t.b".to_string())]
    );
}

#[test]
fn self_join_is_one_input_with_two_aliases() {
    let q = select(
        vec![
            SelectItem::UnnamedExpr(Expr::CompoundIdentifier(name(&["a", "x"]))),
            SelectItem::ExprWithAlias {
                expr: Expr::CompoundIdentifier(name(&["b", "x"])),
                alias: Ident::new("y"),
            },
        ],
        vec![TableWithJoins {
            relation: table(&["t"], Some("a")),
            joins: vec![Join { relation: table(&["t"], Some("b")) }],
        }],
    );
    let f = lineage(&Statement::Query(Box::new(q)), Dialect::Generic, None).unwrap();
    assert_eq!(tables(&f.inputs), vec!["t".to_string()]);
    assert_eq!(
        edges(&f),
        vec![("x".to_string(), "t.x".to_string()), ("y".to_string(), "t.x".to_string())]
    );
}

#[test]
fn derived_table_alias_resolves_through() {
    let inner = select(
        vec![SelectItem::UnnamedExpr(Expr::Identifier(Ident::new("x")))],
        vec![from(table(&["t"], None))],
    );
    let q = select(
        vec![SelectItem::UnnamedExpr(Expr::CompoundIdentifier(name(&["d", "x"])))],
        vec![from(TableFactor::Derived {
            subquery: Box::new(inner),
            alias: Some(TableAlias { name: Ident::new("d") }),
            text: "(SELECT x FROM t) AS d".to_string(),
        })],
    );
    let f = lineage(&Statement::Query(Box::new(q)), Dialect::Generic, None).unwrap();
    assert_eq!(tables(&f.inputs), vec!["t".to_string()]);
    assert_eq!(edges(&f), vec![("x".to_string(), "t.x".to_string())]);
}

#[test]
fn unsupported_source_is_an_error() {
    let q = select(
        vec![SelectItem::Wildcard],
        vec![from(TableFactor::Other { text: "UNNEST(xs)".to_string() })],
    );
    let e = lineage(&Statement::Query(Box::new(q)), Dialect::Generic, None).unwrap_err();
    assert_eq!(
        e.message,
        "TableFactor other than table or subquery not implemented: UNNEST(xs)"
    );
}

#[test]
fn merge_into_subquery_is_an_error() {
    let stmt = Statement::Merge {
        table: TableFactor::TableFunction { text: "f()".to_string() },
        source: table(&["s"], None),
    };
    let e = lineage(&stmt, Dialect::Generic, None).unwrap_err();
    assert_eq!(e.message, "Name can be got only from simple table, got f()");
}

#[test]
fn default_schema_qualifies_bare_names() {
    let stmt = Statement::Truncate { table_name: name(&["t"]) };
    let f = lineage(&stmt, Dialect::Postgres, Some("public".to_string())).unwrap();
    assert_eq!(tables(&f.outputs), vec!["public.t".to_string()]);
    let stmt = Statement::Truncate { table_name: name(&["S", "T"]) };
    let f = lineage(&stmt, Dialect::Postgres, Some("public".to_string())).unwrap();
    assert_eq!(tables(&f.outputs), vec!["s.t".to_string()]);
}
