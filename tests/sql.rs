use mysql_tables::filter::{split_filters, CmpOp, Expr, PushdownSupport, Scalar};
use mysql_tables::filter::filters_support;
use mysql_tables::provider::probe_sql;
use mysql_tables::sql::{select_sql, TableName};

fn col(i: usize) -> Box<Expr> {
    Box::new(Expr::Column(i))
}

fn lit_int(v: i64) -> Box<Expr> {
    Box::new(Expr::Literal(Scalar::Int(v)))
}

fn name(schema: Option<&str>, table: &str) -> TableName {
    TableName { schema: schema.map(|s| s.to_string()), table: table.to_string() }
}

fn columns() -> Vec<String> {
    vec!["id".to_string(), "amount".to_string(), "status".to_string()]
}

#[test]
fn probe_query_returns_no_rows() {
    assert_eq!(probe_sql(&name(Some("shop"), "orders")), "SELECT * FROM `shop`.`orders` LIMIT 0");
}

#[test]
fn identifiers_escape_backticks() {
    assert_eq!(probe_sql(&name(None, "we`ird")), "SELECT * FROM `we``ird` LIMIT 0");
}

#[test]
fn select_with_projection_filters_and_limit() {
    let filters = vec![
        Expr::Compare(CmpOp::GtEq, col(0), lit_int(-10)),
        Expr::Not(Box::new(Expr::IsNull(col(2)))),
    ];
    let sql = select_sql(&name(None, "orders"), &columns(), &Some(vec![2, 0]), &filters, Some(25));
    assert_eq!(
        sql,
        "SELECT `status`, `id` FROM `orders` WHERE (`id` >= -10) AND (NOT (`status` IS NULL)) LIMIT 25"
    );
}

#[test]
fn empty_projection_selects_a_constant() {
    let sql = select_sql(&name(None, "t"), &columns(), &Some(vec![]), &vec![], None);
    assert_eq!(sql, "SELECT 1 FROM `t`");
}

#[test]
fn text_literals_are_escaped() {
    let filters = vec![Expr::Or(
        Box::new(Expr::Compare(CmpOp::Eq, col(2), Box::new(Expr::Literal(Scalar::Text("it's \\ ok".to_string()))))),
        Box::new(Expr::Compare(CmpOp::NotEq, col(1), Box::new(Expr::Literal(Scalar::Null)))),
    )];
    let sql = select_sql(&name(None, "t"), &columns(), &None, &filters, None);
    assert_eq!(sql, "SELECT * FROM `t` WHERE ((`status` = 'it''s \\\\ ok') OR (`amount` <> NULL))");
}

#[test]
fn split_keeps_every_filter_in_order() {
    let filters = vec![
        Expr::Compare(CmpOp::Lt, col(0), lit_int(5)),
        Expr::EngineFunction("starts_with".to_string(), col(2)),
        Expr::Compare(CmpOp::Gt, col(9), lit_int(1)),
        Expr::IsNull(col(1)),
    ];
    let support = filters_support(&filters, 3);
    assert_eq!(
        support,
        vec![PushdownSupport::Exact, PushdownSupport::Unsupported, PushdownSupport::Unsupported, PushdownSupport::Exact]
    );
    let (pushed, local) = split_filters(filters, 3);
    assert_eq!(pushed.len(), 2);
    assert!(matches!(pushed[0], Expr::Compare(CmpOp::Lt, _, _)));
    assert!(matches!(pushed[1], Expr::IsNull(_)));
    assert_eq!(local.len(), 2);
    assert!(matches!(local[0], Expr::EngineFunction(_, _)));
    assert!(matches!(local[1], Expr::Compare(CmpOp::Gt, _, _)));
}
