use std::sync::Arc;

use mysql_tables::filter::{CmpOp, Expr, PushdownSupport, Scalar};
use mysql_tables::mysql::{Error, MySQLTableFactory};
use mysql_tables::pool::ConnectionPool;
use mysql_tables::provider::{decode_row, Relation, SqlTableError};
use mysql_tables::sql::TableName;
use mysql_tables::values::{ColumnMeta, DecodeError, EngineType, EngineValue, NativeType, RawValue};

fn meta(name: &str, native: NativeType) -> ColumnMeta {
    ColumnMeta { name: name.to_string(), native, unsigned: false, binary: false, nullable: true, length: 20, decimals: 0 }
}

fn orders_columns() -> Vec<ColumnMeta> {
    vec![
        meta("id", NativeType::LongLong),
        meta("amount", NativeType::Double),
        meta("status", NativeType::Varchar),
    ]
}

fn bare(table: &str) -> TableName {
    TableName { schema: None, table: table.to_string() }
}

fn factory() -> MySQLTableFactory<ConnectionPool> {
    MySQLTableFactory::new(Arc::new(ConnectionPool::new(4, 60_000)))
}

fn status_is_paid() -> Expr {
    Expr::Compare(
        CmpOp::Eq,
        Box::new(Expr::Column(2)),
        Box::new(Expr::Literal(Scalar::Text("paid".to_string()))),
    )
}

/// The rows of the test table: (id, amount in cents, status).
fn orders_rows() -> Vec<(i64, i64, String)> {
    (0..1000)
        .map(|i| {
            let status = if i % 5 < 2 { "paid" } else if i % 5 == 2 { "open" } else { "void" };
            (i as i64, (i as i64) * 7, status.to_string())
        })
        .collect()
}

/// The engine's reading of a filter of the form `column = 'text'`.
fn holds(e: &Expr, row: &(i64, i64, String)) -> bool {
    match e {
        Expr::Compare(CmpOp::Eq, a, b) => match (a.as_ref(), b.as_ref()) {
            (Expr::Column(2), Expr::Literal(Scalar::Text(t))) => &row.2 == t,
            _ => panic!("filter outside this test's reach"),
        },
        _ => panic!("filter outside this test's reach"),
    }
}

#[test]
fn builds_a_federated_table_with_its_schema() {
    let rel = factory().table_provider(bare("orders"), Ok(orders_columns())).expect("table");
    assert!(rel.is_federated());
    let schema = rel.table().schema();
    assert_eq!(schema.len(), 3);
    assert_eq!(schema[0].name, "id");
    assert_eq!(schema[0].data_type, EngineType::Int64);
    assert_eq!(schema[1].data_type, EngineType::Float64);
    assert_eq!(schema[2].data_type, EngineType::Utf8);
    assert_eq!(rel.table().pool().capacity(), 4);
}

#[test]
fn without_federation_the_table_is_plain() {
    let f = factory().with_federation(false);
    let rel = f.table_provider(bare("orders"), Ok(orders_columns())).expect("table");
    assert!(matches!(rel, Relation::Plain(_)));
    let support = rel.supports_filters_pushdown(&vec![status_is_paid()]);
    assert_eq!(support, vec![PushdownSupport::Unsupported]);
}

#[test]
fn missing_table_fails_schema_resolution() {
    let r = factory().table_provider(
        bare("no_such_table"),
        Err("Table 'shop.no_such_table' doesn't exist".to_string()),
    );
    match r {
        Err(Error::UnableToConstructSQLTable { source: SqlTableError::SchemaResolutionFailed { message } }) => {
            assert_eq!(message, "Table 'shop.no_such_table' doesn't exist")
        }
        _ => panic!("expected a schema resolution failure"),
    }
}

#[test]
fn unmapped_column_type_fails_construction() {
    let mut cols = orders_columns();
    cols.push(meta("shape", NativeType::Geometry));
    cols.push(meta("area", NativeType::Geometry));
    match factory().table_provider(bare("plots"), Ok(cols)) {
        Err(Error::UnableToConstructSQLTable { source: SqlTableError::UnsupportedType { column, native } }) => {
            assert_eq!(column, "shape");
            assert_eq!(native, NativeType::Geometry);
        }
        _ => panic!("expected an unsupported type"),
    }
}

#[test]
fn federated_and_plain_scans_select_the_same_paid_orders() {
    let rows = orders_rows();
    let f = factory();

    let federated = f.table_provider(bare("orders"), Ok(orders_columns())).expect("table");
    assert_eq!(federated.supports_filters_pushdown(&vec![status_is_paid()]), vec![PushdownSupport::Exact]);
    let plan = federated.scan(&None, vec![status_is_paid()], None);
    assert_eq!(plan.sql, "SELECT * FROM `orders` WHERE (`status` = 'paid')");
    assert!(plan.local_filters.is_empty());
    // the backend evaluates the WHERE clause; nothing is filtered here
    let pushed = status_is_paid();
    let from_backend: Vec<_> = rows.iter().filter(|r| holds(&pushed, r)).cloned().collect();
    assert_eq!(from_backend.len(), 400);

    let plain = f
        .with_federation(false)
        .table_provider(bare("orders"), Ok(orders_columns()))
        .expect("table");
    let plan = plain.scan(&None, vec![status_is_paid()], None);
    assert_eq!(plan.sql, "SELECT * FROM `orders`");
    assert_eq!(plan.local_filters.len(), 1);
    let local: Vec<_> = rows
        .iter()
        .filter(|r| plan.local_filters.iter().all(|e| holds(e, r)))
        .cloned()
        .collect();
    assert_eq!(local, from_backend);
}

#[test]
fn limit_is_sent_only_when_no_filter_stays_local() {
    let rel = factory().table_provider(bare("orders"), Ok(orders_columns())).expect("table");
    let plan = rel.scan(&Some(vec![0]), vec![status_is_paid()], Some(10));
    assert_eq!(plan.sql, "SELECT `id` FROM `orders` WHERE (`status` = 'paid') LIMIT 10");
    let local_fn = Expr::EngineFunction("my_udf".to_string(), Box::new(Expr::Column(2)));
    let plan = rel.scan(&Some(vec![0]), vec![status_is_paid(), local_fn], Some(10));
    assert_eq!(plan.sql, "SELECT `id` FROM `orders` WHERE (`status` = 'paid')");
    assert_eq!(plan.local_filters.len(), 1);
}

#[test]
fn federated_and_plain_tables_read_the_same_table() {
    let f = factory();
    let named = TableName { schema: Some("shop".to_string()), table: "orders".to_string() };
    let federated = f.table_provider(named.clone(), Ok(orders_columns())).expect("table");
    assert_eq!(federated.table().table_name().schema.as_deref(), Some("shop"));
    assert_eq!(federated.table().table_name().table, "orders");
    let plan = federated.scan(&None, vec![status_is_paid()], None);
    assert_eq!(plan.sql, "SELECT * FROM `shop`.`orders` WHERE (`status` = 'paid')");
    let plain = f.with_federation(false).table_provider(named, Ok(orders_columns())).expect("table");
    assert_eq!(plain.scan(&None, vec![], None).sql, "SELECT * FROM `shop`.`orders`");
}

#[test]
fn decodes_a_row_under_the_schema() {
    let rel = factory().table_provider(bare("orders"), Ok(orders_columns())).expect("table");
    let schema = rel.table().schema();
    let row = vec![RawValue::Int(7), RawValue::Null, RawValue::Bytes(b"paid".to_vec())];
    match decode_row(row, schema) {
        Ok(cells) => {
            assert_eq!(cells.len(), 3);
            assert!(matches!(cells[0], EngineValue::Int64(7)));
            assert!(matches!(cells[1], EngineValue::Null));
            assert!(matches!(&cells[2], EngineValue::Utf8(b) if b == b"paid"));
        }
        Err(e) => panic!("{:?}", e),
    }
}

#[test]
fn row_decoding_stops_at_the_first_bad_cell() {
    let rel = factory().table_provider(bare("orders"), Ok(orders_columns())).expect("table");
    let schema = rel.table().schema();
    let row = vec![RawValue::Bytes(vec![1]), RawValue::Null, RawValue::Bytes(vec![0xff])];
    assert!(matches!(decode_row(row, schema), Err(DecodeError::TypeMismatch)));
    let row = vec![RawValue::Int(1), RawValue::Null, RawValue::Bytes(vec![0xff])];
    assert!(matches!(decode_row(row, schema), Err(DecodeError::InvalidValue)));
    let short = vec![RawValue::Int(1)];
    assert!(matches!(decode_row(short, schema), Err(DecodeError::TypeMismatch)));
}
