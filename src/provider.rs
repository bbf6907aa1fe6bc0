//! The SQL table provider: schema resolution at construction, and the plan of
//! each scan (the query sent to the backend and the filters the engine keeps).
use vstd::prelude::*;
use std::sync::Arc;
use crate::filter::{Expr, PushdownSupport, filters_support, kept_local, pushable, split_filters};
use crate::sql::{TableName, all_expressible, names_of, select_sql, select_text, valid_projection};
use crate::values::{
    Cell, ColumnMeta, DecodeError, EngineType, EngineValue, NativeType, RawModel, RawValue, decode_spec,
    decode_value, engine_type_of, native_to_engine_type,
};

verus! {

/// Why a table provider could not be built.
#[derive(Clone, Debug)]
pub enum SqlTableError {
    /// The metadata query failed: bad table reference, unreachable backend or
    /// missing permission. Holds the backend's message.
    SchemaResolutionFailed { message: String },
    /// A column's native type has no engine type.
    UnsupportedType { column: String, native: NativeType },
}

/// A column of a resolved schema.
#[derive(Clone, Debug)]
pub struct Field {
    pub name: String,
    pub data_type: EngineType,
    pub nullable: bool,
}

/// The field that a column of supported type becomes.
pub open spec fn field_matches(f: Field, c: ColumnMeta) -> bool {
    &&& f.name@ == c.name@
    &&& Some(f.data_type) == engine_type_of(c)
    &&& f.nullable == c.nullable
}

pub open spec fn all_supported(cols: Seq<ColumnMeta>) -> bool {
    forall|i: int| 0 <= i < cols.len() ==> (#[trigger] engine_type_of(cols[i])) is Some
}

/// The first column, by position, whose type has no mapping.
pub open spec fn first_unsupported(cols: Seq<ColumnMeta>, i: int) -> bool {
    &&& 0 <= i < cols.len()
    &&& engine_type_of(cols[i]) is None
    &&& forall|j: int| 0 <= j < i ==> (#[trigger] engine_type_of(cols[j])) is Some
}

/// The outcome of schema resolution, for the outcome of the metadata query.
pub open spec fn resolved(probe: Result<Vec<ColumnMeta>, String>, r: Result<Seq<Field>, SqlTableError>) -> bool {
    match probe {
        Err(m) => r matches Err(SqlTableError::SchemaResolutionFailed { message }) && message@ == m@,
        Ok(cols) => match r {
            Ok(fields) => {
                &&& all_supported(cols@)
                &&& fields.len() == cols@.len()
                &&& forall|i: int| 0 <= i < cols@.len() ==> field_matches(#[trigger] fields[i], cols@[i])
            },
            Err(e) => exists|i: int|
                first_unsupported(cols@, i) && (e matches SqlTableError::UnsupportedType { column, native }
                    && column@ == cols@[i].name@ && native == cols@[i].native),
        },
    }
}

/// Turns the outcome of the metadata query into the table's schema: a failed
/// query is a schema resolution failure; a column of unmapped type fails the
/// whole table, naming the first such column; otherwise each column becomes a
/// field, in order.
pub fn resolve_schema(probe: Result<Vec<ColumnMeta>, String>) -> (r: Result<Vec<Field>, SqlTableError>)
    ensures
        resolved(
            probe,
            match r {
                Ok(f) => Ok(f@),
                Err(e) => Err(e),
            },
        ),
{
    match probe {
        Err(message) => Err(SqlTableError::SchemaResolutionFailed { message }),
        Ok(cols) => map_columns(&cols),
    }
}

fn map_columns(cols: &Vec<ColumnMeta>) -> (r: Result<Vec<Field>, SqlTableError>)
    ensures
        resolved(
            Ok(*cols),
            match r {
                Ok(f) => Ok(f@),
                Err(e) => Err(e),
            },
        ),
{
    let mut fields: Vec<Field> = Vec::new();
    let mut k: usize = 0;
    while k < cols.len()
        invariant
            k <= cols@.len(),
            fields@.len() == k,
            forall|i: int| 0 <= i < k ==> field_matches(#[trigger] fields@[i], cols@[i]),
            forall|i: int| 0 <= i < k ==> (#[trigger] engine_type_of(cols@[i])) is Some,
        decreases cols@.len() - k,
    {
        let c = &cols[k];
        match native_to_engine_type(c) {
            Some(t) => {
                let name = c.name.clone();
                fields.push(Field { name, data_type: t, nullable: c.nullable });
            },
            None => {
                let column = c.name.clone();
                let e = SqlTableError::UnsupportedType { column, native: c.native };
                proof {
                    let i = k as int;
                    assert(first_unsupported(cols@, i) && (e matches SqlTableError::UnsupportedType {
                        column,
                        native,
                    } && column@ == cols@[i].name@ && native == cols@[i].native));
                }
                return Err(e);
            },
        }
        k = k + 1;
    }
    Ok(fields)
}

pub open spec fn raw_models(raw: Seq<RawValue>) -> Seq<RawModel> {
    raw.map_values(|v: RawValue| v@)
}

pub open spec fn cells_of(vals: Seq<EngineValue>) -> Seq<Cell> {
    vals.map_values(|v: EngineValue| v@)
}

/// What decoding a row under a schema gives: a row of another width is a
/// type mismatch; otherwise each cell decodes under its field's type, and
/// the first cell that does not gives the error.
pub open spec fn row_decoded(raw: Seq<RawModel>, schema: Seq<Field>, r: Result<Seq<Cell>, DecodeError>) -> bool {
    if raw.len() != schema.len() {
        r == Err::<Seq<Cell>, DecodeError>(DecodeError::TypeMismatch)
    } else {
        match r {
            Ok(cells) => {
                &&& cells.len() == raw.len()
                &&& forall|i: int|
                    0 <= i < raw.len() ==> #[trigger] decode_spec(raw[i], schema[i].data_type) == Ok::<
                        Cell,
                        DecodeError,
                    >(cells[i])
            },
            Err(e) => exists|i: int|
                {
                    &&& 0 <= i < raw.len()
                    &&& decode_spec(raw[i], schema[i].data_type) == Err::<Cell, DecodeError>(e)
                    &&& forall|j: int| 0 <= j < i ==> (#[trigger] decode_spec(raw[j], schema[j].data_type)) is Ok
                },
        }
    }
}

/// Decodes one row of raw values under the table's schema.
pub fn decode_row(raw: Vec<RawValue>, schema: &Vec<Field>) -> (r: Result<Vec<EngineValue>, DecodeError>)
    ensures
        row_decoded(
            raw_models(raw@),
            schema@,
            match r {
                Ok(v) => Ok(cells_of(v@)),
                Err(e) => Err(e),
            },
        ),
{
    if raw.len() != schema.len() {
        return Err(DecodeError::TypeMismatch);
    }
    let n = schema.len();
    let ghost all = raw@;
    let mut rest = raw;
    let mut out: Vec<EngineValue> = Vec::new();
    let mut failed: Option<DecodeError> = None;
    let mut k: usize = 0;
    while rest.len() > 0 && failed.is_none()
        invariant
            n == schema@.len(),
            all.len() == n,
            k <= n,
            failed is None ==> rest@ == all.skip(k as int),
            out@.len() == k,
            forall|i: int|
                0 <= i < k ==> #[trigger] decode_spec(all[i]@, schema@[i].data_type) == Ok::<Cell, DecodeError>(
                    out@[i]@,
                ),
            failed matches Some(e) ==> k < n && decode_spec(all[k as int]@, schema@[k as int].data_type) == Err::<
                Cell,
                DecodeError,
            >(e),
        decreases rest@.len() + (if failed is None { 1int } else { 0int }),
    {
        let v = rest.remove(0);
        assert(v == all[k as int]);
        match decode_value(v, schema[k].data_type) {
            Ok(c) => {
                out.push(c);
                proof {
                    assert(rest@ =~= all.skip(k as int + 1));
                }
                k = k + 1;
            },
            Err(e) => {
                failed = Some(e);
            },
        }
    }
    proof {
        assert forall|i: int| 0 <= i < all.len() implies raw_models(all)[i] == #[trigger] all[i]@ by {}
    }
    match failed {
        Some(e) => {
            proof {
                let i = k as int;
                assert(raw_models(all)[i] == all[i]@);
                assert forall|j: int| 0 <= j < i implies (#[trigger] decode_spec(
                    raw_models(all)[j],
                    schema@[j].data_type,
                )) is Ok by {
                    assert(raw_models(all)[j] == all[j]@);
                }
            }
            Err(e)
        },
        None => {
            proof {
                assert(k == n);
                assert forall|i: int| 0 <= i < all.len() implies #[trigger] decode_spec(
                    raw_models(all)[i],
                    schema@[i].data_type,
                ) == Ok::<Cell, DecodeError>(cells_of(out@)[i]) by {
                    assert(raw_models(all)[i] == all[i]@);
                }
            }
            Ok(out)
        },
    }
}

/// The metadata query: a scan of the table that returns no rows.
pub fn probe_sql(name: &TableName) -> (r: String)
    ensures
        r@ == select_text(*name, Seq::empty(), None, Seq::empty(), Some(0u64)),
{
    let none: Vec<String> = Vec::new();
    let filters: Vec<Expr> = Vec::new();
    proof {
        assert(names_of(none@) =~= Seq::empty());
    }
    select_sql(name, &none, &None, &filters, Some(0))
}

/// Relies on `Arc::clone`: another handle to the same value.
#[verifier::external_body]
fn share<P>(p: &Arc<P>) -> (r: Arc<P>)
    ensures
        *r == **p,
{
    Arc::clone(p)
}

/// A table of the backend with its resolved schema, ready to scan. Scans
/// borrow connections from the shared pool.
pub struct SqlTable<P> {
    pool: Arc<P>,
    name: TableName,
    schema: Vec<Field>,
}

/// What a scan sends to the backend and what the engine still has to do.
#[derive(Debug)]
pub struct ScanPlan {
    /// The query for the backend.
    pub sql: String,
    /// The filters the engine applies to the rows the query returns.
    pub local_filters: Vec<Expr>,
}

pub open spec fn field_names(fields: Seq<Field>) -> Seq<String> {
    fields.map_values(|f: Field| f.name)
}

impl<P> SqlTable<P> {
    pub closed spec fn spec_name(&self) -> TableName {
        self.name
    }

    pub closed spec fn spec_schema(&self) -> Seq<Field> {
        self.schema@
    }

    pub closed spec fn spec_pool(&self) -> P {
        *self.pool
    }

    /// Builds the table from the outcome of its metadata query (see
    /// [`probe_sql`]); fails as [`resolve_schema`] does, in which case no
    /// table exists.
    pub fn new(pool: &Arc<P>, name: TableName, probe: Result<Vec<ColumnMeta>, String>) -> (r: Result<
        SqlTable<P>,
        SqlTableError,
    >)
        ensures
            resolved(
                probe,
                match r {
                    Ok(t) => Ok(t.spec_schema()),
                    Err(e) => Err(e),
                },
            ),
            r matches Ok(t) ==> t.spec_pool() == **pool && t.spec_name() == name,
    {
        match resolve_schema(probe) {
            Ok(schema) => Ok(SqlTable { pool: share(pool), name, schema }),
            Err(e) => Err(e),
        }
    }

    pub fn table_name(&self) -> (r: &TableName)
        ensures
            *r == self.spec_name(),
    {
        &self.name
    }

    pub fn schema(&self) -> (r: &Vec<Field>)
        ensures
            r@ == self.spec_schema(),
    {
        &self.schema
    }

    pub fn pool(&self) -> (r: &Arc<P>)
        ensures
            **r == self.spec_pool(),
    {
        &self.pool
    }

    fn column_names(&self) -> (r: Vec<String>)
        ensures
            names_of(r@) == names_of(field_names(self.spec_schema())),
            r@.len() == self.spec_schema().len(),
    {
        let mut r: Vec<String> = Vec::new();
        let mut k: usize = 0;
        while k < self.schema.len()
            invariant
                k <= self.schema@.len(),
                r@.len() == k,
                forall|i: int| 0 <= i < k ==> (#[trigger] r@[i])@ == self.schema@[i].name@,
            decreases self.schema@.len() - k,
        {
            r.push(self.schema[k].name.clone());
            k = k + 1;
        }
        assert(names_of(r@) =~= names_of(field_names(self.spec_schema())));
        r
    }

    /// Compiles a scan: the selected columns and the given filters into one
    /// query, with the limit. The caller passes only filters the dialect can
    /// evaluate.
    pub fn scan_sql(&self, projection: &Option<Vec<usize>>, filters: &Vec<Expr>, limit: Option<u64>) -> (r: String)
        requires
            projection matches Some(p) ==> valid_projection(p@, self.spec_schema().len()),
            all_expressible(filters@, self.spec_schema().len()),
        ensures
            r@ == select_text(
                self.spec_name(),
                names_of(field_names(self.spec_schema())),
                match projection {
                    Some(p) => Some(p@),
                    None => None,
                },
                filters@,
                limit,
            ),
    {
        let names = self.column_names();
        select_sql(&self.name, &names, projection, filters, limit)
    }
}

/// What the engine is given for a table: a plain scan, or a scan that also
/// evaluates in the backend every filter the dialect can express.
pub enum Relation<P> {
    Plain(SqlTable<P>),
    Federated(SqlTable<P>),
}

impl<P> Relation<P> {
    pub open spec fn spec_table(&self) -> SqlTable<P> {
        match self {
            Relation::Plain(t) => *t,
            Relation::Federated(t) => *t,
        }
    }

    pub fn table(&self) -> (r: &SqlTable<P>)
        ensures
            *r == self.spec_table(),
    {
        match self {
            Relation::Plain(t) => t,
            Relation::Federated(t) => t,
        }
    }

    pub fn is_federated(&self) -> (r: bool)
        ensures
            r == self is Federated,
    {
        match self {
            Relation::Plain(_) => false,
            Relation::Federated(_) => true,
        }
    }

    /// For each offered filter, whether the backend evaluates it: those the
    /// dialect can express when federated, none for a plain scan.
    pub fn supports_filters_pushdown(&self, filters: &Vec<Expr>) -> (r: Vec<PushdownSupport>)
        ensures
            r@.len() == filters@.len(),
            forall|i: int|
                0 <= i < r@.len() ==> (#[trigger] r@[i] == PushdownSupport::Exact <==> (self is Federated
                    && crate::filter::expressible(filters@[i], self.spec_table().spec_schema().len()))),
    {
        match self {
            Relation::Federated(t) => filters_support(filters, t.schema.len()),
            Relation::Plain(t) => {
                let mut r: Vec<PushdownSupport> = Vec::new();
                let mut k: usize = 0;
                while k < filters.len()
                    invariant
                        k <= filters@.len(),
                        r@.len() == k,
                        forall|i: int| 0 <= i < k ==> #[trigger] r@[i] == PushdownSupport::Unsupported,
                    decreases filters@.len() - k,
                {
                    r.push(PushdownSupport::Unsupported);
                    k = k + 1;
                }
                r
            },
        }
    }

    /// Plans a scan. A plain scan sends the projection alone and leaves every
    /// filter to the engine; a federated scan also sends the filters the dialect
    /// can express and keeps the others. The limit is sent only when no filter
    /// stays with the engine, since it must apply after every filter.
    pub fn scan(&self, projection: &Option<Vec<usize>>, filters: Vec<Expr>, limit: Option<u64>) -> (r: ScanPlan)
        requires
            projection matches Some(p) ==> valid_projection(p@, self.spec_table().spec_schema().len()),
        ensures
            ({
                let t = self.spec_table();
                let n = t.spec_schema().len();
                let pushed = if self is Federated { filters@.filter(pushable(n)) } else { Seq::empty() };
                let local = if self is Federated { filters@.filter(kept_local(n)) } else { filters@ };
                &&& r.local_filters@ == local
                &&& r.sql@ == select_text(
                    t.spec_name(),
                    names_of(field_names(t.spec_schema())),
                    match projection {
                        Some(p) => Some(p@),
                        None => None,
                    },
                    pushed,
                    if local.len() == 0 { limit } else { None },
                )
            }),
    {
        match self {
            Relation::Plain(t) => {
                let none: Vec<Expr> = Vec::new();
                let lim = if filters.len() == 0 { limit } else { None };
                let sql = t.scan_sql(projection, &none, lim);
                proof {
                    assert(none@ =~= Seq::<Expr>::empty());
                }
                ScanPlan { sql, local_filters: filters }
            },
            Relation::Federated(t) => {
                let n = t.schema.len();
                let (pushed, local) = split_filters(filters, n);
                proof {
                    assert forall|i: int| 0 <= i < pushed@.len() implies crate::filter::expressible(
                        #[trigger] pushed@[i],
                        n as nat,
                    ) by {
                        filters@.lemma_filter_pred(pushable(n as nat), i);
                    }
                }
                let lim = if local.len() == 0 { limit } else { None };
                let sql = t.scan_sql(projection, &pushed, lim);
                ScanPlan { sql, local_filters: local }
            },
        }
    }
}

} // verus!
