//! The entry point for MySQL tables: builds a table provider over a shared
//! connection pool, and wraps it for federation when that is enabled.
use vstd::prelude::*;
use std::sync::Arc;
use crate::provider::{Relation, SqlTable, SqlTableError, resolved};
use crate::sql::TableName;
use crate::values::ColumnMeta;

verus! {

/// Why a table could not be registered.
#[derive(Clone, Debug)]
pub enum Error {
    UnableToConstructSQLTable { source: SqlTableError },
}

/// Builds MySQL tables over one shared connection pool.
pub struct MySQLTableFactory<P> {
    pool: Arc<P>,
    federation: bool,
}

/// What building a table gives for the outcome of its metadata query: the
/// error of schema resolution wrapped, or the table, federated when enabled.
pub open spec fn built<P>(
    pool: P,
    federation: bool,
    name: TableName,
    probe: Result<Vec<ColumnMeta>, String>,
    r: Result<Relation<P>, Error>,
) -> bool {
    match r {
        Ok(rel) => {
            &&& resolved(probe, Ok(rel.spec_table().spec_schema()))
            &&& rel.spec_table().spec_name() == name
            &&& rel.spec_table().spec_pool() == pool
            &&& (rel is Federated <==> federation)
        },
        Err(Error::UnableToConstructSQLTable { source }) => resolved(probe, Err(source)),
    }
}

/// A federated and a plain relation built for the same table from the same
/// metadata read that table, over the same pool, with the same column names
/// and types; they differ only in what their scans push to the backend.
pub proof fn lemma_same_table<P>(
    pool: P,
    name: TableName,
    probe: Result<Vec<ColumnMeta>, String>,
    federated: Relation<P>,
    plain: Relation<P>,
)
    requires
        built(pool, true, name, probe, Ok(federated)),
        built(pool, false, name, probe, Ok(plain)),
    ensures
        federated is Federated,
        plain is Plain,
        federated.spec_table().spec_name() == plain.spec_table().spec_name(),
        federated.spec_table().spec_pool() == plain.spec_table().spec_pool(),
        federated.spec_table().spec_schema().len() == plain.spec_table().spec_schema().len(),
        forall|i: int|
            0 <= i < federated.spec_table().spec_schema().len() ==> {
                &&& (#[trigger] federated.spec_table().spec_schema()[i]).name@ == plain.spec_table().spec_schema()[i].name@
                &&& federated.spec_table().spec_schema()[i].data_type == plain.spec_table().spec_schema()[i].data_type
            },
{
}

impl<P> MySQLTableFactory<P> {
    pub closed spec fn spec_pool(&self) -> P {
        *self.pool
    }

    pub closed spec fn spec_federation(&self) -> bool {
        self.federation
    }

    /// A factory over `pool`, with federation enabled.
    pub fn new(pool: Arc<P>) -> (r: Self)
        ensures
            r.spec_pool() == *pool,
            r.spec_federation(),
    {
        MySQLTableFactory { pool, federation: true }
    }

    /// The same factory with federation enabled or not.
    pub fn with_federation(self, enabled: bool) -> (r: Self)
        ensures
            r.spec_pool() == self.spec_pool(),
            r.spec_federation() == enabled,
    {
        MySQLTableFactory { pool: self.pool, federation: enabled }
    }

    pub fn federation(&self) -> (r: bool)
        ensures
            r == self.spec_federation(),
    {
        self.federation
    }

    /// Builds the table that `name` names, from the outcome of its metadata
    /// query (see [`crate::provider::probe_sql`]). The table shares the pool
    /// and reads exactly that table; a failure to resolve its schema is
    /// returned wrapped, and no table is handed out.
    pub fn table_provider(&self, name: TableName, probe: Result<Vec<ColumnMeta>, String>) -> (r: Result<
        Relation<P>,
        Error,
    >)
        ensures
            built(self.spec_pool(), self.spec_federation(), name, probe, r),
    {
        match SqlTable::new(&self.pool, name, probe) {
            Ok(t) => if self.federation {
                Ok(Relation::Federated(t))
            } else {
                Ok(Relation::Plain(t))
            },
            Err(source) => Err(Error::UnableToConstructSQLTable { source }),
        }
    }
}

} // verus!
