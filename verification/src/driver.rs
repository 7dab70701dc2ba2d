//! The driver's configuration: which embedded engine it opens, under which
//! namespace and database, and the capability profile it reports.

use vstd::prelude::*;

verus! {

/// The embedded engine a driver opens.
#[derive(Debug)]
pub enum Engine {
    /// In memory; every fresh database starts empty.
    Mem,
    /// File-backed SurrealKV rooted at the given path.
    SurrealKv(String),
    /// File-backed RocksDB rooted at the given path.
    RocksDb(String),
}

/// A SurrealDB driver's configuration.
#[derive(Debug)]
pub struct SurrealDb {
    pub engine: Engine,
    pub namespace: String,
    pub database: String,
}

/// The namespace and the database a driver uses unless told otherwise.
pub open spec fn default_name() -> Seq<char> {
    "toasty"@
}

/// What the driver reports it supports. SurrealDB is a key-value / document
/// backend: no SQL dialect and no placeholder syntax.
#[derive(Debug)]
pub struct Capability {
    pub driver_name: String,
    /// The SQL dialect, if the driver speaks SQL.
    pub sql: Option<String>,
    /// The SQL placeholder syntax, if any.
    pub sql_placeholder: Option<String>,
    pub scan: bool,
    pub scan_supports_sort: bool,
    pub index_or_predicate: bool,
    pub upsert_primary_key: bool,
    pub primary_key_ne_predicate: bool,
    pub native_json: bool,
    pub native_jsonb: bool,
}

/// The SurrealDB capability profile: full-table scans (unsorted), `OR`
/// predicates, primary-key upserts and primary-key `!=` predicates, and
/// native JSON but no distinct JSONB storage.
pub fn surrealdb_capability() -> (c: Capability)
    ensures
        c.driver_name@ == "SurrealDB"@,
        c.sql is None,
        c.sql_placeholder is None,
        c.scan,
        !c.scan_supports_sort,
        c.index_or_predicate,
        c.upsert_primary_key,
        c.primary_key_ne_predicate,
        c.native_json,
        !c.native_jsonb,
{
    Capability {
        driver_name: String::from_str("SurrealDB"),
        sql: None,
        sql_placeholder: None,
        scan: true,
        scan_supports_sort: false,
        index_or_predicate: true,
        upsert_primary_key: true,
        primary_key_ne_predicate: true,
        native_json: true,
        native_jsonb: false,
    }
}

impl SurrealDb {
    fn with_engine(engine: Engine) -> (d: SurrealDb)
        ensures
            d.engine == engine,
            d.namespace@ == default_name(),
            d.database@ == default_name(),
    {
        SurrealDb { engine, namespace: String::from_str("toasty"), database: String::from_str("toasty") }
    }

    /// An in-memory driver.
    pub fn mem() -> (d: SurrealDb)
        ensures
            d.engine is Mem,
            d.namespace@ == default_name(),
            d.database@ == default_name(),
    {
        SurrealDb::with_engine(Engine::Mem)
    }

    /// A file-backed SurrealKV driver rooted at `path`.
    pub fn surrealkv(path: String) -> (d: SurrealDb)
        ensures
            d.engine matches Engine::SurrealKv(p) && p@ == path@,
            d.namespace@ == default_name(),
            d.database@ == default_name(),
    {
        SurrealDb::with_engine(Engine::SurrealKv(path))
    }

    /// A file-backed RocksDB driver rooted at `path`.
    pub fn rocksdb(path: String) -> (d: SurrealDb)
        ensures
            d.engine matches Engine::RocksDb(p) && p@ == path@,
            d.namespace@ == default_name(),
            d.database@ == default_name(),
    {
        SurrealDb::with_engine(Engine::RocksDb(path))
    }

    /// Overrides the namespace.
    pub fn namespace(self, ns: String) -> (d: SurrealDb)
        ensures
            d.engine == self.engine,
            d.namespace@ == ns@,
            d.database@ == self.database@,
    {
        SurrealDb { engine: self.engine, namespace: ns, database: self.database }
    }

    /// Overrides the database.
    pub fn database(self, db: String) -> (d: SurrealDb)
        ensures
            d.engine == self.engine,
            d.namespace@ == self.namespace@,
            d.database@ == db@,
    {
        SurrealDb { engine: self.engine, namespace: self.namespace, database: db }
    }

    /// The driver's URL: `surrealdb:mem`, or the engine and its path.
    pub fn url(&self) -> (r: String)
        ensures
            r@ == match self.engine {
                Engine::Mem => "surrealdb:mem"@,
                Engine::SurrealKv(p) => "surrealdb:surrealkv:"@ + p@,
                Engine::RocksDb(p) => "surrealdb:rocksdb:"@ + p@,
            },
    {
        let mut out = String::new();
        match &self.engine {
            Engine::Mem => out.append("surrealdb:mem"),
            Engine::SurrealKv(p) => {
                out.append("surrealdb:surrealkv:");
                out.append(p.as_str());
            },
            Engine::RocksDb(p) => {
                out.append("surrealdb:rocksdb:");
                out.append(p.as_str());
            },
        }
        out
    }

    /// The most connections the driver opens at once: one for an in-memory
    /// database, which exists only while a handle is held, so that all work
    /// shares the same store; no limit otherwise.
    pub fn max_connections(&self) -> (r: Option<usize>)
        ensures
            self.engine is Mem ==> r == Some(1usize),
            !(self.engine is Mem) ==> r is None,
    {
        match &self.engine {
            Engine::Mem => Some(1),
            _ => None,
        }
    }

    /// The directory a reset removes: the file-backed engine's path.
    pub fn data_path(&self) -> (r: Option<&String>)
        ensures
            match self.engine {
                Engine::Mem => r is None,
                Engine::SurrealKv(p) => r == Some(&p),
                Engine::RocksDb(p) => r == Some(&p),
            },
    {
        match &self.engine {
            Engine::Mem => None,
            Engine::SurrealKv(p) => Some(p),
            Engine::RocksDb(p) => Some(p),
        }
    }

    /// The capability profile the driver reports.
    pub fn capability(&self) -> (c: Capability)
        ensures
            c.sql is None,
            c.sql_placeholder is None,
            c.scan,
            !c.scan_supports_sort,
            c.index_or_predicate,
            c.upsert_primary_key,
            c.primary_key_ne_predicate,
            c.native_json,
            !c.native_jsonb,
    {
        surrealdb_capability()
    }
}

} // verus!
