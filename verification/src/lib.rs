//! Verified core of a SurrealDB key-value / document driver for the Toasty ORM.
//!
//! The library turns Toasty key-value operations (described here by the
//! library's own schema, expression and value models) into SurrealQL text plus
//! bound parameters, decodes result rows, renders schema migrations, and
//! decides the connection's transaction state. Running queries against an
//! embedded SurrealDB engine is left to the surrounding application.

pub mod text;
pub mod schema;
pub mod migration;
pub mod error;
pub mod value;
pub mod json;
pub mod record_id;
pub mod expr;
pub mod op;
pub mod operation;
pub mod write;
pub mod conn;
pub mod driver;
pub mod laws;

pub use conn::Connection;
pub use driver::SurrealDb;
