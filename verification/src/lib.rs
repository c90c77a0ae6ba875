//! Versioned configuration records.
//!
//! Each configuration schema of a program has one file in a configuration
//! directory. The file holds a record, a map at its root, and under the
//! reserved key `_version` the version of the schema that wrote it. This
//! library decides what becomes of such records:
//!
//! - [`value`] is the record itself, a tree of maps, lists and typed
//!   scalars, whatever its schema.
//! - [`migration`] walks a record from the version that it declares up to
//!   the schema's current version, filling in defaults and applying the
//!   registered steps, one version at a time.
//! - [`config`] has the schemas and the holder that keeps the typed value
//!   of one schema once its record has been loaded.
//! - [`store`] keeps the holders of all registered schemas and says, for
//!   each load and update, what the holders hold afterwards and which
//!   record is to be written.
//! - [`global`] is the table of values by schema identity that the store
//!   is built on.
//! - [`atomic`] is the order of the steps by which a file is read, or
//!   replaced without ever being seen half written.
//! - [`error`] has the failures.
//!
//! Nothing in here touches a file. A caller reads the file of a schema,
//! hands its record to the store, and writes the record that the store
//! hands back; the transfers of [`atomic`] tell it in which order.

pub mod atomic;
pub mod config;
pub mod error;
pub mod global;
pub mod migration;
pub mod store;
pub mod value;

pub use config::{Config, RegisteredConfig};
pub use migration::{Migration, RegisteredMigration};
pub use store::ConfigStore;
