//! Key/value storage behind one contract: `get`, `set`, `remove` and
//! `find_keys`, a search by glob pattern.
//!
//! The heart of the library is the logic of a log-structured store: the
//! record codec (`record`), the glob pattern matcher (`utils`), and the
//! decisions that `get` and `find_keys` make while the log is read from its
//! end (`dirty`).  File access lives with the caller.  Beside it stand an
//! in-memory store (`memory`) and the parts of an SQLite-backed store that do
//! not touch the database (`sqlite`).

pub mod record;
pub mod utils;
pub mod keyset;
pub mod dirty;
pub mod memory;
pub mod sqlite;
