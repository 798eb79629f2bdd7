//! A durable record store for crisis update reports.
//!
//! Records carry a unique monotonically-increasing id, author, timestamps and
//! textual fields, survive process restarts in a stable storage substrate, and
//! are served through CRUD and query operations guarded by validation and
//! author-only authorization gates.

pub mod chars;
pub mod codec;
pub mod laws;
pub mod record;
pub mod stable;
pub mod store;
