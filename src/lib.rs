//! The core of a local semantic code search engine: the rules that keep a
//! hybrid vector + full-text index synchronised with a source tree, and the
//! ranking of query results.
//!
//! - `paths`: path normalisation, shared by every stored or compared path.
//! - `rules`, `watch`, `events`, `batch`: which file events matter, how they
//!   are de-duplicated and buffered, when buffers flush, and how removals
//!   (including whole directories) reach the file-meta store.
//! - `file_meta`, `sync`: the per-file record of what was indexed, and the
//!   startup / branch refresh that reconciles it with the disk.
//! - `store`, `chunk`, `batching`: chunk-id assignment, the vector index's
//!   states, map growth, cache eviction, reader / writer access, chunk
//!   metadata, and cache-first embedding batches.
//! - `analysis`, `rrf`, `query`: query analysis, reciprocal-rank fusion and
//!   the final boosting, filtering and truncation of results.
//! - `discovery`, `doctor`, `flags`: locating the database, health checks,
//!   and the run-wide quiet / shutdown flags.
//! - `text`: character-level helpers.
pub mod analysis;
pub mod batch;
pub mod batching;
pub mod chunk;
pub mod discovery;
pub mod doctor;
pub mod events;
pub mod file_meta;
pub mod flags;
pub mod paths;
pub mod query;
pub mod rrf;
pub mod rules;
pub mod store;
pub mod sync;
pub mod text;
pub mod watch;
