//! Data path of a user-space distributed-filesystem client.
//!
//! A client process hands file reads and writes to the filesystem service
//! through a ring in a shared region. The service claims spans of
//! submissions from the rings of each priority class, cuts every request
//! into operations on the chunks of the storage backend, folds the outcomes
//! of the operations into one result per request, and completes the spans in
//! submission order.
//!
//! - [`ring`], [`ring_order`], [`wire`]: the ring, what holds of it, and its
//!   bytes in the shared region.
//! - [`table`], [`queue`]: the registry of the open rings, the bounded
//!   queues between pollers and workers, and the order in which a worker
//!   serves the priority classes.
//! - [`layout`], [`piov`], [`reduce`], [`rcinode`]: files and chunks, the
//!   batch of chunk operations of a span, the folding of their outcomes, and
//!   what a writer has to do before it writes past the stripes of a file.
//! - [`iov`], [`iov_table`]: the keys that name shared buffers and rings,
//!   and the table of the buffers.
//! - [`config`], [`settings`], [`user_config`], [`clients`]: settings and
//!   the context that the service passes down.
//! - [`status`], [`uuid`], [`text`], [`bytes`]: error codes, identifiers,
//!   and numbers as text and as bytes.

pub mod status;
pub mod uuid;
pub mod text;
pub mod bytes;
pub mod ring;
pub mod ring_lemmas;
pub mod ring_order;
pub mod wire;
pub mod queue;
pub mod table;
pub mod layout;
pub mod rcinode;
pub mod reduce;
pub mod piov;
pub mod iov;
pub mod iov_table;
pub mod config;
pub mod settings;
pub mod user_config;
pub mod clients;
