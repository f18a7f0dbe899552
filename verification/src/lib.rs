//! Streaming ingestion of healthcare price-transparency documents.
//!
//! The crate holds the decisions of the ingestion; reading bytes, running
//! threads and talking to a database are left to the program around it.
//!
//! - [`node_filters`] and [`filtered_in_network_file`]: which elements of
//!   an in-network array are kept.
//! - [`index_file_parsing::seed_deserialization`]: how the fields of an
//!   index document are accepted, and how its reporting structures are
//!   handed to a consumer through a bounded channel.
//! - [`index_file_parsing`]: which file, plan and link records one
//!   reporting structure turns into, and the consumer that writes them.
//! - [`index_file_parsing::meta_repository_trait`]: the metadata store and
//!   the journal of what was written to it.
//! - [`index_file_parsing::csv_meta_repository`]: a store that keeps its
//!   tables as CSV text.
//! - [`generator`] and [`sync_array_serde`]: the receiving side of a
//!   channel, and an array decoded into a channel of its own.
//! - [`sqs`]: the decisions of a listener on a message queue.

pub mod error;
pub mod filtered_in_network_file;
pub mod generator;
pub mod in_network_file_dto;
pub mod index_file_parsing;
pub mod node_filters;
pub mod sqs;
pub mod sync_array_serde;
pub mod text;
