//! Live rebroadcast of instrument data files.
//!
//! A data-acquisition instrument writes binary data files into a run
//! directory, and the files grow while the run lasts. This library holds the
//! logic of a server that follows the run and sends every newly appended
//! chunk to its clients:
//!
//! - [`file`]: the decoder of one data file, with its format flags, the
//!   record size they imply and the cursor behind which everything has been
//!   delivered;
//! - [`message`]: the message that frames what one read delivered, and the
//!   layout of a batch of messages on the wire;
//! - [`project`]: the run tracker, which decides what a filesystem event
//!   asks for and holds the active run;
//! - [`server`]: the registry of connections, its bound, and who is left
//!   after a broadcast;
//! - [`event`], [`path`], [`encoding`], [`buffer`], [`config`]: the events
//!   and paths that the tracker reads, little-endian integers, the byte
//!   buffer that is broadcast, and the settings.
//!
//! The library does no input or output. Its host watches the filesystem,
//! reads the files and writes to the sockets, and hands the outcomes in as
//! plain values: an [`event::Event`] to [`project::Project::handle_events`],
//! which answers with a [`project::Request`]; what was found or read to
//! [`project::Project::start_run`] and
//! [`project::Project::read_data_from_all_files`]; the outcome of each write
//! to [`server::ConnectionList::complete_broadcast`]. The functions are
//! verified against their contracts, for every value that the host may hand
//! in; the one thing taken on trust, about `bytes::Bytes`, stands in
//! [`buffer`].

pub mod buffer;
pub mod config;
pub mod encoding;
pub mod event;
pub mod file;
pub mod message;
pub mod path;
pub mod project;
pub mod server;
