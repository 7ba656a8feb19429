//! Content-addressed asset fetching and repacking for the TACT family of
//! game-distribution CDN formats: key codecs, binary table parsers (archive
//! index, encoding table, root table, BLTE envelope), the resolution chain
//! from logical file ids to archive byte ranges, and the segmented
//! "sheepfile" repack container.

pub mod error;
pub mod text;
pub mod keys;
pub mod bytes;
pub mod blte;
pub mod archive;
pub mod encoding;
pub mod namehash;
pub mod root;
pub mod manifest;
pub mod config;
pub mod sheepfile;
pub mod sheepfile_reader;
pub mod sheepfile_writer;
pub mod fetcher;
pub mod repack;
pub mod vlq;
pub mod file_db;
