//! Reading a local file tree for backup: walking order, mapping of directory entries to
//! repository nodes, and the Windows per-file metadata that travels with them.

pub mod attribute_map;
pub mod encoding;
pub mod error;
pub mod generic_attributes;
pub mod mapper;
pub mod node;
pub mod open_file;
pub mod order;
pub mod path;
pub mod repofile;
pub mod sort;
pub mod source;
pub mod time;
pub mod walk_laws;
pub mod walker;
pub mod win_ads;
pub mod win_reparse;
pub mod win_sd;
pub mod win_sparse;
