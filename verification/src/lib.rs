//! Core state of a modal text editor: decoration providers, diff mode, error
//! format parsing, window and tag-stack builtins, and the editor tables.

pub mod buffer;
pub mod builtins;
pub mod decoration;
pub mod dict;
pub mod diffmode;
pub mod editor;
pub mod efm;
pub mod efm_format;
pub mod efm_format_laws;
pub mod efm_laws;
pub mod efm_lookup;
pub mod efm_names;
pub mod errors;
pub mod excmd;
pub mod excmd_laws;
pub mod links;
pub mod messages;
pub mod options;
pub mod splice;
pub mod text;
pub mod types;
pub mod window;
