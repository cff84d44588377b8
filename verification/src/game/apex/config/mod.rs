//! Apex local configuration files (`videoconfig.txt`, `settings.cfg`,
//! `profile.cfg`): a line-preserving document model, its parser and writer,
//! key-based editing, and the byte encodings the files come in.

pub mod crud;
pub mod encoding;
pub mod file;
pub mod parse;
pub mod value;

pub use encoding::ApexFileEncoding;
pub use file::ApexConfigFileKind;
pub use value::{ApexCfgDocument, ApexCfgLine};
