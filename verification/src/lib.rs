//! Reading, editing and writing the `desktop.ini` files that Windows keeps in
//! folders: their display name, tip, icon, tags and custom command.
pub mod args;
pub mod command;
pub mod encoding;
pub mod error;
pub mod fields;
pub mod file;
pub mod format;
pub mod ini;
pub mod prompt;
pub mod readback;
pub mod run;
pub mod set;
pub mod setup;
pub mod summary;
pub mod sync;
pub mod tags;
pub mod text;
pub mod undo;

pub use args::{join_args, parse_args};
pub use command::{parse_command, quote_windows_arg, shell_execute_runas};
pub use encoding::{current_encoding, SystemEncoding};
pub use error::{Error, ErrorAction, IoReason, ResultHandle};
pub use fields::DIRECTORY_CLASS;
pub use ini::Ini;
pub use setup::setup;
