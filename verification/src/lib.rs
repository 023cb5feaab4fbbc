//! The logic of a hardware machine-code tool: reading identifiers from the
//! system's sources, the machine code and its confidence, the localhost API
//! that serves it once the user has authorized it, and what the window
//! shows, verified by Verus against the contracts stated here.
pub mod text;
pub mod crypto;
pub mod order;
pub mod hardware;
pub mod mac;
pub mod smbios;
pub mod sources;
pub mod json;
pub mod remote_content;
pub mod state;
pub mod server;
pub mod diagnostics;
pub mod ui;
