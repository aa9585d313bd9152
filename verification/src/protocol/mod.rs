//! The messages themselves: what is asked of a server, and what its answers mean.
//!
//! This is also the one place a column is converted between the bytes an editor counts and the
//! units a server agreed to - see [`lsp_character`] and [`byte_column`]. Everything that crosses
//! over goes through there, so there is nowhere else for the two to be confused.

pub mod answers;
pub mod changes;
pub mod params;
pub mod places;
pub mod positions;
pub mod progress;
pub mod uris;
pub mod wire;

pub use answers::{
    agreed_encoding, code_action_params, completions_from, diagnostics_at, diagnostics_from,
    edits_from, formats, hover_markdown_from, published_diagnostics, renamable_name,
    signature_from, text_edits_from, trigger_characters,
};
pub use changes::{code_actions_from, edits_by_uri, file_edits_from};
pub use params::{
    completion_params, did_change_params, did_close_params, did_open_params, formatting_params,
    initialize_params, places_method, places_params, position_params, rename_params,
    AskedBecause, ClientIdentity,
};
pub use places::locations_from;
pub use positions::{
    byte_column, character_before, line_of, lsp_character, position_from, position_in,
};
pub use progress::{
    progress_kind, progress_note, progress_token, reply_to_server_request, ProgressNote,
};
pub use uris::{file_uri, path_from_file_uri};
