//! A language server client: the framing, the position arithmetic, what is asked of a server and
//! what its answers mean, and a registry of the servers running for each workspace.
//!
//! An editor that wants go-to-definition and completions needs a client, and a client is
//! more work than it sounds: a server has to be found on the user's own `PATH`, started in
//! the repo, walked through `initialize`, kept fed with the text of every open document,
//! and - the part that is quietly wrong in most clients - asked about a position counted in
//! the units *that* server agreed to rather than the ones the editor has.
//!
//! # The seam
//!
//! The crate decides and never waits. What is drawn, where the text came from, and how much a set
//! of servers is shared stay with the caller: a [`Workspace`] is a repo root and an opaque key, and
//! the caller decides whether that key is the repo, one window's work, or anything else. So do the
//! processes and their pipes: [`LspRegistry`] says what is to be started, told and asked, takes
//! what came back, and says what that means.
//!
//! Four other things are the caller's on purpose. The `PATH` servers are looked for and
//! started on is handed to [`LspRegistry::new`], because a window started from a desktop
//! launcher has a `PATH` with nothing on it and only the host application knows where its
//! user really installs things. What was found there is kept in a [`languages::Found`] that the
//! caller holds for the life of its process, so that it is looked for once however many registries
//! ask. The name a server is told it is talking to is handed to
//! [`LspRegistry::identifying_as`] for the same reason - a library cannot know whose program
//! it is inside, and what it says about that goes into every server's log, so said nothing
//! about it says `moon_lsp` and this crate's version rather than guessing. And the debouncing
//! of [`LspRegistry::did_change`] is the caller's, since a round trip per keystroke is a flood
//! wherever this is reached over a network.
//!
//! # The parts
//!
//! [`languages`] says which server serves which file, [`process`] is what is known of one server
//! and the JSON-RPC that goes to and from it, [`framing`] is the envelope that goes over its stdio,
//! [`protocol`] is the messages - and the one place a position is converted between what an editor
//! counts and what a server counts - [`edits`] puts a server's edits into a text, and [`registry`]
//! is what a caller talks to.

pub mod edits;
pub mod error;
pub mod framing;
pub mod json;
pub mod languages;
pub mod lines;
pub mod order;
pub mod paths;
pub mod payload;
pub mod process;
pub mod protocol;
pub mod registry;
pub mod text;

pub use error::LspError;
pub use payload::{
    LspCodeAction, LspCompletion, LspCompletionKind, LspDiagnostic, LspFileEdit, LspFormatting,
    LspLocation, LspPlaces, LspPosition, LspSeverity, LspSignature, LspStatus, LspTextEdit,
    LspWork,
};
pub use protocol::ClientIdentity;
pub use registry::{LspRegistry, Workspace};
