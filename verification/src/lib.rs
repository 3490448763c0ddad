//! Key material for a self-hosted guardian.
//!
//! - [`file_provider`] loads the secrets with which the guardian signs acknowledgements from local
//!   files that the [`environment`] names, and has missing ones generated where that is asked for;
//!   [`publish`] puts a generated secret in its place.
//! - Over a model of the [`disk`], [`stability`] states what holds of the file while it is
//!   published, [`race`] what holds while several processes publish in it at once, and [`identity`]
//!   what holds of the key that is loaded.
//! - [`dstack`] makes a [`key_provider`] of the storage key that a guest agent derived.
//! - [`felt`] maps words onto field elements.
//!
//! The library performs no input or output. Where files have to be touched, a step says what to
//! do next, and a method takes what came of it and gives the step that follows.

pub mod ack_key;
pub mod dstack;
pub mod disk;
pub mod environment;
pub mod error;
pub mod felt;
pub mod file_provider;
pub mod hexadecimal;
pub mod identity;
pub mod key_provider;
pub mod paths;
pub mod publish;
pub mod race;
pub mod secret;
pub mod stability;
pub mod text;
