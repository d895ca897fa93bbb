//! Core of a desktop game-launcher backend: a virtual resource namespace
//! backed by native directories and overlay mounts, an isomorphic settings
//! namespace with default/override layering and JSON materialization, and
//! the shared service-bus machinery (framed command tokenization, command
//! dispatch, a name-to-endpoint directory with liveness pruning).
//!
//! All tree state is held in explicit context objects; the native disk is
//! passed in as an explicit listing so that resolution logic is a function
//! of plain values.

pub mod address;
pub mod b64;
pub mod common;
pub mod disk;
pub mod error;
pub mod fcb;
pub mod filesystem;
pub mod function;
pub mod json;
pub mod laws;
pub mod mirror;
pub mod service;
pub mod setting;
pub mod setting_item;
pub mod strutil;
pub mod task;
