//! Layout of sequence diagrams: a model built by sequential construction calls,
//! and a grid engine that turns it into column and row coordinates.

pub mod builder;
pub mod config;
pub mod diagram;
pub mod draw;
pub mod error;
pub mod group;
pub mod layout;
pub mod message;
pub mod note;
pub mod participant;
pub mod separator;
