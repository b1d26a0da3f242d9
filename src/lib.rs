//! Reader and writer for road-network documents: a typed entity graph built
//! from a stream of markup events, and written back to one.
pub mod text;
pub mod enums;
pub mod markup;
pub mod error;
pub mod number;
pub mod attributes;
pub mod dispatch;
pub mod entity;
pub mod profile;
pub mod link;
pub mod road;
pub mod document;
pub mod writer;
pub mod objects;
pub mod round_trip;
