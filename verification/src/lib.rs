//! A minimal fixed-schema record store.
//!
//! A schema ([`data::object::Object`]) is an ordered list of named, typed
//! fields; each field's type ([`data::_type::Type`]) has a fixed width.
//! Records ([`storage::line::Line`]) are encoded field by field into a flat
//! byte image ([`storage::page::Page`]), big-endian for the integer types,
//! zero-padded for the fixed-length text type, and decoded back by record
//! index.

pub mod data;
pub mod num;
pub mod render;
pub mod storage;
