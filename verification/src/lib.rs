//! Envelope encryption for per-record sensitive values.
//!
//! A master key held by a key-management service protects a data key; the
//! data key protects the individual values stored beside a reference to its
//! wrapped form.  This crate holds the rules of that scheme: the encoding of
//! a value, the record cipher, the issuing and storing of data keys, the
//! single-slot key cache and the aggregate over a batch of records.  Calls
//! to the key service, the relational store and the object store are left to
//! the caller, who hands their results in as plain values.

pub mod error;
pub mod codec;
pub mod cipher;
pub mod issuer;
pub mod key_store;
pub mod records;
pub mod cache;
pub mod pipeline;
