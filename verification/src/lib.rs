//! A verified client library for the AT Protocol (Bluesky): the identifiers it validates,
//! the XRPC requests it addresses and authorizes, the session refresh it decides, and the
//! account, thread and page logic of the client.
pub mod strings;
pub mod identifiers;
pub mod xrpc;
pub mod agent;
pub mod records;
pub mod accounts;
pub mod pages;
pub mod pds_store;
pub mod text;
pub mod routes;
