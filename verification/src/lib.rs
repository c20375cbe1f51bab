//! Service market and usage statistics for service providers.
//!
//! `market` keeps the catalogue of services, indexed by number, by uuid and
//! by provider; `statistics` records usage of those services, indexed by
//! number, by service uuid, by user key and by provider.
pub mod account;
pub mod storage;
pub mod page;
pub mod market;
pub mod statistics;
