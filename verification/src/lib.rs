//! A verified core for a small product-catalog service: rendering catalog
//! rows for a listing endpoint, and the decision logic of a checkout that
//! resolves product names, consults an interaction-checking service, and
//! enqueues an order-insertion command only when no interaction was found.

pub mod catalog;
pub mod checkout;
pub mod price;
