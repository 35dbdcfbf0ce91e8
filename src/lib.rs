//! Core logic of an art-gallery backend: the record types, the fold that
//! turns a flat order/customer/artwork join into nested detailed orders,
//! the listing filters, and the decisions taken around each store statement.

pub mod model;
pub mod aggregate;
pub mod filters;
pub mod repository;
