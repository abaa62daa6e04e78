//! Recipe, resource and process scheduling back end: the data that the
//! GraphQL schema serves, the statements that its mutations write, the rows
//! that its queries read, and the exchange with the scheduling service.
pub mod object;
pub mod ids;
pub mod store;
pub mod mutation;
pub mod query;
pub mod schedule;
pub mod model;
pub mod laws;
