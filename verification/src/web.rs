//! The web front end: what it shows, and how it answers requests.
pub mod routes;
pub mod state;
