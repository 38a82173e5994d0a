//! A small user table and the operations every database adapter offers on it.
pub mod adapters;
pub mod models;
