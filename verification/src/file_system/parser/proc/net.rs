//! Files under `/proc/net`.
pub mod ipv6_route;
pub mod route;
