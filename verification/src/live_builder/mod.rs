//! The jobs of the running builder.
pub mod building;
pub mod preconf_fetcher;
