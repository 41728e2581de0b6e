//! Preconfirmation orders for a block builder.
pub mod building;
pub mod clock;
pub mod live_builder;
pub mod log_filter;
pub mod logger;
pub mod preconf;
pub mod primitives;
pub mod text;
pub mod uint;
