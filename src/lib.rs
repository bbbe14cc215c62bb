pub mod pipeline;
pub mod record;
pub mod wire;
