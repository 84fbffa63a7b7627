//! What the proxy tells about itself.

pub mod metrics;
