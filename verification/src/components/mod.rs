pub mod network_usage;
pub mod pipe;
