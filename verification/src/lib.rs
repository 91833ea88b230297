//! The data-source layer of a live text dashboard: producers turn external
//! command output and OS network counters into sequences of short text
//! updates. The producers' decisions — restart policy, rate computation,
//! smoothing, unit scaling and formatting — are verified here; a thin driver
//! performs the I/O they ask for.

use vstd::prelude::*;

pub mod component;
pub mod components;
pub mod digits;
pub mod error;

pub use crate::component::Component;
pub use crate::component::ComponentCreator;
pub use crate::component::ComponentUpdate;
pub use crate::component::Slot;
pub use crate::component::wrap_stream_error;
pub use crate::components::network_usage::Direction;
pub use crate::components::network_usage::NetworkUsage;
pub use crate::components::network_usage::Scale;
pub use crate::components::pipe::Pipe;
pub use crate::error::ComponentError;
pub use crate::error::ErrorKind;
