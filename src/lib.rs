//! Discovery of a freshly addressed USB device: the sequence of
//! GET_DESCRIPTOR requests that reads its device descriptor and each of its
//! configurations, and the descriptor frames handed to drivers on the way.

pub mod descriptor;
pub mod discovery;

pub use descriptor::Descriptor;
pub use discovery::{
    process_discovery, start_discovery, DescriptorRequest, DeviceAddress, DiscoveryState, Event,
    Step,
};
