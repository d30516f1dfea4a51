//! The protocol layer over the channels: message framing, the record ring,
//! the service registry and the service group.

pub mod shm_ring;
pub mod service_registry;
pub mod process_manager;
pub mod service_group;
pub mod rt_prio;
pub mod message;

pub use message::Message;
pub use process_manager::{ProcessHandle, WaitResult};
pub use rt_prio::audio_period_ns;
pub use service_group::{InstanceRole, ManagedInstance, ServiceGroup, ServiceGroupConfig};
pub use service_registry::{ServiceEntry, ServiceRegistry, MAX_NAME_LEN, MAX_SERVICES};
pub use shm_ring::ShmRing;
