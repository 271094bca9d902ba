//! A small IPv4 network protocol stack: Ethernet, ARP, IPv4, ICMP, UDP and
//! TCP, with the device, interface and socket bookkeeping around them.
pub mod device;
pub mod driver;
pub mod interface;
pub mod os;
pub mod protocol;
pub mod slots;
pub mod stack;

pub use device::backend::DeviceBackend;
pub use device::key::DeviceKey;
pub use device::queue::{InputQueue, ReceivedFrame};
pub use device::registry::DeviceRegistry;
pub use device::{Device, DeviceError, DeviceFlags, DeviceKind, DeviceMeta, DeviceState};
pub use driver::dummy::DummyDevice;
pub use driver::loopback::LoopbackDevice;
pub use interface::registry::InterfaceRegistry;
pub use interface::{AddressFamily, InterfaceError, InterfaceKey, InterfaceOutputError};
pub use os::{Random, Time};
pub use stack::{Stack, StackError};
