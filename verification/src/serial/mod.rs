//! Serial connections: the manager, transports, the scripted mock device
//! and the read side.

pub mod manager;
pub mod mock_device;
pub mod read_loop;
pub mod real_transport;
pub mod transport;
