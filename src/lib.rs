//! Verified core of a single-connection Bluetooth Low Energy central:
//! peripheral addresses and device snapshots, the device registry built by
//! discovery, the per-connection listener set, and the connection state
//! machine that the asynchronous runtime drives.
pub mod address;
pub mod device;
pub mod error;
pub mod handler;
pub mod listeners;
pub mod registry;

pub use address::{BleAddress, ParseBleAddressError};
pub use device::BleDevice;
pub use error::BleError;
