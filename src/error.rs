//! The errors of the connection engine.
use vstd::prelude::*;

use crate::address::BleAddress;

verus! {

/// Why an operation of the connection engine was refused.
#[derive(Debug, Clone, Copy)]
pub enum BleError {
    /// The runtime that drives the engine was not created.
    RuntimeNotInitialized,
    /// The runtime could not be created.
    Runtime,
    /// The engine was used before it was created.
    HandlerNotInitialized,
    /// The engine was created twice.
    HandlerAlreadyInitialized,
    /// No peripheral with this address was seen by the latest discovery.
    UnknownPeripheral(BleAddress),
    /// The characteristic is not on the connected peripheral.
    CharacNotFound(u128),
    /// The characteristic was not requested when connecting.
    CharacNotAvailable(u128),
    /// No peripheral is connected.
    NoDeviceConnected,
    /// The peripheral offers no service with the requested identifier.
    ServiceNotFound,
    /// The peripheral at this address is connected already.
    AlreadyConnected,
    /// A value had an unexpected shape.
    WrongData,
}

} // verus!
