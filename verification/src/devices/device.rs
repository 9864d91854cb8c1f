//! What the device managers and the devices tell one another.
use vstd::prelude::*;

verus! {

/// The identifier of a device.
#[verifier::external_type_specification]
#[verifier::external_body]
pub struct ExUuid(uuid::Uuid);

#[derive(Debug, Clone, Copy, PartialEq, Eq, Structural)]
pub enum DeviceManagerCommand {
    Close,
}

#[derive(Debug)]
pub enum DeviceInfo {
    ConnectionClosed(String),
}

} // verus!
