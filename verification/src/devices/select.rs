use vstd::prelude::*;
use crate::error::DeviceError;

verus! {

/// The device to open where the driver has found `found` devices and the
/// caller asks for the one at `device_idx`: that one or none. Where there is
/// no device at the index the call fails with `DeviceInitError`; no other
/// device is taken in its place.
pub fn chosen_device(found: usize, device_idx: usize) -> (res: Result<usize, DeviceError>)
    ensures
        res == (if device_idx < found {
            Ok::<usize, DeviceError>(device_idx)
        } else {
            Err::<usize, DeviceError>(DeviceError::DeviceInitError)
        }),
{
    if device_idx < found {
        Ok(device_idx)
    } else {
        Err(DeviceError::DeviceInitError)
    }
}

/// The length that an allocation is asked with, where it asks for an element
/// at least. A request for no elements fails with `InvalidLength`, on every
/// device and before any driver is asked.
pub fn alloc_request(len: usize) -> (res: Result<usize, DeviceError>)
    ensures
        res == (if len == 0 {
            Err::<usize, DeviceError>(DeviceError::InvalidLength)
        } else {
            Ok::<usize, DeviceError>(len)
        }),
{
    if len == 0 {
        Err(DeviceError::InvalidLength)
    } else {
        Ok(len)
    }
}

} // verus!
