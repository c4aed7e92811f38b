use vstd::prelude::*;

verus! {

/// What can go wrong between an operation and its device.
///
/// None of these is retried: the call that met the failure hands it to its
/// caller.
#[derive(Clone, Copy, Debug, PartialEq, Eq, Structural)]
pub enum DeviceError {
    /// The backend refused to allocate.
    AllocationError,
    /// A buffer of zero elements was requested.
    InvalidLength,
    /// No device was found at the requested index, or its driver failed to start.
    DeviceInitError,
    /// A buffer that the cache does not own was to be turned into a
    /// device-unified buffer.
    ConstructError,
}

impl DeviceError {
    /// The text that describes the error.
    pub open spec fn message(self) -> Seq<char> {
        match self {
            DeviceError::AllocationError => "the backend could not allocate the buffer"@,
            DeviceError::InvalidLength => "invalid buffer len: 0"@,
            DeviceError::DeviceInitError => "no device could be opened at the given index"@,
            DeviceError::ConstructError => "only a buffer owned by the cache can be made unified"@,
        }
    }

    pub fn as_str(&self) -> (text: &'static str)
        ensures
            text@ == self.message(),
    {
        match self {
            DeviceError::AllocationError => "the backend could not allocate the buffer",
            DeviceError::InvalidLength => "invalid buffer len: 0",
            DeviceError::DeviceInitError => "no device could be opened at the given index",
            DeviceError::ConstructError => "only a buffer owned by the cache can be made unified",
        }
    }
}

} // verus!
