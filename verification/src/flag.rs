use vstd::prelude::*;

verus! {

/// Who answers for an allocation that a buffer points to.
#[derive(Clone, Copy, Debug, PartialEq, Eq, Structural)]
pub enum AllocFlag {
    /// The buffer alone holds the allocation, which is freed with it.
    Owned,
    /// The allocation is shared with a cache, which keeps it alive until the
    /// entry is replaced or the device is torn down.
    Cache,
    /// The memory belongs to somebody else and is never freed from here.
    Wrapper,
}

impl AllocFlag {
    /// Whether giving up a buffer with this flag gives up a hold on its
    /// allocation.
    pub open spec fn counts(self) -> bool {
        self != AllocFlag::Wrapper
    }

    pub fn is_counted(&self) -> (b: bool)
        ensures
            b == self.counts(),
    {
        match self {
            AllocFlag::Wrapper => false,
            _ => true,
        }
    }
}

impl Default for AllocFlag {
    fn default() -> (flag: AllocFlag)
        ensures
            flag == AllocFlag::Owned,
    {
        AllocFlag::Owned
    }
}

} // verus!
