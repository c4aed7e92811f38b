use vstd::prelude::*;

verus! {

/// Key of a reusable buffer slot: the position of the call that asked for the
/// buffer, and how many elements it asked for.
///
/// Two identities are the same slot when both parts agree. The same position
/// with another length is the same call site with a changed shape.
#[derive(Clone, Copy, Debug, PartialEq, Eq, Structural, Hash)]
pub struct Ident {
    pub count: u64,
    pub len: usize,
}

/// The position counter from which identities are drawn.
///
/// It only grows, until it is set back by hand: a loop that sets it to the same
/// value at the top of every iteration gives the n-th call of every iteration
/// the same identity.
#[derive(Debug)]
pub struct Counter {
    count: u64,
}

impl View for Counter {
    type V = u64;

    closed spec fn view(&self) -> u64 {
        self.count
    }
}

impl Counter {
    /// A counter at position 0.
    pub fn new() -> (counter: Counter)
        ensures
            counter@ == 0,
    {
        Counter { count: 0 }
    }

    /// A counter at the given position.
    pub fn starting_at(count: u64) -> (counter: Counter)
        ensures
            counter@ == count,
    {
        Counter { count }
    }

    /// The current position.
    pub fn get_count(&self) -> (count: u64)
        ensures
            count == self@,
    {
        self.count
    }

    /// Moves the counter to `count`.
    pub fn set_count(&mut self, count: u64)
        ensures
            final(self)@ == count,
    {
        self.count = count;
    }

    /// Sets the counter back to `value`, so that the calls that follow draw the
    /// identities that were drawn after the counter last stood there.
    pub fn reset_counter(&mut self, value: u64)
        ensures
            final(self)@ == value,
    {
        self.count = value;
    }

    /// Whether another identity can be drawn.
    pub fn has_next(&self) -> (b: bool)
        ensures
            b == (self@ < u64::MAX),
    {
        self.count < u64::MAX
    }

    /// Advances the counter by one position.
    pub fn bump_count(&mut self)
        requires
            old(self)@ < u64::MAX,
        ensures
            final(self)@ == old(self)@ + 1,
    {
        self.count = self.count + 1;
    }

    /// The identity at the current position, without advancing.
    pub fn peek_ident(&self, len: usize) -> (ident: Ident)
        ensures
            ident == (Ident { count: self@, len }),
    {
        Ident { count: self.count, len }
    }

    /// Draws the identity of the current position and advances by one.
    pub fn next_ident(&mut self, len: usize) -> (ident: Ident)
        requires
            old(self)@ < u64::MAX,
        ensures
            ident == (Ident { count: old(self)@, len }),
            final(self)@ == old(self)@ + 1,
    {
        let ident = Ident { count: self.count, len };
        self.count = self.count + 1;
        ident
    }
}

impl Default for Counter {
    fn default() -> (counter: Counter)
        ensures
            counter@ == 0,
    {
        Counter::new()
    }
}

} // verus!
