use vstd::prelude::*;

verus! {

/// An identifier handed out by a [`UidCounter`]: increasing, not necessarily contiguous.
#[derive(Debug, Clone, Copy, PartialEq, Eq, Structural, PartialOrd, Ord, Hash)]
pub struct UID {
    pub id: u64,
}

/// The source of fresh [`UID`]s. It is an explicit value, owned by whoever
/// allocates, so that it can be inspected and reseeded.
#[derive(Debug)]
pub struct UidCounter {
    value: u64,
}

impl UidCounter {
    /// The identifier that the next allocation hands out.
    pub closed spec fn view(&self) -> u64 {
        self.value
    }

    pub fn new() -> (r: Self)
        ensures
            r@ == 0,
    {
        UidCounter { value: 0 }
    }
}

impl UID {
    /// Takes the counter's current value and advances it by one.
    pub fn new(counter: &mut UidCounter) -> (r: UID)
        requires
            old(counter)@ < u64::MAX,
        ensures
            r.id == old(counter)@,
            final(counter)@ == old(counter)@ + 1,
    {
        let id = counter.value;
        counter.value = id + 1;
        UID { id }
    }

    /// The value that the next allocation will hand out.
    pub fn peek(counter: &UidCounter) -> (r: u64)
        ensures
            r == counter@,
    {
        counter.value
    }

    /// Reseeds the counter, e.g. above the highest identifier seen in a snapshot.
    pub fn set(counter: &mut UidCounter, value: u64)
        ensures
            final(counter)@ == value,
    {
        counter.value = value;
    }
}

} // verus!
