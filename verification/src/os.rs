use vstd::prelude::*;

verus! {

/// A source of random numbers, which the platform provides.
pub trait Random {
    type Error;

    /// Prepares the source; nothing to do unless the platform says so.
    fn init() -> (r: Result<(), Self::Error>)
        default_ensures
            r is Ok,
    {
        Ok(())
    }

    fn random16() -> (r: Result<u16, Self::Error>);

    /// Two draws of [`Random::random16`], the first as the high half.
    fn random32() -> (r: Result<u32, Self::Error>) {
        let high = match Self::random16() {
            Ok(v) => v,
            Err(e) => {
                return Err(e);
            },
        };
        let low = match Self::random16() {
            Ok(v) => v,
            Err(e) => {
                return Err(e);
            },
        };
        Ok(((high as u32) << 16u32) | low as u32)
    }
}

/// A monotonic clock, which the platform provides.
pub trait Time {
    fn monotonic_time_microseconds() -> (r: u64);

    /// The clock in whole seconds.
    fn monotonic_time_seconds() -> (r: u64) {
        Self::monotonic_time_microseconds() / 1_000_000
    }
}

} // verus!
