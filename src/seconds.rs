//! Values that stand for a number of seconds and can give their duration in
//! milliseconds and in microseconds.
use crate::to_microseconds::ToMicroseconds;
use crate::to_milliseconds::ToMilliseconds;
use vstd::prelude::*;

verus! {

/// A duration that can be read both in milliseconds and in microseconds.
pub trait Available: ToMilliseconds + ToMicroseconds {

}

/// A value that can be read as a number of seconds.
pub trait AsSeconds {
    type Seconds: Available;

    fn as_seconds(&self) -> Self::Seconds;
}

} // verus!
