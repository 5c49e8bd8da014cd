use vstd::prelude::*;

verus! {

/// Failure of a storage operation that the core itself can rule on.
///
/// Directory creation or file write failures belong to the platform around
/// the core; the core raises a storage error only for work that is impossible
/// regardless of the disk, namely flushing a clip that holds no frames.
#[derive(Clone, Copy, Debug, PartialEq, Eq, Structural)]
pub enum StorageError {
    /// A clip flush was requested while no frames were buffered.
    NoFrames,
}

/// A pattern request that no draw can ever satisfy: repeats are disallowed
/// but the digit range holds fewer distinct values than the requested length.
/// Rejected at configuration time.
#[derive(Clone, Copy, Debug, PartialEq, Eq, Structural)]
pub struct PatternMisuseError;

/// A frame whose dimensions differ from the background model's.
///
/// Region coordinates and the background model are fixed by the first frame
/// of a session; a resolution change mid-session is refused outright rather
/// than guessed at.
#[derive(Clone, Copy, Debug, PartialEq, Eq, Structural)]
pub struct DimensionMismatchError;

} // verus!
