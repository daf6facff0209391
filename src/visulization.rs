use vstd::prelude::*;

verus! {

/// The frame counter of a visualization stream.
#[derive(Clone, Copy, Debug, PartialEq, Eq)]
pub struct RerunVisulization {
    pub current_frame: usize,
}

impl RerunVisulization {
    /// A stream that starts at frame zero.
    pub fn new() -> (r: Self)
        ensures
            r.current_frame == 0,
    {
        Self { current_frame: 0 }
    }

    /// Moves on to the next frame; the counter stops at its largest value.
    pub fn advance_frame(&mut self)
        ensures
            final(self).current_frame == if old(self).current_frame < usize::MAX {
                old(self).current_frame + 1
            } else {
                old(self).current_frame as int
            },
    {
        if self.current_frame < usize::MAX {
            self.current_frame = self.current_frame + 1;
        }
    }
}

} // verus!
