use vstd::prelude::*;
use crate::errors::StorageError;
use crate::frame::{Frame, FrameView};

verus! {

/// What the platform must do after one recorder step: append to the event
/// log, persist a still snapshot, or flush the buffered clip.
#[derive(Clone, Copy, Debug, PartialEq, Eq, Structural)]
pub enum RecorderAction {
    /// Idle and no motion: nothing to do.
    Quiet,
    /// Motion began while idle: log the start of a capture event and persist
    /// a snapshot of this frame, which opens the clip.
    Started,
    /// Motion persists: persist a snapshot of this frame, appended to the
    /// open clip.
    Recording,
    /// Motion ceased while recording: log the end of the event and flush the
    /// buffered clip.
    Ended,
}

/// The mathematical content of an [`EventRecorder`]: whether a motion
/// episode is in progress, and the frames buffered for its clip.
#[verifier::ext_equal]
pub ghost struct RecorderView {
    pub active: bool,
    pub buffer: Seq<FrameView>,
}

/// The event state machine: turns the per-frame motion flags into capture
/// events. While motion persists, each frame joins the in-progress event's
/// buffer; when motion ceases the buffered frames are flushed as one clip.
pub struct EventRecorder {
    pub active: bool,
    pub buffer: Vec<Frame>,
}

impl View for EventRecorder {
    type V = RecorderView;

    open spec fn view(&self) -> RecorderView {
        RecorderView { active: self.active, buffer: self.buffer.deep_view() }
    }
}

impl EventRecorder {
    /// A recorder that starts idle with nothing buffered.
    pub fn new() -> (recorder: EventRecorder)
        ensures
            !recorder@.active,
            recorder@.buffer == Seq::<FrameView>::empty(),
    {
        let recorder = EventRecorder { active: false, buffer: Vec::new() };
        proof {
            assert(recorder@.buffer =~= Seq::<FrameView>::empty());
        }
        recorder
    }

    /// One step of the state machine, on one frame and its motion flag.
    ///
    /// On motion the recorder is (or becomes) active and keeps an owned copy
    /// of the frame for the clip; the action tells the platform whether this
    /// started a new event. Without motion the recorder is (or stays) idle;
    /// if an event was in progress, the action tells the platform to log its
    /// end and flush the clip.
    pub fn observe(&mut self, motion: bool, frame: &Frame) -> (action: RecorderAction)
        ensures
            motion ==> {
                &&& final(self)@.active
                &&& final(self)@.buffer == old(self)@.buffer.push(frame@)
                &&& action == if old(self)@.active {
                    RecorderAction::Recording
                } else {
                    RecorderAction::Started
                }
            },
            !motion ==> {
                &&& !final(self)@.active
                &&& final(self)@.buffer == old(self)@.buffer
                &&& action == if old(self)@.active {
                    RecorderAction::Ended
                } else {
                    RecorderAction::Quiet
                }
            },
    {
        if motion {
            let action = if self.active {
                RecorderAction::Recording
            } else {
                RecorderAction::Started
            };
            self.active = true;
            self.buffer.push(frame.duplicate());
            proof {
                assert(self@.buffer =~= old(self)@.buffer.push(frame@));
            }
            action
        } else {
            let action = if self.active {
                RecorderAction::Ended
            } else {
                RecorderAction::Quiet
            };
            self.active = false;
            action
        }
    }

    /// Hand the buffered capture event over for persistence as one clip.
    ///
    /// Flushing with nothing buffered fails with a storage error and changes
    /// nothing; otherwise all buffered frames are returned in capture order
    /// and the buffer is left empty, so a repeated flush cannot persist the
    /// same clip twice.
    pub fn flush(&mut self) -> (clip: Result<Vec<Frame>, StorageError>)
        ensures
            old(self)@.buffer.len() == 0 ==> {
                &&& clip == Result::<Vec<Frame>, StorageError>::Err(StorageError::NoFrames)
                &&& final(self)@ == old(self)@
            },
            old(self)@.buffer.len() >= 1 ==> {
                &&& clip matches Ok(frames) && frames.deep_view() == old(self)@.buffer
                &&& final(self)@.buffer.len() == 0
                &&& final(self)@.active == old(self)@.active
            },
    {
        if self.buffer.len() == 0 {
            return Err(StorageError::NoFrames);
        }
        let mut taken: Vec<Frame> = Vec::new();
        core::mem::swap(&mut taken, &mut self.buffer);
        proof {
            assert(self@.buffer =~= Seq::<FrameView>::empty());
        }
        Ok(taken)
    }

    /// How many frames the in-progress capture event holds.
    pub fn buffered_frames(&self) -> (count: usize)
        ensures
            count == self@.buffer.len(),
    {
        self.buffer.len()
    }
}

} // verus!
