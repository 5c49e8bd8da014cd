use vstd::prelude::*;
use vstd::string::{StringExecFns, StrSliceExecFns};
use crate::errors::StorageError;
use crate::frame::Frame;
use crate::text::{dec_digits, decimal_string, sanitize_name, sanitized};

verus! {

/// The full name under which a still snapshot is stored: directory, capture
/// timestamp, the event that caused it, and the monotonic counter that keeps
/// names unique even within one second; every space replaced by an
/// underscore.
pub open spec fn frame_file_name(
    dir: Seq<char>,
    timestamp: Seq<char>,
    event: Seq<char>,
    counter: int,
) -> Seq<char> {
    sanitized(dir) + "/frame_"@ + sanitized(timestamp) + "_"@ + sanitized(event) + "_"@
        + dec_digits(counter) + ".jpg"@
}

/// The full name under which an event clip is stored.
pub open spec fn clip_file_name(dir: Seq<char>, timestamp: Seq<char>, event: Seq<char>) -> Seq<
    char,
> {
    dir + "/video_"@ + timestamp + "_"@ + sanitized(event) + ".avi"@
}

/// Everything the platform's encoder needs to write one clip: the file name
/// and the frame dimensions the clip is sized to.
#[derive(Debug)]
pub struct ClipPlan {
    pub file_name: String,
    pub frame_width: u32,
    pub frame_height: u32,
}

/// Names stored footage artifacts.
///
/// The storage directory itself is created by the platform; this type rules
/// on what each artifact is called and which flushes are permitted, and the
/// platform performs the writes.
pub struct VideoStorage {
    pub output_dir: String,
    pub frame_counter: u32,
}

impl VideoStorage {
    pub fn new(output_dir: String) -> (storage: VideoStorage)
        ensures
            storage.output_dir@ == output_dir@,
            storage.frame_counter == 0,
    {
        VideoStorage { output_dir, frame_counter: 0 }
    }

    /// The name under which to store one still snapshot, unique per saved
    /// frame: the embedded counter increases with every call, so two
    /// snapshots taken within the same second cannot overwrite each other.
    pub fn save_frame(&mut self, timestamp: &str, event_type: &str) -> (name: String)
        requires
            old(self).frame_counter < u32::MAX,
        ensures
            final(self).output_dir@ == old(self).output_dir@,
            final(self).frame_counter == old(self).frame_counter + 1,
            name@ == frame_file_name(
                old(self).output_dir@,
                timestamp@,
                event_type@,
                old(self).frame_counter as int,
            ),
    {
        let mut name = sanitize_name(self.output_dir.as_str());
        name.append("/frame_");
        let clean_timestamp = sanitize_name(timestamp);
        name.append(clean_timestamp.as_str());
        name.append("_");
        let clean_event = sanitize_name(event_type);
        name.append(clean_event.as_str());
        name.append("_");
        let counter = decimal_string(self.frame_counter);
        name.append(counter.as_str());
        name.append(".jpg");
        self.frame_counter = self.frame_counter + 1;
        proof {
            assert(name@ =~= frame_file_name(
                old(self).output_dir@,
                timestamp@,
                event_type@,
                old(self).frame_counter as int,
            ));
        }
        name
    }

    /// Rule on flushing a capture event as one clip. A flush of no frames is
    /// impossible work and fails with a storage error; otherwise the plan
    /// names the clip and sizes it to the first frame's dimensions, and the
    /// platform encodes the frames at its fixed frame rate.
    pub fn save_video(&self, frames: &Vec<Frame>, timestamp: &str, event_type: &str) -> (plan:
        Result<ClipPlan, StorageError>)
        ensures
            frames@.len() == 0 ==> (plan matches Err(e) && e == StorageError::NoFrames),
            frames@.len() >= 1 ==> (plan matches Ok(p) && {
                &&& p.file_name@ == clip_file_name(self.output_dir@, timestamp@, event_type@)
                &&& p.frame_width == frames@[0]@.width
                &&& p.frame_height == frames@[0]@.height
            }),
    {
        if frames.len() == 0 {
            return Err(StorageError::NoFrames);
        }
        let mut name = String::new();
        name.append(self.output_dir.as_str());
        name.append("/video_");
        name.append(timestamp);
        name.append("_");
        let clean_event = sanitize_name(event_type);
        name.append(clean_event.as_str());
        name.append(".avi");
        proof {
            assert(name@ =~= clip_file_name(self.output_dir@, timestamp@, event_type@));
        }
        let first = &frames[0];
        Ok(ClipPlan { file_name: name, frame_width: first.width, frame_height: first.height })
    }
}

} // verus!
