//! Video identities as twitchtracker.com reports them.

use vstd::prelude::*;

use crate::datetime::parse_datetime_seconds;
use crate::datetime::parsed_datetime;
use crate::errors::VodError;
use crate::video::VideoData;

verus! {

/// The fields twitchtracker.com reports for one stream, with the UTC start
/// time in the form `2006-01-02 15:04:05` (year-month-day
/// hour:minute:second).
pub struct TwitchTrackerData {
    pub streamer_name: String,
    pub video_id: String,
    pub utc_time: String,
}

impl TwitchTrackerData {
    /// Reads the reported time string and builds the video identity.
    /// Rejected exactly when the time string does not match the format.
    pub fn try_into_video_data(self) -> (r: Result<VideoData, VodError>)
        ensures
            match r {
                Ok(vd) => {
                    &&& parsed_datetime(self.utc_time@, "%Y-%m-%d %H:%M:%S"@) == Some(
                        vd.unix_time_seconds as int,
                    )
                    &&& vd.streamer_name@ == self.streamer_name@
                    &&& vd.video_id@ == self.video_id@
                    &&& vd.wf()
                },
                Err(e) => e == VodError::BadTimeString && parsed_datetime(
                    self.utc_time@,
                    "%Y-%m-%d %H:%M:%S"@,
                ) is None,
            },
    {
        match parse_datetime_seconds(self.utc_time.as_str(), "%Y-%m-%d %H:%M:%S") {
            Some(t) => Ok(
                VideoData {
                    streamer_name: self.streamer_name,
                    video_id: self.video_id,
                    unix_time_seconds: t,
                },
            ),
            None => Err(VodError::BadTimeString),
        }
    }
}

} // verus!
