//! Recovery of hidden video-on-demand playlists by brute-force probing of
//! candidate CDN URLs.
//!
//! The crate is organised around a small set of verified components:
//! a "first success wins" race aggregator (`race`), deterministic candidate
//! path derivation and its inverse (`video`), playlist post-processing and
//! segment validity filtering (`playlist`), and the decision rules of the
//! two probing pipelines (`probe`). Outbound networking and the async worker
//! pools that drive the race live outside this crate; they feed their
//! observations to the verified aggregators defined here.

pub mod datetime;
pub mod digest;
pub mod errors;
pub mod numbers;
pub mod playlist;
pub mod probe;
pub mod race;
pub mod streamscharts;
pub mod twitchtracker;
pub mod video;

pub use errors::VodError;
pub use playlist::MediaPlaylist;
pub use playlist::MediaSegment;
pub use playlist::duration_to_human_readable;
pub use playlist::get_media_playlist_duration;
pub use playlist::mute_media_segments;
pub use playlist::mute_uri;
pub use race::RaceAggregator;
pub use race::race_outcomes;
pub use streamscharts::StreamsChartsData;
pub use twitchtracker::TwitchTrackerData;
pub use video::DomainWithPath;
pub use video::DomainWithPaths;
pub use video::VideoData;
pub use video::VideoPath;
pub use video::default_domains;
pub use video::url_path_to_video_data;
pub use video::url_to_domain_with_path;
