//! Video identities, the deterministic derivation of candidate CDN paths
//! from them, and the inverse: reading an identity back out of a path or a
//! full URL.
//!
//! A candidate path for streamer `S`, video id `V` and time text `T` is
//! `"{hash}_{S}_{V}_{T}"`, where `hash` is the first twenty lowercase hex
//! characters of the SHA-1 digest of `"{S}_{V}_{T}"`. The time text is
//! either the full unix timestamp or only its seconds-of-minute component,
//! depending on which of the two time-encoding conventions a probe tier
//! uses.

use vstd::prelude::*;

use crate::datetime::TIMESTAMP_MAX;
use crate::datetime::TIMESTAMP_MIN;
use crate::datetime::datetime_chars;
use crate::datetime::format_timestamp;
use crate::datetime::timestamp_in_range;
use crate::digest::hex_chars;
use crate::digest::hex_digit;
use crate::digest::hex_lower;
use crate::digest::sha1_digest;
use crate::digest::sha1_of;
use crate::errors::VodError;
use crate::numbers::dec_chars;
use crate::numbers::int_chars;
use crate::numbers::parse_i64;
use crate::numbers::parsed_i64;
use crate::numbers::i64_to_string;

verus! {

/// The identity of one video: who streamed it, its id, and when it started,
/// in unix seconds.
pub struct VideoData {
    pub streamer_name: String,
    pub video_id: String,
    pub unix_time_seconds: i64,
}

/// One derived candidate path, together with the identity it came from.
pub struct VideoPath {
    pub url_path: String,
    pub video_data: VideoData,
}

/// The base text a candidate path is derived from: `"{S}_{V}_{T}"`.
pub open spec fn base_chars(
    streamer: Seq<char>,
    video_id: Seq<char>,
    time_text: Seq<char>,
) -> Seq<char> {
    streamer + seq!['_'] + video_id + seq!['_'] + time_text
}

/// A full candidate path: twenty hex characters of the base's SHA-1 digest,
/// an underscore, then the base itself.
pub open spec fn hashed_path_chars(
    streamer: Seq<char>,
    video_id: Seq<char>,
    time_text: Seq<char>,
) -> Seq<char> {
    let base = base_chars(streamer, video_id, time_text);
    hex_chars(sha1_of(base)).take(20) + seq!['_'] + base
}

/// The time text of a timestamp under one of the two conventions: the unix
/// seconds themselves, or only the seconds-of-minute component.
pub open spec fn time_text(t: int, to_unix: bool) -> Seq<char> {
    if to_unix {
        int_chars(t)
    } else {
        dec_chars((t % 60) as nat)
    }
}

/// The candidate path of an identity under a time-encoding convention.
pub open spec fn url_path_of(vd: VideoData, to_unix: bool) -> Seq<char> {
    hashed_path_chars(
        vd.streamer_name@,
        vd.video_id@,
        time_text(vd.unix_time_seconds as int, to_unix),
    )
}

/// Three underscores occur somewhere in `s`.
pub open spec fn three_underscores(s: Seq<char>) -> bool {
    exists|f: int, a: int, b: int|
        0 <= f < a < b < s.len() && s[f] == '_' && s[a] == '_' && s[b] == '_'
}

/// `f`, `a` and `b` are the positions a candidate path is split at: the
/// first underscore, and the last two.
pub open spec fn split_positions(s: Seq<char>, f: int, a: int, b: int) -> bool {
    &&& 0 <= f < a < b < s.len()
    &&& s[f] == '_' && s[a] == '_' && s[b] == '_'
    &&& forall|j: int| 0 <= j < f ==> s[j] != '_'
    &&& forall|j: int| a < j < b ==> s[j] != '_'
    &&& forall|j: int| b < j < s.len() ==> s[j] != '_'
}

/// The identity `vd` is what reading the path `s` yields: the text between
/// the first underscore and the second-to-last is the streamer (which may
/// itself contain underscores), then the video id, then the timestamp.
pub open spec fn read_video_data(s: Seq<char>, f: int, a: int, b: int, vd: VideoData) -> bool {
    &&& vd.streamer_name@ == s.subrange(f + 1, a)
    &&& vd.video_id@ == s.subrange(a + 1, b)
    &&& parsed_i64(s.subrange(b + 1, s.len() as int)) == Some(vd.unix_time_seconds as int)
    &&& timestamp_in_range(vd.unix_time_seconds as int)
}

/// Some split of `s` reads the identity `vd` out of it.
pub open spec fn video_data_read(s: Seq<char>, vd: VideoData) -> bool {
    exists|f: int, a: int, b: int|
        #[trigger] split_positions(s, f, a, b) && read_video_data(s, f, a, b, vd)
}

/// The error that reading an identity out of `s` yields, exactly when it
/// yields it.
pub open spec fn video_data_error(s: Seq<char>, e: VodError) -> bool {
    ||| (e == VodError::NotEnoughUnderscores && !three_underscores(s))
    ||| (e == VodError::InvalidNumber && exists|f: int, a: int, b: int|
        #[trigger] split_positions(s, f, a, b) && parsed_i64(
            s.subrange(b + 1, s.len() as int),
        ) is None)
    ||| (e == VodError::TimeOutOfRange && exists|f: int, a: int, b: int|
        #[trigger] split_positions(s, f, a, b) && (parsed_i64(
            s.subrange(b + 1, s.len() as int),
        ) matches Some(t) && !timestamp_in_range(t)))
}

/// Finds the first underscore of `s`, if any.
fn find_first_underscore(s: &str) -> (r: Option<usize>)
    ensures
        match r {
            Some(i) => i < s@.len() && s@[i as int] == '_' && (forall|j: int|
                0 <= j < i ==> s@[j] != '_'),
            None => forall|j: int| 0 <= j < s@.len() ==> s@[j] != '_',
        },
{
    let n = s.unicode_len();
    let mut i: usize = 0;
    while i < n
        invariant
            i <= n,
            n == s@.len(),
            forall|j: int| 0 <= j < i ==> s@[j] != '_',
        decreases n - i,
    {
        if s.get_char(i) == '_' {
            return Some(i);
        }
        i = i + 1;
    }
    None
}

/// Finds the last underscore of `s` strictly before position `end`, if any.
fn find_last_underscore_before(s: &str, end: usize) -> (r: Option<usize>)
    requires
        end <= s@.len(),
    ensures
        match r {
            Some(i) => i < end && s@[i as int] == '_' && (forall|j: int|
                i < j < end ==> s@[j] != '_'),
            None => forall|j: int| 0 <= j < end ==> s@[j] != '_',
        },
{
    let mut i: usize = end;
    while i > 0
        invariant
            i <= end <= s@.len(),
            forall|j: int| i <= j < end ==> s@[j] != '_',
        decreases i,
    {
        i = i - 1;
        if s.get_char(i) == '_' {
            return Some(i);
        }
    }
    None
}

/// Reads a video identity back out of a candidate path such as
/// `hash_streamer_videoid_timestamp`. The streamer name may contain
/// underscores of its own, so the split takes the first underscore and the
/// last two; anything with fewer than three underscores, a malformed
/// timestamp, or a timestamp without a calendar date is rejected.
pub fn url_path_to_video_data(url_path: &str) -> (r: Result<VideoData, VodError>)
    ensures
        match r {
            Ok(vd) => video_data_read(url_path@, vd),
            Err(e) => video_data_error(url_path@, e),
        },
{
    let ghost s = url_path@;
    let n = url_path.unicode_len();
    let b_opt = find_last_underscore_before(url_path, n);
    let b = match b_opt {
        Some(b) => b,
        None => {
            proof {
                lemma_no_underscore_no_triple(s);
            }
            return Err(VodError::NotEnoughUnderscores);
        },
    };
    let a_opt = find_last_underscore_before(url_path, b);
    let a = match a_opt {
        Some(a) => a,
        None => {
            proof {
                lemma_single_underscore_no_triple(s, b as int);
            }
            return Err(VodError::NotEnoughUnderscores);
        },
    };
    let f_opt = find_first_underscore(url_path);
    let f = match f_opt {
        Some(f) => f,
        None => {
            proof {
                assert(s[b as int] == '_');
                assert(false);
            }
            return Err(VodError::NotEnoughUnderscores);
        },
    };
    if f >= a {
        proof {
            lemma_two_underscores_no_triple(s, f as int, a as int, b as int);
        }
        return Err(VodError::NotEnoughUnderscores);
    }
    let streamer = String::from_str(url_path.substring_char(f + 1, a));
    let vid = String::from_str(url_path.substring_char(a + 1, b));
    let time_str = url_path.substring_char(b + 1, n);
    proof {
        assert(split_positions(s, f as int, a as int, b as int));
    }
    match parse_i64(time_str) {
        None => Err(VodError::InvalidNumber),
        Some(t) => {
            if t < TIMESTAMP_MIN || t > TIMESTAMP_MAX {
                Err(VodError::TimeOutOfRange)
            } else {
                let vd = VideoData {
                    streamer_name: streamer,
                    video_id: vid,
                    unix_time_seconds: t,
                };
                proof {
                    assert(split_positions(s, f as int, a as int, b as int) && read_video_data(
                        s,
                        f as int,
                        a as int,
                        b as int,
                        vd,
                    ));
                }
                Ok(vd)
            }
        },
    }
}

impl VideoData {
    /// The timestamp has a calendar date, so offsetting and rendering it
    /// behave.
    pub open spec fn wf(&self) -> bool {
        timestamp_in_range(self.unix_time_seconds as int)
    }

    /// A value-identical copy of this identity.
    pub fn duplicate(&self) -> (r: VideoData)
        ensures
            r == *self,
    {
        VideoData {
            streamer_name: self.streamer_name.clone(),
            video_id: self.video_id.clone(),
            unix_time_seconds: self.unix_time_seconds,
        }
    }

    /// Derives the candidate path for a given time text: the first twenty
    /// hex characters of the SHA-1 digest of `"{S}_{V}_{T}"`, an
    /// underscore, then that base text.
    fn url_path_from_time_text(&self, time_string: &str) -> (r: String)
        ensures
            r@ == hashed_path_chars(self.streamer_name@, self.video_id@, time_string@),
    {
        proof {
            reveal_strlit("_");
        }
        let mut base = self.streamer_name.clone();
        base.append("_");
        base.append(self.video_id.as_str());
        base.append("_");
        base.append(time_string);
        proof {
            assert("_"@ =~= seq!['_']);
            assert(base@ =~= base_chars(self.streamer_name@, self.video_id@, time_string@));
        }
        let digest = sha1_digest(base.as_str());
        let hash = hex_lower(&digest);
        let hash20 = hash.as_str().substring_char(0, 20);
        let mut out = String::from_str(hash20);
        out.append("_");
        out.append(base.as_str());
        proof {
            assert(hash@.subrange(0, 20) =~= hex_chars(sha1_of(base@)).take(20));
            assert(out@ =~= hashed_path_chars(
                self.streamer_name@,
                self.video_id@,
                time_string@,
            ));
        }
        out
    }

    /// Derives the candidate path of this identity: over the full unix
    /// timestamp when `to_unix` holds, over only the seconds-of-minute
    /// component otherwise.
    pub fn get_url_path(&self, to_unix: bool) -> (r: String)
        ensures
            r@ == url_path_of(*self, to_unix),
    {
        if to_unix {
            let t = i64_to_string(self.unix_time_seconds);
            self.url_path_from_time_text(t.as_str())
        } else {
            let sec = self.unix_time_seconds.checked_rem_euclid(60).unwrap();
            let t = i64_to_string(sec);
            proof {
                assert(0 <= sec < 60);
                assert(int_chars(sec as int) == dec_chars(
                    (self.unix_time_seconds as int % 60) as nat,
                ));
            }
            self.url_path_from_time_text(t.as_str())
        }
    }

    /// Wraps the derived path together with this identity.
    pub fn get_video_path(self, to_unix: bool) -> (r: VideoPath)
        ensures
            r.url_path@ == url_path_of(self, to_unix),
            r.video_data == self,
    {
        let url_path = self.get_url_path(to_unix);
        VideoPath { url_path, video_data: self }
    }

    /// The same identity, `seconds` later. Offsetting is value semantics:
    /// the original is untouched.
    pub fn with_offset(&self, seconds: i64) -> (r: VideoData)
        requires
            timestamp_in_range(self.unix_time_seconds + seconds),
        ensures
            r.streamer_name@ == self.streamer_name@,
            r.video_id@ == self.video_id@,
            r.unix_time_seconds == self.unix_time_seconds + seconds,
            r.wf(),
    {
        VideoData {
            streamer_name: self.streamer_name.clone(),
            video_id: self.video_id.clone(),
            unix_time_seconds: self.unix_time_seconds + seconds,
        }
    }

    /// The human-readable name of the video: streamer, calendar time, id.
    /// `None` only when the timestamp renders to no calendar text.
    pub fn display_name(&self) -> (r: Option<String>)
        ensures
            match r {
                Some(out) => datetime_chars(
                    self.unix_time_seconds as int,
                    "%Y-%m-%d_%H:%M:%S"@,
                ) matches Some(dc) && out@ == self.streamer_name@ + seq!['_'] + dc + seq!['_']
                    + self.video_id@,
                None => datetime_chars(self.unix_time_seconds as int, "%Y-%m-%d_%H:%M:%S"@) is None,
            },
    {
        proof {
            reveal_strlit("_");
        }
        match format_timestamp(self.unix_time_seconds, "%Y-%m-%d_%H:%M:%S") {
            Some(dc) => {
                let mut out = self.streamer_name.clone();
                out.append("_");
                out.append(dc.as_str());
                out.append("_");
                out.append(self.video_id.as_str());
                proof {
                    assert("_"@ =~= seq!['_']);
                }
                Some(out)
            },
            None => None,
        }
    }
}

/// One CDN domain paired with one candidate path.
pub struct DomainWithPath {
    pub domain: String,
    pub path: VideoPath,
}

/// One CDN domain paired with the ordered candidate paths to try on it.
pub struct DomainWithPaths {
    pub domain: String,
    pub paths: Vec<VideoPath>,
}

/// The identity `vd` offset by `i` seconds.
pub open spec fn offset_identity(vd: VideoData, i: int) -> VideoData {
    VideoData {
        streamer_name: vd.streamer_name,
        video_id: vd.video_id,
        unix_time_seconds: (vd.unix_time_seconds + i) as i64,
    }
}

/// What a candidate path list for `vd` holds at position `i`: the path of
/// the identity offset by `i` seconds, with that identity beside it.
pub open spec fn offset_path_at(vd: VideoData, to_unix: bool, i: int, p: VideoPath) -> bool {
    &&& p.video_data.streamer_name@ == vd.streamer_name@
    &&& p.video_data.video_id@ == vd.video_id@
    &&& p.video_data.unix_time_seconds == vd.unix_time_seconds + i
    &&& p.url_path@ == url_path_of(offset_identity(vd, i), to_unix)
}

impl VideoData {
    /// Builds, for each domain, the same ordered list of `seconds` candidate
    /// paths: one per second of offset, starting at this identity's own
    /// timestamp.
    pub fn get_domain_with_paths_list(
        &self,
        domains: &Vec<&str>,
        seconds: i64,
        to_unix: bool,
    ) -> (r: Vec<DomainWithPaths>)
        requires
            self.wf(),
            seconds >= 0,
            seconds > 0 ==> timestamp_in_range(self.unix_time_seconds + seconds - 1),
        ensures
            r@.len() == domains@.len(),
            forall|d: int|
                0 <= d < r@.len() ==> {
                    &&& (#[trigger] r@[d]).domain@ == domains@[d]@
                    &&& r@[d].paths@.len() == seconds
                    &&& forall|i: int|
                        0 <= i < seconds ==> offset_path_at(
                            *self,
                            to_unix,
                            i,
                            #[trigger] r@[d].paths@[i],
                        )
                },
    {
        let mut paths: Vec<VideoPath> = Vec::new();
        let mut i: i64 = 0;
        while i < seconds
            invariant
                0 <= i <= seconds,
                self.wf(),
                seconds > 0 ==> timestamp_in_range(self.unix_time_seconds + seconds - 1),
                paths@.len() == i,
                forall|k: int| 0 <= k < i ==> offset_path_at(*self, to_unix, k, #[trigger] paths@[k]),
            decreases seconds - i,
        {
            let shifted = self.with_offset(i);
            let path = shifted.get_video_path(to_unix);
            proof {
                assert(offset_path_at(*self, to_unix, i as int, path));
            }
            paths.push(path);
            i = i + 1;
        }
        let mut r: Vec<DomainWithPaths> = Vec::new();
        let mut d: usize = 0;
        while d < domains.len()
            invariant
                0 <= d <= domains@.len(),
                paths@.len() == seconds,
                seconds >= 0,
                forall|k: int| 0 <= k < seconds ==> offset_path_at(*self, to_unix, k, #[trigger] paths@[k]),
                r@.len() == d,
                forall|e: int|
                    0 <= e < d ==> {
                        &&& (#[trigger] r@[e]).domain@ == domains@[e]@
                        &&& r@[e].paths@.len() == seconds
                        &&& forall|i2: int|
                            0 <= i2 < seconds ==> offset_path_at(
                                *self,
                                to_unix,
                                i2,
                                #[trigger] r@[e].paths@[i2],
                            )
                    },
            decreases domains@.len() - d,
        {
            let mut copied: Vec<VideoPath> = Vec::new();
            let mut k: usize = 0;
            while k < paths.len()
                invariant
                    0 <= k <= paths@.len(),
                    copied@.len() == k,
                    forall|k2: int| 0 <= k2 < k ==> copied@[k2] == #[trigger] paths@[k2],
                decreases paths@.len() - k,
            {
                let p = &paths[k];
                copied.push(
                    VideoPath { url_path: p.url_path.clone(), video_data: p.video_data.duplicate() },
                );
                k = k + 1;
            }
            r.push(DomainWithPaths { domain: String::from_str(domains[d]), paths: copied });
            proof {
                assert forall|i2: int| 0 <= i2 < seconds implies offset_path_at(
                    *self,
                    to_unix,
                    i2,
                    r@[d as int].paths@[i2],
                ) by {
                    assert(r@[d as int].paths@[i2] == paths@[i2]);
                }
            }
            d = d + 1;
        }
        r
    }
}

impl DomainWithPaths {
    /// Unfolds this domain's candidate list into one `DomainWithPath` per
    /// path, in order.
    pub fn to_list_of_domain_with_path(&self) -> (r: Vec<DomainWithPath>)
        ensures
            r@.len() == self.paths@.len(),
            forall|i: int|
                0 <= i < r@.len() ==> (#[trigger] r@[i]).domain@ == self.domain@ && r@[i].path
                    == self.paths@[i],
    {
        let mut r: Vec<DomainWithPath> = Vec::new();
        let mut i: usize = 0;
        while i < self.paths.len()
            invariant
                0 <= i <= self.paths@.len(),
                r@.len() == i,
                forall|k: int|
                    0 <= k < i ==> (#[trigger] r@[k]).domain@ == self.domain@ && r@[k].path
                        == self.paths@[k],
            decreases self.paths@.len() - i,
        {
            let p = &self.paths[i];
            r.push(
                DomainWithPath {
                    domain: self.domain.clone(),
                    path: VideoPath {
                        url_path: p.url_path.clone(),
                        video_data: p.video_data.duplicate(),
                    },
                },
            );
            i = i + 1;
        }
        r
    }
}

impl DomainWithPath {
    /// The domain alone.
    pub fn get_domain(&self) -> (r: String)
        ensures
            r@ == self.domain@,
    {
        self.domain.clone()
    }

    /// Surrenders the identity behind this candidate.
    pub fn get_video_data(self) -> (r: VideoData)
        ensures
            r == self.path.video_data,
    {
        self.path.video_data
    }

    /// The playlist URL this candidate stands for:
    /// `"{domain}{path}/chunked/index-dvr.m3u8"`.
    pub fn get_index_dvr_url(&self) -> (r: String)
        ensures
            r@ == self.domain@ + self.path.url_path@ + "/chunked/index-dvr.m3u8"@,
    {
        let mut out = self.domain.clone();
        out.append(self.path.url_path.as_str());
        out.append("/chunked/index-dvr.m3u8");
        out
    }

    /// The absolute URL of one media segment under this candidate:
    /// `"{domain}{path}/chunked/{uri}"`.
    pub fn get_segment_chunked_url(&self, segment_uri: &str) -> (r: String)
        ensures
            r@ == self.domain@ + self.path.url_path@ + "/chunked/"@ + segment_uri@,
    {
        let mut out = self.domain.clone();
        out.append(self.path.url_path.as_str());
        out.append("/chunked/");
        out.append(segment_uri);
        out
    }
}

/// The CDN domains probed in the reference deployment.
pub fn default_domains() -> (r: Vec<&'static str>)
    ensures
        r@.len() == 12,
{
    let mut v: Vec<&'static str> = Vec::new();
    v.push("https://vod-secure.twitch.tv/");
    v.push("https://vod-metro.twitch.tv/");
    v.push("https://vod-pop-secure.twitch.tv/");
    v.push("https://d1m7jfoe9zdc1j.cloudfront.net/");
    v.push("https://d1mhjrowxxagfy.cloudfront.net/");
    v.push("https://d1ymi26ma8va5x.cloudfront.net/");
    v.push("https://d2nvs31859zcd8.cloudfront.net/");
    v.push("https://d2vjef5jvl6bfs.cloudfront.net/");
    v.push("https://d3vd9lfkzbru3h.cloudfront.net/");
    v.push("https://dgeft87wbj63p.cloudfront.net/");
    v.push("https://dqrpb9wgowsf5.cloudfront.net/");
    v.push("https://ds0h3roq6wcgc.cloudfront.net/");
    v
}

/// Hex renderings never contain an underscore, so the digest prefix of a
/// derived path meets [`lemma_path_roundtrip`]'s condition on the hash
/// block.
pub proof fn lemma_hex_chars_no_underscore(bytes: Seq<u8>)
    ensures
        forall|i: int| 0 <= i < hex_chars(bytes).len() ==> hex_chars(bytes)[i] != '_',
{
    assert forall|i: int| 0 <= i < hex_chars(bytes).len() implies hex_chars(bytes)[i] != '_' by {
        if i % 2 == 0 {
            assert(hex_chars(bytes)[i] == hex_digit(bytes[i / 2] as int / 16));
        } else {
            assert(hex_chars(bytes)[i] == hex_digit(bytes[i / 2] as int % 16));
        }
    }
}

/// The text of an integer never contains an underscore.
proof fn lemma_int_chars_no_underscore(t: int)
    ensures
        forall|i: int| 0 <= i < int_chars(t).len() ==> int_chars(t)[i] != '_',
{
    if t >= 0 {
        crate::numbers::lemma_dec_chars_value(t as nat);
        assert forall|i: int| 0 <= i < int_chars(t).len() implies int_chars(t)[i] != '_' by {
            assert(crate::numbers::is_dec_digit(int_chars(t)[i]));
        }
    } else {
        crate::numbers::lemma_dec_chars_value((-t) as nat);
        assert forall|i: int| 0 <= i < int_chars(t).len() implies int_chars(t)[i] != '_' by {
            if i == 0 {
                assert(int_chars(t)[0] == '-');
            } else {
                assert(int_chars(t)[i] == dec_chars((-t) as nat)[i - 1]);
                assert(crate::numbers::is_dec_digit(int_chars(t)[i]));
            }
        }
    }
}

/// The shape every derived path has: a hash block, then the base text the
/// hash was taken over.
pub open spec fn path_shape(hash: Seq<char>, vd: VideoData) -> Seq<char> {
    hash + seq!['_'] + base_chars(
        vd.streamer_name@,
        vd.video_id@,
        int_chars(vd.unix_time_seconds as int),
    )
}

/// A path derived under the unix-timestamp convention has exactly the
/// shape [`lemma_path_roundtrip`] splits: its hash block is the
/// twenty-character hex prefix of the base text's digest.
pub proof fn lemma_derived_path_shape(vd: VideoData)
    ensures
        url_path_of(vd, true) == path_shape(
            hex_chars(
                sha1_of(
                    base_chars(
                        vd.streamer_name@,
                        vd.video_id@,
                        int_chars(vd.unix_time_seconds as int),
                    ),
                ),
            ).take(20),
            vd,
        ),
{
    let base = base_chars(vd.streamer_name@, vd.video_id@, int_chars(vd.unix_time_seconds as int));
    assert(url_path_of(vd, true) =~= path_shape(hex_chars(sha1_of(base)).take(20), vd));
}

/// Reading a path is the inverse of deriving it: for any hash block free
/// of underscores — the twenty-hex-character digest prefix of a derived
/// path is one, by [`lemma_hex_chars_no_underscore`] — the unique split of
/// `"{hash}_{S}_{V}_{T}"` gives back the streamer, the video id and the
/// timestamp. The streamer name may contain underscores of its own; the
/// video id must not — with an underscore inside the id (such as `4_7`),
/// the split would hand part of it to the streamer name.
pub proof fn lemma_path_roundtrip(hash: Seq<char>, vd: VideoData)
    requires
        vd.wf(),
        forall|i: int| 0 <= i < hash.len() ==> hash[i] != '_',
        forall|i: int| 0 <= i < vd.video_id@.len() ==> vd.video_id@[i] != '_',
    ensures
        exists|f: int, a: int, b: int|
            {
                &&& #[trigger] split_positions(path_shape(hash, vd), f, a, b)
                &&& path_shape(hash, vd).subrange(f + 1, a) == vd.streamer_name@
                &&& path_shape(hash, vd).subrange(a + 1, b) == vd.video_id@
                &&& parsed_i64(
                    path_shape(hash, vd).subrange(b + 1, path_shape(hash, vd).len() as int),
                ) == Some(vd.unix_time_seconds as int)
            },
{
    let path = path_shape(hash, vd);
    let streamer = vd.streamer_name@;
    let vid = vd.video_id@;
    let t = vd.unix_time_seconds as int;
    let time = int_chars(t);
    assert(path =~= hash + seq!['_'] + streamer + seq!['_'] + vid + seq!['_'] + time);
    crate::numbers::lemma_dec_chars_value(if t >= 0 {
        t as nat
    } else {
        (-t) as nat
    });
    assert(time.len() > 0);
    let f = hash.len() as int;
    let a = f + 1 + streamer.len();
    let b = a + 1 + vid.len();
    let end = b + 1 + time.len();
    assert(path.len() == end);
    assert(path[f] == '_');
    assert(path[a] == '_');
    assert(path[b] == '_');
    assert forall|j: int| 0 <= j < f implies path[j] != '_' by {
        assert(path[j] == hash[j]);
    }
    assert forall|j: int| a < j < b implies path[j] != '_' by {
        assert(path[j] == vid[j - a - 1]);
    }
    lemma_int_chars_no_underscore(t);
    assert forall|j: int| b < j < end implies path[j] != '_' by {
        assert(path[j] == time[j - b - 1]);
    }
    assert(split_positions(path, f, a, b));
    assert(path.subrange(f + 1, a) =~= streamer);
    assert(path.subrange(a + 1, b) =~= vid);
    assert(path.subrange(b + 1, end) =~= time);
    crate::numbers::lemma_int_chars_parse(t);
}

/// A `"://"` separator starts at position `p` of `s`.
pub open spec fn scheme_sep_at(s: Seq<char>, p: int) -> bool {
    0 <= p && p + 3 <= s.len() && s[p] == ':' && s[p + 1] == '/' && s[p + 2] == '/'
}

/// `p`, `h` and `m` decompose the URL `s`: the first `"://"` starts at `p`;
/// `h` is the first `/` after the host (or the end); `m` bounds the first
/// path segment, ending at the next `/` (or the end).
pub open spec fn url_parts(s: Seq<char>, p: int, h: int, m: int) -> bool {
    &&& scheme_sep_at(s, p)
    &&& forall|q: int| 0 <= q < p ==> !scheme_sep_at(s, q)
    &&& p + 3 <= h <= s.len()
    &&& forall|j: int| p + 3 <= j < h ==> s[j] != '/'
    &&& (h < s.len() ==> s[h] == '/')
    &&& if h == s.len() {
        m == h
    } else {
        &&& h + 1 <= m <= s.len()
        &&& forall|j: int| h + 1 <= j < m ==> s[j] != '/'
        &&& (m < s.len() ==> s[m] == '/')
    }
}

/// The domain a URL decomposes to: `"{scheme}://{host}/"`.
pub open spec fn url_domain(s: Seq<char>, p: int, h: int) -> Seq<char> {
    s.subrange(0, p) + "://"@ + s.subrange(p + 3, h) + seq!['/']
}

/// The first path segment of a URL, empty when there is no path at all.
pub open spec fn url_main_part(s: Seq<char>, h: int, m: int) -> Seq<char> {
    if h >= s.len() {
        Seq::empty()
    } else {
        s.subrange(h + 1, m)
    }
}

/// Finds the first `"://"` of `s`, if any.
fn find_scheme_sep(s: &str) -> (r: Option<usize>)
    ensures
        match r {
            Some(p) => scheme_sep_at(s@, p as int) && (forall|q: int|
                0 <= q < p ==> !scheme_sep_at(s@, q)),
            None => forall|q: int| !scheme_sep_at(s@, q),
        },
{
    let n = s.unicode_len();
    if n < 3 {
        return None;
    }
    let mut p: usize = 0;
    while p <= n - 3
        invariant
            0 <= p,
            3 <= n,
            p <= n - 2,
            n == s@.len(),
            forall|q: int| 0 <= q < p ==> !scheme_sep_at(s@, q),
        decreases n - p,
    {
        if s.get_char(p) == ':' && s.get_char(p + 1) == '/' && s.get_char(p + 2) == '/' {
            return Some(p);
        }
        p = p + 1;
    }
    proof {
        assert forall|q: int| !scheme_sep_at(s@, q) by {
            if 0 <= q < p {
                assert(!scheme_sep_at(s@, q));
            }
        }
    }
    None
}

/// Finds the first `/` of `s` at or after `start`, or the length if none.
fn find_slash_from(s: &str, start: usize) -> (r: usize)
    requires
        start <= s@.len(),
    ensures
        start <= r <= s@.len(),
        forall|j: int| start <= j < r ==> s@[j] != '/',
        r < s@.len() ==> s@[r as int] == '/',
{
    let n = s.unicode_len();
    let mut i: usize = start;
    while i < n
        invariant
            start <= i <= n,
            n == s@.len(),
            forall|j: int| start <= j < i ==> s@[j] != '/',
        decreases n - i,
    {
        if s.get_char(i) == '/' {
            return i;
        }
        i = i + 1;
    }
    n
}

/// Reads a candidate URL such as
/// `https://host/hash_streamer_videoid_timestamp/anything` back into its
/// domain and identity. The text is split at the first `"://"`, the host
/// runs to the next `/`, and the first path segment is read as a candidate
/// path; a URL without `"://"`, with an empty host, or with an unreadable
/// first segment is rejected.
pub fn url_to_domain_with_path(url_str: &str) -> (r: Result<DomainWithPath, VodError>)
    ensures
        match r {
            Ok(dwp) => exists|p: int, h: int, m: int|
                #[trigger] url_parts(url_str@, p, h, m) && h > p + 3 && dwp.domain@ == url_domain(
                    url_str@,
                    p,
                    h,
                ) && dwp.path.url_path@ == url_main_part(url_str@, h, m) && video_data_read(
                    url_main_part(url_str@, h, m),
                    dwp.path.video_data,
                ),
            Err(e) => {
                ||| (e == VodError::MissingScheme && !(exists|p: int| scheme_sep_at(url_str@, p)))
                ||| (e == VodError::MissingHost && exists|p: int, h: int, m: int|
                    #[trigger] url_parts(url_str@, p, h, m) && h == p + 3)
                ||| (exists|p: int, h: int, m: int|
                    #[trigger] url_parts(url_str@, p, h, m) && h > p + 3 && video_data_error(
                        url_main_part(url_str@, h, m),
                        e,
                    ))
            },
        },
{
    let ghost s = url_str@;
    let n = url_str.unicode_len();
    let p = match find_scheme_sep(url_str) {
        Some(p) => p,
        None => {
            return Err(VodError::MissingScheme);
        },
    };
    let h = find_slash_from(url_str, p + 3);
    let m = if h == n {
        h
    } else {
        find_slash_from(url_str, h + 1)
    };
    proof {
        assert(url_parts(s, p as int, h as int, m as int));
    }
    if h == p + 3 {
        return Err(VodError::MissingHost);
    }
    let main_part = if h == n {
        String::new()
    } else {
        String::from_str(url_str.substring_char(h + 1, m))
    };
    proof {
        assert(main_part@ =~= url_main_part(s, h as int, m as int));
    }
    let video_data = match url_path_to_video_data(main_part.as_str()) {
        Ok(vd) => vd,
        Err(e) => {
            return Err(e);
        },
    };
    let mut domain = String::from_str(url_str.substring_char(0, p));
    domain.append("://");
    domain.append(url_str.substring_char(p + 3, h));
    domain.append("/");
    proof {
        reveal_strlit("/");
        assert("/"@ =~= seq!['/']);
        assert(domain@ =~= url_domain(s, p as int, h as int));
    }
    Ok(DomainWithPath { domain, path: VideoPath { url_path: main_part, video_data } })
}

/// A string without underscores holds no three of them.
proof fn lemma_no_underscore_no_triple(s: Seq<char>)
    requires
        forall|j: int| 0 <= j < s.len() ==> s[j] != '_',
    ensures
        !three_underscores(s),
{
    if three_underscores(s) {
        let (f, a, b) = choose|f: int, a: int, b: int|
            0 <= f < a < b < s.len() && s[f] == '_' && s[a] == '_' && s[b] == '_';
        assert(s[f] != '_');
    }
}

/// If the only underscore up to the end of `s` is at `b`, there are no
/// three underscores.
proof fn lemma_single_underscore_no_triple(s: Seq<char>, b: int)
    requires
        0 <= b < s.len(),
        forall|j: int| 0 <= j < b ==> s[j] != '_',
        forall|j: int| b < j < s.len() ==> s[j] != '_',
    ensures
        !three_underscores(s),
{
    if three_underscores(s) {
        let (f, a, b2) = choose|f: int, a: int, b2: int|
            0 <= f < a < b2 < s.len() && s[f] == '_' && s[a] == '_' && s[b2] == '_';
        assert(s[f] == '_' && s[a] == '_' && s[b2] == '_');
        assert(f == b);
        assert(a == b);
        assert(false);
    }
}

/// If the first underscore `f` is not strictly before the second-to-last
/// `a`, there are no three underscores: `f` bounds every underscore from
/// below, `b` from above, and `a` is the last one before `b`.
proof fn lemma_two_underscores_no_triple(s: Seq<char>, f: int, a: int, b: int)
    requires
        0 <= b < s.len(),
        0 <= a < b,
        0 <= f < s.len(),
        s[f] == '_',
        s[a] == '_',
        s[b] == '_',
        forall|j: int| 0 <= j < f ==> s[j] != '_',
        forall|j: int| a < j < b ==> s[j] != '_',
        forall|j: int| b < j < s.len() ==> s[j] != '_',
        f >= a,
    ensures
        !three_underscores(s),
{
    if three_underscores(s) {
        let (f2, a2, b2) = choose|f2: int, a2: int, b2: int|
            0 <= f2 < a2 < b2 < s.len() && s[f2] == '_' && s[a2] == '_' && s[b2] == '_';
        // Every underscore is at or after f, so f2 >= f; every underscore is
        // at or before b, so b2 <= b; and none sits strictly between a and b,
        // so a2 <= a. Then f <= f2 < a2 <= a contradicts f >= a.
        assert(s[f2] == '_' && s[a2] == '_' && s[b2] == '_');
        assert(f2 >= f);
        assert(b2 <= b);
        assert(a2 < b2);
        assert(a2 != b);
        assert(a2 <= a);
        assert(false);
    }
}

} // verus!
