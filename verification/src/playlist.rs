//! The media playlist as this crate holds it: segment URIs and durations,
//! the mute rewrite, absolute-URL rewriting, duration accounting, and the
//! validity filter that drops unreachable segments.
//!
//! Parsing playlist bytes and writing them back out stay outside this
//! crate; they hand over plain segment values, with each duration in whole
//! milliseconds.

use vstd::prelude::*;

use crate::errors::VodError;
use crate::numbers::dec_chars;
use crate::numbers::u64_to_string;
use crate::video::DomainWithPath;
use crate::video::VideoData;

verus! {

/// One media segment: its URI and its duration in milliseconds.
pub struct MediaSegment {
    pub uri: String,
    pub duration_millis: u64,
}

/// An ordered media playlist.
pub struct MediaPlaylist {
    pub segments: Vec<MediaSegment>,
}

/// The text `"-unmuted"` occurs in `s` starting at position `i`.
pub open spec fn contains_unmuted_at(s: Seq<char>, i: int) -> bool {
    0 <= i && i + 8 <= s.len() && s.subrange(i, i + 8) == "-unmuted"@
}

/// `i` is the first position at which `"-unmuted"` occurs in `s`.
pub open spec fn first_unmuted_at(s: Seq<char>, i: int) -> bool {
    contains_unmuted_at(s, i) && forall|j: int| 0 <= j < i ==> !contains_unmuted_at(s, j)
}

/// How a muted URI relates to the original: unchanged when `"-unmuted"`
/// does not occur, otherwise cut at the first occurrence and ended with
/// `"-muted.ts"`.
pub open spec fn segment_muted(old_uri: Seq<char>, new_uri: Seq<char>) -> bool {
    &&& (forall|i: int| !contains_unmuted_at(old_uri, i)) ==> new_uri == old_uri
    &&& forall|i: int|
        first_unmuted_at(old_uri, i) ==> new_uri == old_uri.take(i) + "-muted.ts"@
}

/// Whether `"-unmuted"` starts at position `i` of `s`.
fn match_unmuted_at(s: &str, i: usize) -> (r: bool)
    requires
        i + 8 <= s@.len() <= usize::MAX,
    ensures
        r == contains_unmuted_at(s@, i as int),
{
    proof {
        reveal_strlit("-unmuted");
    }
    let r = s.get_char(i) == '-' && s.get_char(i + 1) == 'u' && s.get_char(i + 2) == 'n'
        && s.get_char(i + 3) == 'm' && s.get_char(i + 4) == 'u' && s.get_char(i + 5) == 't'
        && s.get_char(i + 6) == 'e' && s.get_char(i + 7) == 'd';
    proof {
        let ghost sub = s@.subrange(i as int, i as int + 8);
        if r {
            assert(sub =~= "-unmuted"@);
        } else {
            if contains_unmuted_at(s@, i as int) {
                assert(sub[0] == s@[i as int] && sub[1] == s@[i as int + 1] && sub[2] == s@[
                    i as int + 2
                ] && sub[3] == s@[i as int + 3] && sub[4] == s@[i as int + 4] && sub[5] == s@[
                    i as int + 5
                ] && sub[6] == s@[i as int + 6] && sub[7] == s@[i as int + 7]);
                assert(false);
            }
        }
    }
    r
}

/// Rewrites a segment URI that marks muted audio: everything from the
/// first `"-unmuted"` on is replaced by `"-muted.ts"`. A URI without that
/// marker is left unchanged.
pub fn mute_uri(segment_uri: &mut String)
    ensures
        segment_muted(old(segment_uri)@, final(segment_uri)@),
{
    let n = segment_uri.as_str().unicode_len();
    if n < 8 {
        proof {
            assert forall|i: int| !contains_unmuted_at(old(segment_uri)@, i) by {
                assert(old(segment_uri)@.len() < 8);
            }
        }
        return ;
    }
    let mut i: usize = 0;
    while i <= n - 8
        invariant
            *segment_uri == *old(segment_uri),
            8 <= n == segment_uri@.len(),
            0 <= i <= n - 7,
            forall|j: int| 0 <= j < i ==> !contains_unmuted_at(segment_uri@, j),
        decreases n - i,
    {
        if match_unmuted_at(segment_uri.as_str(), i) {
            let prefix = String::from_str(segment_uri.as_str().substring_char(0, i));
            let mut out = prefix;
            out.append("-muted.ts");
            proof {
                assert(first_unmuted_at(old(segment_uri)@, i as int));
                assert(out@ == old(segment_uri)@.take(i as int) + "-muted.ts"@) by {
                    assert(old(segment_uri)@.subrange(0, i as int) =~= old(segment_uri)@.take(
                        i as int,
                    ));
                }
                assert forall|i2: int|
                    first_unmuted_at(old(segment_uri)@, i2) implies out@ == old(segment_uri)@.take(
                    i2,
                ) + "-muted.ts"@ by {
                    assert(!(i2 < i) && !(i < i2));
                }
            }
            *segment_uri = out;
            return ;
        }
        i = i + 1;
    }
    proof {
        assert forall|j: int| !contains_unmuted_at(old(segment_uri)@, j) by {
            if 0 <= j <= n - 8 {
                assert(!contains_unmuted_at(old(segment_uri)@, j));
            }
        }
    }
}

/// Rewrites every segment URI of the playlist with the mute rule,
/// preserving order and durations.
pub fn mute_media_segments(playlist: &mut MediaPlaylist)
    ensures
        final(playlist).segments@.len() == old(playlist).segments@.len(),
        forall|k: int|
            0 <= k < old(playlist).segments@.len() ==> segment_muted(
                old(playlist).segments@[k].uri@,
                (#[trigger] final(playlist).segments@[k]).uri@,
            ) && final(playlist).segments@[k].duration_millis
                == old(playlist).segments@[k].duration_millis,
{
    let ghost orig = playlist.segments@;
    let mut out: Vec<MediaSegment> = Vec::new();
    while playlist.segments.len() > 0
        invariant
            out@.len() + playlist.segments@.len() == orig.len(),
            forall|j: int|
                0 <= j < playlist.segments@.len() ==> #[trigger] playlist.segments@[j] == orig[j
                    + out@.len()],
            forall|k: int|
                0 <= k < out@.len() ==> segment_muted(orig[k].uri@, (#[trigger] out@[k]).uri@)
                    && out@[k].duration_millis == orig[k].duration_millis,
        decreases playlist.segments@.len(),
    {
        let mut seg = playlist.segments.remove(0);
        let ghost pos = out@.len();
        proof {
            assert(seg == orig[pos as int]);
        }
        mute_uri(&mut seg.uri);
        out.push(seg);
    }
    playlist.segments = out;
}

impl DomainWithPath {
    /// Rewrites every segment URI to the absolute URL
    /// `"{domain}{path}/chunked/{uri}"`, preserving order and durations.
    pub fn make_paths_explicit(&self, playlist: &mut MediaPlaylist)
        ensures
            final(playlist).segments@.len() == old(playlist).segments@.len(),
            forall|k: int|
                0 <= k < old(playlist).segments@.len() ==> {
                    let before = old(playlist).segments@[k];
                    let after = #[trigger] final(playlist).segments@[k];
                    after.uri@ == self.domain@ + self.path.url_path@ + "/chunked/"@ + before.uri@
                        && after.duration_millis == before.duration_millis
                },
    {
        let ghost orig = playlist.segments@;
        let mut out: Vec<MediaSegment> = Vec::new();
        while playlist.segments.len() > 0
            invariant
                out@.len() + playlist.segments@.len() == orig.len(),
                forall|j: int|
                    0 <= j < playlist.segments@.len() ==> #[trigger] playlist.segments@[j]
                        == orig[j + out@.len()],
                forall|k: int|
                    0 <= k < out@.len() ==> (#[trigger] out@[k]).uri@ == self.domain@
                        + self.path.url_path@ + "/chunked/"@ + orig[k].uri@
                        && out@[k].duration_millis == orig[k].duration_millis,
            decreases playlist.segments@.len(),
        {
            let seg = playlist.segments.remove(0);
            let ghost pos = out@.len();
            proof {
                assert(seg == orig[pos as int]);
            }
            let absolute = self.get_segment_chunked_url(seg.uri.as_str());
            out.push(MediaSegment { uri: absolute, duration_millis: seg.duration_millis });
        }
        playlist.segments = out;
    }
}

/// The total duration of a list of segments, in milliseconds.
pub open spec fn total_duration_millis(segs: Seq<MediaSegment>) -> int
    decreases segs.len(),
{
    if segs.len() == 0 {
        0
    } else {
        total_duration_millis(segs.drop_last()) + segs.last().duration_millis
    }
}

/// One more segment adds its duration.
proof fn lemma_total_duration_take_step(segs: Seq<MediaSegment>, k: int)
    requires
        0 <= k < segs.len(),
    ensures
        total_duration_millis(segs.take(k + 1)) == total_duration_millis(segs.take(k)) + segs[
            k
        ].duration_millis,
{
    assert(segs.take(k + 1).drop_last() =~= segs.take(k));
    assert(segs.take(k + 1).last() == segs[k]);
}

/// A prefix never lasts longer than the whole.
proof fn lemma_total_duration_prefix_le(segs: Seq<MediaSegment>, k: int)
    requires
        0 <= k <= segs.len(),
    ensures
        total_duration_millis(segs.take(k)) <= total_duration_millis(segs),
    decreases segs.len() - k,
{
    if k == segs.len() {
        assert(segs.take(k) =~= segs);
    } else {
        lemma_total_duration_take_step(segs, k);
        lemma_total_duration_prefix_le(segs, k + 1);
    }
}

/// Adds up every segment's duration, in milliseconds.
pub fn get_media_playlist_duration(playlist: &MediaPlaylist) -> (r: u64)
    requires
        total_duration_millis(playlist.segments@) <= u64::MAX,
    ensures
        r as int == total_duration_millis(playlist.segments@),
{
    let ghost segs = playlist.segments@;
    let mut acc: u64 = 0;
    let mut k: usize = 0;
    while k < playlist.segments.len()
        invariant
            segs == playlist.segments@,
            total_duration_millis(segs) <= u64::MAX,
            0 <= k <= segs.len(),
            acc as int == total_duration_millis(segs.take(k as int)),
        decreases segs.len() - k,
    {
        proof {
            lemma_total_duration_take_step(segs, k as int);
            lemma_total_duration_prefix_le(segs, k as int + 1);
        }
        acc = acc + playlist.segments[k].duration_millis;
        k = k + 1;
    }
    proof {
        assert(segs.take(k as int) =~= segs);
    }
    acc
}

/// Pads a rendering to at least two characters with leading zeros.
pub open spec fn pad2(s: Seq<char>) -> Seq<char> {
    if s.len() >= 2 {
        s
    } else if s.len() == 1 {
        seq!['0'] + s
    } else {
        seq!['0', '0']
    }
}

/// Exec mirror of [`pad2`].
fn pad2_string(s: String) -> (r: String)
    ensures
        r@ == pad2(s@),
{
    proof {
        reveal_strlit("0");
        reveal_strlit("00");
    }
    let n = s.as_str().unicode_len();
    if n >= 2 {
        s
    } else if n == 1 {
        let mut out = String::from_str("0");
        out.append(s.as_str());
        proof {
            assert(out@ =~= seq!['0'] + s@);
        }
        out
    } else {
        let out = String::from_str("00");
        proof {
            assert(out@ =~= seq!['0', '0']);
        }
        out
    }
}

/// `"{HH}h{MM}m{SS}s"`, every component zero-padded to two characters.
pub open spec fn human_duration_chars(total_secs: nat) -> Seq<char> {
    pad2(dec_chars((total_secs / 60) / 60)) + seq!['h'] + pad2(dec_chars((total_secs / 60) % 60))
        + seq!['m'] + pad2(dec_chars(total_secs % 60)) + seq!['s']
}

/// Renders a whole-second duration as `"{HH}h{MM}m{SS}s"`.
pub fn duration_to_human_readable(total_secs: u64) -> (r: String)
    ensures
        r@ == human_duration_chars(total_secs as nat),
{
    proof {
        reveal_strlit("h");
        reveal_strlit("m");
        reveal_strlit("s");
    }
    let secs = total_secs % 60;
    let minutes = (total_secs / 60) % 60;
    let hours = (total_secs / 60) / 60;
    let mut out = pad2_string(u64_to_string(hours));
    out.append("h");
    let minutes_text = pad2_string(u64_to_string(minutes));
    out.append(minutes_text.as_str());
    out.append("m");
    let secs_text = pad2_string(u64_to_string(secs));
    out.append(secs_text.as_str());
    out.append("s");
    proof {
        assert("h"@ =~= seq!['h']);
        assert("m"@ =~= seq!['m']);
        assert("s"@ =~= seq!['s']);
        assert(out@ =~= human_duration_chars(total_secs as nat));
    }
    out
}

/// A fresh validity table: one slot per segment, all false until a worker
/// reports.
pub fn new_validity_table(len: usize) -> (r: Vec<bool>)
    ensures
        r@.len() == len,
        forall|i: int| 0 <= i < len ==> r@[i] == false,
{
    let mut v: Vec<bool> = Vec::new();
    while v.len() < len
        invariant
            v@.len() <= len,
            forall|i: int| 0 <= i < v@.len() ==> v@[i] == false,
        decreases len - v@.len(),
    {
        v.push(false);
    }
    v
}

/// Records one worker's verdict for the segment it owns. Workers own
/// disjoint indices, so each slot is written at most once.
pub fn record_segment_outcome(table: &mut Vec<bool>, index: usize, valid: bool)
    requires
        index < old(table)@.len(),
    ensures
        final(table)@ == old(table)@.update(index as int, valid),
{
    table[index] = valid;
}

/// The segments that survive a validity table, in their original order.
pub open spec fn kept_segments(segs: Seq<MediaSegment>, keep: Seq<bool>) -> Seq<MediaSegment>
    decreases segs.len(),
{
    if segs.len() == 0 {
        Seq::empty()
    } else {
        let rest = kept_segments(segs.drop_last(), keep.drop_last());
        if keep.last() {
            rest.push(segs.last())
        } else {
            rest
        }
    }
}

/// An all-false table keeps nothing.
pub proof fn lemma_all_invalid_keeps_nothing(segs: Seq<MediaSegment>, keep: Seq<bool>)
    requires
        keep.len() == segs.len(),
        forall|i: int| 0 <= i < keep.len() ==> keep[i] == false,
    ensures
        kept_segments(segs, keep) == Seq::<MediaSegment>::empty(),
    decreases segs.len(),
{
    if segs.len() > 0 {
        assert forall|i: int| 0 <= i < keep.drop_last().len() implies keep.drop_last()[i]
            == false by {
            assert(keep.drop_last()[i] == keep[i]);
        }
        lemma_all_invalid_keeps_nothing(segs.drop_last(), keep.drop_last());
        assert(keep.last() == false);
    }
}

/// Drops every segment whose validity slot is false, preserving the order
/// of the survivors.
pub fn filter_segments(segments: Vec<MediaSegment>, keep: &Vec<bool>) -> (r: Vec<MediaSegment>)
    requires
        keep@.len() == segments@.len(),
    ensures
        r@ == kept_segments(segments@, keep@),
{
    let ghost all = segments@;
    let keep_len = keep.len();
    let mut rest = segments;
    let mut out: Vec<MediaSegment> = Vec::new();
    let mut k: usize = 0;
    while rest.len() > 0
        invariant
            all == segments@,
            keep_len == keep@.len(),
            keep@.len() == all.len(),
            k + rest@.len() == all.len(),
            rest@ == all.skip(k as int),
            out@ == kept_segments(all.take(k as int), keep@.take(k as int)),
        decreases rest@.len(),
    {
        proof {
            assert(all.skip(k as int).remove(0) =~= all.skip(k as int + 1));
            assert(all.skip(k as int)[0] == all[k as int]);
            lemma_kept_take_step(all, keep@, k as int);
        }
        let seg = rest.remove(0);
        if keep[k] {
            out.push(seg);
        }
        k = k + 1;
    }
    proof {
        assert(all.take(k as int) =~= all);
        assert(keep@.take(k as int) =~= keep@);
    }
    out
}

/// One more slot keeps or drops exactly its segment.
proof fn lemma_kept_take_step(segs: Seq<MediaSegment>, keep: Seq<bool>, k: int)
    requires
        keep.len() == segs.len(),
        0 <= k < segs.len(),
    ensures
        kept_segments(segs.take(k + 1), keep.take(k + 1)) == if keep[k] {
            kept_segments(segs.take(k), keep.take(k)).push(segs[k])
        } else {
            kept_segments(segs.take(k), keep.take(k))
        },
{
    assert(segs.take(k + 1).drop_last() =~= segs.take(k));
    assert(keep.take(k + 1).drop_last() =~= keep.take(k));
    assert(segs.take(k + 1).last() == segs[k]);
    assert(keep.take(k + 1).last() == keep[k]);
}

/// The file name a recovered playlist is written under:
/// `"{streamer}_{calendar time}_{video id}_{HHhMMmSSs}.m3u8"`, the trailing
/// duration being the playlist's whole seconds. `None` only when the
/// identity's timestamp renders to no calendar text.
pub fn output_file_name(video_data: &VideoData, total_secs: u64) -> (r: Option<String>)
    ensures
        match r {
            Some(out) => crate::datetime::datetime_chars(
                video_data.unix_time_seconds as int,
                "%Y-%m-%d_%H:%M:%S"@,
            ) matches Some(dc) && out@ == video_data.streamer_name@ + seq!['_'] + dc + seq!['_']
                + video_data.video_id@ + seq!['_'] + human_duration_chars(total_secs as nat)
                + ".m3u8"@,
            None => crate::datetime::datetime_chars(
                video_data.unix_time_seconds as int,
                "%Y-%m-%d_%H:%M:%S"@,
            ) is None,
        },
{
    proof {
        reveal_strlit("_");
    }
    match video_data.display_name() {
        Some(name) => {
            let mut out = name;
            out.append("_");
            let duration_text = duration_to_human_readable(total_secs);
            out.append(duration_text.as_str());
            out.append(".m3u8");
            proof {
                assert("_"@ =~= seq!['_']);
            }
            Some(out)
        },
        None => None,
    }
}

/// Rejects a playlist that the validity filter emptied out: with zero
/// surviving segments there is nothing to write.
pub fn ensure_valid_segments(playlist: &MediaPlaylist) -> (r: Result<(), VodError>)
    ensures
        r is Ok <==> playlist.segments@.len() > 0,
        r is Err ==> r == Err::<(), VodError>(VodError::NoValidSegments),
{
    if playlist.segments.len() == 0 {
        Err(VodError::NoValidSegments)
    } else {
        Ok(())
    }
}

} // verus!
