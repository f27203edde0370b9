use vods::MediaPlaylist;
use vods::MediaSegment;
use vods::VodError;
use vods::duration_to_human_readable;
use vods::get_media_playlist_duration;
use vods::mute_media_segments;
use vods::mute_uri;
use vods::playlist::ensure_valid_segments;
use vods::playlist::filter_segments;
use vods::playlist::new_validity_table;
use vods::playlist::output_file_name;
use vods::playlist::record_segment_outcome;
use vods::url_path_to_video_data;
use vods::url_to_domain_with_path;

fn segment(uri: &str, duration_millis: u64) -> MediaSegment {
    MediaSegment {
        uri: uri.to_string(),
        duration_millis,
    }
}

#[test]
fn mute_rewrite() {
    let mut uri = "foo-unmuted".to_string();
    mute_uri(&mut uri);
    assert_eq!(uri, "foo-muted.ts");

    let mut untouched = "foo.ts".to_string();
    mute_uri(&mut untouched);
    assert_eq!(untouched, "foo.ts");

    let mut suffixed = "720p-unmuted-3.ts".to_string();
    mute_uri(&mut suffixed);
    assert_eq!(suffixed, "720p-muted.ts");

    let mut short = "a.ts".to_string();
    mute_uri(&mut short);
    assert_eq!(short, "a.ts");
}

#[test]
fn mute_rewrites_every_segment() {
    let mut playlist = MediaPlaylist {
        segments: vec![segment("1-unmuted", 2000), segment("2.ts", 1000)],
    };
    mute_media_segments(&mut playlist);
    assert_eq!(playlist.segments.len(), 2);
    assert_eq!(playlist.segments[0].uri, "1-muted.ts");
    assert_eq!(playlist.segments[0].duration_millis, 2000);
    assert_eq!(playlist.segments[1].uri, "2.ts");
}

#[test]
fn paths_become_explicit() {
    let url =
        "https://d1m7jfoe9zdc1j.cloudfront.net/c5992ececce7bd7d350d_gmhikaru_47198535725_1664038929";
    let dwp = url_to_domain_with_path(url).unwrap();
    let mut playlist = MediaPlaylist {
        segments: vec![segment("3.ts", 2000)],
    };
    dwp.make_paths_explicit(&mut playlist);
    assert_eq!(
        playlist.segments[0].uri,
        "https://d1m7jfoe9zdc1j.cloudfront.net/c5992ececce7bd7d350d_gmhikaru_47198535725_1664038929/chunked/3.ts"
    );
}

#[test]
fn playlist_duration_adds_up() {
    let playlist = MediaPlaylist {
        segments: vec![segment("1.ts", 2000), segment("2.ts", 1500), segment("3.ts", 500)],
    };
    assert_eq!(get_media_playlist_duration(&playlist), 4000);
    let empty = MediaPlaylist { segments: Vec::new() };
    assert_eq!(get_media_playlist_duration(&empty), 0);
}

#[test]
fn durations_render_zero_padded() {
    assert_eq!(duration_to_human_readable(0), "00h00m00s");
    assert_eq!(duration_to_human_readable(3723), "01h02m03s");
    assert_eq!(duration_to_human_readable(100), "00h01m40s");
    assert_eq!(duration_to_human_readable(360000), "100h00m00s");
}

#[test]
fn all_failing_checks_leave_no_segments() {
    // Every validity check failed: the table stays all false, the filtered
    // playlist is empty, and the caller reports the zero-segment error.
    let segments = vec![segment("1.ts", 1000), segment("2.ts", 1000), segment("3.ts", 1000)];
    let table = new_validity_table(segments.len());
    assert_eq!(table, vec![false, false, false]);
    let filtered = MediaPlaylist {
        segments: filter_segments(segments, &table),
    };
    assert_eq!(filtered.segments.len(), 0);
    assert!(matches!(
        ensure_valid_segments(&filtered),
        Err(VodError::NoValidSegments)
    ));
}

#[test]
fn filter_keeps_survivors_in_order() {
    let segments = vec![
        segment("0.ts", 1000),
        segment("1.ts", 1000),
        segment("2.ts", 1000),
        segment("3.ts", 1000),
    ];
    let mut table = new_validity_table(segments.len());
    // Workers complete out of index order; each owns its own slot.
    record_segment_outcome(&mut table, 3, true);
    record_segment_outcome(&mut table, 1, true);
    let kept = filter_segments(segments, &table);
    assert_eq!(kept.len(), 2);
    assert_eq!(kept[0].uri, "1.ts");
    assert_eq!(kept[1].uri, "3.ts");
    let playlist = MediaPlaylist { segments: kept };
    assert!(ensure_valid_segments(&playlist).is_ok());
}

#[test]
fn output_file_names_carry_identity_and_duration() {
    let vd = url_path_to_video_data("c5992ececce7bd7d350d_gmhikaru_47198535725_1664038929")
        .unwrap();
    assert_eq!(
        output_file_name(&vd, 100).unwrap(),
        "gmhikaru_2022-09-24_17:02:09_47198535725_00h01m40s.m3u8"
    );
}
