use vods::VideoData;
use vods::VodError;
use vods::default_domains;
use vods::numbers::i64_to_string;
use vods::numbers::parse_i64;
use vods::numbers::u64_to_string;
use vods::url_path_to_video_data;
use vods::url_to_domain_with_path;

fn identity(streamer: &str, video_id: &str, t: i64) -> VideoData {
    VideoData {
        streamer_name: streamer.to_string(),
        video_id: video_id.to_string(),
        unix_time_seconds: t,
    }
}

#[test]
fn candidate_hash_derivation() {
    let vd = identity("gmhikaru", "47198535725", 1664038929);
    assert_eq!(
        vd.get_url_path(true),
        "c5992ececce7bd7d350d_gmhikaru_47198535725_1664038929"
    );
}

#[test]
fn path_parsing_inverts_path_generation() {
    let path = "c5992ececce7bd7d350d_gmhikaru_47198535725_1664038929";
    let vd = url_path_to_video_data(path).unwrap();
    assert_eq!(vd.streamer_name, "gmhikaru");
    assert_eq!(vd.video_id, "47198535725");
    assert_eq!(vd.unix_time_seconds, 1664038929);
    assert_eq!(vd.get_url_path(true), path);
}

#[test]
fn seconds_of_minute_path_uses_short_time_text() {
    let vd = identity("streamer", "123", 1664038929);
    // 1664038929 mod 60 is 9, so the tier-two base text is "streamer_123_9".
    let path = vd.get_url_path(false);
    assert!(path.ends_with("_streamer_123_9"));
    let unix_path = vd.get_url_path(true);
    assert!(unix_path.ends_with("_streamer_123_1664038929"));
    assert_ne!(path, unix_path);
}

#[test]
fn offsets_have_value_semantics() {
    let vd = identity("s", "1", 100);
    let later = vd.with_offset(59);
    assert_eq!(vd.unix_time_seconds, 100);
    assert_eq!(later.unix_time_seconds, 159);
    assert_eq!(later.streamer_name, "s");
    assert_eq!(later.video_id, "1");
}

#[test]
fn domain_with_paths_lists_cross_domains_and_offsets() {
    let vd = identity("gmhikaru", "47198535725", 1664038929);
    let domains = default_domains();
    assert_eq!(domains.len(), 12);
    let list = vd.get_domain_with_paths_list(&domains, 3, true);
    assert_eq!(list.len(), 12);
    for (d, dwps) in list.iter().enumerate() {
        assert_eq!(dwps.domain, domains[d]);
        assert_eq!(dwps.paths.len(), 3);
        for (i, p) in dwps.paths.iter().enumerate() {
            assert_eq!(p.video_data.unix_time_seconds, 1664038929 + i as i64);
            assert_eq!(p.url_path, p.video_data.get_url_path(true));
        }
    }
    let pairs = list[0].to_list_of_domain_with_path();
    assert_eq!(pairs.len(), 3);
    assert_eq!(pairs[1].domain, domains[0]);
    assert_eq!(pairs[1].path.url_path, list[0].paths[1].url_path);
}

#[test]
fn index_dvr_and_segment_urls() {
    let url =
        "https://d1m7jfoe9zdc1j.cloudfront.net/c5992ececce7bd7d350d_gmhikaru_47198535725_1664038929";
    let dwp = url_to_domain_with_path(url).unwrap();
    assert_eq!(
        dwp.get_index_dvr_url(),
        "https://d1m7jfoe9zdc1j.cloudfront.net/c5992ececce7bd7d350d_gmhikaru_47198535725_1664038929/chunked/index-dvr.m3u8"
    );
    assert_eq!(
        dwp.get_segment_chunked_url("3.ts"),
        "https://d1m7jfoe9zdc1j.cloudfront.net/c5992ececce7bd7d350d_gmhikaru_47198535725_1664038929/chunked/3.ts"
    );
}

#[test]
fn malformed_paths_are_rejected() {
    assert!(matches!(
        url_path_to_video_data("no_underscores"),
        Err(VodError::NotEnoughUnderscores)
    ));
    assert!(matches!(
        url_path_to_video_data("hash_streamer_123_notanumber"),
        Err(VodError::InvalidNumber)
    ));
    assert!(matches!(
        url_path_to_video_data("hash_streamer_123_99999999999999999"),
        Err(VodError::TimeOutOfRange)
    ));
}

#[test]
fn malformed_urls_are_rejected() {
    assert!(matches!(
        url_to_domain_with_path("not a url"),
        Err(VodError::MissingScheme)
    ));
    assert!(matches!(
        url_to_domain_with_path("https:///x_y_z_1"),
        Err(VodError::MissingHost)
    ));
    assert!(matches!(
        url_to_domain_with_path("https://host.example"),
        Err(VodError::NotEnoughUnderscores)
    ));
}

#[test]
fn decimal_rendering_and_parsing() {
    assert_eq!(u64_to_string(0), "0");
    assert_eq!(u64_to_string(1664038929), "1664038929");
    assert_eq!(i64_to_string(-42), "-42");
    assert_eq!(i64_to_string(i64::MIN), "-9223372036854775808");
    assert_eq!(parse_i64("1664038929"), Some(1664038929));
    assert_eq!(parse_i64("-42"), Some(-42));
    assert_eq!(parse_i64("+7"), Some(7));
    assert_eq!(parse_i64("007"), Some(7));
    assert_eq!(parse_i64(""), None);
    assert_eq!(parse_i64("12a"), None);
    assert_eq!(parse_i64("-"), None);
    assert_eq!(parse_i64("9223372036854775807"), Some(i64::MAX));
    assert_eq!(parse_i64("9223372036854775808"), None);
    assert_eq!(parse_i64("-9223372036854775808"), Some(i64::MIN));
    assert_eq!(parse_i64("-9223372036854775809"), None);
    assert_eq!(parse_i64("99999999999999999999999"), None);
}
