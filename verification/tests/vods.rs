use vods::url_path_to_video_data;
use vods::url_to_domain_with_path;

#[test]
fn test_url_path_to_video_data() {
    let url_path = "24b0b82db0edbea186df_malek_04_47198535725_1664038929";
    let result = url_path_to_video_data(url_path).unwrap();
    assert_eq!(result.streamer_name, "malek_04");
    assert_eq!(result.video_id, "47198535725");
    assert_eq!(result.unix_time_seconds, 1664038929);
}

#[test]
fn test_url_to_domain_with_path() {
    let url = "https://d1m7jfoe9zdc1j.cloudfront.net/c5992ececce7bd7d350d_gmhikaru_47198535725_1664038929/storyboards/1600104857-info.json";
    let result = url_to_domain_with_path(url).unwrap();
    assert_eq!(result.domain, "https://d1m7jfoe9zdc1j.cloudfront.net/");
    assert_eq!(result.path.video_data.streamer_name, "gmhikaru");
    assert_eq!(result.path.video_data.video_id, "47198535725");
    assert_eq!(result.path.video_data.unix_time_seconds, 1664038929);
    assert_eq!(
        result.path.url_path,
        "c5992ececce7bd7d350d_gmhikaru_47198535725_1664038929"
    );
}

#[test]
fn test_video_data_to_string() {
    let url_path = "c5992ececce7bd7d350d_gmhikaru_47198535725_1664038929";
    let video_data = url_path_to_video_data(url_path).unwrap();
    assert_eq!(
        "gmhikaru_2022-09-24_17:02:09_47198535725",
        video_data.display_name().unwrap()
    );
}

#[test]
fn test_get_url_path() {
    {
        let url_path = "c5992ececce7bd7d350d_gmhikaru_47198535725_1664038929";
        let video_data = url_path_to_video_data(url_path).unwrap();
        assert_eq!(video_data.get_url_path(true), url_path);
    }
    {
        let url_path = "24b0b82db0edbea186df_malek_04_47198535725_1664038929";
        let video_data = url_path_to_video_data(url_path).unwrap();
        assert_eq!(video_data.get_url_path(true), url_path);
    }
}
