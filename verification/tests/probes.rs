use vods::StreamsChartsData;
use vods::TwitchTrackerData;
use vods::probe::ProbeResolution;
use vods::probe::resolve_eager_then_race;
use vods::probe::resolve_retry;
use vods::probe::resolve_two_tier;
use vods::probe::retry_needed;
use vods::probe::status_is_success;

#[test]
fn only_status_200_is_success() {
    assert!(status_is_success(200));
    assert!(!status_is_success(201));
    assert!(!status_is_success(403));
    assert!(!status_is_success(404));
    assert!(!status_is_success(500));
}

#[test]
fn retry_fires_once_on_any_failure() {
    assert!(!retry_needed::<u32, u32>(&Ok(1)));
    assert!(retry_needed::<u32, u32>(&Err(2)));
    // The second outcome is returned unconditionally, success or failure.
    assert_eq!(resolve_retry::<u32, u32>(Ok(1), Ok(9)), Ok(1));
    assert_eq!(resolve_retry::<u32, u32>(Err(8), Ok(9)), Ok(9));
    assert_eq!(resolve_retry::<u32, u32>(Err(8), Err(9)), Err(9));
}

#[test]
fn eager_success_skips_the_inner_race() {
    // The domain whose last candidate answers eagerly never runs its inner
    // race: the raced outcome is absent and the eager success stands.
    assert_eq!(
        resolve_eager_then_race::<&str, u32>(Ok("last candidate"), None),
        Ok("last candidate")
    );
    // After an eager failure the inner race decides.
    assert_eq!(
        resolve_eager_then_race::<&str, u32>(Err(1), Some(Ok("raced"))),
        Ok("raced")
    );
    assert_eq!(resolve_eager_then_race::<&str, u32>(Err(1), Some(Err(2))), Err(2));
    // An empty remaining list keeps the eager failure itself.
    assert_eq!(resolve_eager_then_race::<&str, u32>(Err(1), None), Err(1));
}

#[test]
fn two_tier_fallback_and_no_domains() {
    assert!(matches!(
        resolve_two_tier::<u32, u32>(Some(Ok(1)), None),
        ProbeResolution::Found(1)
    ));
    assert!(matches!(
        resolve_two_tier::<u32, u32>(Some(Err(5)), Some(Ok(2))),
        ProbeResolution::Found(2)
    ));
    // The second tier's failure survives, not the first tier's.
    assert!(matches!(
        resolve_two_tier::<u32, u32>(Some(Err(5)), Some(Err(6))),
        ProbeResolution::Exhausted(6)
    ));
    assert!(matches!(
        resolve_two_tier::<u32, u32>(None, None),
        ProbeResolution::NoDomains
    ));
}

#[test]
fn twitchtracker_time_strings_parse() {
    let data = TwitchTrackerData {
        streamer_name: "gmhikaru".to_string(),
        video_id: "47198535725".to_string(),
        utc_time: "2022-09-24 17:02:09".to_string(),
    };
    let vd = data.try_into_video_data().unwrap();
    assert_eq!(vd.unix_time_seconds, 1664038929);
    assert_eq!(vd.streamer_name, "gmhikaru");

    let bad = TwitchTrackerData {
        streamer_name: "s".to_string(),
        video_id: "1".to_string(),
        utc_time: "24-09-2022 17:02".to_string(),
    };
    assert!(bad.try_into_video_data().is_err());
}

#[test]
fn streamscharts_time_strings_parse() {
    let data = StreamsChartsData {
        streamer_name: "gmhikaru".to_string(),
        video_id: "47198535725".to_string(),
        utc_time: "24-09-2022 17:02".to_string(),
    };
    let vd = data.try_into_video_data().unwrap();
    assert_eq!(vd.unix_time_seconds, 1664038920);

    let bad = StreamsChartsData {
        streamer_name: "s".to_string(),
        video_id: "1".to_string(),
        utc_time: "2022-09-24 17:02:09".to_string(),
    };
    assert!(bad.try_into_video_data().is_err());
}
