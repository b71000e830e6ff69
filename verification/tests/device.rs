use booklid_rust::backend::{backends_for, first_existing, profile, sample_period, Backend};
use booklid_rust::device::{AngleDevice, Pipeline};
use booklid_rust::hub::Delivery;
use booklid_rust::types::{AngleSample, DeviceInfo, Source};

fn path(k: u64, initial: i64) -> Pipeline {
    Pipeline::new(DeviceInfo { source: Source::WinTilt, note: "win_tilt" }, k, initial)
}

#[test]
fn new_path_has_seen_nothing() {
    let mut p = path(50_000, 200_000);
    assert_eq!(p.latest(), None);
    assert_eq!(p.confidence(), 200_000);
    assert_eq!(p.info().source, Source::WinTilt);
    assert_eq!(p.info().note, "win_tilt");
}

#[test]
fn ingest_smooths_scores_and_publishes() {
    let mut p = path(1_000_000, 200_000);
    let mut stream = p.subscribe();
    let first = p.ingest(0, 10);
    assert_eq!(first, AngleSample { angle_micro: 0, timestamp: 10, source: Source::WinTilt });
    assert_eq!(p.confidence(), 1_000_000);
    // A quarter of the way from 0 to 8 is 2; values 0 and 2 have variance 1.
    let second = p.ingest(8_000_000, 20);
    assert_eq!(second, AngleSample { angle_micro: 2_000_000, timestamp: 20, source: Source::WinTilt });
    assert_eq!(p.confidence(), 500_000);
    assert_eq!(p.latest(), Some(second));
    assert_eq!(stream.poll(), Delivery::Item(first));
    assert_eq!(stream.poll(), Delivery::Item(second));
    assert_eq!(stream.poll(), Delivery::Empty);
}

#[test]
fn smoothing_factor_applies_to_the_next_value() {
    let mut p = path(0, 1_000_000);
    p.ingest(10_000_000, 1);
    p.set_smoothing(1_000_000);
    assert_eq!(p.ingest(20_000_000, 2).angle_micro, 20_000_000);
    p.set_smoothing(0);
    assert_eq!(p.ingest(90_000_000, 3).angle_micro, 20_000_000);
    p.set_smoothing(500_000);
    assert_eq!(p.ingest(30_000_000, 4).angle_micro, 25_000_000);
}

#[test]
fn profiles_hold_the_constants_of_each_backend() {
    let p = profile(Backend::MacHid);
    assert_eq!((p.info.source, p.info.note), (Source::HingeFeature, "mac_hid_feature"));
    assert_eq!((p.stiffness, p.initial_confidence, p.rate_floor), (0, 1_000_000, 0));
    let p = profile(Backend::MacAls);
    assert_eq!((p.info.source, p.info.note), (Source::ALS, "mac_als"));
    assert_eq!((p.stiffness, p.initial_confidence, p.rate_floor), (20_000_000, 200_000, 10_000_000));
    let p = profile(Backend::WinHinge);
    assert_eq!((p.info.source, p.info.note), (Source::WinHinge, "win_hinge"));
    assert_eq!((p.stiffness, p.initial_confidence, p.rate_floor), (20_000, 200_000, 20_000_000));
    let p = profile(Backend::WinTilt);
    assert_eq!((p.info.source, p.info.note), (Source::WinTilt, "win_tilt"));
    assert_eq!((p.stiffness, p.initial_confidence, p.rate_floor), (50_000, 200_000, 20_000_000));
    let p = profile(Backend::WinAls);
    assert_eq!((p.info.source, p.info.note), (Source::WinALS, "win_als"));
    assert_eq!((p.stiffness, p.initial_confidence, p.rate_floor), (20_000_000, 200_000, 10_000_000));
    let p = profile(Backend::LinuxProxyTilt);
    assert_eq!((p.info.source, p.info.note), (Source::LinuxTilt, "linux_proxy_tilt"));
    assert_eq!((p.stiffness, p.initial_confidence, p.rate_floor), (50_000, 200_000, 20_000_000));
    let p = profile(Backend::LinuxSysTilt);
    assert_eq!((p.info.source, p.info.note), (Source::LinuxTilt, "linux_sys_tilt"));
    assert_eq!((p.stiffness, p.initial_confidence, p.rate_floor), (50_000, 200_000, 60_000_000));
    let p = profile(Backend::LinuxProxyAls);
    assert_eq!((p.info.source, p.info.note), (Source::LinuxALS, "linux_proxy_als"));
    assert_eq!((p.stiffness, p.initial_confidence, p.rate_floor), (20_000_000, 200_000, 10_000_000));
    let p = profile(Backend::LinuxSysAls);
    assert_eq!((p.info.source, p.info.note), (Source::LinuxALS, "linux_sys_als"));
    assert_eq!((p.stiffness, p.initial_confidence, p.rate_floor), (20_000_000, 200_000, 10_000_000));
    let p = profile(Backend::Mock);
    assert_eq!((p.info.source, p.info.note), (Source::Mock, "mock"));
    assert_eq!((p.stiffness, p.initial_confidence, p.rate_floor), (0, 1_000_000, 1_000_000));
}

#[test]
fn each_source_has_its_backends_in_order() {
    assert_eq!(backends_for(Source::HingeFeature), vec![Backend::MacHid]);
    assert_eq!(backends_for(Source::HingeHid), vec![Backend::MacHid]);
    assert_eq!(backends_for(Source::HingeIOKit), vec![]);
    assert_eq!(backends_for(Source::ALS), vec![Backend::MacAls]);
    assert_eq!(backends_for(Source::WinHinge), vec![Backend::WinHinge]);
    assert_eq!(backends_for(Source::WinTilt), vec![Backend::WinTilt]);
    assert_eq!(backends_for(Source::WinALS), vec![Backend::WinAls]);
    assert_eq!(
        backends_for(Source::LinuxTilt),
        vec![Backend::LinuxProxyTilt, Backend::LinuxSysTilt]
    );
    assert_eq!(backends_for(Source::LinuxALS), vec![Backend::LinuxProxyAls, Backend::LinuxSysAls]);
    assert_eq!(backends_for(Source::Mock), vec![Backend::Mock]);
}

#[test]
fn period_is_one_over_the_rate_with_a_floor() {
    assert_eq!(sample_period(Backend::Mock, 60_000_000), 16_666_666);
    assert_eq!(sample_period(Backend::Mock, 500_000), 1_000_000_000);
    assert_eq!(sample_period(Backend::LinuxSysTilt, 30_000_000), 16_666_666);
    assert_eq!(sample_period(Backend::LinuxSysTilt, 120_000_000), 8_333_333);
    assert_eq!(sample_period(Backend::LinuxProxyTilt, 1), 50_000_000);
    assert_eq!(sample_period(Backend::MacAls, 5_000_000), 100_000_000);
    assert_eq!(sample_period(Backend::WinHinge, -7), 50_000_000);
    assert_eq!(sample_period(Backend::WinAls, 10_000_000), 100_000_000);
}

#[test]
fn hinge_sensor_falls_back_to_sixty_hertz() {
    assert_eq!(sample_period(Backend::MacHid, 0), 16_666_666);
    assert_eq!(sample_period(Backend::MacHid, i64::MIN), 16_666_666);
    assert_eq!(sample_period(Backend::MacHid, 1), 1_000_000_000_000_000);
    assert_eq!(sample_period(Backend::MacHid, 100_000_000), 10_000_000);
    assert_eq!(sample_period(Backend::MacHid, i64::MAX), 0);
}

#[test]
fn the_first_place_where_something_was_found_wins() {
    assert_eq!(first_existing(&vec![]), None);
    assert_eq!(first_existing(&vec![false, false]), None);
    assert_eq!(first_existing(&vec![true]), Some(0));
    assert_eq!(first_existing(&vec![false, true, true]), Some(1));
    assert_eq!(first_existing(&vec![false, false, false, true]), Some(3));
    assert_eq!(first_existing(&vec![true, true]), Some(0));
}
