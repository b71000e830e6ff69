use booklid_rust::device::AngleDevice;
use booklid_rust::gate::Gated;
use booklid_rust::hub::{AngleStream, Delivery, SampleHub};
use booklid_rust::types::{AngleSample, DeviceInfo, Source};

/// A device whose score and sample are set by the test.
struct Scripted {
    score: i64,
    hub: SampleHub,
    alpha: i64,
    polls: usize,
}

impl Scripted {
    fn new() -> Scripted {
        Scripted { score: 0, hub: SampleHub::new(), alpha: 0, polls: 0 }
    }
}

impl AngleDevice for Scripted {
    fn latest(&mut self) -> Option<AngleSample> {
        self.polls += 1;
        self.hub.latest()
    }

    fn subscribe(&self) -> AngleStream {
        self.hub.subscribe()
    }

    fn set_smoothing(&mut self, alpha: i64) {
        self.alpha = alpha;
    }

    fn confidence(&self) -> i64 {
        self.score
    }

    fn info(&self) -> DeviceInfo {
        DeviceInfo { source: Source::Mock, note: "scripted" }
    }
}

fn sample(value: i64) -> AngleSample {
    AngleSample { angle_micro: value, timestamp: 0, source: Source::Mock }
}

fn shown(min: i64, scores: &[i64]) -> Vec<bool> {
    let mut device = Scripted::new();
    device.hub.publish(sample(1));
    let mut gated = Gated::wrap(device, min);
    let mut out = Vec::new();
    for score in scores {
        gated.inner_mut().score = *score;
        out.push(gated.latest().is_some());
    }
    out
}

#[test]
fn gate_starts_dormant() {
    let gated = Gated::wrap(Scripted::new(), 700_000);
    assert!(!gated.live());
}

#[test]
fn goes_live_at_the_threshold_and_dormant_below_the_band() {
    // Threshold 0.70, so the liveness gate closes below 0.65.
    let scores = [200_000, 500_000, 750_000, 600_000, 640_000, 300_000];
    assert_eq!(shown(700_000, &scores), vec![false, false, true, false, false, false]);
}

#[test]
fn stays_live_inside_the_band() {
    let scores = [200_000, 500_000, 750_000, 660_000, 680_000, 300_000, 690_000];
    assert_eq!(shown(700_000, &scores), vec![false, false, true, true, true, false, false]);
}

#[test]
fn band_edges_are_exact() {
    assert_eq!(shown(700_000, &[699_999, 700_000]), vec![false, true]);
    assert_eq!(shown(700_000, &[700_000, 650_000, 649_999, 650_000]), vec![true, true, false, false]);
}

#[test]
fn observe_moves_the_gate_by_one_reading() {
    let mut gated = Gated::wrap(Scripted::new(), 700_000);
    assert!(!gated.observe(699_999));
    assert!(gated.observe(700_000));
    assert!(gated.observe(650_000));
    assert!(!gated.observe(649_999));
    assert!(!gated.observe(650_000));
    assert!(gated.observe(1_000_000));
}

#[test]
fn drop_threshold_is_limited_to_the_unit_interval() {
    // Threshold 0.02: the liveness gate closes below 0, so never for a score in the unit interval.
    assert_eq!(shown(20_000, &[20_000, 0, 19_999]), vec![true, true, true]);
    assert_eq!(shown(20_000, &[20_000, -1]), vec![true, false]);
    // Threshold 2: the liveness gate closes below 1.
    assert_eq!(shown(2_000_000, &[1_999_999, 2_000_000, 1_000_000, 999_999]), vec![
        false, true, true, false
    ]);
}

#[test]
fn dormant_gate_does_not_poll_the_device() {
    let mut gated = Gated::wrap(Scripted::new(), 700_000);
    gated.inner_mut().hub.publish(sample(5));
    gated.inner_mut().score = 100_000;
    assert_eq!(gated.latest(), None);
    assert_eq!(gated.inner_mut().polls, 0);
    gated.inner_mut().score = 900_000;
    assert_eq!(gated.latest(), Some(sample(5)));
    assert_eq!(gated.inner_mut().polls, 1);
}

#[test]
fn polling_twice_shows_the_same_sample() {
    let mut gated = Gated::wrap(Scripted::new(), 700_000);
    gated.inner_mut().hub.publish(sample(5));
    gated.inner_mut().score = 900_000;
    assert_eq!(gated.latest(), Some(sample(5)));
    assert_eq!(gated.latest(), Some(sample(5)));
    gated.inner_mut().score = 100_000;
    assert_eq!(gated.latest(), None);
    assert_eq!(gated.latest(), None);
    assert_eq!(gated.inner_mut().hub.latest(), Some(sample(5)));
}

#[test]
fn live_gate_shows_nothing_before_the_first_sample() {
    let mut gated = Gated::wrap(Scripted::new(), 700_000);
    gated.inner_mut().score = 900_000;
    assert_eq!(gated.latest(), None);
    assert!(gated.live());
}

#[test]
fn state_only_advances_when_polled() {
    let mut gated = Gated::wrap(Scripted::new(), 700_000);
    gated.inner_mut().score = 900_000;
    assert!(!gated.live());
    gated.bump();
    assert!(gated.live());
    gated.inner_mut().score = 0;
    assert!(gated.live());
    gated.bump();
    assert!(!gated.live());
}

#[test]
fn stream_is_not_gated() {
    let mut gated = Gated::wrap(Scripted::new(), 700_000);
    gated.inner_mut().score = 0;
    let mut stream = gated.subscribe();
    gated.inner_mut().hub.publish(sample(1));
    gated.inner_mut().hub.publish(sample(2));
    assert_eq!(gated.latest(), None);
    assert_eq!(stream.poll(), Delivery::Item(sample(1)));
    assert_eq!(stream.poll(), Delivery::Item(sample(2)));
    assert_eq!(stream.poll(), Delivery::Empty);
}

#[test]
fn gate_passes_the_rest_through() {
    let mut gated = Gated::wrap(Scripted::new(), 700_000);
    gated.inner_mut().score = 123;
    assert_eq!(gated.confidence(), 123);
    assert_eq!(gated.info().note, "scripted");
    gated.set_smoothing(77);
    assert_eq!(gated.inner_mut().alpha, 77);
}
