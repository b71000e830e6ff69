use booklid_rust::hub::{Delivery, SampleHub, CAPACITY};
use booklid_rust::types::{AngleSample, Source};

fn sample(i: u64) -> AngleSample {
    AngleSample { angle_micro: i as i64 * 1_000, timestamp: i, source: Source::Mock }
}

#[test]
fn latest_is_none_before_any_publication() {
    let hub = SampleHub::new();
    assert!(hub.latest().is_none());
}

#[test]
fn latest_is_the_last_published_sample() {
    let mut hub = SampleHub::new();
    hub.publish(sample(1));
    assert_eq!(hub.latest(), Some(sample(1)));
    hub.publish(sample(2));
    assert_eq!(hub.latest(), Some(sample(2)));
    assert_eq!(hub.latest(), Some(sample(2)));
}

#[test]
fn two_subscribers_each_receive_every_sample_in_order() {
    let mut hub = SampleHub::new();
    let mut first = hub.subscribe();
    let mut second = hub.subscribe();
    for i in 0..100 {
        hub.publish(sample(i));
    }
    for i in 0..100 {
        assert_eq!(first.poll(), Delivery::Item(sample(i)));
    }
    assert_eq!(first.poll(), Delivery::Empty);
    for i in 0..100 {
        assert_eq!(second.poll(), Delivery::Item(sample(i)));
    }
    assert_eq!(second.poll(), Delivery::Empty);
}

#[test]
fn subscribers_read_at_their_own_pace() {
    let mut hub = SampleHub::new();
    let mut first = hub.subscribe();
    let mut second = hub.subscribe();
    hub.publish(sample(1));
    assert_eq!(first.poll(), Delivery::Item(sample(1)));
    hub.publish(sample(2));
    assert_eq!(first.poll(), Delivery::Item(sample(2)));
    assert_eq!(second.poll(), Delivery::Item(sample(1)));
    assert_eq!(second.poll(), Delivery::Item(sample(2)));
}

#[test]
fn late_subscriber_sees_nothing_that_was_published_before() {
    let mut hub = SampleHub::new();
    for i in 0..10 {
        hub.publish(sample(i));
    }
    let mut late = hub.subscribe();
    assert_eq!(late.poll(), Delivery::Empty);
    hub.publish(sample(10));
    assert_eq!(late.poll(), Delivery::Item(sample(10)));
    assert_eq!(late.poll(), Delivery::Empty);
}

#[test]
fn publishing_without_subscribers_loses_nothing() {
    let mut hub = SampleHub::new();
    hub.publish(sample(1));
    assert_eq!(hub.latest(), Some(sample(1)));
}

#[test]
fn slow_subscriber_loses_the_oldest_samples() {
    let mut hub = SampleHub::new();
    let mut slow = hub.subscribe();
    let mut quick = hub.subscribe();
    let extra = 44;
    for i in 0..(CAPACITY as u64 + extra) {
        hub.publish(sample(i));
        assert_eq!(quick.poll(), Delivery::Item(sample(i)));
    }
    assert_eq!(slow.poll(), Delivery::Lagged(extra));
    for i in extra..(CAPACITY as u64 + extra) {
        assert_eq!(slow.poll(), Delivery::Item(sample(i)));
    }
    assert_eq!(slow.poll(), Delivery::Empty);
}

#[test]
fn a_full_buffer_is_read_without_loss() {
    let mut hub = SampleHub::new();
    let mut stream = hub.subscribe();
    for i in 0..CAPACITY as u64 {
        hub.publish(sample(i));
    }
    for i in 0..CAPACITY as u64 {
        assert_eq!(stream.poll(), Delivery::Item(sample(i)));
    }
}

#[test]
fn stream_ends_only_when_the_hub_is_gone() {
    let mut hub = SampleHub::new();
    let mut stream = hub.subscribe();
    hub.publish(sample(1));
    drop(hub);
    assert_eq!(stream.poll(), Delivery::Item(sample(1)));
    assert_eq!(stream.poll(), Delivery::Closed);
    assert!(stream.poll().ends_stream());
}

#[test]
fn lag_is_a_loss_of_items_and_not_an_end() {
    assert_eq!(Delivery::Item(sample(3)).item(), Some(sample(3)));
    assert_eq!(Delivery::Lagged(9).item(), None);
    assert_eq!(Delivery::Empty.item(), None);
    assert_eq!(Delivery::Closed.item(), None);
    assert!(!Delivery::Item(sample(3)).ends_stream());
    assert!(!Delivery::Lagged(9).ends_stream());
    assert!(!Delivery::Empty.ends_stream());
    assert!(Delivery::Closed.ends_stream());
}

#[test]
fn subscription_can_be_turned_into_the_receiver() {
    let mut hub = SampleHub::new();
    let stream = hub.subscribe();
    hub.publish(sample(4));
    let mut rx = stream.into_receiver();
    assert_eq!(rx.try_recv().ok(), Some(sample(4)));
}
