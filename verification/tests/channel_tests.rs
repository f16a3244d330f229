use sir_sim::channel::{
    get_bounded_channel_report_handler, ReportChannel, Row, Scenario, SendError,
};
use sir_sim::runner::{has_headers, run_mode, RunMode};

#[test]
fn test_backpressure_on_channel() {
    let mut channel = ReportChannel::new(2);
    let handler = get_bounded_channel_report_handler(42);
    assert_eq!(handler.handle(&mut channel, 1), Ok(()));
    assert_eq!(handler.handle(&mut channel, 2), Ok(()));
    assert!(channel.is_full());
    // The channel is full: the third send stalls, however often it is tried.
    let mut sent = false;
    for _ in 0..500 {
        sent = handler.handle(&mut channel, 3).is_ok();
        assert!(sent == false, "Producer should be blocked, but it is not");
    }
    assert_eq!(channel.len(), 2);
    // The consumer drains one row and the send goes through.
    assert_eq!(channel.recv(), Some(Row { scenario: 42, time: 1 }));
    assert_eq!(handler.handle(&mut channel, 3), Ok(()));
    assert_eq!(handler.handle(&mut channel, 4), Err(SendError::Full));
    assert_eq!(channel.recv(), Some(Row { scenario: 42, time: 2 }));
    assert_eq!(handler.handle(&mut channel, 4), Ok(()));
    assert_eq!(channel.recv(), Some(Row { scenario: 42, time: 3 }));
    assert_eq!(channel.recv(), Some(Row { scenario: 42, time: 4 }));
    assert_eq!(channel.recv(), None);
    assert!(!sent);
}

#[test]
fn unbounded_channel_never_stalls() {
    let mut channel = ReportChannel::new(0);
    assert_eq!(channel.capacity(), 0);
    for time in 0..1000u64 {
        assert_eq!(channel.try_send(Row { scenario: 1, time }), Ok(()));
    }
    assert!(!channel.is_full());
    assert_eq!(channel.len(), 1000);
    assert_eq!(channel.recv(), Some(Row { scenario: 1, time: 0 }));
}

#[test]
fn closed_consumer_is_reported_to_the_producer() {
    let mut channel = ReportChannel::new(4);
    assert_eq!(channel.try_send(Row { scenario: 0, time: 1 }), Ok(()));
    assert!(channel.is_receiver_open());
    channel.close_receiver();
    assert!(!channel.is_receiver_open());
    assert_eq!(channel.try_send(Row { scenario: 0, time: 2 }), Err(SendError::Closed));
    assert_eq!(channel.len(), 1);
}

#[test]
fn consumer_sees_the_end_when_every_producer_is_gone() {
    let mut channel = ReportChannel::new(4);
    assert!(channel.add_sender());
    assert_eq!(channel.try_send(Row { scenario: 0, time: 1 }), Ok(()));
    channel.drop_sender();
    assert!(!channel.is_finished());
    channel.drop_sender();
    assert!(!channel.is_finished());
    assert_eq!(channel.recv(), Some(Row { scenario: 0, time: 1 }));
    assert!(channel.is_finished());
    channel.drop_sender();
    assert!(channel.is_finished());
}

#[test]
fn pool_is_used_for_more_than_one_thread() {
    assert_eq!(run_mode(0), RunMode::Sequential);
    assert_eq!(run_mode(1), RunMode::Sequential);
    assert_eq!(run_mode(2), RunMode::Pooled);
    assert_eq!(run_mode(255), RunMode::Pooled);
}

#[test]
fn only_the_first_scenario_writes_the_header() {
    assert!(has_headers(Scenario { scenario: 0 }));
    assert!(!has_headers(Scenario { scenario: 1 }));
    assert!(!has_headers(Scenario { scenario: 7 }));
}

#[test]
fn handler_sends_only_while_the_consumer_is_there() {
    let mut channel = ReportChannel::new(2);
    let handler = get_bounded_channel_report_handler(7);
    let mut refused = 0;
    for time in 1..=3u64 {
        if time == 2 {
            channel.close_receiver();
        }
        // The producer tests the consumer before each send and stops where
        // it is gone.
        if channel.is_receiver_open() {
            assert_eq!(handler.handle(&mut channel, time), Ok(()));
        } else {
            refused += 1;
        }
    }
    assert_eq!(refused, 2);
    assert_eq!(channel.len(), 1);
    assert_eq!(channel.recv(), Some(Row { scenario: 7, time: 1 }));
}
