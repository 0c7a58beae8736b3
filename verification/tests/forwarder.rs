use asciinema::forwarder::{
    delay_bound, exponential_delay, forward_step, handle_close_frame, scaled_pow2, ConnectionEnd, ForwardEvent,
    ForwardState, Next,
};
use asciinema::streamer::forwarder::exponential_delay as streamer_delay;

#[test]
fn reconnect_delays_stay_below_the_doubling_cap() {
    for _ in 0..200 {
        assert!(exponential_delay(0) < 500);
        assert!(exponential_delay(2) < 2000);
        assert!(exponential_delay(10) < 10_000);
        assert!(exponential_delay(55) < 10_000);
    }
}

#[test]
fn scaled_powers_of_two() {
    assert_eq!(scaled_pow2(0, 500), 500);
    assert_eq!(scaled_pow2(10, 500), 512_000);
    assert_eq!(scaled_pow2(55, 500), 18_014_398_509_481_984_000);
    assert_eq!(scaled_pow2(3, 1), 8);
}

#[test]
fn streamer_delays_double_up_to_five_seconds() {
    assert_eq!(streamer_delay(0), 500);
    assert_eq!(streamer_delay(1), 1000);
    assert_eq!(streamer_delay(3), 4000);
    assert_eq!(streamer_delay(4), 5000);
    assert_eq!(streamer_delay(55), 5000);
}

#[test]
fn close_frames() {
    assert_eq!(handle_close_frame(None), Ok(()));
    assert_eq!(handle_close_frame(Some(1000)), Ok(()));
    assert_eq!(handle_close_frame(Some(4000)), Ok(()));
    assert_eq!(handle_close_frame(Some(4099)), Ok(()));
    assert_eq!(
        handle_close_frame(Some(4100)),
        Err("unclean close: 4100".to_owned())
    );
    assert_eq!(
        handle_close_frame(Some(1001)),
        Err("unclean close: 1001".to_owned())
    );
}

#[test]
fn forwarding_decisions() {
    let mut s = ForwardState { reconnect_attempt: 0, connection_count: 0 };

    assert_eq!(
        forward_step(&mut s, ForwardEvent::Ended(ConnectionEnd::Failed)),
        (Some("Cannot connect to the server, retrying...".to_owned()), Next::Retry(0))
    );
    assert_eq!(forward_step(&mut s, ForwardEvent::Ended(ConnectionEnd::Failed)), (None, Next::Retry(1)));
    assert_eq!(
        forward_step(&mut s, ForwardEvent::Established),
        (Some("Connected to the server".to_owned()), Next::Continue)
    );
    assert_eq!(s, ForwardState { reconnect_attempt: 0, connection_count: 1 });
    assert_eq!(
        forward_step(&mut s, ForwardEvent::Ended(ConnectionEnd::Failed)),
        (Some("Disconnected from the server, reconnecting...".to_owned()), Next::Retry(0))
    );
    assert_eq!(
        forward_step(&mut s, ForwardEvent::Established),
        (Some("Reconnected to the server".to_owned()), Next::Continue)
    );
    assert_eq!(forward_step(&mut s, ForwardEvent::Established), (None, Next::Continue));
    assert_eq!(
        forward_step(&mut s, ForwardEvent::Ended(ConnectionEnd::BadRequest)),
        (Some("CLI not compatible with the server, forwarding failed".to_owned()), Next::Stop)
    );
    assert_eq!(forward_step(&mut s, ForwardEvent::Ended(ConnectionEnd::Closed)), (None, Next::Stop));

    let mut s = ForwardState { reconnect_attempt: 9, connection_count: 3 };
    assert_eq!(forward_step(&mut s, ForwardEvent::Ended(ConnectionEnd::Failed)), (None, Next::Retry(9)));
    assert_eq!(forward_step(&mut s, ForwardEvent::Ended(ConnectionEnd::Failed)), (None, Next::Retry(10)));
    assert_eq!(s.reconnect_attempt, 10);
}

#[test]
fn reconnect_delay_bounds_double_up_to_ten_seconds() {
    assert_eq!(delay_bound(0), 500);
    assert_eq!(delay_bound(1), 1000);
    assert_eq!(delay_bound(4), 8000);
    assert_eq!(delay_bound(5), 10_000);
    assert_eq!(delay_bound(55), 10_000);
}
