use open_guandan_server::rate_limit::{consume_handshake, consume_rate_window, RateWindow};

#[test]
fn fixed_window_limits_then_resets_at_the_boundary() {
    let now: u64 = 1_000;
    let duration: u64 = 10_000;
    let mut window = RateWindow::new(now);

    assert!(!window.consume(now, duration, 2));
    assert!(!window.consume(now, duration, 2));
    assert!(window.consume(now, duration, 2));
    assert!(!window.consume(now + duration, duration, 2));
    assert!(window.is_idle(now + duration * 2, duration));
}

#[test]
fn touching_keeps_a_window_alive() {
    let mut window = RateWindow::new(0);
    window.touch(50);
    assert!(!window.is_idle(100, 60));
    assert!(window.window_elapsed(100, 100));
    assert!(!window.window_elapsed(99, 100));
}

#[test]
fn socket_and_handshake_limits_refuse_past_their_maximum() {
    let mut window = RateWindow::new(0);
    assert!(consume_rate_window(&mut window, 0, 1).is_ok());
    assert_eq!(consume_rate_window(&mut window, 1, 1).unwrap_err().code, "RATE_LIMITED");
    assert!(consume_rate_window(&mut window, 10_000, 1).is_ok());

    let mut handshake = RateWindow::new(0);
    for _ in 0..240 {
        assert!(consume_handshake(&mut handshake, 5).is_ok());
    }
    assert!(consume_handshake(&mut handshake, 5).is_err());
    assert!(consume_handshake(&mut handshake, 60_000).is_ok());
}
