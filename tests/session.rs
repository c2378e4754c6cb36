use peer_sync::codec::{encode_action, encode_position, Position};
use peer_sync::number::Coord;
use peer_sync::session::{Cadence, Inbound, SendError, Session, POLL_PERIOD_MS, SEND_PERIOD_MS};

fn coord(text: &str) -> Coord {
    Coord::from_text(text.as_bytes()).expect("a number")
}

fn position(x: &str, y: &str) -> Position {
    Position { x: coord(x), y: coord(y) }
}

fn texts(p: &Position) -> (Vec<u8>, Vec<u8>) {
    (p.x.text().to_vec(), p.y.text().to_vec())
}

fn at(x: &str, y: &str) -> (Vec<u8>, Vec<u8>) {
    (x.as_bytes().to_vec(), y.as_bytes().to_vec())
}

#[test]
fn cadence_fires_once_per_period() {
    let mut c = Cadence::new(25);
    assert!(!c.advance(10));
    assert_eq!(c.elapsed, 10);
    assert!(c.advance(15));
    assert_eq!(c.elapsed, 0);
    assert!(!c.advance(24));
    assert!(c.advance(1));
}

#[test]
fn cadence_skips_missed_periods() {
    let mut c = Cadence::new(25);
    assert!(c.advance(60));
    assert_eq!(c.elapsed, 10);
    assert!(c.advance(15));
    assert_eq!(c.elapsed, 0);
    assert!(c.advance(u64::MAX));
    assert_eq!(c.elapsed, u64::MAX % 25);
}

#[test]
fn session_timers_start_at_their_periods() {
    let mut s = Session::new(position("0", "350"));
    assert_eq!(s.send_timer.period, SEND_PERIOD_MS);
    assert_eq!(s.poll_timer.period, POLL_PERIOD_MS);
    let t = s.tick(24);
    assert!(!t.send && !t.poll);
    let t = s.tick(1);
    assert!(t.send && t.poll);
}

#[test]
fn last_position_record_wins() {
    let mut s = Session::new(position("0", "350"));
    assert!(s.receive(&Inbound::Datagram(encode_position(&position("10", "20")))).is_none());
    assert_eq!(texts(&s.remote), at("-10", "-20"));
    assert!(s.receive(&Inbound::Datagram(encode_position(&position("30", "40")))).is_none());
    assert_eq!(texts(&s.remote), at("-30", "-40"));
}

#[test]
fn malformed_records_leave_remote_unchanged() {
    let mut s = Session::new(position("1", "2"));
    for bytes in [&b"1.0 p"[..], &b"1.0 2.0 3.0 p"[..], &b"1 2 q"[..], &b""[..]] {
        assert!(s.receive(&Inbound::Datagram(bytes.to_vec())).is_none());
        assert_eq!(texts(&s.remote), at("1", "2"));
    }
}

#[test]
fn timeout_changes_nothing() {
    let mut s = Session::new(position("1", "2"));
    assert!(!s.tick(20).poll);
    assert!(s.receive(&Inbound::TimedOut).is_none());
    assert!(s.receive(&Inbound::Failed).is_none());
    assert_eq!(texts(&s.remote), at("1", "2"));
    assert_eq!(s.poll_timer.elapsed, 20);
    assert!(s.tick(5).poll);
}

#[test]
fn action_record_yields_effect_at_mirrored_position() {
    let mut s = Session::new(position("7", "8"));
    let effect = s.receive(&Inbound::Datagram(encode_action())).expect("an effect");
    assert_eq!(texts(&effect), at("7", "8"));
    assert_eq!(texts(&s.remote), at("7", "8"));
}

#[test]
fn send_without_destination_fails() {
    let s = Session::new(position("0", "0"));
    assert_eq!(s.position_datagram(&position("1", "1")).err(), Some(SendError::NoDestination));
    assert_eq!(s.action_datagram().err(), Some(SendError::NoDestination));
}

#[test]
fn refused_retarget_keeps_previous_destination() {
    let mut s = Session::new(position("0", "0"));
    assert!(!s.retarget("not an address".to_string(), false));
    assert!(s.destination.is_none());
    assert!(s.retarget("10.0.0.2:8080".to_string(), true));
    assert!(!s.retarget("bad:port:x".to_string(), false));
    assert_eq!(s.destination.as_deref(), Some("10.0.0.2:8080"));
    let out = s.position_datagram(&position("3", "4")).expect("a destination");
    assert_eq!(out.destination, "10.0.0.2:8080");
    assert_eq!(out.payload, b"3 4 p".to_vec());
}

#[test]
fn end_to_end_exchange() {
    let mut a = Session::new(position("0", "350"));
    let mut b = Session::new(position("0", "350"));
    assert!(a.retarget("10.0.0.2:8080".to_string(), true));
    assert!(b.retarget("10.0.0.1:8080".to_string(), true));

    let out = a.position_datagram(&position("5", "-5")).unwrap();
    assert_eq!(out.payload, b"5 -5 p".to_vec());
    assert!(b.receive(&Inbound::Datagram(out.payload)).is_none());
    assert_eq!(texts(&b.remote), at("-5", "5"));

    let out = b.action_datagram().unwrap();
    assert_eq!(out.payload, b"a".to_vec());
    let effect = a.receive(&Inbound::Datagram(out.payload)).expect("one effect");
    assert_eq!(texts(&effect), at("0", "350"));
    assert_eq!(texts(&a.remote), at("0", "350"));
}
