use std::time::Duration;

use lxi::{scoped_outcome, step_result, FrameFault, Link, LxiError, ScopedError, Step};

#[test]
fn new_link_is_not_connected() {
    let link: Link<u32> = Link::new(String::from("localhost"), 5025, Some(Duration::from_secs(2)));
    assert!(!link.is_connected());
    assert_eq!(link.host(), "localhost");
    assert_eq!(link.port(), 5025);
    assert_eq!(link.timeout(), Some(Duration::from_secs(2)));
    assert_eq!(link.begin_connect(), Ok(Some(Duration::from_secs(2))));
}

#[test]
fn connect_twice_fails_and_keeps_first() {
    let mut link: Link<u32> = Link::new(String::from("localhost"), 5025, None);
    assert_eq!(link.begin_connect(), Ok(None));
    assert_eq!(link.put_stream(1), Ok(()));
    assert!(link.is_connected());
    assert_eq!(link.begin_connect(), Err(LxiError::AlreadyConnected));
    assert_eq!(link.put_stream(2), Err(LxiError::AlreadyConnected));
    assert!(link.is_connected());
    assert_eq!(link.take_stream(), Ok(1));
    assert!(!link.is_connected());
}

#[test]
fn disconnect_never_connected() {
    let mut link: Link<u32> = Link::new(String::from("dev"), 1, Some(Duration::from_millis(5)));
    assert_eq!(link.take_stream(), Err(LxiError::NotConnected));
    assert!(!link.is_connected());
    assert_eq!(link.timeout(), Some(Duration::from_millis(5)));
    assert_eq!(link.host(), "dev");
}

#[test]
fn set_timeout_keeps_connection() {
    let mut link: Link<u32> = Link::new(String::from("dev"), 1, None);
    link.put_stream(7).unwrap();
    link.set_timeout(Some(Duration::from_secs(1)));
    assert_eq!(link.timeout(), Some(Duration::from_secs(1)));
    assert!(link.is_connected());
    link.set_timeout(None);
    assert_eq!(link.timeout(), None);
    assert_eq!(link.take_stream(), Ok(7));
}

#[test]
fn override_timeout_expiry() {
    let mut link: Link<u32> = Link::new(String::from("dev"), 1, Some(Duration::from_secs(3)));
    link.put_stream(9).unwrap();
    let s = link.take_stream().unwrap();
    let op: Result<Vec<u8>, LxiError> = Err(LxiError::Timeout);
    let r = scoped_outcome(op, Ok(()));
    assert_eq!(r, Err(ScopedError::Operation(LxiError::Timeout)));
    assert_eq!(r.unwrap_err().primary(), LxiError::Timeout);
    link.put_stream(s).unwrap();
    assert_eq!(link.timeout(), Some(Duration::from_secs(3)));
    assert!(link.is_connected());
}

#[test]
fn scoped_outcome_cases() {
    assert_eq!(scoped_outcome::<u8>(Ok(4), Ok(())), Ok(4));
    let r = scoped_outcome::<u8>(Ok(4), Err(LxiError::IOError));
    assert_eq!(r, Err(ScopedError::Restore(LxiError::IOError)));
    assert_eq!(r.unwrap_err().primary(), LxiError::IOError);
    let r = scoped_outcome::<u8>(Err(LxiError::Timeout), Err(LxiError::IOError));
    assert_eq!(r, Err(ScopedError::Both(LxiError::Timeout, LxiError::IOError)));
    assert_eq!(r.unwrap_err().primary(), LxiError::Timeout);
}

#[test]
fn malformed_then_reconnect() {
    let mut link: Link<u32> = Link::new(String::from("dev"), 1, None);
    link.put_stream(1).unwrap();
    let r = step_result::<u8>(Step::Failed(FrameFault::CountNotDigit));
    assert_eq!(r, Some(Err(LxiError::MalformedFrame(FrameFault::CountNotDigit))));
    assert_eq!(link.take_stream(), Ok(1));
    assert_eq!(link.begin_connect(), Ok(None));
    assert_eq!(link.put_stream(2), Ok(()));
    assert_eq!(link.take_stream(), Ok(2));
}

#[test]
fn step_result_cases() {
    assert_eq!(step_result::<u8>(Step::Pending), None);
    assert_eq!(step_result(Step::Done(3u8)), Some(Ok(3)));
    assert_eq!(
        step_result::<u8>(Step::Failed(FrameFault::TrailingBytes)),
        Some(Err(LxiError::MalformedFrame(FrameFault::TrailingBytes)))
    );
}
