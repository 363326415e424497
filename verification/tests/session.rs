use std::io::ErrorKind;
use std::time::Duration;
use wtx::http::session::{SessionSweep, SweepAction};
use wtx::http::{SameSite, SessionManagerBuilder, Timestamp};
use wtx::misc::Xorshift64;
use wtx::Error;

#[test]
fn the_builder_starts_with_a_strict_cookie() {
    let builder = SessionManagerBuilder::new();
    assert_eq!(builder.cookie_def.domain, b"");
    assert_eq!(builder.cookie_def.expire, None);
    assert!(builder.cookie_def.http_only);
    assert_eq!(builder.cookie_def.max_age, None);
    assert_eq!(builder.cookie_def.name, b"id");
    assert_eq!(builder.cookie_def.path, b"/");
    assert_eq!(builder.cookie_def.same_site, Some(SameSite::Strict));
    assert!(builder.cookie_def.secure);
    assert!(builder.cookie_def.value.is_empty());
    assert_eq!(builder.inspection_interval, Duration::from_secs(60 * 30));
}

#[test]
fn every_setter_sets_its_own_field() {
    let expire = Timestamp { secs: 1_700_000_000, nanos: 5 };
    let builder = SessionManagerBuilder::new()
        .domain(b"example.com")
        .expires(Some(expire))
        .http_only(false)
        .inspection_interval(Duration::from_secs(7))
        .name(b"session")
        .max_age(Some(Duration::from_secs(3600)))
        .path(b"/app")
        .same_site(Some(SameSite::Lax))
        .secure(false);
    assert_eq!(builder.cookie_def.domain, b"example.com");
    assert_eq!(builder.cookie_def.expire, Some(expire));
    assert!(!builder.cookie_def.http_only);
    assert_eq!(builder.inspection_interval, Duration::from_secs(7));
    assert_eq!(builder.cookie_def.name, b"session");
    assert_eq!(builder.cookie_def.max_age, Some(Duration::from_secs(3600)));
    assert_eq!(builder.cookie_def.path, b"/app");
    assert_eq!(builder.cookie_def.same_site, Some(SameSite::Lax));
    assert!(!builder.cookie_def.secure);
}

#[test]
fn path_does_not_touch_the_domain() {
    let builder = SessionManagerBuilder::new().domain(b"host").path(b"/p");
    assert_eq!(builder.cookie_def.domain, b"host");
    assert_eq!(builder.cookie_def.path, b"/p");
    let unset = SessionManagerBuilder::new().same_site(None).same_site(Some(SameSite::Unrestricted));
    assert_eq!(unset.cookie_def.same_site, Some(SameSite::Unrestricted));
}

#[test]
fn build_with_key_keeps_the_key_and_the_cookie() {
    let (sweep, manager) = SessionManagerBuilder::new()
        .name(b"sid")
        .inspection_interval(Duration::from_secs(9))
        .build_with_key([7; 32]);
    assert_eq!(sweep.inspection_interval, Duration::from_secs(9));
    assert_eq!(manager.inner.key, [7; 32]);
    assert_eq!(manager.inner.cookie_def.name, b"sid");
    assert_eq!(manager.inner.cookie_def.path, b"/");
}

#[test]
fn build_generating_key_draws_32_bytes() {
    let (_, first) = SessionManagerBuilder::new().build_generating_key(&mut Xorshift64::from(1));
    let (_, second) = SessionManagerBuilder::new().build_generating_key(&mut Xorshift64::from(2));
    assert_ne!(first.inner.key, [0; 32]);
    assert_ne!(first.inner.key, second.inner.key);
    let (_, again) = SessionManagerBuilder::new().build_generating_key(&mut Xorshift64::from(1));
    assert_eq!(first.inner.key, again.inner.key);
}

#[test]
fn the_sweep_deletes_then_sleeps_until_something_fails() {
    let sweep = SessionSweep { inspection_interval: Duration::from_secs(3) };
    let sleep = SweepAction::Sleep(Duration::from_secs(3));
    assert_eq!(sweep.start(), SweepAction::DeleteExpired);
    assert_eq!(sweep.next(SweepAction::DeleteExpired, None), sleep);
    assert_eq!(sweep.next(sleep, None), SweepAction::DeleteExpired);
    assert_eq!(sweep.next(SweepAction::DeleteExpired, Some(Error::Io(ErrorKind::Other))), SweepAction::Stop(Error::Io(ErrorKind::Other)));
    assert_eq!(sweep.next(sleep, Some(Error::NoRecord)), SweepAction::Stop(Error::NoRecord));
    assert_eq!(
        sweep.next(SweepAction::Stop(Error::Io(ErrorKind::Other)), None),
        SweepAction::Stop(Error::Io(ErrorKind::Other))
    );
}
