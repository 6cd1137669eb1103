use vstd::prelude::*;

verus! {

#[verifier::external_type_specification]
#[verifier::external_body]
pub struct ExSystemTime(web_time::SystemTime);

/// `web_time::SystemTime::now()`: what the machine's clock reads. The
/// reading depends on the machine, so nothing is claimed of it.
#[verifier::external_body]
fn clock_now() -> (r: web_time::SystemTime) {
    web_time::SystemTime::now()
}

/// `SystemTime::duration_since` the Unix epoch: `None` for a clock that
/// reads before the epoch. Nothing is claimed of the duration, which
/// depends on the reading.
#[verifier::external_body]
fn since_epoch(t: &web_time::SystemTime) -> (r: Option<core::time::Duration>) {
    t.duration_since(web_time::SystemTime::UNIX_EPOCH).ok()
}

/// `Duration::as_secs`: the whole seconds of `d`. Durations are opaque
/// here, so nothing is claimed of the number.
#[verifier::external_body]
fn whole_secs(d: &core::time::Duration) -> (r: u64) {
    d.as_secs()
}

/// `Duration::subsec_millis`: the milliseconds of `d` past its last whole
/// second, below 1000 as its documentation says.
#[verifier::external_body]
fn part_millis(d: &core::time::Duration) -> (r: u32)
    ensures
        r < 1000,
{
    d.subsec_millis()
}

/// The clock as whole seconds since the Unix epoch and the milliseconds
/// past the last whole second; a clock that reads before the epoch gives
/// zero for both, as a zero duration would.
fn system_clock() -> (r: (u64, u32))
    ensures
        r.1 < 1000,
{
    let t = clock_now();
    match since_epoch(&t) {
        Some(d) => (whole_secs(&d), part_millis(&d)),
        None => (0, 0),
    }
}

/// The milliseconds of `secs` whole seconds and `millis` more, or
/// `u64::MAX` when `secs` alone is past what milliseconds can count.
fn epoch_millis(secs: u64, millis: u32) -> (r: u64)
    requires
        millis < 1000,
    ensures
        secs <= (u64::MAX - 999) / 1000 ==> r == secs * 1000 + millis,
        secs > (u64::MAX - 999) / 1000 ==> r == u64::MAX,
{
    if secs <= (u64::MAX - 999) / 1000 {
        secs * 1000 + millis as u64
    } else {
        u64::MAX
    }
}

/// The time now, in milliseconds since the Unix epoch (see `epoch_millis`).
/// A clock past the year 500 million reads as `u64::MAX`. The reading
/// itself depends on the machine's clock, so nothing is claimed of it.
pub fn now_millis() -> u64 {
    let (secs, millis) = system_clock();
    epoch_millis(secs, millis)
}

} // verus!
