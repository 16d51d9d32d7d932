//! The time that cache entries are stamped with.
use vstd::prelude::*;

verus! {

/// How many milliseconds have passed since the Unix epoch, by `SystemTime::elapsed` of that epoch.
/// Absent when the clock is set to an earlier time. It depends on the clock, so nothing is said of
/// the number.
#[verifier::external_body]
fn millis_since_epoch() -> (millis: Option<u128>) {
    std::time::UNIX_EPOCH.elapsed().ok().map(|duration| duration.as_millis())
}

/// Whether the clock, when it is asked, may give this number of milliseconds since the Unix epoch.
pub closed spec fn clock_gave(millis: Option<u128>) -> bool {
    call_ensures(millis_since_epoch, (), millis)
}

/// The stamp for a number of milliseconds since the Unix epoch.
pub open spec fn stamp_of(millis: Option<u128>) -> i64 {
    match millis {
        Some(passed) => passed as i64,
        None => 0i64,
    }
}

/// Whether a stamp is that of a time that the clock gave.
pub open spec fn is_clock_time(stamp: i64) -> bool {
    exists|millis: Option<u128>| #[trigger] clock_gave(millis) && stamp == stamp_of(millis)
}

/// The stamp for a number of milliseconds since the Unix epoch. A clock set to an earlier time
/// counts as standing at the epoch.
pub fn timestamp(millis: Option<u128>) -> (stamp: i64)
    ensures
        stamp == stamp_of(millis),
{
    match millis {
        Some(passed) => #[verifier::truncate] (passed as i64),
        None => 0,
    }
}

/// The stamp for the present time, by the clock.
pub fn now() -> (stamp: i64)
    ensures
        is_clock_time(stamp),
{
    let millis = millis_since_epoch();
    assert(clock_gave(millis));
    timestamp(millis)
}

/// A stamp is the number of milliseconds, for as long as 63 bits hold it; later it keeps the lowest 64
/// bits. Before the epoch it is zero.
pub proof fn stamp_is_the_milliseconds(millis: Option<u128>, stamp: i64)
    requires
        call_ensures(timestamp, (millis,), stamp),
    ensures
        millis is None ==> stamp == 0,
        millis is Some && millis->Some_0 <= i64::MAX ==> stamp == millis->Some_0,
        millis is Some && stamp >= 0 ==> stamp == millis->Some_0 % 0x1_0000_0000_0000_0000,
        millis is Some && stamp < 0 ==> stamp + 0x1_0000_0000_0000_0000 == millis->Some_0
            % 0x1_0000_0000_0000_0000,
{
    if millis is Some {
        let passed = millis->Some_0;
        assert(passed <= 0x7fff_ffff_ffff_ffff ==> (passed as i64) as int == passed)
            by (bit_vector);
        assert((passed as i64) >= 0 ==> (passed as i64) as int == passed % 0x1_0000_0000_0000_0000)
            by (bit_vector);
        assert((passed as i64) < 0 ==> (passed as i64) + 0x1_0000_0000_0000_0000 == passed
            % 0x1_0000_0000_0000_0000) by (bit_vector);
    }
}

/// The stamp for the present time is the number of milliseconds that the clock gave.
pub proof fn present_is_what_the_clock_gave(stamp: i64) -> (millis: Option<u128>)
    requires
        call_ensures(now, (), stamp),
    ensures
        clock_gave(millis),
        millis is None ==> stamp == 0,
        millis is Some && millis->Some_0 <= i64::MAX ==> stamp == millis->Some_0,
{
    let millis = choose|millis: Option<u128>| #[trigger] clock_gave(millis) && stamp == stamp_of(
        millis,
    );
    if millis is Some {
        let passed = millis->Some_0;
        assert(passed <= 0x7fff_ffff_ffff_ffff ==> (passed as i64) as int == passed)
            by (bit_vector);
    }
    millis
}

} // verus!
