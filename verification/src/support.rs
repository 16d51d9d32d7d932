//! Whether the tests that run against an NVIDIA driver can run.
use vstd::prelude::*;

verus! {

/// Where the NVIDIA driver lives on Windows. An installation of this project puts a redirecting
/// library there, and that one does forward to the real driver, so loading it still means what it
/// says.
pub const CUDA_DRIVER_PATH_WINDOWS: &'static str = "C:\\Windows\\System32\\nvcuda.dll";

/// Where the NVIDIA driver lives elsewhere.
pub const CUDA_DRIVER_PATH_OTHER: &'static str = "/usr/lib/x86_64-linux-gnu/libcuda.so.1";

/// Where the NVIDIA driver lives.
pub fn cuda_driver_path(windows: bool) -> (path: &'static str)
    ensures
        path@ == if windows {
            CUDA_DRIVER_PATH_WINDOWS@
        } else {
            CUDA_DRIVER_PATH_OTHER@
        },
{
    if windows {
        CUDA_DRIVER_PATH_WINDOWS
    } else {
        CUDA_DRIVER_PATH_OTHER
    }
}

/// Whether the tests can run, and a notice to give.
pub struct Availability {
    pub available: bool,
    pub notice: Option<String>,
}

/// The notice that tests are skipped.
pub open spec fn skip_notice(path: Seq<char>) -> Seq<char> {
    "[zluda] "@ + path
        + " not found: skipping every *_nvidia test. Set ZLUDA_REQUIRE_CUDA=1 to fail instead.\n"@
}

/// The message of a run that has to have the driver and does not.
pub open spec fn missing_driver_text(path: Seq<char>) -> Seq<char> {
    "ZLUDA_REQUIRE_CUDA is set, but the NVIDIA driver is not at "@ + path
}

/// The message of a run that has to have the driver and does not.
pub fn missing_driver_message(path: &str) -> (message: String)
    ensures
        message@ == missing_driver_text(path@),
{
    let mut message = "ZLUDA_REQUIRE_CUDA is set, but the NVIDIA driver is not at ".to_owned();
    message.append(path);
    message
}

/// Whether the tests can run: they need the driver, which is looked for at `path`. That they are
/// skipped is said once: `warned` remembers whether it was. A run that requires the driver must have
/// it.
pub fn nvidia_tests_available(
    path: &str,
    driver_present: bool,
    driver_required: bool,
    warned: &mut bool,
) -> (r: Availability)
    requires
        driver_required ==> driver_present,
    ensures
        availability(path@, driver_present, *old(warned), *final(warned), r),
{
    if driver_present {
        return Availability { available: true, notice: None };
    }
    if *warned {
        return Availability { available: false, notice: None };
    }
    *warned = true;
    let mut notice = "[zluda] ".to_owned();
    notice.append(path);
    notice.append(
        " not found: skipping every *_nvidia test. Set ZLUDA_REQUIRE_CUDA=1 to fail instead.\n",
    );
    Availability { available: false, notice: Some(notice) }
}

/// Whether `r` is whether the tests can run, and `warned` went from `before` to `after`.
pub open spec fn availability(
    path: Seq<char>,
    driver_present: bool,
    before: bool,
    after: bool,
    r: Availability,
) -> bool {
    &&& r.available == driver_present
    &&& match r.notice {
        Some(notice) => !driver_present && !before && notice@ == skip_notice(path),
        None => driver_present || before,
    }
    &&& after == (before || !driver_present)
}

/// The notice comes once: of two questions, however many lie between them, at most one is answered
/// with it.
pub proof fn notice_comes_once(
    path: Seq<char>,
    first_present: bool,
    second_present: bool,
    before: bool,
    after_first: bool,
    before_second: bool,
    after_second: bool,
    first: Availability,
    second: Availability,
)
    requires
        availability(path, first_present, before, after_first, first),
        after_first ==> before_second,
        availability(path, second_present, before_second, after_second, second),
    ensures
        first.notice is None || second.notice is None,
        after_first ==> after_second,
{
}

/// The tests can run if and only if the driver is there. The first time that it is not there a notice
/// names the path, and from then on it counts as given.
pub proof fn absent_driver_is_told_once(
    path: &str,
    driver_present: bool,
    driver_required: bool,
    warned: &mut bool,
    r: Availability,
)
    requires
        call_ensures(nvidia_tests_available, (path, driver_present, driver_required, warned), r),
    ensures
        r.available == driver_present,
        r.notice is Some <==> !driver_present && !*old(warned),
        r.notice is Some ==> r.notice->Some_0@ == "[zluda] "@ + path@
            + " not found: skipping every *_nvidia test. Set ZLUDA_REQUIRE_CUDA=1 to fail instead.\n"@,
        *final(warned) <==> *old(warned) || !driver_present,
{
}

/// The message of a run that has to have the driver ends with the path that was looked at.
pub proof fn message_names_the_path(path: &str, message: String)
    requires
        call_ensures(missing_driver_message, (path,), message),
    ensures
        message@ == "ZLUDA_REQUIRE_CUDA is set, but the NVIDIA driver is not at "@ + path@,
{
}

/// Where the driver is looked for depends on the system alone.
pub proof fn driver_is_looked_for_here(windows: bool, path: &'static str)
    requires
        call_ensures(cuda_driver_path, (windows,), path),
    ensures
        windows ==> path@ == "C:\\Windows\\System32\\nvcuda.dll"@,
        !windows ==> path@ == "/usr/lib/x86_64-linux-gnu/libcuda.so.1"@,
{
}

} // verus!
