//! Reading the command line's `--screenshot` request.

use vstd::prelude::*;
use crate::text::{chars_of, str_eq};

verus! {

/// What `--screenshot` asked for, as read off the command line.
#[derive(Debug, PartialEq, Eq)]
pub enum ScreenshotArg<'a> {
    /// The flag is absent: run the app windowed, as usual.
    Absent,
    /// `--screenshot <path>`: capture to `<path>` and exit.
    Path(&'a str),
    /// `--screenshot` with nothing usable behind it (end of the command
    /// line, or another flag): an error, since running windowed would hang
    /// a capture script that waits for the file.
    MissingPath,
}

/// The first position of the `--screenshot` flag among `args`.
pub open spec fn flag_at(args: Seq<String>, i: int) -> bool {
    0 <= i < args.len() && args[i]@ == "--screenshot"@ && forall|k: int| 0 <= k < i ==> args[k]@ != "--screenshot"@
}

/// Whether an argument is a flag (starts with `--`).
pub open spec fn is_flag(arg: Seq<char>) -> bool {
    arg.len() >= 2 && arg[0] == '-' && arg[1] == '-'
}

/// Read the `--screenshot` argument out of `args` (which includes the
/// program name first). The value must be a real path: anything starting
/// with `--` is the next flag, not the destination.
pub fn screenshot_arg(args: &[String]) -> (r: ScreenshotArg<'_>)
    ensures
        (forall|k: int| 0 <= k < args@.len() ==> args@[k]@ != "--screenshot"@) ==> r == ScreenshotArg::Absent,
        forall|i: int| flag_at(args@, i) ==> {
            if i + 1 < args@.len() && !is_flag(args@[i + 1]@) {
                r matches ScreenshotArg::Path(p) && p@ == args@[i + 1]@
            } else {
                r == ScreenshotArg::MissingPath
            }
        },
{
    let mut k: usize = 0;
    while k < args.len()
        invariant
            k <= args@.len(),
            forall|t: int| 0 <= t < k ==> args@[t]@ != "--screenshot"@,
        decreases args.len() - k,
    {
        if str_eq(args[k].as_str(), "--screenshot") {
            proof {
                assert forall|i: int| flag_at(args@, i) implies i == k by {
                    if i < k {
                    } else if i > k {
                        assert(args@[k as int]@ != "--screenshot"@);
                    }
                }
            }
            if k + 1 < args.len() {
                let next = args[k + 1].as_str();
                let chars = chars_of(next);
                if !(chars.len() >= 2 && chars[0] == '-' && chars[1] == '-') {
                    return ScreenshotArg::Path(next);
                }
            }
            return ScreenshotArg::MissingPath;
        }
        k = k + 1;
    }
    ScreenshotArg::Absent
}

} // verus!
