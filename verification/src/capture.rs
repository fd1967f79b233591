//! System-audio loopback capture for the controller-mode visualizer: when the
//! capture has to be reopened.

use vstd::prelude::*;
use crate::text::{chars_of, chars_eq};

verus! {

/// Whether the capture must be reopened: the default output device is not the
/// one being captured (a device appeared, went away, or another one became
/// the default).
pub open spec fn capture_stale(open: Option<Seq<char>>, current: Option<Seq<char>>) -> bool {
    match (open, current) {
        (Some(name), Some(now)) => name != now,
        (None, Some(_)) => true,
        (Some(_), None) => true,
        (None, None) => false,
    }
}

pub open spec fn name_view(n: Option<String>) -> Option<Seq<char>> {
    match n {
        Some(s) => Some(s@),
        None => None,
    }
}

/// The capture is reopened exactly when what it captures is not the current
/// default output device: never while they are the same, always when they
/// differ.
pub proof fn law_reopen_iff_device_differs(open: Option<Seq<char>>, current: Option<Seq<char>>)
    ensures
        capture_stale(open, current) == (open != current),
{
}

/// Whether the capture must follow a change of the default output device,
/// given the name of the device being captured and the current default's.
pub fn device_changed(open: &Option<String>, current: &Option<String>) -> (changed: bool)
    ensures
        changed == capture_stale(name_view(*open), name_view(*current)),
{
    match (open, current) {
        (Some(name), Some(now)) => !chars_eq(&chars_of(name.as_str()), &chars_of(now.as_str())),
        (None, Some(_)) => true,
        (Some(_), None) => true,
        (None, None) => false,
    }
}

} // verus!
