//! Requests to stop the script running on a device, and their one-time consumption.
use vstd::prelude::*;
use crate::text::{signed_decimal, string_from_chars};
use crate::utils::{push_str, push_signed};

verus! {

broadcast use vstd::std_specs::hash::group_hash_axioms;

/// The devices (by window handle) whose scripts were asked to stop.
pub struct CancelRequests {
    handles: std::collections::HashSet<isize>,
}

impl View for CancelRequests {
    type V = Set<isize>;

    closed spec fn view(&self) -> Set<isize> {
        self.handles@
    }
}

impl CancelRequests {
    /// No request.
    pub fn new() -> (r: Self)
        ensures
            r@ == Set::<isize>::empty(),
    {
        CancelRequests { handles: std::collections::HashSet::new() }
    }

    /// Whether the device's script was asked to stop.
    pub fn contains(&self, handle: isize) -> (r: bool)
        ensures
            r == self@.contains(handle),
    {
        self.handles.contains(&handle)
    }

    /// Asks the script on device `handle` to stop.
    pub fn request(&mut self, handle: isize)
        ensures
            final(self)@ == old(self)@.insert(handle),
    {
        self.handles.insert(handle);
    }

    /// Consumes the request for device `handle`: whether there was one. Afterwards
    /// there is none.
    pub fn take(&mut self, handle: isize) -> (r: bool)
        ensures
            r == old(self)@.contains(handle),
            final(self)@ == old(self)@.remove(handle),
    {
        self.handles.remove(&handle)
    }
}

/// Whether the script on the active device (if any) was asked to stop; the request is
/// consumed.
pub fn check_and_clear_cancelled(requests: &mut CancelRequests, active: Option<isize>) -> (r: bool)
    ensures
        r == (active matches Some(h) && old(requests)@.contains(h)),
        final(requests)@ == match active {
            Some(h) => old(requests)@.remove(h),
            None => old(requests)@,
        },
{
    match active {
        Some(h) => requests.take(h),
        None => false,
    }
}

/// A stop request is answered once: after asking the script on `h` to stop, the
/// next check for `h` reports it and the one after does not, and requests for other
/// devices are untouched.
pub proof fn lemma_cancel_answered_once(requests: Set<isize>, h: isize, other: isize)
    requires
        other != h,
    ensures
        requests.insert(h).contains(h),
        !requests.insert(h).remove(h).contains(h),
        requests.insert(h).remove(h).contains(other) == requests.contains(other),
{
}

/// The reply to a stop request.
pub open spec fn cancel_message_text(handle: isize) -> Seq<char> {
    "Da gui yeu cau dung cho thiet bi: "@ + signed_decimal(handle as int)
}

/// The reply to a stop request for device `handle`.
pub fn cancel_message(handle: isize) -> (r: String)
    ensures
        r@ == cancel_message_text(handle),
{
    let mut out: Vec<char> = Vec::new();
    push_str(&mut out, "Da gui yeu cau dung cho thiet bi: ");
    push_signed(&mut out, handle as i64);
    assert(out@ =~= cancel_message_text(handle));
    string_from_chars(out.as_slice())
}

} // verus!
