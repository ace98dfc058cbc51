//! The supervisors' decision steps: periodic eviction of stale partial
//! messages and the rate arithmetic of the periodic report. The timers
//! and the sleeping live in the surrounding application.

use vstd::prelude::*;

use crate::state::State;
use crate::table::spec_kept_after;

verus! {

/// Drop every reassembly entry whose first chunk arrived `max_age_seconds`
/// or more before `now_seconds`; returns how many were dropped. Nothing
/// else in the state changes.
pub fn supervisor_evict(state: &mut State, now_seconds: i64, max_age_seconds: i64) -> (removed:
    usize)
    requires
        old(state).wf(),
        0 <= max_age_seconds,
        i64::MIN + max_age_seconds <= now_seconds,
    ensures
        final(state).wf(),
        final(state).chunked_messages.entries@ == old(state).chunked_messages.entries@.filter(
            spec_kept_after((now_seconds - max_age_seconds) as i64),
        ),
        removed == old(state).chunked_messages.entries@.len() - final(state).chunked_messages.entries@.len(),
        final(state).nr_of_forwarded_messages == old(state).nr_of_forwarded_messages,
        final(state).nr_of_handled_udp_packets == old(state).nr_of_handled_udp_packets,
        final(state).otf_massage_required == old(state).otf_massage_required,
        final(state).round_robin_cursor == old(state).round_robin_cursor,
{
    let threshold = now_seconds - max_age_seconds;
    state.chunked_messages.evict_older_than(threshold)
}

/// The distance between two counter samples, as the periodic report
/// logs it.
pub fn rate_delta(first_sample: u64, second_sample: u64) -> (r: u64)
    ensures
        r == (if first_sample <= second_sample {
            second_sample - first_sample
        } else {
            first_sample - second_sample
        }),
{
    if first_sample <= second_sample {
        second_sample - first_sample
    } else {
        first_sample - second_sample
    }
}

} // verus!
