//! Version 1 of the asciicast format: one JSON document whose output
//! events carry the delay since the previous event.
use vstd::prelude::*;
use crate::asciicast::{Event, EventData};
use crate::util::reversed;

verus! {

/// The sum of the first `k` delays.
pub open spec fn delay_sum(stdout: Seq<(u64, String)>, k: int) -> int
    decreases k,
{
    if k <= 0 {
        0
    } else {
        delay_sum(stdout, k - 1) + stdout[k - 1].0
    }
}

proof fn lemma_delay_sum_monotone(stdout: Seq<(u64, String)>, j: int, k: int)
    requires
        0 <= j <= k <= stdout.len(),
    ensures
        delay_sum(stdout, j) <= delay_sum(stdout, k),
    decreases k - j,
{
    if j < k {
        lemma_delay_sum_monotone(stdout, j, k - 1);
    }
}

/// The output events of a version 1 recording: each at the sum of the
/// delays up to and including its own.
pub fn output_events(stdout: Vec<(u64, String)>) -> (r: Vec<Event>)
    requires
        delay_sum(stdout@, stdout@.len() as int) <= u64::MAX,
    ensures
        r@.len() == stdout@.len(),
        forall|k: int|
            0 <= k < stdout@.len() ==> (#[trigger] r@[k]).time == delay_sum(stdout@, k + 1)
                && r@[k].data == EventData::Output(stdout@[k].1),
{
    let ghost orig = stdout@;
    let n = stdout.len();
    let mut rev = reversed(stdout);
    let mut out: Vec<Event> = Vec::new();
    let mut time: u64 = 0;
    let mut k: usize = 0;
    while rev.len() > 0
        invariant
            n == orig.len(),
            delay_sum(orig, orig.len() as int) <= u64::MAX,
            k + rev@.len() == n,
            forall|j: int| 0 <= j < rev@.len() ==> rev@[j] == orig[n - 1 - j],
            out@.len() == k,
            time == delay_sum(orig, k as int),
            forall|j: int|
                0 <= j < k ==> (#[trigger] out@[j]).time == delay_sum(orig, j + 1) && out@[j].data
                    == EventData::Output(orig[j].1),
        decreases rev@.len(),
    {
        let (delay, data) = rev.pop().unwrap();
        assert((delay, data) == orig[k as int]);
        proof {
            lemma_delay_sum_monotone(orig, k + 1, n as int);
        }
        time = time + delay;
        out.push(Event { time, data: EventData::Output(data) });
        k = k + 1;
    }
    out
}

} // verus!
