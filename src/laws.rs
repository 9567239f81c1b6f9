use vstd::prelude::*;

use crate::queue::{after_pop, front_padded, interleaved_read, interleaved_rest, sample_at};
use crate::sample::SampleType;

verus! {

/// Reading `n` samples and then `m` more from a channel yields what one read
/// of `n + m` samples yields, and leaves the same samples behind: reads take
/// samples in the order in which they were buffered.
pub proof fn lemma_reads_in_order<S: SampleType>(q: Seq<S>, n: nat, m: nat)
    ensures
        front_padded(q, n) + front_padded(after_pop(q, n), m) == front_padded(q, n + m),
        after_pop(after_pop(q, n), m) == after_pop(q, n + m),
{
    assert(front_padded(q, n) + front_padded(after_pop(q, n), m) =~= front_padded(q, n + m));
    assert(after_pop(after_pop(q, n), m) =~= after_pop(q, n + m));
}

/// Where a channel holds at least `n` samples, a read of `n` yields exactly
/// the `n` oldest of them, in the order in which they were sent, with no padding.
pub proof fn lemma_read_returns_sent<S: SampleType>(q: Seq<S>, n: nat)
    requires
        n <= q.len(),
    ensures
        front_padded(q, n) == q.subrange(0, n as int),
        after_pop(q, n) == q.subrange(n as int, q.len() as int),
{
    assert(front_padded(q, n) =~= q.subrange(0, n as int));
    if n == q.len() {
        assert(after_pop(q, n) =~= q.subrange(n as int, q.len() as int));
    }
}

/// Samples sent after others never come out ahead of them: while the older
/// samples suffice for a read, what is appended later does not change it, and
/// stays behind the older samples that are left.
pub proof fn lemma_send_keeps_order<S: SampleType>(q: Seq<S>, sent: Seq<S>, n: nat)
    requires
        n <= q.len(),
    ensures
        front_padded(q + sent, n) == front_padded(q, n),
        after_pop(q + sent, n) == after_pop(q, n) + sent,
{
    assert(front_padded(q + sent, n) =~= front_padded(q, n));
    assert(after_pop(q + sent, n) =~= after_pop(q, n) + sent);
}

/// A read of more samples than a channel holds yields all of them, then
/// silence for each one missing, and empties the channel.
pub proof fn lemma_underrun_pads_with_silence<S: SampleType>(q: Seq<S>, n: nat)
    requires
        q.len() <= n,
    ensures
        front_padded(q, n).len() == n,
        front_padded(q, n).subrange(0, q.len() as int) == q,
        forall|j: int| q.len() <= j < n ==> #[trigger] front_padded(q, n)[j] == S::spec_silence(),
        after_pop(q, n).len() == 0,
{
    assert(front_padded(q, n).subrange(0, q.len() as int) =~= q);
}

/// What a frame-major read takes from channel `c`, and what it leaves there,
/// does not depend on what any other channel holds.
pub proof fn lemma_channel_isolation<S: SampleType>(
    qs: Seq<Seq<S>>,
    j: int,
    other: Seq<S>,
    len: nat,
)
    requires
        0 <= j < qs.len(),
    ensures
        forall|k: int|
            0 <= k < len && k % (qs.len() as int) != j ==> #[trigger] interleaved_read(
                qs.update(j, other),
                len,
            )[k] == interleaved_read(qs, len)[k],
        forall|c: int|
            0 <= c < qs.len() && c != j ==> #[trigger] interleaved_rest(qs.update(j, other), len)[c]
                == interleaved_rest(qs, len)[c],
{
}

/// Reading `frames` whole frames interleaved yields, in frame-major order,
/// what reading `frames` samples from each channel in planar form yields, and
/// leaves the channels as the planar read leaves them.
pub proof fn lemma_interleave_matches_planar<S: SampleType>(qs: Seq<Seq<S>>, frames: nat)
    requires
        qs.len() >= 1,
    ensures
        interleaved_read(qs, frames * qs.len()) == Seq::new(
            frames * qs.len(),
            |k: int| front_padded(qs[k % qs.len() as int], frames)[k / qs.len() as int],
        ),
        interleaved_rest(qs, frames * qs.len()) == Seq::new(
            qs.len(),
            |c: int| after_pop(qs[c], frames),
        ),
{
    let n = qs.len() as int;
    let len = frames * qs.len();
    vstd::arithmetic::div_mod::lemma_fundamental_div_mod_converse(len as int, n, frames as int, 0);
    assert forall|k: int| 0 <= k < len implies 0 <= #[trigger] (k / n) < frames by {
        vstd::arithmetic::div_mod::lemma_fundamental_div_mod(k, n);
        vstd::arithmetic::div_mod::lemma_div_pos_is_pos(k, n);
        let d = k / n;
        assert(d < frames) by (nonlinear_arith)
            requires
                k == n * d + k % n,
                0 <= k % n,
                k < frames * n,
                n >= 1,
        ;
    }
    assert(interleaved_read(qs, len) =~= Seq::new(
        len,
        |k: int| front_padded(qs[k % n], frames)[k / n],
    ));
    assert(interleaved_rest(qs, len) =~= Seq::new(qs.len(), |c: int| after_pop(qs[c], frames)));
}

} // verus!
