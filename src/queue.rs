use std::collections::VecDeque;
use vstd::prelude::*;

use crate::sample::SampleType;

verus! {

/// The reason a bulk operation was refused.
#[derive(Debug, Clone, Copy, PartialEq, Eq, Structural)]
pub enum QueueError {
    /// The number of per-channel buffers differs from the channel count.
    ArgumentCount { expected: usize, found: usize },
}

/// The sample at position `j` of a channel holding `q`, or silence past its end.
pub open spec fn sample_at<S: SampleType>(q: Seq<S>, j: int) -> S {
    if 0 <= j < q.len() {
        q[j]
    } else {
        S::spec_silence()
    }
}

/// What a read of `n` samples from a channel holding `q` yields: the oldest
/// `n` samples, then silence for each one that is missing.
pub open spec fn front_padded<S: SampleType>(q: Seq<S>, n: nat) -> Seq<S> {
    Seq::new(n, |j: int| sample_at(q, j))
}

/// What a channel holding `q` still holds after `n` samples were read from it.
pub open spec fn after_pop<S: SampleType>(q: Seq<S>, n: nat) -> Seq<S> {
    if n < q.len() {
        q.subrange(n as int, q.len() as int)
    } else {
        Seq::empty()
    }
}

/// How many of the first `len` slots of a frame-major buffer over `n`
/// channels belong to channel `c`.
pub open spec fn slots_of(len: nat, n: nat, c: int) -> nat {
    if c < len % n {
        len / n + 1
    } else {
        len / n
    }
}

/// What a frame-major read of `len` samples from channels holding `qs`
/// yields: slot `k` comes from channel `k % n`, as its sample number `k / n`.
pub open spec fn interleaved_read<S: SampleType>(qs: Seq<Seq<S>>, len: nat) -> Seq<S> {
    Seq::new(len, |k: int| sample_at(qs[k % qs.len() as int], k / qs.len() as int))
}

/// What channels holding `qs` still hold after a frame-major read of `len` samples.
pub open spec fn interleaved_rest<S: SampleType>(qs: Seq<Seq<S>>, len: nat) -> Seq<Seq<S>> {
    Seq::new(qs.len(), |c: int| after_pop(qs[c], slots_of(len, qs.len(), c)))
}

/// The error reported when `found` buffers are handed to a queue of
/// `expected` channels.
pub open spec fn count_error(expected: nat, found: nat) -> QueueError {
    QueueError::ArgumentCount { expected: expected as usize, found: found as usize }
}

/// An ordered buffer of samples for each of a fixed number of channels.
#[derive(Debug)]
pub struct AudioQueue<S: SampleType> {
    queue: Vec<VecDeque<S>>,
}

impl<S: SampleType> View for AudioQueue<S> {
    type V = Seq<Seq<S>>;

    /// The buffered samples of each channel, oldest first.
    closed spec fn view(&self) -> Seq<Seq<S>> {
        Seq::new(self.queue@.len(), |c: int| self.queue@[c]@)
    }
}

impl<S: SampleType> AudioQueue<S> {
    /// At least one channel.
    pub closed spec fn wf(&self) -> bool {
        self.queue@.len() >= 1
    }

    /// An empty queue of `channels` channels.
    pub fn new(channels: usize) -> (r: Self)
        requires
            channels >= 1,
        ensures
            r.wf(),
            r@.len() == channels,
            forall|c: int| 0 <= c < channels ==> (#[trigger] r@[c]).len() == 0,
    {
        let mut queue: Vec<VecDeque<S>> = Vec::new();
        let mut i: usize = 0;
        while i < channels
            invariant
                i <= channels,
                queue@.len() == i,
                forall|c: int| 0 <= c < i ==> (#[trigger] queue@[c])@.len() == 0,
            decreases channels - i,
        {
            queue.push(VecDeque::new());
            i = i + 1;
        }
        AudioQueue { queue }
    }

    /// Appends each run of `buf` to the back of its channel.
    pub fn send(&mut self, buf: &[&[S]]) -> (r: Result<(), QueueError>)
        requires
            old(self).wf(),
        ensures
            final(self).wf(),
            r is Ok <==> buf@.len() == old(self)@.len(),
            r is Err ==> r == Err::<(), QueueError>(count_error(old(self)@.len(), buf@.len()))
                && final(self)@ == old(self)@,
            r is Ok ==> final(self)@.len() == old(self)@.len() && forall|c: int|
                0 <= c < old(self)@.len() ==> #[trigger] final(self)@[c] == old(self)@[c]
                    + buf@[c]@,
    {
        let n = self.queue.len();
        if buf.len() != n {
            return Err(QueueError::ArgumentCount { expected: n, found: buf.len() });
        }
        let mut c: usize = 0;
        while c < n
            invariant
                n == self.queue@.len() == old(self).queue@.len() == buf@.len(),
                c <= n,
                forall|i: int| 0 <= i < c ==> #[trigger] self.queue@[i]@ == old(self).queue@[i]@
                    + buf@[i]@,
                forall|i: int| c <= i < n ==> #[trigger] self.queue@[i]@ == old(self).queue@[i]@,
            decreases n - c,
        {
            append_run(&mut self.queue[c], buf[c]);
            c = c + 1;
        }
        proof {
            assert forall|i: int| 0 <= i < n implies #[trigger] self@[i] == old(self)@[i]
                + buf@[i]@ by {
                assert(self@[i] == self.queue@[i]@);
            }
        }
        Ok(())
    }

    /// Fills each buffer of `buf` from the front of its channel, with
    /// silence for each sample the channel lacks.
    pub fn receive(&mut self, buf: &mut [Vec<S>]) -> (r: Result<(), QueueError>)
        requires
            old(self).wf(),
        ensures
            final(self).wf(),
            final(buf)@.len() == old(buf)@.len(),
            r is Ok <==> old(buf)@.len() == old(self)@.len(),
            r is Err ==> r == Err::<(), QueueError>(count_error(old(self)@.len(), old(buf)@.len()))
                && final(self)@ == old(self)@ && final(buf)@ == old(buf)@,
            r is Ok ==> final(self)@.len() == old(self)@.len() && forall|c: int|
                0 <= c < old(self)@.len() ==> {
                    &&& #[trigger] final(buf)@[c]@ == front_padded(
                        old(self)@[c],
                        old(buf)@[c]@.len(),
                    )
                    &&& final(self)@[c] == after_pop(old(self)@[c], old(buf)@[c]@.len())
                },
    {
        let n = self.queue.len();
        if buf.len() != n {
            return Err(QueueError::ArgumentCount { expected: n, found: buf.len() });
        }
        let mut c: usize = 0;
        while c < n
            invariant
                n == self.queue@.len() == old(self).queue@.len() == buf@.len() == old(buf)@.len(),
                c <= n,
                forall|i: int| 0 <= i < c ==> {
                    &&& #[trigger] buf@[i]@ == front_padded(
                        old(self).queue@[i]@,
                        old(buf)@[i]@.len(),
                    )
                    &&& self.queue@[i]@ == after_pop(old(self).queue@[i]@, old(buf)@[i]@.len())
                },
                forall|i: int| c <= i < n ==> #[trigger] self.queue@[i]@ == old(self).queue@[i]@,
                forall|i: int| c <= i < n ==> #[trigger] buf@[i] == old(buf)@[i],
            decreases n - c,
        {
            let want = buf[c].len();
            let filled = drain_front(&mut self.queue[c], want);
            buf[c] = filled;
            c = c + 1;
        }
        proof {
            assert forall|i: int| 0 <= i < n implies #[trigger] self@[i] == after_pop(
                old(self)@[i],
                old(buf)@[i]@.len(),
            ) by {
                assert(buf@[i]@ == front_padded(old(self).queue@[i]@, old(buf)@[i]@.len()));
                assert(self@[i] == self.queue@[i]@);
                assert(old(self)@[i] == old(self).queue@[i]@);
            }
        }
        Ok(())
    }

    /// The number of samples buffered on the first channel.
    pub fn len(&self) -> (r: usize)
        requires
            self.wf(),
        ensures
            r == self@[0].len(),
    {
        self.queue[0].len()
    }

    /// Fills `buf` frame by frame: slot `k` takes the oldest sample of
    /// channel `k % n`, or silence where that channel is empty. A last,
    /// partial frame is filled for the channels it has room for.
    pub fn receive_interleaved(&mut self, buf: &mut [S])
        requires
            old(self).wf(),
        ensures
            final(self).wf(),
            final(buf)@ == interleaved_read(old(self)@, old(buf)@.len()),
            final(self)@ == interleaved_rest(old(self)@, old(buf)@.len()),
    {
        let ghost qs = self@;
        let n = self.queue.len();
        let mut i: usize = 0;
        while i < buf.len()
            invariant
                n == self.queue@.len() == qs.len() >= 1,
                buf@.len() == old(buf)@.len(),
                i <= buf@.len(),
                forall|k: int| 0 <= k < i ==> #[trigger] buf@[k] == sample_at(
                    qs[k % n as int],
                    k / n as int,
                ),
                forall|c: int| 0 <= c < n ==> #[trigger] self.queue@[c]@ == after_pop(
                    qs[c],
                    slots_of(i as nat, n as nat, c),
                ),
            decreases buf@.len() - i,
        {
            let c = i % n;
            proof {
                lemma_slots_step(i as nat, n as nat);
                lemma_after_pop_step(qs[c as int], slots_of(i as nat, n as nat, c as int));
            }
            let x = pop_or_silence(&mut self.queue[c]);
            buf[i] = x;
            proof {
                assert forall|d: int| 0 <= d < n implies #[trigger] self.queue@[d]@ == after_pop(
                    qs[d],
                    slots_of((i + 1) as nat, n as nat, d),
                ) by {
                    assert(slots_of((i + 1) as nat, n as nat, d) == if d == i % n {
                        slots_of(i as nat, n as nat, d) + 1
                    } else {
                        slots_of(i as nat, n as nat, d)
                    });
                }
            }
            i = i + 1;
        }
        proof {
            assert(buf@ =~= interleaved_read(qs, old(buf)@.len()));
            assert(self@ =~= interleaved_rest(qs, old(buf)@.len()));
        }
    }
}

/// Appends the samples of `b`, in order, to the back of `q`.
fn append_run<S: SampleType>(q: &mut VecDeque<S>, b: &[S])
    ensures
        final(q)@ == old(q)@ + b@,
{
    let mut j: usize = 0;
    while j < b.len()
        invariant
            j <= b@.len(),
            q@ == old(q)@ + b@.subrange(0, j as int),
        decreases b@.len() - j,
    {
        q.push_back(b[j]);
        j = j + 1;
        proof {
            assert(b@.subrange(0, j as int) == b@.subrange(0, j - 1) + seq![b@[j - 1]]);
        }
    }
    assert(b@.subrange(0, b@.len() as int) == b@);
}

/// Takes the oldest sample of `q`, or silence where `q` is empty.
fn pop_or_silence<S: SampleType>(q: &mut VecDeque<S>) -> (r: S)
    ensures
        r == sample_at(old(q)@, 0),
        final(q)@ == after_pop(old(q)@, 1),
{
    match q.pop_front() {
        Some(x) => x,
        None => S::silence(),
    }
}

/// Takes `n` samples from the front of `q`, padded with silence.
fn drain_front<S: SampleType>(q: &mut VecDeque<S>, n: usize) -> (r: Vec<S>)
    ensures
        r@ == front_padded(old(q)@, n as nat),
        final(q)@ == after_pop(old(q)@, n as nat),
{
    let mut out: Vec<S> = Vec::new();
    let mut j: usize = 0;
    while j < n
        invariant
            j <= n,
            out@ == front_padded(old(q)@, j as nat),
            q@ == after_pop(old(q)@, j as nat),
        decreases n - j,
    {
        let x = pop_or_silence(q);
        out.push(x);
        j = j + 1;
        proof {
            assert(out@ =~= front_padded(old(q)@, j as nat));
            assert(q@ =~= after_pop(old(q)@, j as nat));
        }
    }
    out
}

/// One more read from the front moves past one more sample.
proof fn lemma_after_pop_step<S: SampleType>(q: Seq<S>, s: nat)
    ensures
        sample_at(after_pop(q, s), 0) == sample_at(q, s as int),
        after_pop(after_pop(q, s), 1) =~= after_pop(q, s + 1),
{
}

/// Slot `i` of a frame-major buffer belongs to channel `i % n`, which has
/// `i / n` slots before it.
proof fn lemma_slots_step(i: nat, n: nat)
    requires
        n >= 1,
    ensures
        slots_of(i, n, (i % n) as int) == i / n,
        forall|c: int|
            0 <= c < n ==> #[trigger] slots_of(i + 1, n, c) == if c == i % n {
                slots_of(i, n, c) + 1
            } else {
                slots_of(i, n, c)
            },
{
    let q = i / n;
    let r = i % n;
    vstd::arithmetic::div_mod::lemma_fundamental_div_mod(i as int, n as int);
    if r + 1 < n {
        vstd::arithmetic::div_mod::lemma_fundamental_div_mod_converse(
            (i + 1) as int,
            n as int,
            q as int,
            (r + 1) as int,
        );
    } else {
        assert(i + 1 == (q + 1) * n + 0) by (nonlinear_arith)
            requires
                i == n * q + r,
                r + 1 == n,
        ;
        vstd::arithmetic::div_mod::lemma_fundamental_div_mod_converse(
            (i + 1) as int,
            n as int,
            (q + 1) as int,
            0,
        );
    }
}

} // verus!
