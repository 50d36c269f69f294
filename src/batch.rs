//! Grouping raw lines into batches of a configured size.
use vstd::prelude::*;
use vstd::arithmetic::div_mod::lemma_fundamental_div_mod_converse;

verus! {

/// Collects lines until `threshold` of them are pending, then hands them out as one batch.
pub struct IngestionBuffer {
    threshold: usize,
    pending: Vec<String>,
}

/// The configured batch size and the lines pending since the last batch.
pub struct BufferView {
    pub threshold: nat,
    pub pending: Seq<String>,
}

impl View for IngestionBuffer {
    type V = BufferView;

    closed spec fn view(&self) -> BufferView {
        BufferView { threshold: self.threshold as nat, pending: self.pending@ }
    }
}

impl IngestionBuffer {
    /// A batch size of at least one, and fewer lines pending than that.
    pub open spec fn wf(&self) -> bool {
        self@.threshold >= 1 && self@.pending.len() < self@.threshold
    }

    /// An empty buffer that yields batches of `threshold` lines.
    pub fn new(threshold: usize) -> (r: IngestionBuffer)
        requires
            threshold >= 1,
        ensures
            r.wf(),
            r@.threshold == threshold,
            r@.pending == Seq::<String>::empty(),
    {
        IngestionBuffer { threshold, pending: Vec::with_capacity(threshold) }
    }

    pub fn threshold(&self) -> (r: usize)
        ensures
            r == self@.threshold,
    {
        self.threshold
    }

    /// The number of lines pending.
    pub fn pending_len(&self) -> (r: usize)
        ensures
            r == self@.pending.len(),
    {
        self.pending.len()
    }

    /// Adds a line. When it brings the pending lines to the threshold, they leave as one batch
    /// and the buffer is empty again; otherwise nothing leaves.
    pub fn push(&mut self, line: String) -> (batch: Option<Vec<String>>)
        requires
            old(self).wf(),
        ensures
            final(self).wf(),
            final(self)@.threshold == old(self)@.threshold,
            old(self)@.pending.len() + 1 == old(self)@.threshold ==> {
                &&& batch is Some
                &&& batch->0@ == old(self)@.pending.push(line)
                &&& final(self)@.pending == Seq::<String>::empty()
            },
            old(self)@.pending.len() + 1 < old(self)@.threshold ==> {
                &&& batch is None
                &&& final(self)@.pending == old(self)@.pending.push(line)
            },
    {
        self.pending.push(line);
        if self.pending.len() == self.threshold {
            let mut batch: Vec<String> = Vec::with_capacity(self.threshold);
            core::mem::swap(&mut batch, &mut self.pending);
            Some(batch)
        } else {
            None
        }
    }

    /// At the end of the input: the pending lines as a last, partial batch, if there are any.
    pub fn finish(&mut self) -> (batch: Option<Vec<String>>)
        requires
            old(self).wf(),
        ensures
            final(self).wf(),
            final(self)@.threshold == old(self)@.threshold,
            final(self)@.pending == Seq::<String>::empty(),
            batch is Some <==> old(self)@.pending.len() > 0,
            batch is Some ==> batch->0@ == old(self)@.pending,
    {
        if self.pending.len() == 0 {
            None
        } else {
            let mut batch: Vec<String> = Vec::new();
            core::mem::swap(&mut batch, &mut self.pending);
            Some(batch)
        }
    }
}

/// The number of batches that `n` lines make at `t` lines a batch: the last may be partial.
pub open spec fn batch_count(n: nat, t: nat) -> nat
    recommends
        t >= 1,
{
    ((n + t - 1) / t as int) as nat
}

/// The batches that an input of `lines` makes at `t` lines a batch, in order: full batches,
/// then the remaining lines, if any, as one partial batch at the end of the input.
pub open spec fn batches_of(lines: Seq<String>, t: nat) -> Seq<Seq<String>>
    recommends
        t >= 1,
{
    Seq::new(
        batch_count(lines.len(), t),
        |k: int|
            lines.subrange(
                k * t,
                if (k + 1) * t <= lines.len() {
                    (k + 1) * t
                } else {
                    lines.len() as int
                },
            ),
    )
}

pub open spec fn batches_view(v: Seq<Vec<String>>) -> Seq<Seq<String>> {
    v.map_values(|b: Vec<String>| b@)
}

/// Runs a finite input through an [`IngestionBuffer`] of `threshold` lines and gives the
/// batches it yields, the partial one at the end included.
pub fn split_into_batches(lines: Vec<String>, threshold: usize) -> (r: Vec<Vec<String>>)
    requires
        threshold >= 1,
    ensures
        batches_view(r@) == batches_of(lines@, threshold as nat),
{
    let ghost input = lines@;
    let ghost t = threshold as int;
    let n: usize = lines.len();
    let mut buffer = IngestionBuffer::new(threshold);
    let mut out: Vec<Vec<String>> = Vec::new();
    let mut i: usize = 0;
    for line in it: lines
        invariant
            buffer.wf(),
            buffer@.threshold == threshold,
            t == threshold as int,
            input.len() == n,
            it.seq() == input,
            i == it.index(),
            i == out@.len() * t + buffer@.pending.len(),
            buffer@.pending == input.subrange(out@.len() * t, i as int),
            forall|k: int|
                0 <= k < out@.len() ==> #[trigger] out@[k]@ == input.subrange(k * t, (k + 1) * t),
    {
        let ghost j = out@.len() as int;
        assert(0 <= j * t) by (nonlinear_arith)
            requires
                j >= 0,
                t >= 1,
        ;
        assert(i < input.len());
        assert(input[i as int] == line);
        assert(input.subrange(j * t, i as int).push(line) =~= input.subrange(j * t, i + 1));
        match buffer.push(line) {
            Some(batch) => {
                assert((j + 1) * t == j * t + t) by (nonlinear_arith);
                assert(batch@ == input.subrange(j * t, (j + 1) * t));
                out.push(batch);
                assert((j + 1) * t == j * t + t) by (nonlinear_arith);
            },
            None => {},
        }
        i = i + 1;
    }
    let ghost j = out@.len() as int;
    let ghost r = buffer@.pending.len() as int;
    match buffer.finish() {
        Some(batch) => {
            out.push(batch);
        },
        None => {},
    }
    proof {
        let n = input.len() as int;
        assert(n + t - 1 == j * t + r + t - 1);
        if r == 0 {
            lemma_fundamental_div_mod_converse(n + t - 1, t, j, t - 1);
        } else {
            assert(n + t - 1 == (j + 1) * t + (r - 1)) by (nonlinear_arith)
                requires
                    n + t - 1 == j * t + r + t - 1,
            ;
            lemma_fundamental_div_mod_converse(n + t - 1, t, j + 1, r - 1);
        }
        let b = batches_of(input, t as nat);
        assert forall|k: int| 0 <= k < b.len() implies #[trigger] b[k] == batches_view(out@)[k] by {
            if k < j {
                assert((k + 1) * t <= j * t) by (nonlinear_arith)
                    requires
                        k < j,
                        t >= 1,
                ;
                assert((k + 1) * t <= n);
            } else {
                assert(k * t == j * t);
                assert((k + 1) * t > n) by (nonlinear_arith)
                    requires
                        k == j,
                        n == j * t + r,
                        r < t,
                ;
            }
        }
        assert(batches_view(out@) =~= b);
    }
    out
}

/// Exactly `t` lines make one batch that holds them all, and nothing is left pending.
pub proof fn lemma_exact_threshold_batch(lines: Seq<String>, t: nat)
    requires
        t >= 1,
        lines.len() == t,
    ensures
        batches_of(lines, t) == seq![lines],
{
    lemma_fundamental_div_mod_converse(t + t - 1, t as int, 1, t - 1);
    assert(lines.subrange(0, t as int) =~= lines);
    assert(batches_of(lines, t) =~= seq![lines]);
}

/// `t + k` lines, with `0 < k < t`, make one full batch of the first `t` lines, then one
/// partial batch of the last `k`, which leaves only at the end of the input.
pub proof fn lemma_partial_batch_at_end(lines: Seq<String>, t: nat, k: nat)
    requires
        t >= 1,
        0 < k < t,
        lines.len() == t + k,
    ensures
        batches_of(lines, t) == seq![lines.take(t as int), lines.skip(t as int)],
{
    lemma_fundamental_div_mod_converse(t + k + t - 1, t as int, 2, k - 1);
    let b = batches_of(lines, t);
    assert(b.len() == 2);
    assert(b[0] =~= lines.take(t as int));
    assert(b[1] =~= lines.skip(t as int));
    assert(b =~= seq![lines.take(t as int), lines.skip(t as int)]);
}

} // verus!
