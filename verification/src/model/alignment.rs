//! Which token each output frame belongs to.

use vstd::prelude::*;

verus! {

/// How long the output is, and which frames lie before the end of which token.
#[derive(Debug)]
pub struct Alignment {
    /// For every sequence the number of its frames.
    pub lengths: Vec<i64>,
    /// The number of frames of the longest sequence.
    pub max_length: usize,
    /// For every sequence and every frame whether the frame is one of the sequence's.
    pub output_mask: Vec<bool>,
    /// For every sequence, every token and every frame whether the frame lies before the token's
    /// end.
    pub valid: Vec<bool>,
}

/// Why the output cannot be laid out.
#[derive(Clone, Copy, PartialEq, Eq, Structural, Debug)]
pub enum AlignmentError {
    /// There is not one sum for every sequence, or not one end for every token.
    Count,
    /// There are more frames than can be counted or addressed.
    Size,
}

/// The number of frames for durations with the given sum: at least one.
pub open spec fn frames(sum: i64) -> i64 {
    if sum < 1 {
        1
    } else {
        sum
    }
}

/// The largest number of frames, zero if there is no sequence.
pub open spec fn longest(sums: Seq<i64>) -> int
    decreases sums.len(),
{
    if sums.len() == 0 {
        0
    } else {
        let rest = longest(sums.drop_last());
        if rest < frames(sums.last()) {
            frames(sums.last()) as int
        } else {
            rest
        }
    }
}

impl Alignment {
    /// Whether frame `t` is one of sequence `b`'s.
    pub open spec fn counts(self, b: int, t: int) -> bool {
        self.output_mask@[b * self.max_length + t]
    }

    /// Whether frame `t` lies before the end of token `i` of sequence `b`, among `seq_len` tokens.
    pub open spec fn before_end(self, seq_len: int, b: int, i: int, t: int) -> bool {
        self.valid@[(b * seq_len + i) * self.max_length + t]
    }

    /// Whether this is the layout for the given sums of durations and ends of tokens.
    pub open spec fn lays_out(
        self,
        batch_size: int,
        seq_len: int,
        sums: Seq<i64>,
        ends: Seq<i64>,
    ) -> bool {
        &&& self.lengths@ == sums.map_values(|s: i64| frames(s))
        &&& self.max_length == longest(sums)
        &&& self.output_mask@.len() == batch_size * self.max_length
        &&& forall|b: int, t: int|
            0 <= b < batch_size && 0 <= t < self.max_length ==> (#[trigger] self.counts(b, t) <==> t
                < frames(sums[b]))
        &&& self.valid@.len() == batch_size * seq_len * self.max_length
        &&& forall|b: int, i: int, t: int|
            0 <= b < batch_size && 0 <= i < seq_len && 0 <= t < self.max_length ==> (
            #[trigger] self.before_end(seq_len, b, i, t) <==> t < ends[b * seq_len + i])
    }
}

/// Whether all frames of the longest sequence can be counted and addressed.
pub open spec fn addressable(batch_size: int, seq_len: int, sums: Seq<i64>) -> bool {
    &&& longest(sums) <= usize::MAX
    &&& batch_size * longest(sums) <= usize::MAX
    &&& batch_size * seq_len * longest(sums) <= usize::MAX
}

/// The number of frames and the ends of the tokens, laid out.
pub fn align(batch_size: usize, seq_len: usize, sums: &Vec<i64>, ends: &Vec<i64>) -> (r: Result<
    Alignment,
    AlignmentError,
>)
    ensures
        ({
            let counted = sums@.len() == batch_size && ends@.len() == batch_size * seq_len;
            match r {
                Ok(a) => counted && addressable(
                    batch_size as int,
                    seq_len as int,
                    sums@,
                ) && a.lays_out(batch_size as int, seq_len as int, sums@, ends@),
                Err(AlignmentError::Count) => !counted,
                Err(AlignmentError::Size) => counted && !addressable(
                    batch_size as int,
                    seq_len as int,
                    sums@,
                ),
            }
        }),
{
    let given: usize = ends.len();
    let tokens: usize = match batch_size.checked_mul(seq_len) {
        Some(n) => n,
        None => return Err(AlignmentError::Count),
    };
    if sums.len() != batch_size || given != tokens {
        return Err(AlignmentError::Count);
    }
    let (lengths, longest_length) = count_frames(sums);
    if longest_length as u64 > usize::MAX as u64 {
        return Err(AlignmentError::Size);
    }
    let max_length: usize = longest_length as usize;
    if batch_size.checked_mul(max_length).is_none() || tokens.checked_mul(
        max_length,
    ).is_none() {
        return Err(AlignmentError::Size);
    }
    let output_mask = flags_below(batch_size, max_length, &lengths);
    let valid = flags_below(tokens, max_length, ends);
    let a = Alignment { lengths, max_length, output_mask, valid };
    proof {
        assert forall|b: int, t: int| 0 <= b < batch_size && 0 <= t < max_length implies (
        #[trigger] a.counts(b, t) <==> t < frames(sums@[b])) by {
            assert(a.output_mask@[cell(max_length as int, b, t)] <==> t < a.lengths@[b]);
        }
        assert forall|b: int, i: int, t: int|
            0 <= b < batch_size && 0 <= i < seq_len && 0 <= t < max_length implies (
        #[trigger] a.before_end(seq_len as int, b, i, t) <==> t < ends@[b * seq_len + i]) by {
            let row = b * seq_len + i;
            assert(0 <= row < tokens) by (nonlinear_arith)
                requires
                    row == b * seq_len + i,
                    tokens == batch_size * seq_len,
                    0 <= b < batch_size,
                    0 <= i < seq_len,
            ;
            assert(a.valid@[cell(max_length as int, row, t)] <==> t < ends@[row]);
        }
    }
    Ok(a)
}

/// The number of frames of every sequence, and the largest of them.
fn count_frames(sums: &Vec<i64>) -> (r: (Vec<i64>, i64))
    ensures
        r.0@ == sums@.map_values(|s: i64| frames(s)),
        r.1 == longest(sums@),
        r.1 >= 0,
{
    let mut lengths: Vec<i64> = Vec::new();
    let mut largest: i64 = 0;
    let mut i: usize = 0;
    while i < sums.len()
        invariant
            i <= sums@.len(),
            lengths@ == sums@.take(i as int).map_values(|s: i64| frames(s)),
            largest == longest(sums@.take(i as int)),
            largest >= 0,
        decreases sums@.len() - i,
    {
        let n: i64 = if sums[i] < 1 {
            1
        } else {
            sums[i]
        };
        proof {
            assert(sums@.take(i + 1).drop_last() =~= sums@.take(i as int));
            assert(sums@.take(i + 1).last() == sums@[i as int]);
        }
        lengths.push(n);
        if largest < n {
            largest = n;
        }
        i = i + 1;
        assert(lengths@ =~= sums@.take(i as int).map_values(|s: i64| frames(s)));
    }
    assert(sums@.take(i as int) =~= sums@);
    (lengths, largest)
}

/// The position of column `t` of row `b` in rows of the given width, one behind the other.
pub open spec fn cell(width: int, b: int, t: int) -> int {
    b * width + t
}

/// For every row and every column whether the column lies below the row's bound.
fn flags_below(rows: usize, width: usize, bounds: &Vec<i64>) -> (r: Vec<bool>)
    requires
        bounds@.len() == rows,
        rows * width <= usize::MAX,
    ensures
        r@.len() == rows * width,
        forall|b: int, t: int|
            0 <= b < rows && 0 <= t < width ==> (#[trigger] r@[cell(width as int, b, t)] <==> t
                < bounds@[b]),
{
    let mut flags: Vec<bool> = Vec::new();
    let mut b: usize = 0;
    while b < rows
        invariant
            b <= rows,
            bounds@.len() == rows,
            flags@.len() == b * width,
            forall|c: int, t: int|
                0 <= c < b && 0 <= t < width ==> (#[trigger] flags@[cell(width as int, c, t)]
                    <==> t < bounds@[c]),
        decreases rows - b,
    {
        let mut t: usize = 0;
        while t < width
            invariant
                t <= width,
                b < rows,
                bounds@.len() == rows,
                flags@.len() == b * width + t,
                forall|c: int, s: int|
                    0 <= c < b && 0 <= s < width ==> (#[trigger] flags@[cell(width as int, c, s)]
                        <==> s < bounds@[c]),
                forall|s: int|
                    0 <= s < t ==> (#[trigger] flags@[cell(width as int, b as int, s)] <==> s
                        < bounds@[b as int]),
            decreases width - t,
        {
            let ghost before = flags@;
            let bound: i64 = bounds[b];
            flags.push(0 <= bound && (t as u64) < bound as u64);
            proof {
                assert forall|c: int, s: int| 0 <= c < b && 0 <= s < width implies (
                #[trigger] flags@[cell(width as int, c, s)] <==> s < bounds@[c]) by {
                    lemma_earlier_row(width as int, c, s, b as int);
                    assert(flags@[cell(width as int, c, s)] == before[cell(width as int, c, s)]);
                }
                assert forall|s: int| 0 <= s < t + 1 implies (
                #[trigger] flags@[cell(width as int, b as int, s)] <==> s < bounds@[b as int]) by {
                    if s < t {
                        assert(flags@[cell(width as int, b as int, s)] == before[cell(
                            width as int,
                            b as int,
                            s,
                        )]);
                    }
                }
            }
            t = t + 1;
        }
        proof {
            assert((b + 1) * width == b * width + width) by (nonlinear_arith);
            assert forall|c: int, s: int| 0 <= c < b + 1 && 0 <= s < width implies (
            #[trigger] flags@[cell(width as int, c, s)] <==> s < bounds@[c]) by {
                if c == b {
                    assert(flags@[cell(width as int, b as int, s)] <==> s < bounds@[b as int]);
                }
            }
        }
        b = b + 1;
    }
    flags
}

proof fn lemma_earlier_row(width: int, c: int, s: int, b: int)
    requires
        0 <= c < b,
        0 <= s < width,
    ensures
        0 <= cell(width, c, s) < b * width,
{
    assert(0 <= c * width + s < b * width) by (nonlinear_arith)
        requires
            0 <= c < b,
            0 <= s < width,
    ;
}

/// Whether the ends of a sequence's tokens do not go back, and none lies before the start.
pub open spec fn ascending(ends: Seq<i64>, first: int, seq_len: int) -> bool {
    &&& forall|i: int| 0 <= i < seq_len ==> 0 <= #[trigger] ends[first + i]
    &&& forall|i: int, j: int|
        0 <= i <= j < seq_len ==> #[trigger] ends[first + i] <= #[trigger] ends[first + j]
}

/// Where token `i` of a sequence begins: where the one before it ends.
pub open spec fn start(ends: Seq<i64>, first: int, i: int) -> int {
    if i == 0 {
        0
    } else {
        ends[first + i - 1] as int
    }
}

impl Alignment {
    /// Whether frame `t` belongs to token `i` of sequence `b`: it lies before the end of that
    /// token, and not before the end of the one before it.
    pub open spec fn belongs(self, seq_len: int, b: int, i: int, t: int) -> bool {
        &&& self.before_end(seq_len, b, i, t)
        &&& i > 0 ==> !self.before_end(seq_len, b, i - 1, t)
    }
}

/// A frame belongs to the token between whose start and end it lies.
pub proof fn lemma_frame_of_token(
    a: Alignment,
    batch_size: int,
    seq_len: int,
    sums: Seq<i64>,
    ends: Seq<i64>,
    b: int,
    i: int,
    t: int,
)
    requires
        a.lays_out(batch_size, seq_len, sums, ends),
        0 <= b < batch_size,
        0 <= i < seq_len,
        0 <= t < a.max_length,
    ensures
        a.belongs(seq_len, b, i, t) <==> start(ends, b * seq_len, i) <= t < ends[b * seq_len + i],
{
    assert(a.before_end(seq_len, b, i, t) <==> t < ends[b * seq_len + i]);
    if i > 0 {
        assert(a.before_end(seq_len, b, i - 1, t) <==> t < ends[b * seq_len + (i - 1)]);
    }
}

/// Every frame before the end of the last token belongs to exactly one token.
pub proof fn lemma_one_token_for_each_frame(
    a: Alignment,
    batch_size: int,
    seq_len: int,
    sums: Seq<i64>,
    ends: Seq<i64>,
    b: int,
    t: int,
) -> (i: int)
    requires
        a.lays_out(batch_size, seq_len, sums, ends),
        0 <= b < batch_size,
        0 < seq_len,
        0 <= t < a.max_length,
        ascending(ends, b * seq_len, seq_len),
        t < ends[b * seq_len + (seq_len - 1)],
    ensures
        0 <= i < seq_len,
        a.belongs(seq_len, b, i, t),
        forall|j: int|
            0 <= j < seq_len && #[trigger] a.belongs(seq_len, b, j, t) ==> j == i,
{
    let first = b * seq_len;
    let i = first_after(ends, first, t, seq_len - 1);
    lemma_frame_of_token(a, batch_size, seq_len, sums, ends, b, i, t);
    assert forall|j: int| 0 <= j < seq_len && #[trigger] a.belongs(seq_len, b, j, t) implies j
        == i by {
        lemma_frame_of_token(a, batch_size, seq_len, sums, ends, b, j, t);
        if j < i {
            assert(ends[first + j] <= ends[first + (i - 1)]);
        }
        if i < j {
            assert(ends[first + i] <= ends[first + (j - 1)]);
        }
    }
    i
}

/// The first token, up to token `i`, that ends behind frame `t`.
proof fn first_after(ends: Seq<i64>, first: int, t: int, i: int) -> (k: int)
    requires
        0 <= i,
        0 <= t < ends[first + i],
    ensures
        0 <= k <= i,
        t < ends[first + k],
        start(ends, first, k) <= t,
    decreases i,
{
    if i == 0 {
        i
    } else if t < ends[first + (i - 1)] {
        first_after(ends, first, t, i - 1)
    } else {
        assert(first + i - 1 == first + (i - 1));
        i
    }
}

/// No frame from the end of the last token on belongs to a token.
pub proof fn lemma_no_token_behind_the_last(
    a: Alignment,
    batch_size: int,
    seq_len: int,
    sums: Seq<i64>,
    ends: Seq<i64>,
    b: int,
    i: int,
    t: int,
)
    requires
        a.lays_out(batch_size, seq_len, sums, ends),
        0 <= b < batch_size,
        0 <= i < seq_len,
        0 <= t < a.max_length,
        ascending(ends, b * seq_len, seq_len),
        ends[b * seq_len + (seq_len - 1)] <= t,
    ensures
        !a.belongs(seq_len, b, i, t),
{
    lemma_frame_of_token(a, batch_size, seq_len, sums, ends, b, i, t);
    assert(ends[b * seq_len + i] <= ends[b * seq_len + (seq_len - 1)]);
}

/// No sequence is empty, none is longer than the longest, and one of them is as long.
pub proof fn lemma_longest(sums: Seq<i64>)
    ensures
        forall|b: int| 0 <= b < sums.len() ==> 1 <= #[trigger] frames(sums[b]) <= longest(sums),
        sums.len() > 0 ==> exists|b: int|
            0 <= b < sums.len() && #[trigger] frames(sums[b]) == longest(sums),
    decreases sums.len(),
{
    if sums.len() > 0 {
        let rest = sums.drop_last();
        lemma_longest(rest);
        assert forall|b: int| 0 <= b < sums.len() implies 1 <= #[trigger] frames(sums[b])
            <= longest(sums) by {
            if b < rest.len() {
                assert(rest[b] == sums[b]);
                assert(frames(rest[b]) <= longest(rest));
            }
        }
        if longest(rest) < frames(sums.last()) {
            assert(frames(sums[sums.len() - 1]) == longest(sums));
        } else {
            let b = choose|b: int|
                0 <= b < rest.len() && #[trigger] frames(rest[b]) == longest(rest);
            assert(frames(sums[b]) == longest(sums));
        }
    }
}

} // verus!
