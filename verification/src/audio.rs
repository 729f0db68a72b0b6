//! Sample buffers and their channel layouts.
//!
//! An interleaved buffer holds one frame after another, each frame holding one
//! sample of every channel. A planar buffer holds one channel after another.
use vstd::prelude::*;
use vstd::arithmetic::div_mod::{
    lemma_fundamental_div_mod, lemma_fundamental_div_mod_converse_div,
    lemma_fundamental_div_mod_converse_mod, lemma_mod_pos_bound,
};

verus! {

/// The colour of a generated noise: white noise has a flat spectrum, pink
/// noise a power spectrum that falls as one over the frequency.
#[derive(Debug, Clone, Copy, PartialEq, Eq, Structural)]
pub enum NoiseColor {
    White,
    Pink,
}

/// The contents of each vector of `vs`.
pub open spec fn views<T>(vs: Seq<Vec<T>>) -> Seq<Seq<T>> {
    vs.map_values(|v: Vec<T>| v@)
}

/// The interleaved buffer of `channels`: frame `f` holds sample `f` of each
/// channel in turn, for as many frames as the first channel has samples.
pub open spec fn interleaved<T>(channels: Seq<Seq<T>>) -> Seq<T> {
    let n = channels.len();
    Seq::new(channels[0].len() * n, |i: int| channels[i % n as int][i / n as int])
}

/// How many samples of a buffer of `len` samples belong to channel `c` when
/// it is split into `n` channels.
pub open spec fn lane_len(len: int, n: int, c: int) -> int {
    if c < len {
        (len - 1 - c) / n + 1
    } else {
        0
    }
}

/// Channel `c` of an interleaved buffer of `n` channels: the samples at
/// positions `c`, `c + n`, `c + 2n`, ... that lie inside the buffer.
pub open spec fn lane<T>(data: Seq<T>, n: int, c: int) -> Seq<T> {
    Seq::new(lane_len(data.len() as int, n, c) as nat, |k: int| data[k * n + c])
}

/// The `n` channels of an interleaved buffer.
pub open spec fn deinterleaved<T>(data: Seq<T>, n: nat) -> Seq<Seq<T>> {
    Seq::new(n, |c: int| lane(data, n as int, c))
}

/// A `rows` by `cols` matrix stored row after row, stored column after column
/// instead.
pub open spec fn transposed<T>(data: Seq<T>, rows: nat, cols: nat) -> Seq<T> {
    Seq::new(rows * cols, |i: int| data[(i % rows as int) * cols + i / rows as int])
}

/// The planar buffer of an interleaved buffer of `n` channels.
pub open spec fn planar<T>(data: Seq<T>, n: nat) -> Seq<T> {
    transposed(data, data.len() / n, n)
}

/// The interleaved buffer of a planar buffer of `n` channels.
pub open spec fn unplanar<T>(data: Seq<T>, n: nat) -> Seq<T> {
    transposed(data, n, data.len() / n)
}

/// Every sample of `single`, repeated for each of `channels` channels.
pub open spec fn duplicated<T>(single: Seq<T>, channels: nat) -> Seq<T> {
    Seq::new(single.len() * channels, |i: int| single[i / channels as int])
}

proof fn lemma_split(i: int, n: int)
    requires
        n > 0,
        i >= 0,
    ensures
        i == (i / n) * n + i % n,
        0 <= i % n < n,
        0 <= i / n,
{
    lemma_fundamental_div_mod(i, n);
    lemma_mod_pos_bound(i, n);
    assert(n * (i / n) == (i / n) * n) by (nonlinear_arith);
    assert(0 <= i / n) by (nonlinear_arith)
        requires
            i == n * (i / n) + i % n,
            i % n < n,
            n > 0,
            i >= 0,
    ;
}

proof fn lemma_join(f: int, c: int, n: int)
    requires
        n > 0,
        0 <= c < n,
    ensures
        (f * n + c) % n == c,
        (f * n + c) / n == f,
{
    lemma_fundamental_div_mod_converse_mod(f * n + c, n, f, c);
    lemma_fundamental_div_mod_converse_div(f * n + c, n, f, c);
}

proof fn lemma_cell_bound(r: int, c: int, rows: int, cols: int)
    requires
        0 <= r < rows,
        0 <= c < cols,
    ensures
        0 <= r * cols <= r * cols + c < rows * cols,
{
    assert(0 <= r * cols <= r * cols + c < rows * cols) by (nonlinear_arith)
        requires
            0 <= r < rows,
            0 <= c < cols,
    ;
}

/// Position `k * n + c` lies inside a buffer of `len` samples exactly when
/// `k` is below the length of channel `c`.
proof fn lemma_lane_len(len: int, n: int, c: int, k: int)
    requires
        n > 0,
        0 <= c,
        0 <= k,
        0 <= len,
    ensures
        (k < lane_len(len, n, c)) == (k * n + c < len),
        lane_len(len, n, c) >= 0,
{
    assert(k * n >= 0) by (nonlinear_arith)
        requires
            k >= 0,
            n > 0,
    ;
    if c < len {
        let a = len - 1 - c;
        lemma_split(a, n);
        let q = a / n;
        let r = a % n;
        assert((k <= q) == (k * n <= a)) by (nonlinear_arith)
            requires
                a == q * n + r,
                0 <= r < n,
                k >= 0,
                q >= 0,
        ;
    }
}

/// When `n` channels share a buffer whose length is a multiple of `n`, every
/// channel is `len / n` samples long.
proof fn lemma_even_lanes(len: int, n: int, c: int)
    requires
        n > 0,
        0 <= c < n,
        len >= 0,
        len % n == 0,
    ensures
        lane_len(len, n, c) == len / n,
{
    lemma_split(len, n);
    let spc = len / n;
    let l = lane_len(len, n, c);
    lemma_lane_len(len, n, c, spc);
    if spc > 0 {
        lemma_lane_len(len, n, c, spc - 1);
        assert((spc - 1) * n + c < len) by (nonlinear_arith)
            requires
                len == spc * n,
                c < n,
        ;
    }
    assert(spc * n + c >= len) by (nonlinear_arith)
        requires
            len == spc * n + 0,
            c >= 0,
    ;
}

/// Interleaves `channels`: frame after frame, one sample of each channel in
/// turn. Every channel must be at least as long as the first.
pub fn interleave<T: Copy>(channels: &[Vec<T>]) -> (res: Vec<T>)
    requires
        channels@.len() > 0,
        forall|c: int|
            0 <= c < channels@.len() ==> channels@[0]@.len() <= #[trigger] channels@[c]@.len(),
    ensures
        res@ == interleaved(views(channels@)),
{
    let samples_per_channel = channels[0].len();
    let num_channels = channels.len();
    let ghost chs = views(channels@);
    let ghost n = num_channels as int;
    let mut res: Vec<T> = Vec::new();
    let mut sample_idx: usize = 0;
    while sample_idx < samples_per_channel
        invariant
            chs == views(channels@),
            n == num_channels,
            n == channels@.len(),
            n > 0,
            samples_per_channel == chs[0].len(),
            forall|c: int| 0 <= c < n ==> chs[0].len() <= #[trigger] chs[c].len(),
            sample_idx <= samples_per_channel,
            res@.len() == sample_idx * n,
            forall|i: int| 0 <= i < res@.len() ==> #[trigger] res@[i] == chs[i % n][i / n],
        decreases samples_per_channel - sample_idx,
    {
        let mut c: usize = 0;
        while c < num_channels
            invariant
                chs == views(channels@),
                n == num_channels,
                n == channels@.len(),
                n > 0,
                samples_per_channel == chs[0].len(),
                forall|c: int| 0 <= c < n ==> chs[0].len() <= #[trigger] chs[c].len(),
                sample_idx < samples_per_channel,
                c <= n,
                res@.len() == sample_idx * n + c,
                forall|i: int| 0 <= i < res@.len() ==> #[trigger] res@[i] == chs[i % n][i / n],
            decreases num_channels - c,
        {
            proof {
                lemma_join(sample_idx as int, c as int, n);
                assert(chs[c as int] == channels@[c as int]@);
                assert(chs[0].len() <= chs[c as int].len());
            }
            let x = channels[c][sample_idx];
            res.push(x);
            c = c + 1;
        }
        assert((sample_idx + 1) * n == sample_idx * n + n) by (nonlinear_arith);
        sample_idx = sample_idx + 1;
    }
    assert(res@ =~= interleaved(chs));
    res
}

/// Channel `c` of the interleaved buffer `data` of `n` channels.
fn collect_lane<T: Copy>(data: &[T], n: usize, c: usize) -> (res: Vec<T>)
    requires
        n > 0,
        c < n,
    ensures
        res@ == lane(data@, n as int, c as int),
{
    let len = data.len();
    let mut res: Vec<T> = Vec::new();
    let mut idx: usize = if c < len { c } else { len };
    let ghost mut k: int = 0;
    while idx < len
        invariant
            len == data@.len(),
            n > 0,
            c < n,
            k >= 0,
            (k * n + c < len && idx == k * n + c) || (k * n + c >= len && idx == len),
            res@.len() == k,
            forall|j: int| 0 <= j < k ==> #[trigger] res@[j] == data@[j * n + c] && j * n + c < len,
        decreases len - idx,
    {
        res.push(data[idx]);
        proof {
            assert((k + 1) * n + c == idx + n) by (nonlinear_arith)
                requires
                    idx == k * n + c,
            ;
            k = k + 1;
        }
        if n >= len - idx {
            idx = len;
        } else {
            idx = idx + n;
        }
    }
    proof {
        lemma_lane_len(len as int, n as int, c as int, k);
        if k > 0 {
            lemma_lane_len(len as int, n as int, c as int, k - 1);
            let j = k - 1;
            assert(res@[j] == data@[j * n + c]);
            assert(j * n + c < len);
        }
    }
    assert(res@ =~= lane(data@, n as int, c as int)) by {
        if k > 0 {
            lemma_lane_len(len as int, n as int, c as int, k - 1);
        }
    }
    res
}

/// Splits the interleaved buffer `data` into `num_channels` channels. When
/// the length is not a multiple of the channel count, the first channels get
/// one sample more than the others.
pub fn deinterleave<T: Copy>(data: &[T], num_channels: usize) -> (res: Vec<Vec<T>>)
    requires
        num_channels > 0,
    ensures
        views(res@) == deinterleaved(data@, num_channels as nat),
{
    let mut res: Vec<Vec<T>> = Vec::new();
    let mut c: usize = 0;
    while c < num_channels
        invariant
            num_channels > 0,
            c <= num_channels,
            res@.len() == c,
            forall|j: int|
                0 <= j < c ==> #[trigger] res@[j]@ == lane(data@, num_channels as int, j),
        decreases num_channels - c,
    {
        let ch = collect_lane(data, num_channels, c);
        res.push(ch);
        c = c + 1;
    }
    assert(views(res@) =~= deinterleaved(data@, num_channels as nat));
    res
}

/// `data` read as a `rows` by `cols` matrix, written out column by column.
fn transpose<T: Copy>(data: &[T], rows: usize, cols: usize) -> (res: Vec<T>)
    requires
        data@.len() == rows * cols,
    ensures
        res@ == transposed(data@, rows as nat, cols as nat),
{
    let mut res: Vec<T> = Vec::new();
    let len = data.len();
    let mut col: usize = 0;
    while col < cols
        invariant
            len == data@.len(),
            data@.len() == rows * cols,
            col <= cols,
            res@.len() == col * rows,
            forall|i: int|
                0 <= i < res@.len() ==> #[trigger] res@[i] == data@[(i % rows as int) * cols
                    + i / rows as int],
        decreases cols - col,
    {
        let mut row: usize = 0;
        while row < rows
            invariant
                len == data@.len(),
                data@.len() == rows * cols,
                col < cols,
                row <= rows,
                res@.len() == col * rows + row,
                forall|i: int|
                    0 <= i < res@.len() ==> #[trigger] res@[i] == data@[(i % rows as int) * cols
                        + i / rows as int],
            decreases rows - row,
        {
            proof {
                lemma_cell_bound(row as int, col as int, rows as int, cols as int);
                lemma_join(col as int, row as int, rows as int);
            }
            res.push(data[row * cols + col]);
            row = row + 1;
        }
        assert((col + 1) * rows == col * rows + rows) by (nonlinear_arith);
        col = col + 1;
    }
    assert(res@ =~= transposed(data@, rows as nat, cols as nat)) by {
        assert(cols * rows == rows * cols) by (nonlinear_arith);
    }
    res
}

/// The planar buffer of the interleaved buffer `data` of `channels`
/// channels: each channel's samples in a row, one channel after another.
pub fn to_planar<T: Copy>(data: &[T], channels: usize) -> (res: Vec<T>)
    requires
        channels > 0,
        data@.len() % (channels as nat) == 0,
    ensures
        res@ == planar(data@, channels as nat),
        res@.len() == data@.len(),
{
    let samples_per_channel = data.len() / channels;
    proof {
        lemma_split(data@.len() as int, channels as int);
    }
    transpose(data, samples_per_channel, channels)
}

/// The interleaved buffer of the planar buffer `data` of `channels` channels.
pub fn from_planar<T: Copy>(data: &[T], channels: usize) -> (res: Vec<T>)
    requires
        channels > 0,
        data@.len() % (channels as nat) == 0,
    ensures
        res@ == unplanar(data@, channels as nat),
        res@.len() == data@.len(),
{
    let samples_per_channel = data.len() / channels;
    proof {
        lemma_split(data@.len() as int, channels as int);
        assert(channels * samples_per_channel == samples_per_channel * channels) by (nonlinear_arith);
    }
    transpose(data, channels, samples_per_channel)
}

/// A buffer of `channels` channels that all carry the samples of `single`.
pub fn duplicate_channels<T: Copy>(single: &[T], channels: u16) -> (res: Vec<T>)
    ensures
        res@ == duplicated(single@, channels as nat),
{
    let mut res: Vec<T> = Vec::new();
    let n = single.len();
    let mut i: usize = 0;
    while i < n
        invariant
            n == single@.len(),
            i <= n,
            res@.len() == i * channels,
            forall|j: int|
                0 <= j < res@.len() ==> #[trigger] res@[j] == single@[j / channels as int],
        decreases n - i,
    {
        let mut c: u16 = 0;
        while c < channels
            invariant
                n == single@.len(),
                i < n,
                c <= channels,
                res@.len() == i * channels + c,
                forall|j: int|
                    0 <= j < res@.len() ==> #[trigger] res@[j] == single@[j / channels as int],
            decreases channels - c,
        {
            proof {
                lemma_join(i as int, c as int, channels as int);
            }
            res.push(single[i]);
            c = c + 1;
        }
        assert((i + 1) * channels == i * channels + channels) by (nonlinear_arith);
        i = i + 1;
    }
    assert(res@ =~= duplicated(single@, channels as nat));
    res
}

/// Splitting an interleaved buffer whose length is a multiple of the channel
/// count into its channels gives channels of equal length, and interleaving
/// them again gives the buffer back.
pub proof fn lemma_interleave_deinterleave<T>(data: Seq<T>, n: nat)
    requires
        n > 0,
        data.len() % n == 0,
    ensures
        forall|c: int| 0 <= c < n ==> #[trigger] deinterleaved(data, n)[c].len() == data.len() / n,
        interleaved(deinterleaved(data, n)) == data,
{
    let chs = deinterleaved(data, n);
    assert forall|c: int| 0 <= c < n implies #[trigger] chs[c].len() == data.len() / n by {
        lemma_even_lanes(data.len() as int, n as int, c);
    }
    lemma_split(data.len() as int, n as int);
    let out = interleaved(chs);
    assert(out.len() == data.len());
    assert forall|i: int| 0 <= i < out.len() implies out[i] == data[i] by {
        lemma_split(i, n as int);
        let f = i / n as int;
        let c = i % n as int;
        lemma_even_lanes(data.len() as int, n as int, c);
        assert(f < data.len() as int / n as int) by (nonlinear_arith)
            requires
                i == f * n + c,
                i < data.len(),
                data.len() == (data.len() as int / n as int) * n,
                0 <= c,
                n > 0,
        ;
    }
    assert(out =~= data);
}

/// Interleaving channels of equal length and splitting the result into as
/// many channels gives the channels back.
pub proof fn lemma_deinterleave_interleave<T>(channels: Seq<Seq<T>>)
    requires
        channels.len() > 0,
        forall|c: int| 0 <= c < channels.len() ==> #[trigger] channels[c].len() == channels[0].len(),
    ensures
        deinterleaved(interleaved(channels), channels.len()) == channels,
{
    let n = channels.len() as int;
    let spc = channels[0].len() as int;
    let data = interleaved(channels);
    lemma_join(spc, 0, n);
    assert(data.len() == spc * n);
    let back = deinterleaved(data, channels.len());
    assert forall|c: int| 0 <= c < n implies #[trigger] back[c] =~= channels[c] by {
        lemma_even_lanes(data.len() as int, n, c);
        assert forall|k: int| 0 <= k < spc implies back[c][k] == channels[c][k] by {
            lemma_join(k, c, n);
            lemma_cell_bound(k, c, spc, n);
        }
    }
    assert(back =~= channels);
}

proof fn lemma_transpose_twice<T>(x: Seq<T>, r: nat, c: nat)
    requires
        x.len() == r * c,
    ensures
        transposed(x, r, c).len() == x.len(),
        transposed(transposed(x, r, c), c, r) == x,
{
    let y = transposed(x, r, c);
    let z = transposed(y, c, r);
    assert(c * r == r * c) by (nonlinear_arith);
    assert forall|i: int| 0 <= i < z.len() implies z[i] == x[i] by {
        assert(c > 0 && r > 0) by (nonlinear_arith)
            requires
                0 <= i < c * r,
        ;
        lemma_split(i, c as int);
        let a = i / c as int;
        let b = i % c as int;
        assert(a < r) by (nonlinear_arith)
            requires
                i == a * c + b,
                i < r * c,
                0 <= b,
                c > 0,
        ;
        let p = b * r + a;
        lemma_cell_bound(b, a, c as int, r as int);
        lemma_join(b, a, r as int);
    }
    assert(z =~= x);
}

/// Turning an interleaved buffer of `n` channels into a planar one and back
/// gives it back, and so does the other order: the two layouts hold the same
/// samples.
pub proof fn lemma_planar_round_trip<T>(data: Seq<T>, n: nat)
    requires
        n > 0,
        data.len() % n == 0,
    ensures
        planar(data, n).len() == data.len(),
        unplanar(data, n).len() == data.len(),
        unplanar(planar(data, n), n) == data,
        planar(unplanar(data, n), n) == data,
{
    lemma_split(data.len() as int, n as int);
    let spc = data.len() / n;
    assert(data.len() == spc * n);
    assert(data.len() == n * spc) by (nonlinear_arith)
        requires
            data.len() == spc * n,
    ;
    lemma_transpose_twice(data, spc, n);
    lemma_transpose_twice(data, n, spc);
}

/// Row `c` of the planar buffer of `n` channels is channel `c` of the
/// interleaved buffer.
pub proof fn lemma_planar_rows<T>(data: Seq<T>, n: nat, c: int)
    requires
        n > 0,
        data.len() % n == 0,
        0 <= c < n,
    ensures
        planar(data, n).subrange(c * (data.len() / n) as int, (c + 1) * (data.len() / n) as int)
            == deinterleaved(data, n)[c],
{
    lemma_split(data.len() as int, n as int);
    let spc = (data.len() / n) as int;
    let p = planar(data, n);
    lemma_even_lanes(data.len() as int, n as int, c);
    assert(c * spc + spc == (c + 1) * spc) by (nonlinear_arith);
    assert((c + 1) * spc <= n * spc) by (nonlinear_arith)
        requires
            c < n,
            spc >= 0,
    ;
    assert(n * spc == spc * n) by (nonlinear_arith);
    let row = p.subrange(c * spc, (c + 1) * spc);
    assert forall|k: int| 0 <= k < spc implies row[k] == deinterleaved(data, n)[c][k] by {
        lemma_join(c, k, spc);
        lemma_cell_bound(c, k, n as int, spc);
    }
    assert(row =~= deinterleaved(data, n)[c]);
}

} // verus!
