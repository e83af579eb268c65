//! Audio samples of several channels interleaved in one vector.
use vstd::prelude::*;

verus! {

/// The samples of several channels, interleaved: the samples of every channel at one
/// position, in channel order, then those at the next position. An interleaved vector
/// with `is_end` set marks the end of a stream.
pub struct Interleaved<T> {
    nb_channels: usize,
    nb_samples_per_channel: usize,
    vector: Vec<T>,
    is_end: bool,
}

/// The position in an interleaved vector of sample `i` of channel `c`.
pub open spec fn interleaved_index(nb_channels: int, i: int, c: int) -> int {
    nb_channels * i + c
}

/// Whether `v` interleaves the first `nb_samples` samples of each of `channels`.
pub open spec fn interleaves<T>(v: Seq<T>, channels: Seq<Seq<T>>, nb_samples: int) -> bool {
    &&& v.len() == channels.len() * nb_samples
    &&& forall|i: int, c: int|
        0 <= i < nb_samples && 0 <= c < channels.len() ==> #[trigger] v[interleaved_index(
            channels.len() as int,
            i,
            c,
        )] == channels[c][i]
}

pub open spec fn channels_view<T>(channels: Seq<Vec<T>>) -> Seq<Seq<T>> {
    channels.map_values(|ch: Vec<T>| ch@)
}

proof fn lemma_index_bounds(n: int, i: int, c: int, m: int)
    requires
        0 <= c < n,
        0 <= i < m,
    ensures
        n * i <= n * i + c < n * (i + 1),
        n * (i + 1) <= n * m,
        0 <= n * i,
{
    assert(n * (i + 1) == n * i + n) by (nonlinear_arith);
    assert(n * (i + 1) <= n * m) by (nonlinear_arith)
        requires
            0 <= n,
            i + 1 <= m,
    ;
    assert(0 <= n * i) by (nonlinear_arith)
        requires
            0 <= n,
            0 <= i,
    ;
}

impl<T: Copy> Interleaved<T> {
    pub closed spec fn spec_nb_channels(&self) -> usize {
        self.nb_channels
    }

    pub closed spec fn spec_nb_samples_per_channel(&self) -> usize {
        self.nb_samples_per_channel
    }

    pub closed spec fn spec_vector(&self) -> Seq<T> {
        self.vector@
    }

    pub closed spec fn spec_is_end(&self) -> bool {
        self.is_end
    }

    /// Interleaves the first `nb_samples_per_channel` samples of each channel.
    pub fn new(channels: &Vec<Vec<T>>, nb_samples_per_channel: usize) -> (r: Self)
        requires
            forall|c: int| 0 <= c < channels@.len() ==> nb_samples_per_channel <= (
            #[trigger] channels@[c])@.len(),
            channels@.len() * nb_samples_per_channel <= usize::MAX,
        ensures
            r.spec_nb_channels() == channels@.len(),
            r.spec_nb_samples_per_channel() == nb_samples_per_channel,
            interleaves(r.spec_vector(), channels_view(channels@), nb_samples_per_channel as int),
            !r.spec_is_end(),
    {
        let nb_channels = channels.len();
        let ghost chs = channels_view(channels@);
        let ghost n = nb_channels as int;
        let mut vector: Vec<T> = Vec::new();
        let mut i: usize = 0;
        while i < nb_samples_per_channel
            invariant
                n == nb_channels == channels@.len() == chs.len(),
                chs == channels_view(channels@),
                i <= nb_samples_per_channel,
                forall|c: int| 0 <= c < n ==> nb_samples_per_channel <= (
                #[trigger] channels@[c])@.len(),
                n * nb_samples_per_channel <= usize::MAX,
                vector@.len() == n * i,
                forall|i2: int, c: int|
                    0 <= i2 < i && 0 <= c < n ==> #[trigger] vector@[interleaved_index(n, i2, c)]
                        == chs[c][i2],
            decreases nb_samples_per_channel - i,
        {
            let mut c: usize = 0;
            while c < nb_channels
                invariant
                    n == nb_channels == channels@.len() == chs.len(),
                    chs == channels_view(channels@),
                    i < nb_samples_per_channel,
                    c <= nb_channels,
                    forall|c2: int| 0 <= c2 < n ==> nb_samples_per_channel <= (
                    #[trigger] channels@[c2])@.len(),
                    n * nb_samples_per_channel <= usize::MAX,
                    vector@.len() == n * i + c,
                    forall|i2: int, c2: int|
                        0 <= i2 < i && 0 <= c2 < n ==> #[trigger] vector@[interleaved_index(
                            n,
                            i2,
                            c2,
                        )] == chs[c2][i2],
                    forall|c2: int|
                        0 <= c2 < c ==> #[trigger] vector@[interleaved_index(n, i as int, c2)]
                            == chs[c2][i as int],
                decreases nb_channels - c,
            {
                proof {
                    lemma_index_bounds(n, i as int, c as int, nb_samples_per_channel as int);
                }
                let sample = channels[c][i];
                let ghost before = vector@;
                vector.push(sample);
                proof {
                    assert forall|i2: int, c2: int|
                        0 <= i2 < i && 0 <= c2 < n implies #[trigger] vector@[interleaved_index(
                            n,
                            i2,
                            c2,
                        )] == chs[c2][i2] by {
                        lemma_index_bounds(n, i2, c2, i as int);
                        assert(vector@[interleaved_index(n, i2, c2)] == before[interleaved_index(
                            n,
                            i2,
                            c2,
                        )]);
                    }
                    assert forall|c2: int| 0 <= c2 <= c implies #[trigger] vector@[interleaved_index(
                        n,
                        i as int,
                        c2,
                    )] == chs[c2][i as int] by {
                        if c2 < c {
                            assert(vector@[interleaved_index(n, i as int, c2)]
                                == before[interleaved_index(n, i as int, c2)]);
                        }
                    }
                }
                c = c + 1;
            }
            proof {
                assert(n * (i + 1) == n * i + n) by (nonlinear_arith);
            }
            i = i + 1;
        }
        Self { nb_channels, nb_samples_per_channel, vector, is_end: false }
    }

    /// The mark of the end of a stream: no channel, no sample.
    pub fn end() -> (r: Self)
        ensures
            r.spec_nb_channels() == 0,
            r.spec_nb_samples_per_channel() == 0,
            r.spec_vector().len() == 0,
            r.spec_is_end(),
    {
        Self { nb_channels: 0, nb_samples_per_channel: 0, vector: Vec::new(), is_end: true }
    }

    pub fn nb_channels(&self) -> (r: usize)
        ensures
            r == self.spec_nb_channels(),
    {
        self.nb_channels
    }

    pub fn nb_samples_per_channel(&self) -> (r: usize)
        ensures
            r == self.spec_nb_samples_per_channel(),
    {
        self.nb_samples_per_channel
    }

    /// A copy of the interleaved samples.
    pub fn vector(&self) -> (r: Vec<T>)
        ensures
            r@ == self.spec_vector(),
    {
        let mut r: Vec<T> = Vec::new();
        let mut k: usize = 0;
        while k < self.vector.len()
            invariant
                k <= self.vector@.len(),
                r@ == self.vector@.take(k as int),
            decreases self.vector@.len() - k,
        {
            r.push(self.vector[k]);
            assert(r@ =~= self.vector@.take(k + 1));
            k = k + 1;
        }
        assert(self.vector@.take(k as int) =~= self.vector@);
        r
    }

    pub fn is_end(&self) -> (r: bool)
        ensures
            r == self.spec_is_end(),
    {
        self.is_end
    }
}

} // verus!
