//! Blocks of decoded audio.
//!
//! A block holds one sequence of samples for each channel, all of the same
//! length. Raising the volume changes every sample and nothing else: the block
//! that comes out has the channels of the block that went in, and each channel
//! has as many samples as before. The arithmetic on a single sample is in floating point and is not
//! part of this crate: it is handed in as a function, and what is proved here
//! holds whatever that function computes.

use vstd::prelude::*;

verus! {

/// The shape of a block as it comes from a decoder: for each channel, the
/// number of its samples.
pub open spec fn block_shape<S>(block: Seq<&[S]>) -> Seq<nat> {
    Seq::new(block.len(), |c: int| block[c]@.len())
}

/// The shape of a block that owns its samples: for each channel, the number
/// of its samples.
pub open spec fn owned_shape<S>(block: Seq<Vec<S>>) -> Seq<nat> {
    Seq::new(block.len(), |c: int| block[c]@.len())
}

/// Applies `scale` to every sample of one channel.
pub fn scale_channel<S: Copy, F: Fn(S) -> S>(channel: &[S], scale: &F) -> (scaled: Vec<S>)
    requires
        forall|i: int| 0 <= i < channel.len() ==> call_requires(*scale, (#[trigger] channel[i],)),
    ensures
        scaled.len() == channel.len(),
        forall|i: int|
            0 <= i < channel.len() ==> call_ensures(*scale, (channel[i],), #[trigger] scaled[i]),
{
    let mut scaled: Vec<S> = Vec::new();
    let mut i: usize = 0;
    while i < channel.len()
        invariant
            i <= channel.len(),
            scaled.len() == i,
            forall|k: int|
                0 <= k < channel.len() ==> call_requires(*scale, (#[trigger] channel[k],)),
            forall|k: int|
                0 <= k < i ==> call_ensures(*scale, (channel[k],), #[trigger] scaled[k]),
        decreases channel.len() - i,
    {
        let sample = scale(channel[i]);
        scaled.push(sample);
        i += 1;
    }
    scaled
}

/// Applies `scale` to every sample of a block.
///
/// The block that is returned has the shape of `block`, and each of its
/// samples is what `scale` made of the sample at the same place. With a
/// `scale` that hands every sample back as it is, the block is unchanged.
pub fn scale_block<S: Copy, F: Fn(S) -> S>(block: &[&[S]], scale: F) -> (scaled: Vec<Vec<S>>)
    requires
        forall|c: int, i: int|
            0 <= c < block.len() && 0 <= i < block[c].len() ==> call_requires(
                scale,
                (#[trigger] block[c][i],),
            ),
    ensures
        owned_shape(scaled@) == block_shape(block@),
        forall|c: int, i: int|
            0 <= c < block.len() && 0 <= i < block[c].len() ==> call_ensures(
                scale,
                (block[c][i],),
                #[trigger] scaled[c][i],
            ),
        (forall|sample: S, other: S| call_ensures(scale, (sample,), other) ==> other == sample)
            ==> forall|c: int, i: int|
            0 <= c < block.len() && 0 <= i < block[c].len() ==> #[trigger] scaled[c][i]
                == block[c][i],
{
    let mut scaled: Vec<Vec<S>> = Vec::new();
    let mut c: usize = 0;
    while c < block.len()
        invariant
            c <= block.len(),
            scaled.len() == c,
            forall|d: int, i: int|
                0 <= d < block.len() && 0 <= i < block[d].len() ==> call_requires(
                    scale,
                    (#[trigger] block[d][i],),
                ),
            forall|d: int| 0 <= d < c ==> (#[trigger] scaled[d]).len() == block[d].len(),
            forall|d: int, i: int|
                0 <= d < c && 0 <= i < block[d].len() ==> call_ensures(
                    scale,
                    (block[d][i],),
                    #[trigger] scaled[d][i],
                ),
        decreases block.len() - c,
    {
        let channel = scale_channel(block[c], &scale);
        scaled.push(channel);
        c += 1;
    }
    assert(owned_shape(scaled@) =~= block_shape(block@));
    scaled
}

} // verus!
