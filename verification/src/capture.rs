use vstd::prelude::*;
use crate::ring::RingBuffer;

verus! {

/// The 32-bit word held by four little-endian bytes.
pub open spec fn le_word(b0: u8, b1: u8, b2: u8, b3: u8) -> int {
    b0 + 0x100 * b1 + 0x1_0000 * b2 + 0x100_0000 * b3
}

/// Number of whole 4-byte sample words in a capture chunk.
pub open spec fn frame_count(bytes: Seq<u8>) -> int {
    bytes.len() as int / 4
}

/// The sample word stored at frame index `f` of a capture chunk.
pub open spec fn word_at(bytes: Seq<u8>, f: int) -> u32 {
    le_word(bytes[4 * f], bytes[4 * f + 1], bytes[4 * f + 2], bytes[4 * f + 3]) as u32
}

/// How many frames a down-mix by `channels` keeps: every `channels`-th
/// frame starting at frame 0 (one channel per multi-channel frame, rather
/// than an average, so that out-of-phase channels cannot cancel).
pub open spec fn kept_count(nframes: int, channels: int) -> int {
    (nframes + channels - 1) / channels
}

/// The mono sample sequence that a down-mix by `channels` extracts from a
/// raw capture chunk: the words of frames 0, channels, 2 * channels, ...
pub open spec fn downmixed(bytes: Seq<u8>, channels: int) -> Seq<u32> {
    Seq::new(
        kept_count(frame_count(bytes), channels) as nat,
        |j: int| word_at(bytes, j * channels),
    )
}

/// Assembles a sample word from its four little-endian bytes.
pub fn word_from_le(b0: u8, b1: u8, b2: u8, b3: u8) -> (w: u32)
    ensures
        w == le_word(b0, b1, b2, b3),
{
    (b0 as u32) + 0x100 * (b1 as u32) + 0x1_0000 * (b2 as u32) + 0x100_0000 * (b3 as u32)
}

proof fn lemma_ceil_div(nf: int, c: int, j: int)
    requires
        c >= 1,
        nf >= 0,
        j >= 0,
        j * c >= nf,
        j == 0 || (j - 1) * c < nf,
    ensures
        j == (nf + c - 1) / c,
{
    let r = nf + c - 1 - j * c;
    if j == 0 {
        assert(nf == 0);
    } else {
        assert(j * c - c == (j - 1) * c) by (nonlinear_arith);
    }
    vstd::arithmetic::div_mod::lemma_fundamental_div_mod_converse_div(nf + c - 1, c, j, r);
}

/// One capture callback's worth of work past the device boundary: decode
/// the chunk's 4-byte little-endian sample words, keep every `channels`-th
/// word (channel 0 of each frame), and push each kept sample into the ring
/// buffer, dropping samples once the buffer is full.
pub fn downmix_push(rb: &mut RingBuffer, bytes: &Vec<u8>, channels: usize)
    requires
        old(rb).wf(),
        channels >= 1,
        bytes@.len() + channels <= usize::MAX,
    ensures
        final(rb).wf(),
        final(rb).cap() == old(rb).cap(),
        ({
            let kept = downmixed(bytes@, channels as int);
            let space = old(rb).cap() - old(rb)@.len();
            final(rb)@ == old(rb)@ + kept.take(if space <= kept.len() {
                space as int
            } else {
                kept.len() as int
            })
        }),
{
    let ghost kept = downmixed(bytes@, channels as int);
    let ghost space = old(rb).cap() - old(rb)@.len();
    let nframes = bytes.len() / 4;
    let mut f: usize = 0;
    let ghost mut j: int = 0;
    proof {
        old(rb).lemma_wf_bounds();
        assert(old(rb)@ + kept.take(0) =~= old(rb)@);
    }
    while f < nframes
        invariant
            rb.wf(),
            rb.cap() == old(rb).cap(),
            rb@.len() <= rb.cap(),
            channels >= 1,
            bytes@.len() + channels <= usize::MAX,
            nframes == frame_count(bytes@),
            kept == downmixed(bytes@, channels as int),
            space == old(rb).cap() - old(rb)@.len(),
            space >= 0,
            j >= 0,
            f == j * channels,
            j == 0 || (j - 1) * channels < nframes,
            j <= kept.len(),
            rb@ =~= old(rb)@ + kept.take(if space <= j { space as int } else { j }),
        decreases nframes + channels - f,
    {
        assert(4 * f + 3 < bytes@.len());
        let b0 = bytes[4 * f];
        let b1 = bytes[4 * f + 1];
        let b2 = bytes[4 * f + 2];
        let b3 = bytes[4 * f + 3];
        let w = word_from_le(b0, b1, b2, b3);
        proof {
            let nf = nframes as int;
            let c = channels as int;
            assert(j < kept.len()) by {
                vstd::arithmetic::div_mod::lemma_fundamental_div_mod(nf + c - 1, c);
                vstd::arithmetic::div_mod::lemma_mod_division_less_than_divisor(nf + c - 1, c);
                let q = (nf + c - 1) / c;
                assert(j * c < q * c);
                assert(j < q) by (nonlinear_arith)
                    requires
                        j * c < q * c,
                        c >= 1,
                ;
            }
            assert(kept[j] == w);
        }
        let ghost pre = *rb;
        let ok = rb.push(w);
        proof {
            let taken_old: int = if space <= j { space as int } else { j };
            if ok {
                assert(pre@.len() < pre.cap());
                assert(taken_old == j);
                assert(rb@ =~= old(rb)@ + kept.take(j + 1));
            } else {
                assert(pre@.len() == pre.cap());
                assert(taken_old == space as int);
            }
            j = j + 1;
        }
        f = f + channels;
        proof {
            assert((j - 1) * channels < nframes);
            assert(f == j * channels) by (nonlinear_arith)
                requires
                    f == (j - 1) * channels + channels,
            ;
        }
    }
    proof {
        lemma_ceil_div(nframes as int, channels as int, j);
        assert(j == kept.len());
        assert(kept.take(kept.len() as int) =~= kept);
    }
}

} // verus!
