use vstd::arithmetic::power2::{
    lemma2_to64, lemma_pow2_strictly_increases, lemma_pow2_unfold, pow2,
};
use vstd::prelude::*;

verus! {

/// A loudspeaker position of the extensible format's channel mask. Bit `k`
/// of the mask stands for the `k`-th position in the order declared here.
#[derive(Clone, Copy, Debug, PartialEq, Eq, Structural)]
pub enum SpeakerPosition {
    FrontLeft,
    FrontRight,
    FrontCenter,
    LowFrequency,
    BackLeft,
    BackRight,
    FrontLeftOfCenter,
    FrontRightOfCenter,
    BackCenter,
    SideLeft,
    SideRight,
    TopCenter,
    TopFrontLeft,
    TopFrontCenter,
    TopFrontRight,
    TopBackLeft,
    TopBackCenter,
    TopBackRight,
}

/// How many positions a channel mask can name.
pub const SPEAKER_COUNT: usize = 18;

/// The position that bit `k` of a channel mask stands for, for `k < 18`.
pub open spec fn position_at(k: int) -> SpeakerPosition {
    if k == 0 {
        SpeakerPosition::FrontLeft
    } else if k == 1 {
        SpeakerPosition::FrontRight
    } else if k == 2 {
        SpeakerPosition::FrontCenter
    } else if k == 3 {
        SpeakerPosition::LowFrequency
    } else if k == 4 {
        SpeakerPosition::BackLeft
    } else if k == 5 {
        SpeakerPosition::BackRight
    } else if k == 6 {
        SpeakerPosition::FrontLeftOfCenter
    } else if k == 7 {
        SpeakerPosition::FrontRightOfCenter
    } else if k == 8 {
        SpeakerPosition::BackCenter
    } else if k == 9 {
        SpeakerPosition::SideLeft
    } else if k == 10 {
        SpeakerPosition::SideRight
    } else if k == 11 {
        SpeakerPosition::TopCenter
    } else if k == 12 {
        SpeakerPosition::TopFrontLeft
    } else if k == 13 {
        SpeakerPosition::TopFrontCenter
    } else if k == 14 {
        SpeakerPosition::TopFrontRight
    } else if k == 15 {
        SpeakerPosition::TopBackLeft
    } else if k == 16 {
        SpeakerPosition::TopBackCenter
    } else {
        SpeakerPosition::TopBackRight
    }
}

/// Whether bit `k` of `bits` is set.
pub open spec fn bit_set(bits: isize, k: nat) -> bool {
    bits & (pow2(k) as isize) != 0
}

/// The positions whose bits are set in `bits`, from bit `k` up, in bit order.
pub open spec fn positions_from(bits: isize, k: nat) -> Seq<SpeakerPosition>
    decreases SPEAKER_COUNT - k,
{
    if k >= SPEAKER_COUNT {
        seq![]
    } else {
        let rest = positions_from(bits, k + 1);
        if bit_set(bits, k) {
            seq![position_at(k as int)] + rest
        } else {
            rest
        }
    }
}

fn position_of(k: usize) -> (r: SpeakerPosition)
    ensures
        r == position_at(k as int),
{
    if k == 0 {
        SpeakerPosition::FrontLeft
    } else if k == 1 {
        SpeakerPosition::FrontRight
    } else if k == 2 {
        SpeakerPosition::FrontCenter
    } else if k == 3 {
        SpeakerPosition::LowFrequency
    } else if k == 4 {
        SpeakerPosition::BackLeft
    } else if k == 5 {
        SpeakerPosition::BackRight
    } else if k == 6 {
        SpeakerPosition::FrontLeftOfCenter
    } else if k == 7 {
        SpeakerPosition::FrontRightOfCenter
    } else if k == 8 {
        SpeakerPosition::BackCenter
    } else if k == 9 {
        SpeakerPosition::SideLeft
    } else if k == 10 {
        SpeakerPosition::SideRight
    } else if k == 11 {
        SpeakerPosition::TopCenter
    } else if k == 12 {
        SpeakerPosition::TopFrontLeft
    } else if k == 13 {
        SpeakerPosition::TopFrontCenter
    } else if k == 14 {
        SpeakerPosition::TopFrontRight
    } else if k == 15 {
        SpeakerPosition::TopBackLeft
    } else if k == 16 {
        SpeakerPosition::TopBackCenter
    } else {
        SpeakerPosition::TopBackRight
    }
}

impl SpeakerPosition {
    /// The positions named by a channel mask, in bit order: bit `k` set puts
    /// the `k`-th position in the result. Bits above the eighteenth are ignored.
    pub fn decode(bits: isize) -> (r: Vec<SpeakerPosition>)
        ensures
            r@ == positions_from(bits, 0),
    {
        let mut speakers: Vec<SpeakerPosition> = Vec::with_capacity(8);
        let mut k: usize = 0;
        let mut mask: isize = 1;
        proof {
            lemma2_to64();
        }
        while k < SPEAKER_COUNT
            invariant
                k <= SPEAKER_COUNT,
                0 < mask <= 0x40000,
                mask as int == pow2(k as nat) as int,
                positions_from(bits, 0) == speakers@ + positions_from(bits, k as nat),
            decreases SPEAKER_COUNT - k,
        {
            proof {
                lemma2_to64();
                lemma_pow2_unfold((k + 1) as nat);
                if k + 1 < SPEAKER_COUNT {
                    lemma_pow2_strictly_increases((k + 1) as nat, SPEAKER_COUNT as nat);
                }
                assert(pow2(k as nat) as isize == mask);
            }
            let rest = Ghost(positions_from(bits, (k + 1) as nat));
            let before = Ghost(speakers@);
            if bits & mask != 0 {
                speakers.push(position_of(k));
                assert(positions_from(bits, 0) == speakers@ + rest@) by {
                    assert(positions_from(bits, k as nat) == seq![position_at(k as int)] + rest@);
                    assert(speakers@ == before@.push(position_at(k as int)));
                    assert(before@ + (seq![position_at(k as int)] + rest@) =~= speakers@ + rest@);
                }
            }
            mask = mask * 2;
            k = k + 1;
        }
        speakers
    }
}

} // verus!
