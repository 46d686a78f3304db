use vstd::prelude::*;

verus! {

/// Number of samples in one block from the microphone.
pub const NUM_SAMPLES: usize = 32;

/// The sample that the microphone sent in the word `w`: the sixteen bits
/// below the topmost one, read as a signed number.
pub open spec fn sample_of_word(w: u32) -> int {
    let field = (w as int / 0x8000) % 0x1_0000;
    if field < 0x8000 {
        field
    } else {
        field - 0x1_0000
    }
}

/// Cuts the sample out of one word as the receiver shifted it in.
pub fn sample_from_word(w: u32) -> (s: i16)
    ensures
        s == sample_of_word(w),
{
    let field: u32 = (w >> 15) & 0xffff;
    assert(field == (w / 0x8000) % 0x1_0000) by (bit_vector)
        requires
            field == (w >> 15) & 0xffff,
    ;
    if field < 0x8000 {
        field as i16
    } else {
        (field as i32 - 0x1_0000) as i16
    }
}

/// Cuts the samples out of one block of received words.
pub fn decode_block(words: &[u32; NUM_SAMPLES]) -> (samples: [i16; NUM_SAMPLES])
    ensures
        forall|i: int| 0 <= i < NUM_SAMPLES ==> #[trigger] samples@[i] == sample_of_word(words@[i]),
{
    let mut samples: [i16; NUM_SAMPLES] = [0;NUM_SAMPLES];
    let mut i: usize = 0;
    while i < NUM_SAMPLES
        invariant
            i <= NUM_SAMPLES,
            forall|k: int| 0 <= k < i ==> #[trigger] samples@[k] == sample_of_word(words@[k]),
        decreases NUM_SAMPLES - i,
    {
        samples[i] = sample_from_word(words[i]);
        i = i + 1;
    }
    samples
}

/// The two bytes of `s` in two's complement, low byte first.
pub open spec fn sample_bytes(s: i16) -> Seq<u8> {
    let u: int = if s >= 0 {
        s as int
    } else {
        s + 0x1_0000
    };
    seq![(u % 256) as u8, (u / 256) as u8]
}

/// The sample as it goes out on a serial line: low byte, then high byte.
pub fn sample_to_le_bytes(s: i16) -> (bytes: [u8; 2])
    ensures
        bytes@ == sample_bytes(s),
{
    let u: u32 = if s >= 0 {
        s as u32
    } else {
        (s as i32 + 0x1_0000) as u32
    };
    let bytes = [(u % 256) as u8, (u / 256) as u8];
    assert(bytes@ =~= sample_bytes(s));
    bytes
}

} // verus!
