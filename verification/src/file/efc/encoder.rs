//! IMA ADPCM encoding: 16-bit PCM samples to four-bit codes.

use vstd::prelude::*;

use super::super::error::{DvFileError, FileType};
use super::super::le::{i16_at, i16_bytes, lemma_i16_roundtrip, push_i16};
use super::decoder::{
    adpcm_next, adpcm_step, data_code, decoded_len, decoded_pcm, decoder_state, initial_index,
};
use vstd::string::StringExecFns;

verus! {

/// The code for a difference `diff` between a sample and the predictor:
/// the sign bit, then bits 4, 2 and 1 for a magnitude of at least the step,
/// half of it and a quarter of it.
pub open spec fn encode_code(diff: int, step: i32) -> u8 {
    let a = if diff < 0 {
        -diff
    } else {
        diff
    };
    ((if diff < 0 {
        8int
    } else {
        0
    }) + (if a >= step {
        4int
    } else {
        0
    }) + (if a >= (step >> 1u32) {
        2int
    } else {
        0
    }) + (if a >= (step >> 2u32) {
        1int
    } else {
        0
    })) as u8
}

/// The encoder's predictor and step index after samples `1..=j`; the first
/// sample is the initial predictor, with step index 0.
pub open spec fn encoder_state(pcm: Seq<i16>, steps: Seq<i16>, j: nat) -> (i32, int)
    decreases j,
{
    if j == 0 {
        (pcm[0] as i32, 0)
    } else {
        let (p, i) = encoder_state(pcm, steps, (j - 1) as nat);
        adpcm_next(steps, p, i, encode_code(pcm[j as int] - p, steps[i] as i32))
    }
}

/// The code the encoder writes for sample `j` (from 1 on).
pub open spec fn sample_code(pcm: Seq<i16>, steps: Seq<i16>, j: int) -> u8 {
    let (p, i) = encoder_state(pcm, steps, (j - 1) as nat);
    encode_code(pcm[j] - p, steps[i] as i32)
}

/// The ADPCM data for PCM samples: the first sample, a zero step index and
/// a reserved zero byte, then two codes per byte, low nibble first (a final
/// odd code leaves the high nibble zero).
pub open spec fn encoded_adpcm(pcm: Seq<i16>, steps: Seq<i16>) -> Seq<u8> {
    i16_bytes(pcm[0]) + seq![0u8, 0u8] + Seq::new((pcm.len() / 2) as nat, |b: int| code_byte(pcm, steps, b))
}

/// Byte `b` of the codes: sample `2b + 1` in the low nibble, sample `2b + 2`
/// (if any) in the high nibble.
pub open spec fn code_byte(pcm: Seq<i16>, steps: Seq<i16>, b: int) -> u8 {
    (sample_code(pcm, steps, 2 * b + 1) + 16 * (if 2 * b + 2 < pcm.len() {
        sample_code(pcm, steps, 2 * b + 2)
    } else {
        0u8
    })) as u8
}

/// The samples a decoder reconstructs from the encoder's output: the
/// encoder's predictor after each sample.
pub open spec fn reconstructed(pcm: Seq<i16>, steps: Seq<i16>) -> Seq<i16> {
    Seq::new(pcm.len(), |j: int| encoder_state(pcm, steps, j as nat).0 as i16)
}

/// Whether `e` is the error for encoding no samples.
pub open spec fn is_empty_pcm_error(e: DvFileError) -> bool {
    e matches DvFileError::CompressionError { file_type, message } && file_type == FileType::Efc
        && message@ == "PCM data is empty"@
}

proof fn lemma_encoder_state_bounds(pcm: Seq<i16>, steps: Seq<i16>, j: nat)
    requires
        steps.len() == 89,
        j < pcm.len(),
    ensures
        -32768 <= encoder_state(pcm, steps, j).0 <= 32767,
        0 <= encoder_state(pcm, steps, j).1 <= 88,
    decreases j,
{
    if j > 0 {
        lemma_encoder_state_bounds(pcm, steps, (j - 1) as nat);
    }
}

/// Encodes one sample: returns its code and the new predictor and index.
fn encode_sample(step_table: &[i16; 89], predictor: i32, index: usize, sample: i16) -> (r: (
    u8,
    i32,
    usize,
))
    requires
        -32768 <= predictor <= 32767,
        index <= 88,
    ensures
        r.0 == encode_code(sample - predictor, step_table@[index as int] as i32),
        r.0 < 16,
        (r.1, r.2 as int) == adpcm_next(step_table@, predictor, index as int, r.0),
        -32768 <= r.1 <= 32767,
        r.2 <= 88,
{
    let diff = sample as i32 - predictor;
    let step = step_table[index] as i32;
    proof {
        super::decoder::lemma_step_shifts(step);
    }
    let mut code: u8 = 0;
    if diff < 0 {
        code = 8;
    }
    let abs_diff = if diff < 0 {
        -diff
    } else {
        diff
    };
    if abs_diff >= step {
        code = code + 4;
    }
    if abs_diff >= step >> 1u32 {
        code = code + 2;
    }
    if abs_diff >= step >> 2u32 {
        code = code + 1;
    }
    let (p, i) = adpcm_step(step_table, predictor, index, code);
    (code, p, i)
}

/// Encodes 16-bit PCM samples to IMA ADPCM data.
///
/// The first sample is stored as is and starts the predictor, with step
/// index 0; each further sample becomes a four-bit code, two per byte, low
/// nibble first. An empty input is an error.
pub fn encode_ima_adpcm(pcm_data: &[i16], step_table: &[i16; 89], _channels: u16) -> (r: Result<
    Vec<u8>,
    DvFileError,
>)
    ensures
        pcm_data@.len() == 0 ==> (r matches Err(e) && is_empty_pcm_error(e)),
        pcm_data@.len() > 0 ==> (r matches Ok(out) && out@ == encoded_adpcm(pcm_data@, step_table@)),
{
    let n = pcm_data.len();
    if n == 0 {
        return Err(
            DvFileError::CompressionError {
                file_type: FileType::Efc,
                message: String::from_str("PCM data is empty"),
            },
        );
    }
    let ghost pcm = pcm_data@;
    let ghost steps = step_table@;
    let mut out: Vec<u8> = Vec::new();
    let mut predictor: i32 = pcm_data[0] as i32;
    let mut index: usize = 0;
    push_i16(&mut out, pcm_data[0]);
    out.push(0u8);
    out.push(0u8);
    let mut pos: usize = 1;
    while pos < n
        invariant
            n == pcm.len(),
            pcm == pcm_data@,
            steps == step_table@,
            1 <= pos <= n,
            pos % 2 == 1 || pos == n,
            n <= usize::MAX,
            (predictor, index as int) == encoder_state(pcm, steps, (pos - 1) as nat),
            -32768 <= predictor <= 32767,
            index <= 88,
            out@ == i16_bytes(pcm[0]) + seq![0u8, 0u8] + Seq::new((pos / 2) as nat, |b: int| code_byte(pcm, steps, b)),
        decreases n - pos,
    {
        let ghost first = pos as int;
        let (lo, p1, i1) = encode_sample(step_table, predictor, index, pcm_data[pos]);
        assert(lo == sample_code(pcm, steps, first));
        predictor = p1;
        index = i1;
        pos = pos + 1;
        let mut hi: u8 = 0;
        if pos < n {
            let (c, p2, i2) = encode_sample(step_table, predictor, index, pcm_data[pos]);
            assert(c == sample_code(pcm, steps, first + 1));
            hi = c;
            predictor = p2;
            index = i2;
            pos = pos + 1;
        }
        let byte = lo + 16 * hi;
        let ghost b = (pos / 2 - 1) as int;
        assert(byte == code_byte(pcm, steps, b)) by {
            assert(2 * b + 1 == first);
            assert(lo == sample_code(pcm, steps, 2 * b + 1));
            assert(lo < 16 && hi < 16);
            if first + 1 < n {
                assert(hi == sample_code(pcm, steps, 2 * b + 2));
            } else {
                assert(hi == 0);
            }
        }
        out.push(byte);
        assert(out@ =~= i16_bytes(pcm[0]) + seq![0u8, 0u8] + Seq::new((pos / 2) as nat, |b: int| code_byte(pcm, steps, b)));
    }
    Ok(out)
}

proof fn lemma_data_code(pcm: Seq<i16>, steps: Seq<i16>, c: int)
    requires
        steps.len() == 89,
        1 <= pcm.len(),
        0 <= c < pcm.len() - 1,
    ensures
        data_code(encoded_adpcm(pcm, steps), c) == sample_code(pcm, steps, c + 1),
{
    let enc = encoded_adpcm(pcm, steps);
    let b = c / 2;
    lemma_encoder_state_bounds(pcm, steps, (2 * b) as nat);
    let lo = sample_code(pcm, steps, 2 * b + 1);
    assert(lo < 16);
    if 2 * b + 2 < pcm.len() {
        lemma_encoder_state_bounds(pcm, steps, (2 * b + 1) as nat);
        assert(sample_code(pcm, steps, 2 * b + 2) < 16);
    }
    assert(enc[4 + b] == code_byte(pcm, steps, b));
}

#[verifier::spinoff_prover]
proof fn lemma_states_agree(pcm: Seq<i16>, steps: Seq<i16>, k: nat)
    requires
        steps.len() == 89,
        1 <= pcm.len(),
        k < pcm.len(),
    ensures
        decoder_state(encoded_adpcm(pcm, steps), steps, k) == encoder_state(pcm, steps, k),
    decreases k,
{
    let enc = encoded_adpcm(pcm, steps);
    if k == 0 {
        assert(enc.subrange(0, 2) =~= i16_bytes(pcm[0]));
        lemma_i16_roundtrip(pcm[0], enc, 0);
        assert(enc[2] == 0);
        assert(initial_index(enc) == 0);
    } else {
        lemma_states_agree(pcm, steps, (k - 1) as nat);
        lemma_data_code(pcm, steps, k - 1);
    }
}

proof fn lemma_encoded_len(pcm: Seq<i16>, steps: Seq<i16>)
    requires
        1 <= pcm.len(),
    ensures
        encoded_adpcm(pcm, steps).len() == 4 + pcm.len() / 2,
        decoded_len(encoded_adpcm(pcm, steps).len() as int, pcm.len() as int) == pcm.len(),
{
}

/// Decoding the encoder's output, expecting as many samples as were
/// encoded, gives back that many samples: the first one exactly, and each
/// other one equal to the encoder's own reconstruction.
pub proof fn lemma_decode_encode(pcm: Seq<i16>, steps: Seq<i16>)
    requires
        steps.len() == 89,
        1 <= pcm.len(),
    ensures
        decoded_pcm(encoded_adpcm(pcm, steps), steps, pcm.len() as int) == reconstructed(pcm, steps),
        reconstructed(pcm, steps)[0] == pcm[0],
{
    let enc = encoded_adpcm(pcm, steps);
    lemma_encoded_len(pcm, steps);
    assert forall|j: int| 0 <= j < pcm.len() implies #[trigger] decoded_pcm(
        enc,
        steps,
        pcm.len() as int,
    )[j] == reconstructed(pcm, steps)[j] by {
        lemma_states_agree(pcm, steps, j as nat);
    }
    assert(decoded_pcm(enc, steps, pcm.len() as int) =~= reconstructed(pcm, steps));
}

} // verus!
