//! IMA ADPCM decoding: four-bit codes to 16-bit PCM samples.

use vstd::prelude::*;

use super::super::error::{DvFileError, FileType};
use super::super::le::{i16_at, read_i16};
use vstd::string::StringExecFns;

verus! {

/// Step index change for a four-bit code: -1 for magnitudes 0..3, then
/// 2, 4, 6, 8; the sign bit does not matter.
pub open spec fn index_adjust(code: u8) -> int {
    if code % 8 < 4 {
        -1
    } else {
        2 * (code % 8 - 3)
    }
}

/// The step index after `code`, kept within the 89 entries of the table.
pub open spec fn next_index(index: int, code: u8) -> int {
    let i = index + index_adjust(code);
    if i < 0 {
        0
    } else if i > 88 {
        88
    } else {
        i
    }
}

/// The signed difference that `code` encodes for the given step.
pub open spec fn code_delta(step: i32, code: u8) -> int {
    let magnitude = (step >> 3u32) as int + (if code % 2 == 1 {
        (step >> 2u32) as int
    } else {
        0
    }) + (if (code / 2) % 2 == 1 {
        (step >> 1u32) as int
    } else {
        0
    }) + (if (code / 4) % 2 == 1 {
        step as int
    } else {
        0
    });
    if code >= 8 {
        -magnitude
    } else {
        magnitude
    }
}

/// A value clamped to the 16-bit sample range.
pub open spec fn clamp16(v: int) -> i32 {
    if v < -32768 {
        -32768i32
    } else if v > 32767 {
        32767i32
    } else {
        v as i32
    }
}

/// The predictor and step index after one code.
pub open spec fn adpcm_next(steps: Seq<i16>, predictor: i32, index: int, code: u8) -> (i32, int) {
    (clamp16(predictor + code_delta(steps[index] as i32, code)), next_index(index, code))
}

/// Code `k` of ADPCM data: the low nibble of byte `4 + k / 2` for even `k`,
/// its high nibble for odd `k`.
pub open spec fn data_code(data: Seq<u8>, k: int) -> u8 {
    let b = data[4 + k / 2];
    if k % 2 == 0 {
        b % 16
    } else {
        b / 16
    }
}

/// The step index stored in ADPCM data, at most 88.
pub open spec fn initial_index(data: Seq<u8>) -> int {
    if data[2] > 88 {
        88
    } else {
        data[2] as int
    }
}

/// The decoder's predictor and step index after `k` codes of `data`.
pub open spec fn decoder_state(data: Seq<u8>, steps: Seq<i16>, k: nat) -> (i32, int)
    decreases k,
{
    if k == 0 {
        (i16_at(data, 0) as i32, initial_index(data))
    } else {
        let (p, i) = decoder_state(data, steps, (k - 1) as nat);
        adpcm_next(steps, p, i, data_code(data, k - 1))
    }
}

/// The number of samples decoded from `n` bytes when `total` are expected:
/// the first sample always, then one per code while fewer than `total`.
pub open spec fn decoded_len(n: int, total: int) -> int {
    let codes = 2 * (n - 4);
    let wanted = if total >= 1 {
        total - 1
    } else {
        0
    };
    1 + if codes < wanted {
        codes
    } else {
        wanted
    }
}

/// The PCM samples decoded from ADPCM data.
pub open spec fn decoded_pcm(data: Seq<u8>, steps: Seq<i16>, total: int) -> Seq<i16> {
    Seq::new(
        decoded_len(data.len() as int, total) as nat,
        |j: int| decoder_state(data, steps, j as nat).0 as i16,
    )
}

/// Right shifts of a 16-bit step stay within a quarter of the 16-bit range.
pub proof fn lemma_step_shifts(s: i32)
    requires
        -32768 <= s <= 32767,
    ensures
        -4096 <= s >> 3u32 <= 4095,
        -8192 <= s >> 2u32 <= 8191,
        -16384 <= s >> 1u32 <= 16383,
{
    assert(-32768 <= s <= 32767 ==> -4096 <= s >> 3u32 <= 4095 && -8192 <= s >> 2u32 <= 8191
        && -16384 <= s >> 1u32 <= 16383) by (bit_vector);
}

/// Each code moves the step index by its entry in the IMA ADPCM index
/// table (-1 for magnitudes 0 to 3, then 2, 4, 6 and 8, the sign bit left
/// aside), and the result is kept within the 89 steps; the predictor moves
/// by the code's difference and stays within the 16-bit range.
pub proof fn lemma_ima_index_table(steps: Seq<i16>, predictor: i32, index: int, code: u8)
    requires
        0 <= index <= 88,
        code < 16,
    ensures
        ({
            let moved = index + seq![-1int, -1, -1, -1, 2, 4, 6, 8, -1, -1, -1, -1, 2, 4, 6, 8][code as int];
            adpcm_next(steps, predictor, index, code).1 == if moved < 0 {
                0
            } else if moved > 88 {
                88
            } else {
                moved
            }
        }),
        0 <= adpcm_next(steps, predictor, index, code).1 <= 88,
        -32768 <= adpcm_next(steps, predictor, index, code).0 <= 32767,
{
}

/// For a step that is a multiple of 8, a code's three magnitude bits `m`
/// encode exactly `(2 * m + 1) / 8` of the step, negated when the sign bit
/// is set.
pub proof fn lemma_code_delta_exact(step: i32, code: u8)
    requires
        0 <= step <= 32767,
        step % 8 == 0,
        code < 16,
    ensures
        code_delta(step, code) == if code >= 8 {
            -((2 * (code % 8) + 1) * (step / 8))
        } else {
            (2 * (code % 8) + 1) * (step / 8)
        },
{
    let k = step / 8;
    assert(step >> 3u32 == step / 8 && step >> 2u32 == step / 4 && step >> 1u32 == step / 2) by (bit_vector)
        requires
            0 <= step <= 32767,
    ;
    assert(step / 4 == 2 * k && step / 2 == 4 * k && step == 8 * k);
    assert((2 * (code % 8) + 1) * k == k + (if code % 2 == 1 {
        2 * k
    } else {
        0
    }) + (if (code / 2) % 2 == 1 {
        4 * k
    } else {
        0
    }) + (if (code / 4) % 2 == 1 {
        8 * k
    } else {
        0
    })) by (nonlinear_arith)
        requires
            code < 16,
    ;
}

/// Applies one code to the predictor and step index.
pub fn adpcm_step(step_table: &[i16; 89], predictor: i32, index: usize, code: u8) -> (r: (i32, usize))
    requires
        -32768 <= predictor <= 32767,
        index <= 88,
        code < 16,
    ensures
        (r.0, r.1 as int) == adpcm_next(step_table@, predictor, index as int, code),
        -32768 <= r.0 <= 32767,
        r.1 <= 88,
{
    let step = step_table[index] as i32;
    proof {
        lemma_step_shifts(step);
    }
    let mut diff = step >> 3u32;
    if code % 2 == 1 {
        diff = diff + (step >> 2u32);
    }
    if (code / 2) % 2 == 1 {
        diff = diff + (step >> 1u32);
    }
    if (code / 4) % 2 == 1 {
        diff = diff + step;
    }
    if code >= 8 {
        diff = -diff;
    }
    let mut p = predictor + diff;
    if p < -32768 {
        p = -32768;
    } else if p > 32767 {
        p = 32767;
    }
    let adjust: i32 = if code % 8 < 4 {
        -1
    } else {
        2 * ((code % 8) as i32 - 3)
    };
    let mut i = index as i32 + adjust;
    if i < 0 {
        i = 0;
    } else if i > 88 {
        i = 88;
    }
    (p, i as usize)
}

/// Decodes IMA ADPCM data to 16-bit PCM samples.
///
/// The data starts with the first sample (16 bits), the initial step index
/// and a reserved byte; each following byte holds two codes, low nibble
/// first. Decoding stops at the end of the data or once
/// `sample_count * channels` samples are out; the first sample is always
/// produced. Data shorter than four bytes is an error.
pub fn decode_ima_adpcm(adpcm_data: &[u8], step_table: &[i16; 89], channels: u16, sample_count: u32) -> (r:
    Result<Vec<i16>, DvFileError>)
    ensures
        adpcm_data@.len() < 4 ==> (r matches Err(e) && is_short_data_error(e)),
        adpcm_data@.len() >= 4 ==> (r matches Ok(pcm) && pcm@ == decoded_pcm(
            adpcm_data@,
            step_table@,
            sample_count * channels,
        )),
{
    let n = adpcm_data.len();
    if n < 4 {
        return Err(
            DvFileError::DecompressionError {
                file_type: FileType::Efc,
                message: String::from_str("ADPCM data too short"),
            },
        );
    }
    proof {
        assert(sample_count * channels <= 0xFFFF_FFFFu64 * 0xFFFFu64) by (nonlinear_arith)
            requires
                sample_count <= 0xFFFF_FFFFu64,
                channels <= 0xFFFFu64,
        ;
    }
    let total: u64 = sample_count as u64 * channels as u64;
    let ghost data = adpcm_data@;
    let ghost steps = step_table@;
    let mut predictor: i32 = read_i16(adpcm_data, 0) as i32;
    let mut index: usize = if adpcm_data[2] > 88 {
        88
    } else {
        adpcm_data[2] as usize
    };
    let mut pcm: Vec<i16> = Vec::new();
    pcm.push(predictor as i16);
    let mut pos: usize = 4;
    while pos < n && (pcm.len() as u64) < total
        invariant
            n == data.len(),
            data == adpcm_data@,
            steps == step_table@,
            total == sample_count * channels,
            4 <= pos <= n,
            1 <= pcm@.len(),
            pcm@.len() - 1 == 2 * (pos - 4) || (pcm@.len() - 1 == 2 * (pos - 4) - 1 && pcm@.len()
                == total),
            pcm@.len() <= total || pcm@.len() == 1,
            (predictor, index as int) == decoder_state(data, steps, (pcm@.len() - 1) as nat),
            -32768 <= predictor <= 32767,
            index <= 88,
            pcm@ == Seq::new(pcm@.len(), |j: int| decoder_state(data, steps, j as nat).0 as i16),
        decreases n - pos,
    {
        let byte = adpcm_data[pos];
        pos = pos + 1;
        let ghost k = (pcm@.len() - 1) as int;
        assert(data_code(data, k) == byte % 16) by {
            assert(k / 2 == pos - 5 && k % 2 == 0);
        }
        let (p1, i1) = adpcm_step(step_table, predictor, index, byte % 16);
        predictor = p1;
        index = i1;
        assert(decoder_state(data, steps, (k + 1) as nat) == (predictor, index as int));
        pcm.push(predictor as i16);
        assert(pcm@ =~= Seq::new(pcm@.len(), |j: int| decoder_state(data, steps, j as nat).0 as i16));
        if (pcm.len() as u64) < total {
            let ghost k2 = (pcm@.len() - 1) as int;
            assert(data_code(data, k2) == byte / 16) by {
                assert(k2 / 2 == pos - 5 && k2 % 2 == 1);
            }
            let (p2, i2) = adpcm_step(step_table, predictor, index, byte / 16);
            predictor = p2;
            index = i2;
            assert(decoder_state(data, steps, (k2 + 1) as nat) == (predictor, index as int));
            pcm.push(predictor as i16);
            assert(pcm@ =~= Seq::new(
                pcm@.len(),
                |j: int| decoder_state(data, steps, j as nat).0 as i16,
            ));
        }
    }
    assert(pcm@ =~= decoded_pcm(data, steps, sample_count * channels));
    Ok(pcm)
}

/// The error for ADPCM data shorter than its four-byte header.
pub open spec fn is_short_data_error(e: DvFileError) -> bool {
    e matches DvFileError::DecompressionError { file_type, message } && file_type == FileType::Efc
        && message@ == "ADPCM data too short"@
}

} // verus!
