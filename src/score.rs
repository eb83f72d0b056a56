use vstd::prelude::*;

verus! {

/// Why a record could not be scored.
#[derive(Debug, Clone, Copy, PartialEq, Eq, Structural)]
pub enum ScoreError {
    /// The record holds no text, so the score would divide by zero.
    ZeroLength,
    /// The score does not fit in an `i32`.
    Overflow,
}

/// The factor by which the per-length quotient is scaled.
pub const SCORE_SCALE: u64 = 999_999_999;

/// The quotient's numerator.
pub const SCORE_BASE: u64 = 100;

/// The mathematical score of a record `len` bytes long (`len > 0`).
pub open spec fn score_value(len: nat) -> int {
    (SCORE_BASE as int / len as int) * SCORE_SCALE as int
}

/// What scoring a record `len` bytes long yields.
pub open spec fn score_outcome(len: nat) -> Result<i32, ScoreError> {
    if len == 0 {
        Err(ScoreError::ZeroLength)
    } else if score_value(len) > i32::MAX as int {
        Err(ScoreError::Overflow)
    } else {
        Ok(score_value(len) as i32)
    }
}

/// A score that does not fit is reported as an overflow, and one that does
/// is returned exactly as computed, never wrapped or truncated.
pub proof fn lemma_score_never_wraps(len: nat)
    requires
        len > 0,
    ensures
        score_outcome(len) == Err::<i32, ScoreError>(ScoreError::Overflow) <==> score_value(len) > i32::MAX,
        score_outcome(len) matches Ok(v) ==> v as int == score_value(len),
{
    assert(score_value(len) >= 0) by (nonlinear_arith)
        requires len > 0;
}

/// Scores a record of `len` bytes: `100 / len * 999_999_999`, computed in
/// 64 bits and reported as an `i32` only when it fits.
pub fn score_len(len: usize) -> (r: Result<i32, ScoreError>)
    ensures
        r == score_outcome(len as nat),
{
    if len == 0 {
        return Err(ScoreError::ZeroLength);
    }
    let quotient: u64 = SCORE_BASE / (len as u64);
    assert(quotient <= 100);
    assert(quotient * SCORE_SCALE <= 100 * SCORE_SCALE) by (nonlinear_arith)
        requires quotient <= 100;
    let wide: u64 = quotient * SCORE_SCALE;
    if wide > i32::MAX as u64 {
        Err(ScoreError::Overflow)
    } else {
        Ok(wide as i32)
    }
}

} // verus!
