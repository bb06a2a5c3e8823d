//! Token estimation: a pure, pluggable map from a text payload to an
//! approximate token count.

use vstd::prelude::*;

verus! {

/// Selectable token-estimation strategies.
#[derive(Debug, Clone, Copy, PartialEq, Eq, Structural)]
pub enum TokenizerKind {
    /// One token per whitespace-separated word.
    Whitespace,
    /// One token per four bytes, rounded up.
    CharRatio,
}

/// Whitespace for word splitting.
pub open spec fn is_space(b: u8) -> bool {
    b == 32 || b == 9 || b == 10 || b == 13
}

/// ASCII decimal digit.
pub open spec fn is_digit(b: u8) -> bool {
    48 <= b <= 57
}

/// ASCII lower-case letter.
pub open spec fn is_lower(b: u8) -> bool {
    97 <= b <= 122
}

/// ASCII upper-case letter.
pub open spec fn is_upper(b: u8) -> bool {
    65 <= b <= 90
}

/// ASCII letter.
pub open spec fn is_alpha(b: u8) -> bool {
    is_lower(b) || is_upper(b)
}

/// ASCII lower-casing of one byte.
pub open spec fn to_lower(b: u8) -> u8 {
    if is_upper(b) {
        (b + 32) as u8
    } else {
        b
    }
}

/// Whether the payload holds at least one numeric token.
pub open spec fn has_digit_seq(s: Seq<u8>) -> bool {
    exists|i: int| 0 <= i < s.len() && is_digit(s[i])
}

/// Tests a payload for numeric content.
pub fn has_digit(payload: &Vec<u8>) -> (r: bool)
    ensures
        r == has_digit_seq(payload@),
{
    let mut i: usize = 0;
    while i < payload.len()
        invariant
            0 <= i <= payload.len(),
            forall|j: int| 0 <= j < i ==> !is_digit(payload@[j]),
        decreases payload.len() - i,
    {
        if payload[i] >= 48 && payload[i] <= 57 {
            return true;
        }
        i = i + 1;
    }
    false
}

/// Number of word starts in the first `i` bytes of `s`.
pub open spec fn word_count_upto(s: Seq<u8>, i: int) -> int
    decreases i,
{
    if i <= 0 || i > s.len() {
        0
    } else {
        word_count_upto(s, i - 1) + if !is_space(s[i - 1]) && (i == 1 || is_space(s[i - 2])) {
            1int
        } else {
            0int
        }
    }
}

/// Estimated token count of a payload under a strategy.
pub open spec fn est_tokens(s: Seq<u8>, kind: TokenizerKind) -> int {
    match kind {
        TokenizerKind::Whitespace => word_count_upto(s, s.len() as int),
        TokenizerKind::CharRatio => (s.len() as int + 3) / 4,
    }
}

/// Word count never exceeds the byte count.
pub proof fn lemma_word_count_bound(s: Seq<u8>, i: int)
    requires
        0 <= i <= s.len(),
    ensures
        0 <= word_count_upto(s, i) <= i,
    decreases i,
{
    if i > 0 {
        lemma_word_count_bound(s, i - 1);
    }
}

/// The estimate never exceeds the byte length of the payload.
pub proof fn lemma_est_tokens_bound(s: Seq<u8>, kind: TokenizerKind)
    ensures
        0 <= est_tokens(s, kind) <= s.len(),
{
    match kind {
        TokenizerKind::Whitespace => {
            lemma_word_count_bound(s, s.len() as int);
        },
        TokenizerKind::CharRatio => {
        },
    }
}

/// Estimates the token cost of a payload: a pure function of the bytes
/// and the strategy alone.
pub fn estimate_tokens(payload: &Vec<u8>, kind: TokenizerKind) -> (r: u64)
    ensures
        r == est_tokens(payload@, kind),
        r <= payload@.len(),
{
    proof {
        lemma_est_tokens_bound(payload@, kind);
    }
    match kind {
        TokenizerKind::Whitespace => {
            let mut count: u64 = 0;
            let mut i: usize = 0;
            while i < payload.len()
                invariant
                    0 <= i <= payload.len(),
                    count == word_count_upto(payload@, i as int),
                    count <= i,
                decreases payload.len() - i,
            {
                let here_space = payload[i] == 32 || payload[i] == 9 || payload[i] == 10
                    || payload[i] == 13;
                let starts = !here_space && (i == 0 || {
                    let p = payload[i - 1];
                    p == 32 || p == 9 || p == 10 || p == 13
                });
                if starts {
                    count = count + 1;
                }
                i = i + 1;
            }
            count
        },
        TokenizerKind::CharRatio => {
            let n = payload.len();
            let r = (((n as u128) + 3) / 4) as u64;
            proof {
                assert(((n as u128) + 3) / 4 == (payload@.len() as int + 3) / 4);
            }
            r
        },
    }
}

} // verus!
