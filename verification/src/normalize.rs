//! Payload normalization applied before hashing and storage.

use vstd::prelude::*;

use crate::config::HyphenationMode;

verus! {

/// The normalized form of a payload. Under `Merge`, every `-` byte that is
/// immediately followed by a line feed is removed together with the line
/// feed (a hyphenated line break is joined); under `Preserve` the payload
/// is unchanged.
pub open spec fn normalize_seq(s: Seq<u8>, mode: HyphenationMode) -> Seq<u8>
    decreases s.len(),
{
    match mode {
        HyphenationMode::Preserve => s,
        HyphenationMode::Merge => {
            if s.len() == 0 {
                Seq::empty()
            } else if s.len() >= 2 && s[0] == 45 && s[1] == 10 {
                normalize_seq(s.skip(2), mode)
            } else {
                seq![s[0]] + normalize_seq(s.skip(1), mode)
            }
        },
    }
}

/// Normalizes a payload.
pub fn normalize_payload(payload: &Vec<u8>, mode: HyphenationMode) -> (r: Vec<u8>)
    ensures
        r@ == normalize_seq(payload@, mode),
{
    let mut out: Vec<u8> = Vec::new();
    match mode {
        HyphenationMode::Preserve => {
            let mut i: usize = 0;
            while i < payload.len()
                invariant
                    0 <= i <= payload.len(),
                    out@ == payload@.take(i as int),
                decreases payload.len() - i,
            {
                out.push(payload[i]);
                proof {
                    assert(payload@.take(i + 1) =~= payload@.take(i as int).push(payload@[i as int]));
                }
                i = i + 1;
            }
            proof {
                assert(payload@.take(payload@.len() as int) =~= payload@);
            }
            out
        },
        HyphenationMode::Merge => {
            proof {
                assert(payload@.skip(0) =~= payload@);
                assert(out@ + normalize_seq(payload@, mode) =~= normalize_seq(payload@, mode));
            }
            let mut i: usize = 0;
            while i < payload.len()
                invariant
                    0 <= i <= payload.len(),
                    normalize_seq(payload@, mode) == out@ + normalize_seq(
                        payload@.skip(i as int),
                        mode,
                    ),
                    mode == HyphenationMode::Merge,
                decreases payload.len() - i,
            {
                let ghost rest = payload@.skip(i as int);
                proof {
                    assert(rest.len() == payload@.len() - i);
                    assert(rest[0] == payload@[i as int]);
                    if rest.len() >= 2 {
                        assert(rest[1] == payload@[i + 1]);
                    }
                }
                if i + 1 < payload.len() && payload[i] == 45 && payload[i + 1] == 10 {
                    proof {
                        assert(rest.skip(2) =~= payload@.skip(i + 2));
                        assert(normalize_seq(rest, mode) == normalize_seq(rest.skip(2), mode));
                    }
                    i = i + 2;
                } else {
                    let ghost out_old = out@;
                    out.push(payload[i]);
                    proof {
                        assert(rest.skip(1) =~= payload@.skip(i + 1));
                        assert(normalize_seq(rest, mode) == seq![rest[0]] + normalize_seq(
                            rest.skip(1),
                            mode,
                        ));
                        assert(out@ =~= out_old + seq![rest[0]]);
                        assert((out_old + seq![rest[0]]) + normalize_seq(rest.skip(1), mode) =~=
                            out_old + (seq![rest[0]] + normalize_seq(rest.skip(1), mode)));
                    }
                    i = i + 1;
                }
            }
            proof {
                assert(payload@.skip(payload@.len() as int) =~= Seq::<u8>::empty());
                assert(out@ + Seq::<u8>::empty() =~= out@);
            }
            out
        },
    }
}

} // verus!
