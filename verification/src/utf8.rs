//! Validation of byte sequences as UTF-8 encoded text.
//!
//! Well-formedness follows the byte-range table of the encoding: each
//! scalar is one lead byte followed by zero to three continuation bytes,
//! with the narrowed second-byte ranges that rule out overlong forms,
//! surrogates, and values past the last code point.

use vstd::prelude::*;

verus! {

/// A continuation byte: high bits `10`.
pub open spec fn is_continuation(b: u8) -> bool {
    0x80 <= b <= 0xBF
}

/// `s` is a well-formed UTF-8 byte sequence.
pub open spec fn is_utf8(s: Seq<u8>) -> bool
    decreases s.len(),
{
    if s.len() == 0 {
        true
    } else {
        let b0 = s[0];
        if b0 < 0x80 {
            is_utf8(s.skip(1))
        } else if 0xC2 <= b0 && b0 <= 0xDF {
            s.len() >= 2 && is_continuation(s[1]) && is_utf8(s.skip(2))
        } else if b0 == 0xE0 {
            s.len() >= 3 && 0xA0 <= s[1] && s[1] <= 0xBF && is_continuation(s[2]) && is_utf8(
                s.skip(3),
            )
        } else if b0 == 0xED {
            s.len() >= 3 && 0x80 <= s[1] && s[1] <= 0x9F && is_continuation(s[2]) && is_utf8(
                s.skip(3),
            )
        } else if 0xE1 <= b0 && b0 <= 0xEF {
            s.len() >= 3 && is_continuation(s[1]) && is_continuation(s[2]) && is_utf8(s.skip(3))
        } else if b0 == 0xF0 {
            s.len() >= 4 && 0x90 <= s[1] && s[1] <= 0xBF && is_continuation(s[2])
                && is_continuation(s[3]) && is_utf8(s.skip(4))
        } else if 0xF1 <= b0 && b0 <= 0xF3 {
            s.len() >= 4 && is_continuation(s[1]) && is_continuation(s[2]) && is_continuation(s[3])
                && is_utf8(s.skip(4))
        } else if b0 == 0xF4 {
            s.len() >= 4 && 0x80 <= s[1] && s[1] <= 0x8F && is_continuation(s[2])
                && is_continuation(s[3]) && is_utf8(s.skip(4))
        } else {
            false
        }
    }
}

proof fn lemma_skip_of_skip(s: Seq<u8>, i: int, k: int)
    requires
        0 <= i,
        0 <= k,
        i + k <= s.len(),
    ensures
        s.skip(i).skip(k) == s.skip(i + k),
{
    assert(s.skip(i).skip(k) =~= s.skip(i + k));
}

/// Decides whether `bytes` is well-formed UTF-8.
pub fn is_valid_utf8(bytes: &[u8]) -> (r: bool)
    ensures
        r == is_utf8(bytes@),
{
    let n: usize = bytes.len();
    let mut i: usize = 0;
    assert(bytes@.skip(0) =~= bytes@);
    while i < n
        invariant
            n == bytes@.len(),
            i <= n,
            is_utf8(bytes@) == is_utf8(bytes@.skip(i as int)),
        decreases n - i,
    {
        let ghost t = bytes@.skip(i as int);
        proof {
            assert(t.len() == n - i);
            assert(forall|j: int| 0 <= j < t.len() ==> t[j] == bytes@[i + j]);
        }
        let remaining: usize = n - i;
        let b0 = bytes[i];
        assert(t[0] == b0);
        if b0 < 0x80 {
            proof {
                lemma_skip_of_skip(bytes@, i as int, 1);
            }
            i = i + 1;
        } else if 0xC2 <= b0 && b0 <= 0xDF {
            if remaining < 2 {
                assert(!is_utf8(t));
                return false;
            }
            let b1 = bytes[i + 1];
            assert(t[1] == b1);
            if 0x80 <= b1 && b1 <= 0xBF {
                proof {
                    lemma_skip_of_skip(bytes@, i as int, 2);
                }
                i = i + 2;
            } else {
                assert(!is_utf8(t));
                return false;
            }
        } else if 0xE0 <= b0 && b0 <= 0xEF {
            if remaining < 3 {
                assert(!is_utf8(t));
                return false;
            }
            let b1 = bytes[i + 1];
            let b2 = bytes[i + 2];
            assert(t[1] == b1 && t[2] == b2);
            let b1_ok: bool = if b0 == 0xE0 {
                0xA0 <= b1 && b1 <= 0xBF
            } else if b0 == 0xED {
                0x80 <= b1 && b1 <= 0x9F
            } else {
                0x80 <= b1 && b1 <= 0xBF
            };
            if b1_ok && 0x80 <= b2 && b2 <= 0xBF {
                proof {
                    lemma_skip_of_skip(bytes@, i as int, 3);
                }
                i = i + 3;
            } else {
                assert(!is_utf8(t));
                return false;
            }
        } else if 0xF0 <= b0 && b0 <= 0xF4 {
            if remaining < 4 {
                assert(!is_utf8(t));
                return false;
            }
            let b1 = bytes[i + 1];
            let b2 = bytes[i + 2];
            let b3 = bytes[i + 3];
            assert(t[1] == b1 && t[2] == b2 && t[3] == b3);
            let b1_ok: bool = if b0 == 0xF0 {
                0x90 <= b1 && b1 <= 0xBF
            } else if b0 == 0xF4 {
                0x80 <= b1 && b1 <= 0x8F
            } else {
                0x80 <= b1 && b1 <= 0xBF
            };
            if b1_ok && 0x80 <= b2 && b2 <= 0xBF && 0x80 <= b3 && b3 <= 0xBF {
                proof {
                    lemma_skip_of_skip(bytes@, i as int, 4);
                }
                i = i + 4;
            } else {
                assert(!is_utf8(t));
                return false;
            }
        } else {
            assert(!is_utf8(t));
            return false;
        }
    }
    assert(bytes@.skip(n as int) =~= Seq::<u8>::empty());
    true
}

} // verus!
