//! UTF-8 well-formedness: the byte-level grammar as a specification, and a
//! verified validator.
//!
//! The grammar is the shortest-form table: ASCII bytes stand alone; a leading
//! byte `C2..DF`, `E0..EF` or `F0..F4` opens a two-, three- or four-byte
//! sequence of continuation bytes `80..BF`, with the narrowed second-byte
//! ranges that exclude overlong forms (`E0`, `F0`), surrogates (`ED`) and
//! code points above `10FFFF` (`F4`).

use vstd::prelude::*;

verus! {

/// Whether `b` is a continuation byte (`10xxxxxx`).
pub open spec fn is_cont_byte(b: u8) -> bool {
    128 <= b < 192
}

/// Whether `s` is well-formed UTF-8.
pub open spec fn utf8_valid(s: Seq<u8>) -> bool
    decreases s.len(),
{
    if s.len() == 0 {
        true
    } else {
        let b0 = s[0];
        if b0 < 0x80 {
            utf8_valid(s.skip(1))
        } else if b0 < 0xC2 {
            false
        } else if b0 < 0xE0 {
            s.len() >= 2 && is_cont_byte(s[1]) && utf8_valid(s.skip(2))
        } else if b0 == 0xE0 {
            s.len() >= 3 && 0xA0 <= s[1] < 0xC0 && is_cont_byte(s[2]) && utf8_valid(s.skip(3))
        } else if b0 == 0xED {
            s.len() >= 3 && 0x80 <= s[1] < 0xA0 && is_cont_byte(s[2]) && utf8_valid(s.skip(3))
        } else if b0 < 0xF0 {
            s.len() >= 3 && is_cont_byte(s[1]) && is_cont_byte(s[2]) && utf8_valid(s.skip(3))
        } else if b0 == 0xF0 {
            s.len() >= 4 && 0x90 <= s[1] < 0xC0 && is_cont_byte(s[2]) && is_cont_byte(s[3])
                && utf8_valid(s.skip(4))
        } else if b0 < 0xF4 {
            s.len() >= 4 && is_cont_byte(s[1]) && is_cont_byte(s[2]) && is_cont_byte(s[3])
                && utf8_valid(s.skip(4))
        } else if b0 == 0xF4 {
            s.len() >= 4 && 0x80 <= s[1] < 0x90 && is_cont_byte(s[2]) && is_cont_byte(s[3])
                && utf8_valid(s.skip(4))
        } else {
            false
        }
    }
}

/// Decides whether `data` is well-formed UTF-8, one encoded code point at a
/// time.
pub fn validate_utf8(data: &[u8]) -> (r: bool)
    ensures
        r == utf8_valid(data@),
{
    let n: usize = data.len();
    let mut i: usize = 0;
    proof {
        assert(data@.skip(0) =~= data@);
    }
    while i < n
        invariant
            i <= n,
            n == data@.len(),
            utf8_valid(data@) == utf8_valid(data@.skip(i as int)),
        decreases n - i,
    {
        let ghost s = data@.skip(i as int);
        proof {
            assert(s[0] == data@[i as int]);
        }
        let b0: u8 = data[i];
        if b0 < 0x80 {
            proof {
                assert(data@.skip(i as int).skip(1) =~= data@.skip(i + 1));
            }
            i = i + 1;
        } else if b0 < 0xC2 {
            return false;
        } else if b0 < 0xE0 {
            if n - i < 2 {
                return false;
            }
            let b1: u8 = data[i + 1];
            proof {
                assert(s[1] == data@[i + 1]);
            }
            if !(128 <= b1 && b1 < 192) {
                return false;
            }
            proof {
                assert(data@.skip(i as int).skip(2) =~= data@.skip(i + 2));
            }
            i = i + 2;
        } else if b0 < 0xF0 {
            if n - i < 3 {
                return false;
            }
            let b1: u8 = data[i + 1];
            let b2: u8 = data[i + 2];
            proof {
                assert(s[1] == data@[i + 1]);
                assert(s[2] == data@[i + 2]);
            }
            let b1_ok: bool = if b0 == 0xE0 {
                160 <= b1 && b1 < 192
            } else if b0 == 0xED {
                128 <= b1 && b1 < 160
            } else {
                128 <= b1 && b1 < 192
            };
            if !b1_ok {
                return false;
            }
            if !(128 <= b2 && b2 < 192) {
                return false;
            }
            proof {
                assert(data@.skip(i as int).skip(3) =~= data@.skip(i + 3));
            }
            i = i + 3;
        } else if b0 <= 0xF4 {
            if n - i < 4 {
                return false;
            }
            let b1: u8 = data[i + 1];
            let b2: u8 = data[i + 2];
            let b3: u8 = data[i + 3];
            proof {
                assert(s[1] == data@[i + 1]);
                assert(s[2] == data@[i + 2]);
                assert(s[3] == data@[i + 3]);
            }
            let b1_ok: bool = if b0 == 0xF0 {
                144 <= b1 && b1 < 192
            } else if b0 == 0xF4 {
                128 <= b1 && b1 < 144
            } else {
                128 <= b1 && b1 < 192
            };
            if !b1_ok {
                return false;
            }
            if !(128 <= b2 && b2 < 192) {
                return false;
            }
            if !(128 <= b3 && b3 < 192) {
                return false;
            }
            proof {
                assert(data@.skip(i as int).skip(4) =~= data@.skip(i + 4));
            }
            i = i + 4;
        } else {
            return false;
        }
    }
    proof {
        assert(data@.skip(n as int) =~= Seq::<u8>::empty());
    }
    true
}

} // verus!
