//! Decoder for the probe format's backslash escapes.
//!
//! `\0`, `\n`, `\r`, `\t` decode to their control bytes, `\xHH` to the
//! byte with hex value `HH` (exactly two hex digits), and any other
//! escaped byte to itself (this covers `\\`, `\'`, `\"` and `\/`).
//! Unescaped bytes pass through unchanged, non-ASCII included.  A
//! trailing lone backslash, a truncated `\x`, or a non-hex digit after
//! `\x` is a format error.

use vstd::prelude::*;

verus! {

/// Value of an ASCII hex digit, if `b` is one.
pub open spec fn hex_val(b: u8) -> Option<u8> {
    if 0x30 <= b && b <= 0x39 {
        Some((b - 0x30) as u8)
    } else if 0x61 <= b && b <= 0x66 {
        Some((b - 0x61 + 10) as u8)
    } else if 0x41 <= b && b <= 0x46 {
        Some((b - 0x41 + 10) as u8)
    } else {
        None
    }
}

/// The byte a single-character escape `\c` decodes to.
pub open spec fn escape_byte(c: u8) -> u8 {
    if c == 0x30 {
        0x00
    } else if c == 0x6e {
        0x0a
    } else if c == 0x72 {
        0x0d
    } else if c == 0x74 {
        0x09
    } else {
        c
    }
}

pub open spec fn opt_prepend(b: u8, rest: Option<Seq<u8>>) -> Option<Seq<u8>> {
    match rest {
        Some(r) => Some(seq![b] + r),
        None => None,
    }
}

/// The decoded bytes of `s`, or `None` on a malformed escape.
pub open spec fn spec_unescape(s: Seq<u8>) -> Option<Seq<u8>>
    decreases s.len(),
{
    if s.len() == 0 {
        Some(Seq::empty())
    } else if s.first() != 0x5c {
        opt_prepend(s.first(), spec_unescape(s.drop_first()))
    } else if s.len() == 1 {
        None
    } else if s[1] == 0x78 {
        if s.len() < 4 {
            None
        } else {
            match (hex_val(s[2]), hex_val(s[3])) {
                (Some(h), Some(l)) => opt_prepend((h * 16 + l) as u8, spec_unescape(s.skip(4))),
                _ => None,
            }
        }
    } else {
        opt_prepend(escape_byte(s[1]), spec_unescape(s.skip(2)))
    }
}

/// A sequence without backslashes decodes to itself.
pub proof fn lemma_unescape_no_escapes(s: Seq<u8>)
    requires
        forall|k: int| 0 <= k < s.len() ==> s[k] != 0x5c,
    ensures
        spec_unescape(s) == Some(s),
    decreases s.len(),
{
    if s.len() > 0 {
        assert(s.first() != 0x5c) by { assert(s[0] != 0x5c); }
        assert(forall|k: int| 0 <= k < s.drop_first().len() ==> s.drop_first()[k] == s[k + 1]);
        lemma_unescape_no_escapes(s.drop_first());
        assert(seq![s.first()] + s.drop_first() =~= s);
    }
}

fn hex_digit(b: u8) -> (r: Option<u8>)
    ensures
        r == hex_val(b),
{
    if 0x30 <= b && b <= 0x39 {
        Some(b - 0x30)
    } else if 0x61 <= b && b <= 0x66 {
        Some(b - 0x61 + 10)
    } else if 0x41 <= b && b <= 0x46 {
        Some(b - 0x41 + 10)
    } else {
        None
    }
}

/// Decodes the backslash escapes of `s` to raw bytes.
pub fn unescape(s: &[u8]) -> (r: Option<Vec<u8>>)
    ensures
        match r {
            Some(v) => spec_unescape(s@) == Some(v@),
            None => spec_unescape(s@) is None,
        },
{
    let mut out: Vec<u8> = Vec::new();
    let mut i: usize = 0;
    proof {
        assert(s@.skip(0) =~= s@);
    }
    while i < s.len()
        invariant
            i <= s@.len(),
            match spec_unescape(s@.skip(i as int)) {
                Some(rest) => spec_unescape(s@) == Some(out@ + rest),
                None => spec_unescape(s@) is None,
            },
        decreases s@.len() - i,
    {
        let ghost t = s@.skip(i as int);
        let c = s[i];
        proof {
            assert(t.first() == s@[i as int]);
        }
        if c != 0x5c {
            proof {
                assert(t.drop_first() =~= s@.skip(i as int + 1));
            }
            let ghost old_out = out@;
            out.push(c);
            proof {
                if let Some(rest) = spec_unescape(s@.skip(i as int + 1)) {
                    assert(old_out + (seq![c] + rest) =~= out@ + rest);
                }
            }
            i = i + 1;
        } else {
            if i + 1 >= s.len() {
                proof {
                    assert(t.len() == 1);
                }
                return None;
            }
            let e = s[i + 1];
            proof {
                assert(t[1] == s@[i as int + 1]);
            }
            if e == 0x78 {
                if s.len() - i < 4 {
                    proof {
                        assert(t.len() < 4);
                    }
                    return None;
                }
                proof {
                    assert(t[2] == s@[i as int + 2]);
                    assert(t[3] == s@[i as int + 3]);
                    assert(t.skip(4) =~= s@.skip(i as int + 4));
                }
                let h = hex_digit(s[i + 2]);
                let l = hex_digit(s[i + 3]);
                match (h, l) {
                    (Some(hv), Some(lv)) => {
                        let b = hv * 16 + lv;
                        let ghost old_out = out@;
                        out.push(b);
                        proof {
                            if let Some(rest) = spec_unescape(s@.skip(i as int + 4)) {
                                assert(old_out + (seq![b] + rest) =~= out@ + rest);
                            }
                        }
                        i = i + 4;
                    }
                    _ => {
                        return None;
                    }
                }
            } else {
                proof {
                    assert(t.skip(2) =~= s@.skip(i as int + 2));
                }
                let b = if e == 0x30 {
                    0x00
                } else if e == 0x6e {
                    0x0au8
                } else if e == 0x72 {
                    0x0du8
                } else if e == 0x74 {
                    0x09u8
                } else {
                    e
                };
                let ghost old_out = out@;
                out.push(b);
                proof {
                    assert(b == escape_byte(e));
                    if let Some(rest) = spec_unescape(s@.skip(i as int + 2)) {
                        assert(old_out + (seq![b] + rest) =~= out@ + rest);
                    }
                }
                i = i + 2;
            }
        }
    }
    proof {
        assert(s@.skip(s@.len() as int) =~= Seq::<u8>::empty());
        assert(out@ + Seq::<u8>::empty() =~= out@);
    }
    Some(out)
}

} // verus!
