//! Hexadecimal key material: a string of hex digit pairs read into bytes.

use vstd::prelude::*;

verus! {

/// The value of one hexadecimal digit; `None` for any other character.
/// Both cases are accepted.
pub open spec fn hex_val(c: char) -> Option<nat> {
    let u = c as u32;
    if 48 <= u && u <= 57 {
        Some((u - 48) as nat)
    } else if 97 <= u && u <= 102 {
        Some((u - 97 + 10) as nat)
    } else if 65 <= u && u <= 70 {
        Some((u - 65 + 10) as nat)
    } else {
        None
    }
}

/// The bytes a hexadecimal string denotes: two digits per byte, high
/// nibble first.  `None` on an odd length or a non-digit character.
pub open spec fn hex_bytes(s: Seq<char>) -> Option<Seq<u8>>
    decreases s.len(),
{
    if s.len() == 0 {
        Some(Seq::empty())
    } else if s.len() == 1 {
        None
    } else {
        match (hex_val(s[0]), hex_val(s[1])) {
            (Some(hi), Some(lo)) => match hex_bytes(s.skip(2)) {
                Some(rest) => Some(seq![(hi * 16 + lo) as u8] + rest),
                None => None,
            },
            _ => None,
        }
    }
}

fn hex_digit(c: char) -> (r: Option<u8>)
    ensures
        match r {
            Some(v) => hex_val(c) == Some(v as nat) && v < 16,
            None => hex_val(c) is None,
        },
{
    let u = c as u32;
    if 48 <= u && u <= 57 {
        Some((u - 48) as u8)
    } else if 97 <= u && u <= 102 {
        Some((u - 97 + 10) as u8)
    } else if 65 <= u && u <= 70 {
        Some((u - 65 + 10) as u8)
    } else {
        None
    }
}

/// Reads a hexadecimal string into its bytes: exactly the strings that
/// [`hex_bytes`] accepts are accepted.
pub fn decode_hex(s: &Vec<char>) -> (r: Option<Vec<u8>>)
    ensures
        match r {
            Some(b) => hex_bytes(s@) == Some(b@),
            None => hex_bytes(s@) is None,
        },
{
    let n = s.len();
    let mut out: Vec<u8> = Vec::new();
    let mut i: usize = 0;
    proof {
        assert(s@.skip(0) =~= s@);
        assert(out@ =~= Seq::<u8>::empty());
    }
    while i < n
        invariant
            n == s@.len(),
            i <= n,
            i % 2 == 0,
            forall|rest: Seq<u8>| hex_bytes(s@.skip(i as int)) == Some(rest)
                ==> hex_bytes(s@) == Some(out@ + rest),
            hex_bytes(s@.skip(i as int)) is None ==> hex_bytes(s@) is None,
        decreases n - i,
    {
        let ghost pre = s@.skip(i as int);
        if i + 1 >= n {
            proof {
                assert(pre.len() == 1);
                assert(hex_bytes(pre) is None);
            }
            return None;
        }
        let hi = match hex_digit(s[i]) {
            Option::Some(v) => v,
            Option::None => {
                proof {
                    assert(pre[0] == s@[i as int]);
                    assert(hex_bytes(pre) is None);
                }
                return None;
            },
        };
        let lo = match hex_digit(s[i + 1]) {
            Option::Some(v) => v,
            Option::None => {
                proof {
                    assert(pre[0] == s@[i as int]);
                    assert(pre[1] == s@[i as int + 1]);
                    assert(hex_bytes(pre) is None);
                }
                return None;
            },
        };
        let byte: u8 = hi * 16 + lo;
        let ghost prev = out@;
        out.push(byte);
        proof {
            assert(pre[0] == s@[i as int]);
            assert(pre[1] == s@[i as int + 1]);
            assert(pre.skip(2) =~= s@.skip(i as int + 2));
            assert forall|rest: Seq<u8>| hex_bytes(s@.skip(i as int + 2)) == Some(rest)
                implies hex_bytes(s@) == Some(out@ + rest) by {
                assert(hex_bytes(pre) == Some(seq![byte] + rest));
                assert(prev + (seq![byte] + rest) =~= out@ + rest);
            }
        }
        i = i + 2;
    }
    proof {
        assert(s@.skip(n as int) =~= Seq::<char>::empty());
        assert(hex_bytes(s@.skip(n as int)) == Some(Seq::<u8>::empty()));
        assert(out@ + Seq::<u8>::empty() =~= out@);
    }
    Some(out)
}

} // verus!
