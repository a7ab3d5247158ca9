//! Byte-level text helpers shared by the response and summary logic.
//!
//! `git` writes its answers as lines of bytes; the bridge trims trailing
//! line endings and reads decimal counts out of them before anything is
//! decoded into a `String`.

use vstd::prelude::*;

verus! {

/// Bytes treated as trailing whitespace on a `git` output line:
/// space, tab, line feed, carriage return.
pub open spec fn is_ws_byte(b: u8) -> bool {
    b == 32 || b == 9 || b == 10 || b == 13
}

/// `s` with every trailing whitespace byte removed.
pub open spec fn trim_right(s: Seq<u8>) -> Seq<u8>
    decreases s.len(),
{
    if s.len() == 0 {
        s
    } else if is_ws_byte(s[s.len() - 1]) {
        trim_right(s.drop_last())
    } else {
        s
    }
}

/// Dropping a trailing whitespace byte does not change the trimmed value.
proof fn lemma_trim_right_step(s: Seq<u8>, n: int)
    requires
        0 < n <= s.len(),
        is_ws_byte(s[n - 1]),
    ensures
        trim_right(s.take(n)) == trim_right(s.take(n - 1)),
{
    assert(s.take(n).len() == n);
    assert(s.take(n)[n - 1] == s[n - 1]);
    assert(s.take(n).drop_last() == s.take(n - 1));
}

/// The copy of `v` with every trailing whitespace byte removed.
pub fn trim_trailing(v: &Vec<u8>) -> (r: Vec<u8>)
    ensures
        r@ == trim_right(v@),
{
    let mut n: usize = v.len();
    proof {
        assert(v@.take(v@.len() as int) == v@);
    }
    loop
        invariant
            n <= v@.len(),
            trim_right(v@) == trim_right(v@.take(n as int)),
        ensures
            n <= v@.len(),
            trim_right(v@) == v@.take(n as int),
        decreases n,
    {
        proof {
            assert(v@.take(v@.len() as int) == v@);
        }
        if n == 0 {
            proof {
                assert(v@.take(0) =~= Seq::<u8>::empty());
            }
            break;
        }
        let b = v[n - 1];
        if b == 32 || b == 9 || b == 10 || b == 13 {
            proof {
                lemma_trim_right_step(v@, n as int);
            }
            n = n - 1;
        } else {
            proof {
                assert(v@.take(n as int)[n - 1] == v@[n - 1]);
            }
            break;
        }
    }
    let mut r: Vec<u8> = Vec::new();
    let mut i: usize = 0;
    while i < n
        invariant
            i <= n <= v@.len(),
            r@ == v@.take(i as int),
        decreases n - i,
    {
        r.push(v[i]);
        proof {
            assert(v@.take(i + 1) == v@.take(i as int).push(v@[i as int]));
        }
        i = i + 1;
    }
    r
}

/// Appends a copy of `src` to `out`.
pub fn append_bytes(out: &mut Vec<u8>, src: &Vec<u8>)
    ensures
        final(out)@ == old(out)@ + src@,
{
    proof {
        assert(old(out)@ + src@.take(0) =~= old(out)@);
    }
    let mut i: usize = 0;
    while i < src.len()
        invariant
            i <= src@.len(),
            out@ == old(out)@ + src@.take(i as int),
        decreases src@.len() - i,
    {
        out.push(src[i]);
        proof {
            assert(old(out)@ + src@.take(i + 1) =~= (old(out)@ + src@.take(i as int)).push(
                src@[i as int],
            ));
        }
        i = i + 1;
    }
    proof {
        assert(src@.take(src@.len() as int) == src@);
    }
}

/// The bytes of `v` from `from` (inclusive) to `to` (exclusive).
pub fn sub_bytes(v: &Vec<u8>, from: usize, to: usize) -> (r: Vec<u8>)
    requires
        from <= to <= v@.len(),
    ensures
        r@ == v@.subrange(from as int, to as int),
{
    let mut r: Vec<u8> = Vec::new();
    proof {
        assert(v@.subrange(from as int, from as int) =~= Seq::<u8>::empty());
    }
    let mut i: usize = from;
    while i < to
        invariant
            from <= i <= to <= v@.len(),
            r@ == v@.subrange(from as int, i as int),
        decreases to - i,
    {
        r.push(v[i]);
        proof {
            assert(v@.subrange(from as int, i + 1) =~= v@.subrange(from as int, i as int).push(
                v@[i as int],
            ));
        }
        i = i + 1;
    }
    r
}

/// A decimal digit byte, `'0'` through `'9'`.
pub open spec fn is_digit(b: u8) -> bool {
    48 <= b && b <= 57
}

pub open spec fn all_digits(s: Seq<u8>) -> bool {
    forall|i: int| 0 <= i < s.len() ==> is_digit(#[trigger] s[i])
}

/// The number a decimal digit byte stands for.
pub open spec fn digit_val(b: u8) -> nat
    recommends
        is_digit(b),
{
    (b - 48) as nat
}

/// The number a sequence of decimal digit bytes denotes, most
/// significant digit first.
pub open spec fn dec_val(s: Seq<u8>) -> nat
    decreases s.len(),
{
    if s.len() == 0 {
        0
    } else {
        dec_val(s.drop_last()) * 10 + digit_val(s.last())
    }
}

/// One more digit multiplies the value so far by ten.
proof fn lemma_dec_val_step(s: Seq<u8>, i: int)
    requires
        0 <= i < s.len(),
    ensures
        dec_val(s.take(i + 1)) == dec_val(s.take(i)) * 10 + digit_val(s[i]),
{
    assert(s.take(i + 1).drop_last() == s.take(i));
    assert(s.take(i + 1).last() == s[i]);
}

/// A prefix of a digit string never denotes more than the whole.
proof fn lemma_dec_val_prefix_le(s: Seq<u8>, i: int)
    requires
        0 <= i <= s.len(),
    ensures
        dec_val(s.take(i)) <= dec_val(s),
    decreases s.len() - i,
{
    if i == s.len() {
        assert(s.take(i) == s);
    } else {
        lemma_dec_val_step(s, i);
        lemma_dec_val_prefix_le(s, i + 1);
    }
}

/// Reads `v` as an unsigned decimal number.  Returns the value exactly
/// when `v` is one or more digit bytes and the number fits in `u64`.
pub fn parse_u64(v: &Vec<u8>) -> (r: Option<u64>)
    ensures
        r is Some <==> v@.len() > 0 && all_digits(v@) && dec_val(v@) <= u64::MAX,
        r matches Some(x) ==> x == dec_val(v@),
{
    if v.len() == 0 {
        return None;
    }
    let mut acc: u64 = 0;
    let mut i: usize = 0;
    proof {
        assert(v@.take(0) =~= Seq::<u8>::empty());
    }
    while i < v.len()
        invariant
            i <= v@.len(),
            all_digits(v@.take(i as int)),
            acc == dec_val(v@.take(i as int)),
        decreases v@.len() - i,
    {
        let b = v[i];
        if b < 48 || b > 57 {
            proof {
                assert(!is_digit(v@[i as int]));
            }
            return None;
        }
        let d: u64 = (b - 48) as u64;
        proof {
            lemma_dec_val_step(v@, i as int);
        }
        let shifted = match acc.checked_mul(10) {
            Some(s) => s,
            None => {
                proof {
                    lemma_dec_val_prefix_le(v@, i + 1);
                }
                return None;
            },
        };
        acc = match shifted.checked_add(d) {
            Some(s) => s,
            None => {
                proof {
                    lemma_dec_val_prefix_le(v@, i + 1);
                }
                return None;
            },
        };
        i = i + 1;
    }
    proof {
        assert(v@.take(i as int) == v@);
    }
    Some(acc)
}

/// The seven bytes of `origin/`, the prefix `git` puts on the short
/// name of a remote-tracking branch.
pub open spec fn origin_prefix() -> Seq<u8> {
    seq![111u8, 114u8, 105u8, 103u8, 105u8, 110u8, 47u8]
}

/// Strips the leading `origin/` from a remote branch name.  Succeeds
/// exactly when the name has that prefix and something after it.
pub fn strip_origin_prefix(v: &Vec<u8>) -> (r: Option<Vec<u8>>)
    ensures
        r is Some <==> v@.len() > 7 && v@.take(7) == origin_prefix(),
        r matches Some(loc) ==> loc@ == v@.skip(7) && v@ == origin_prefix() + loc@,
{
    if v.len() <= 7 {
        return None;
    }
    let expected: [u8; 7] = [111, 114, 105, 103, 105, 110, 47];
    let mut i: usize = 0;
    while i < 7
        invariant
            i <= 7,
            v@.len() > 7,
            expected@ == origin_prefix(),
            forall|j: int| 0 <= j < i ==> v@[j] == origin_prefix()[j],
        decreases 7 - i,
    {
        if v[i] != expected[i] {
            proof {
                assert(v@.take(7)[i as int] == v@[i as int]);
                assert(v@.take(7) != origin_prefix());
            }
            return None;
        }
        i = i + 1;
    }
    proof {
        assert(v@.take(7) =~= origin_prefix());
    }
    let mut loc: Vec<u8> = Vec::new();
    let mut k: usize = 7;
    while k < v.len()
        invariant
            7 <= k <= v@.len(),
            loc@ == v@.subrange(7, k as int),
        decreases v@.len() - k,
    {
        loc.push(v[k]);
        proof {
            assert(v@.subrange(7, k + 1) == v@.subrange(7, k as int).push(v@[k as int]));
        }
        k = k + 1;
    }
    proof {
        assert(loc@ == v@.skip(7));
        assert(v@ =~= origin_prefix() + v@.skip(7));
    }
    Some(loc)
}

} // verus!
