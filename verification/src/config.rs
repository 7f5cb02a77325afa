//! Parsing of the timeout value as the command line supplies it: a whole
//! number of seconds, optionally signed with a leading `+`, within `u64`.

use vstd::prelude::*;

verus! {

/// The numeric value of a decimal digit character.
pub open spec fn digit_val(c: char) -> int {
    c as u32 - 48
}

/// `c` is a decimal digit.
pub open spec fn is_dec_digit(c: char) -> bool {
    48 <= c as u32 <= 57
}

/// Every character of `s` is a decimal digit.
pub open spec fn digits_only(s: Seq<char>) -> bool {
    forall|i: int| 0 <= i < s.len() ==> is_dec_digit(#[trigger] s[i])
}

/// The value of `s` read as a decimal numeral.
pub open spec fn dec_value(s: Seq<char>) -> int
    decreases s.len(),
{
    if s.len() == 0 {
        0
    } else {
        dec_value(s.drop_last()) * 10 + digit_val(s.last())
    }
}

/// `s` without an optional single leading `+`.
pub open spec fn seconds_body(s: Seq<char>) -> Seq<char> {
    if s.len() > 0 && s[0] == '+' {
        s.drop_first()
    } else {
        s
    }
}

/// What `str::parse::<u64>` accepts: an optional leading `+`, then at
/// least one digit, naming a value that fits in a `u64`.
pub open spec fn valid_seconds(s: Seq<char>) -> bool {
    digits_only(seconds_body(s)) && seconds_body(s).len() > 0 && dec_value(seconds_body(s))
        <= u64::MAX
}

/// A decimal numeral's value is never negative.
proof fn lemma_dec_value_nonneg(s: Seq<char>)
    requires
        digits_only(s),
    ensures
        dec_value(s) >= 0,
    decreases s.len(),
{
    if s.len() > 0 {
        assert(forall|i: int|
            0 <= i < s.drop_last().len() ==> is_dec_digit(#[trigger] s.drop_last()[i]));
        lemma_dec_value_nonneg(s.drop_last());
    }
}

/// A decimal numeral is worth at least any of its prefixes.
proof fn lemma_dec_value_prefix(s: Seq<char>, n: int)
    requires
        digits_only(s),
        0 <= n <= s.len(),
    ensures
        dec_value(s.take(n)) <= dec_value(s),
    decreases s.len() - n,
{
    if n < s.len() {
        assert(forall|i: int|
            0 <= i < s.drop_last().len() ==> is_dec_digit(#[trigger] s.drop_last()[i]));
        assert(s.take(n) =~= s.drop_last().take(n));
        lemma_dec_value_prefix(s.drop_last(), n);
        lemma_dec_value_nonneg(s.drop_last());
        assert(dec_value(s.drop_last()) * 10 >= dec_value(s.drop_last())) by (nonlinear_arith)
            requires
                dec_value(s.drop_last()) >= 0,
        ;
    } else {
        assert(s.take(n) =~= s);
    }
}

/// Parses the timeout option's whole number of seconds: `Ok` with the
/// value on a numeral that fits in a `u64`, the fixed message otherwise.
pub fn parse_duration(x: &str) -> (r: Result<u64, String>)
    ensures
        match r {
            Ok(n) => valid_seconds(x@) && n == dec_value(seconds_body(x@)),
            Err(e) => !valid_seconds(x@) && e@ == "Invalid number of seconds"@,
        },
{
    let len = x.unicode_len();
    let mut i: usize = 0;
    if len > 0 && x.get_char(0) == '+' {
        i = 1;
    }
    let ghost start = i as int;
    let ghost b = seconds_body(x@);
    proof {
        assert(b =~= x@.skip(start));
    }
    if i >= len {
        return Err(String::from_str("Invalid number of seconds"));
    }
    let mut acc: u64 = 0;
    while i < len
        invariant
            0 <= start <= i <= len,
            len == x@.len(),
            b == x@.skip(start),
            b == seconds_body(x@),
            b.len() == len - start,
            digits_only(b.take(i - start)),
            acc == dec_value(b.take(i - start)),
        decreases len - i,
    {
        proof {
            assert(b.take(i - start + 1).drop_last() =~= b.take(i - start));
            assert(x@.skip(start)[i - start] == x@[i as int]);
            assert(b.take(i - start + 1).last() == b[i - start]);
        }
        let c = x.get_char(i);
        let d: u32 = c as u32;
        if d < 48 || d > 57 {
            proof {
                assert(b[i - start] == c);
                assert(!is_dec_digit(b[i - start]));
            }
            return Err(String::from_str("Invalid number of seconds"));
        }
        let dv: u64 = (d - 48) as u64;
        let overflowed: bool = match acc.checked_mul(10) {
            Some(t) => {
                match t.checked_add(dv) {
                    Some(next) => {
                        acc = next;
                        false
                    },
                    None => true,
                }
            },
            None => true,
        };
        if overflowed {
            proof {
                let ghost pre = b.take(i - start);
                lemma_dec_value_nonneg(pre);
                assert(dec_value(b.take(i - start + 1)) > u64::MAX) by (nonlinear_arith)
                    requires
                        dec_value(b.take(i - start + 1)) == dec_value(pre) * 10 + digit_val(
                            b.take(i - start + 1).last(),
                        ),
                        dec_value(pre) * 10 + dv > u64::MAX,
                        digit_val(b.take(i - start + 1).last()) == dv,
                ;
                if digits_only(b) {
                    assert(digits_only(b.take(i - start + 1)));
                    lemma_dec_value_prefix(b, i - start + 1);
                    assert(dec_value(b) > u64::MAX);
                }
            }
            return Err(String::from_str("Invalid number of seconds"));
        }
        i = i + 1;
    }
    proof {
        assert(b.take(len - start) =~= b);
    }
    Ok(acc)
}

} // verus!
