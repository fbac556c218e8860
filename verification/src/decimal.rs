//! Decimal integer literals: recognising them the way `i64` parsing does
//! (optional sign, one or more ASCII digits, value in range) and printing
//! values back in canonical form.

use vstd::prelude::*;
use crate::strutil::push_char;

verus! {

pub open spec fn is_digit(c: char) -> bool {
    48 <= c as u32 <= 57
}

pub open spec fn digit_val(c: char) -> int {
    c as u32 - 48
}

pub open spec fn all_digits(s: Seq<char>) -> bool {
    forall|i: int| 0 <= i < s.len() ==> is_digit(#[trigger] s[i])
}

/// Value of a string of ASCII digits, most significant first.
pub open spec fn digits_val(s: Seq<char>) -> int
    decreases s.len(),
{
    if s.len() == 0 {
        0
    } else {
        digits_val(s.drop_last()) * 10 + digit_val(s.last())
    }
}

/// The integer denoted by `s` under the usual decimal-literal grammar
/// (an optional `+` or `-` sign, then one or more digits), or `None`
/// when `s` is not of that shape.
pub open spec fn int_literal_val(s: Seq<char>) -> Option<int> {
    let signed = s.len() > 0 && (s[0] == '-' || s[0] == '+');
    let body = if signed {
        s.drop_first()
    } else {
        s
    };
    if body.len() > 0 && all_digits(body) {
        if s.len() > 0 && s[0] == '-' {
            Some(-digits_val(body))
        } else {
            Some(digits_val(body))
        }
    } else {
        None
    }
}

/// As `int_literal_val`, further requiring the value to fit in an `i64`.
pub open spec fn i64_literal_val(s: Seq<char>) -> Option<int> {
    match int_literal_val(s) {
        Some(v) => if i64::MIN <= v <= i64::MAX {
            Some(v)
        } else {
            None
        },
        None => None,
    }
}

proof fn lemma_digits_val_nonneg(s: Seq<char>)
    requires
        all_digits(s),
    ensures
        digits_val(s) >= 0,
    decreases s.len(),
{
    if s.len() > 0 {
        assert(all_digits(s.drop_last()));
        lemma_digits_val_nonneg(s.drop_last());
    }
}

/// Appending further digits never decreases the value of a digit string.
proof fn lemma_digits_val_prefix_le(s: Seq<char>, i: int)
    requires
        all_digits(s),
        0 <= i <= s.len(),
    ensures
        digits_val(s.subrange(0, i)) <= digits_val(s),
    decreases s.len() - i,
{
    if i < s.len() {
        let t = s.subrange(0, i + 1);
        assert(t.drop_last() =~= s.subrange(0, i));
        assert(all_digits(s.subrange(0, i)));
        lemma_digits_val_nonneg(s.subrange(0, i));
        assert(digits_val(t) == digits_val(s.subrange(0, i)) * 10 + digit_val(s[i]));
        lemma_digits_val_prefix_le(s, i + 1);
    } else {
        assert(s.subrange(0, i) =~= s);
    }
}

/// Recognises exactly the strings accepted by `i64` decimal parsing and
/// returns their value.
pub fn parse_i64(s: &str) -> (r: Option<i64>)
    ensures
        match r {
            Some(v) => i64_literal_val(s@) == Some(v as int),
            None => i64_literal_val(s@) is None,
        },
{
    let n = s.unicode_len();
    if n == 0 {
        return None;
    }
    let c0 = s.get_char(0);
    let neg = c0 == '-';
    let signed = c0 == '-' || c0 == '+';
    let start: usize = if signed {
        1
    } else {
        0
    };
    if start == n {
        // a bare sign has an empty digit body
        return None;
    }
    let ghost body = if signed {
        s@.drop_first()
    } else {
        s@
    };
    proof {
        assert(body =~= s@.subrange(start as int, n as int));
    }
    let limit: u64 = if neg {
        9223372036854775808
    } else {
        9223372036854775807
    };
    let mut acc: u64 = 0;
    let mut i: usize = start;
    while i < n
        invariant
            start <= i <= n,
            n == s@.len(),
            0 < n,
            start < n,
            start == if signed { 1int } else { 0int },
            body == s@.subrange(start as int, n as int),
            neg ==> signed,
            signed == (s@[0] == '-' || s@[0] == '+'),
            neg == (s@[0] == '-'),
            limit == if neg { 9223372036854775808u64 } else { 9223372036854775807u64 },
            all_digits(s@.subrange(start as int, i as int)),
            acc == digits_val(s@.subrange(start as int, i as int)),
            acc <= limit,
        decreases n - i,
    {
        let c = s.get_char(i);
        let cu = c as u32;
        let ghost prefix = s@.subrange(start as int, i as int);
        let ghost prefix1 = s@.subrange(start as int, i as int + 1);
        proof {
            assert(prefix1.drop_last() =~= prefix);
            assert(prefix1.last() == s@[i as int]);
        }
        if cu < 48 || cu > 57 {
            // a non-digit inside the body: not an integer literal
            proof {
                if signed {
                    assert(body =~= s@.drop_first());
                } else {
                    assert(body =~= s@);
                }
                assert(!is_digit(body[i - start]));
            }
            return None;
        }
        let d: u64 = (cu - 48) as u64;
        if acc > (limit - d) / 10 {
            // the digits seen so far already exceed the i64 range
            proof {
                assert(acc * 10 + d > limit) by (nonlinear_arith)
                    requires
                        acc > (limit - d) / 10,
                        d <= limit,
                        0 <= acc,
                ;
                assert(digits_val(prefix1) == acc * 10 + d);
                if signed {
                    assert(body =~= s@.drop_first());
                } else {
                    assert(body =~= s@);
                }
                if all_digits(body) {
                    lemma_digits_val_prefix_le(body, i + 1 - start);
                    assert(body.subrange(0, i + 1 - start) =~= prefix1);
                    assert(digits_val(body) > limit);
                    if neg {
                        assert(int_literal_val(s@) == Some(-digits_val(body)));
                        assert(-digits_val(body) < i64::MIN);
                    } else {
                        assert(int_literal_val(s@) == Some(digits_val(body)));
                        assert(digits_val(body) > i64::MAX);
                    }
                }
            }
            return None;
        }
        proof {
            assert(acc * 10 + d <= limit) by (nonlinear_arith)
                requires
                    acc <= (limit - d) / 10,
                    d <= limit,
                    limit <= 9223372036854775808u64,
                    0 <= acc,
            ;
            assert(digits_val(prefix1) == acc * 10 + d);
        }
        acc = acc * 10 + d;
        i += 1;
    }
    proof {
        assert(s@.subrange(start as int, n as int) =~= body);
        assert(all_digits(body));
        assert(acc == digits_val(body));
    }
    if neg {
        if acc == 9223372036854775808 {
            Some(i64::MIN)
        } else {
            Some(-(acc as i64))
        }
    } else {
        Some(acc as i64)
    }
}

pub open spec fn digit_char(d: int) -> char {
    if d == 0 {
        '0'
    } else if d == 1 {
        '1'
    } else if d == 2 {
        '2'
    } else if d == 3 {
        '3'
    } else if d == 4 {
        '4'
    } else if d == 5 {
        '5'
    } else if d == 6 {
        '6'
    } else if d == 7 {
        '7'
    } else if d == 8 {
        '8'
    } else {
        '9'
    }
}

/// Canonical decimal form of a natural number: no sign, no leading zeros
/// (except for zero itself).
pub open spec fn dec_digits(n: nat) -> Seq<char>
    decreases n,
{
    if n < 10 {
        seq![digit_char(n as int)]
    } else {
        dec_digits(n / 10) + seq![digit_char((n % 10) as int)]
    }
}

/// Canonical decimal form of an integer: a `-` sign for negative values.
pub open spec fn dec_int(v: int) -> Seq<char> {
    if v < 0 {
        seq!['-'] + dec_digits((-v) as nat)
    } else {
        dec_digits(v as nat)
    }
}

fn digit_char_exec(d: u64) -> (c: char)
    requires
        d < 10,
    ensures
        c == digit_char(d as int),
{
    if d == 0 {
        '0'
    } else if d == 1 {
        '1'
    } else if d == 2 {
        '2'
    } else if d == 3 {
        '3'
    } else if d == 4 {
        '4'
    } else if d == 5 {
        '5'
    } else if d == 6 {
        '6'
    } else if d == 7 {
        '7'
    } else if d == 8 {
        '8'
    } else {
        '9'
    }
}

fn u64_to_dec(n: u64) -> (r: String)
    ensures
        r@ == dec_digits(n as nat),
{
    let mut rev: Vec<char> = Vec::new();
    let mut m: u64 = n;
    while m >= 10
        invariant
            dec_digits(n as nat) =~= dec_digits(m as nat) + rev@.reverse(),
        decreases m,
    {
        let c = digit_char_exec(m % 10);
        let ghost old_rev = rev@;
        rev.push(c);
        proof {
            assert(rev@.reverse() =~= seq![c] + old_rev.reverse());
            assert(dec_digits(m as nat) =~= dec_digits((m / 10) as nat) + seq![c]);
        }
        m = m / 10;
    }
    let mut out = String::new();
    push_char(&mut out, digit_char_exec(m));
    let mut j: usize = rev.len();
    while j > 0
        invariant
            j <= rev@.len(),
            out@ =~= seq![digit_char(m as int)] + rev@.reverse().subrange(
                0,
                rev@.len() - j,
            ),
        decreases j,
    {
        j -= 1;
        push_char(&mut out, rev[j]);
        proof {
            assert(rev@.reverse()[rev@.len() - 1 - j] == rev@[j as int]);
            assert(out@ =~= seq![digit_char(m as int)] + rev@.reverse().subrange(
                0,
                rev@.len() - j,
            ));
        }
    }
    proof {
        assert(rev@.reverse().subrange(0, rev@.len() as int) =~= rev@.reverse());
        assert(out@ =~= dec_digits(n as nat));
    }
    out
}

/// Prints `v` in canonical decimal form.
pub fn i64_to_dec(v: i64) -> (r: String)
    ensures
        r@ == dec_int(v as int),
{
    if v >= 0 {
        u64_to_dec(v as u64)
    } else {
        let mag: u64 = if v == i64::MIN {
            9223372036854775808
        } else {
            (-v) as u64
        };
        let digits = u64_to_dec(mag);
        let mut out = String::new();
        push_char(&mut out, '-');
        out.append(digits.as_str());
        proof {
            assert(out@ =~= seq!['-'] + dec_digits(mag as nat));
        }
        out
    }
}

/// The canonical decimal form of a natural number consists of digits only.
pub proof fn lemma_dec_digits_all_digits(n: nat)
    ensures
        all_digits(dec_digits(n)),
        dec_digits(n).len() >= 1,
    decreases n,
{
    if n >= 10 {
        lemma_dec_digits_all_digits(n / 10)
    }
}

proof fn lemma_digit_char_val(d: int)
    requires
        0 <= d < 10,
    ensures
        digit_val(digit_char(d)) == d,
        is_digit(digit_char(d)),
{
}

/// Printing and re-reading a natural number gives the number back.
pub proof fn lemma_dec_digits_val(n: nat)
    ensures
        digits_val(dec_digits(n)) == n,
    decreases n,
{
    if n < 10 {
        lemma_digit_char_val(n as int);
        assert(dec_digits(n).drop_last() =~= Seq::<char>::empty());
        assert(dec_digits(n).last() == digit_char(n as int));
        assert(digits_val(dec_digits(n)) == digits_val(Seq::<char>::empty()) * 10 + digit_val(
            digit_char(n as int),
        ));
    } else {
        lemma_dec_digits_val(n / 10);
        lemma_digit_char_val((n % 10) as int);
        assert(dec_digits(n).drop_last() =~= dec_digits(n / 10));
        assert(digits_val(dec_digits(n)) == digits_val(dec_digits(n / 10)) * 10 + digit_val(
            digit_char((n % 10) as int),
        ));
    }
}

/// The canonical decimal form of an `i64` value parses back to that value.
pub proof fn lemma_dec_int_round_trip(v: int)
    requires
        i64::MIN <= v <= i64::MAX,
    ensures
        i64_literal_val(dec_int(v)) == Some(v),
{
    if v < 0 {
        let m = (-v) as nat;
        lemma_dec_digits_all_digits(m);
        lemma_dec_digits_val(m);
        let s = dec_int(v);
        assert(s[0] == '-');
        assert(s.drop_first() =~= dec_digits(m));
        assert(int_literal_val(s) == Some(-digits_val(dec_digits(m))));
    } else {
        let m = v as nat;
        lemma_dec_digits_all_digits(m);
        lemma_dec_digits_val(m);
        let s = dec_int(v);
        assert(is_digit(s[0]));
        assert(s[0] != '-' && s[0] != '+');
        assert(int_literal_val(s) == Some(digits_val(dec_digits(m))));
    }
}

} // verus!
