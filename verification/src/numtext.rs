use vstd::prelude::*;

verus! {

/// The decimal digit standing for `d`.
pub open spec fn digit_char(d: nat) -> char {
    if d == 0 {
        '0'
    } else if d == 1 {
        '1'
    } else if d == 2 {
        '2'
    } else if d == 3 {
        '3'
    } else if d == 4 {
        '4'
    } else if d == 5 {
        '5'
    } else if d == 6 {
        '6'
    } else if d == 7 {
        '7'
    } else if d == 8 {
        '8'
    } else {
        '9'
    }
}

pub open spec fn is_digit(c: char) -> bool {
    '0' <= c && c <= '9'
}

/// The value of a decimal digit.
pub open spec fn digit_val(c: char) -> nat {
    (c as u32 - '0' as u32) as nat
}

/// The canonical decimal spelling of a natural number.
pub open spec fn dec_of(n: nat) -> Seq<char>
    decreases n,
{
    if n < 10 {
        seq![digit_char(n)]
    } else {
        dec_of(n / 10) + seq![digit_char(n % 10)]
    }
}

/// The canonical spelling of a signed number: a minus sign before the
/// magnitude when it is negative.
pub open spec fn int_dec_of(n: int) -> Seq<char> {
    if n < 0 {
        seq!['-'] + dec_of((-n) as nat)
    } else {
        dec_of(n as nat)
    }
}

/// The value of a sequence of decimal digits.
pub open spec fn dec_val(s: Seq<char>) -> nat
    decreases s.len(),
{
    if s.len() == 0 {
        0
    } else {
        dec_val(s.drop_last()) * 10 + digit_val(s.last())
    }
}

pub open spec fn all_digits(s: Seq<char>) -> bool {
    forall|i: int| 0 <= i < s.len() ==> is_digit(#[trigger] s[i])
}

pub proof fn lemma_digit_val_char(d: nat)
    requires
        d < 10,
    ensures
        digit_val(digit_char(d)) == d,
        is_digit(digit_char(d)),
{
}

pub proof fn lemma_dec_of_digits(n: nat)
    ensures
        dec_of(n).len() >= 1,
        all_digits(dec_of(n)),
        dec_val(dec_of(n)) == n,
        dec_of(n)[0] == '0' ==> n == 0,
        n == 0 ==> dec_of(n) =~= seq!['0'],
    decreases n,
{
    if n < 10 {
        lemma_digit_val_char(n);
        assert(dec_of(n) =~= seq![digit_char(n)]);
        assert(dec_of(n).drop_last() =~= Seq::<char>::empty());
        assert(dec_of(n).last() == digit_char(n));
        assert(dec_val(dec_of(n)) == dec_val(Seq::<char>::empty()) * 10 + digit_val(
            digit_char(n),
        ));
    } else {
        lemma_dec_of_digits(n / 10);
        lemma_digit_val_char(n % 10);
        let s = dec_of(n);
        assert(s =~= dec_of(n / 10) + seq![digit_char(n % 10)]);
        assert(s.drop_last() =~= dec_of(n / 10));
        assert(s.last() == digit_char(n % 10));
        vstd::arithmetic::div_mod::lemma_fundamental_div_mod(n as int, 10);
    }
}

/// Appending a digit multiplies the value by ten and adds the digit.
pub proof fn lemma_dec_val_push(s: Seq<char>, c: char)
    ensures
        dec_val(s.push(c)) == dec_val(s) * 10 + digit_val(c),
{
    assert(s.push(c).drop_last() =~= s);
    assert(s.push(c).last() == c);
}

/// Digits to the left only grow the value.
pub proof fn lemma_dec_val_prefix_grows(s: Seq<char>, i: int)
    requires
        0 <= i <= s.len(),
    ensures
        dec_val(s) >= dec_val(s.take(i)),
    decreases s.len() - i,
{
    if i < s.len() {
        assert(s.take(i + 1).drop_last() =~= s.take(i));
        assert(dec_val(s.take(i + 1)) == dec_val(s.take(i)) * 10 + digit_val(s.take(i + 1).last()));
        assert(dec_val(s.take(i)) * 10 >= dec_val(s.take(i))) by (nonlinear_arith);
        lemma_dec_val_prefix_grows(s, i + 1);
        assert(s.take(s.len() as int) =~= s);
    } else {
        assert(s.take(i) =~= s);
    }
}

/// The decimal digit for `d`.
pub fn digit_char_of(d: u64) -> (c: char)
    requires
        d < 10,
    ensures
        c == digit_char(d as nat),
{
    if d == 0 {
        '0'
    } else if d == 1 {
        '1'
    } else if d == 2 {
        '2'
    } else if d == 3 {
        '3'
    } else if d == 4 {
        '4'
    } else if d == 5 {
        '5'
    } else if d == 6 {
        '6'
    } else if d == 7 {
        '7'
    } else if d == 8 {
        '8'
    } else {
        '9'
    }
}

/// Writes `n` in decimal.
pub fn u64_dec(n: u64) -> (r: Vec<char>)
    ensures
        r@ == dec_of(n as nat),
    decreases n,
{
    if n < 10 {
        let mut r: Vec<char> = Vec::new();
        r.push(digit_char_of(n));
        proof {
            assert(r@ =~= seq![digit_char(n as nat)]);
        }
        r
    } else {
        let mut r = u64_dec(n / 10);
        r.push(digit_char_of(n % 10));
        proof {
            assert(r@ =~= dec_of((n / 10) as nat) + seq![digit_char((n % 10) as nat)]);
        }
        r
    }
}

/// Writes `n` in decimal, with a minus sign when it is negative.
pub fn i64_dec(n: i64) -> (r: Vec<char>)
    ensures
        r@ == int_dec_of(n as int),
{
    if n >= 0 {
        u64_dec(n as u64)
    } else {
        let mag: u64 = if n == i64::MIN {
            9223372036854775808u64
        } else {
            (-n) as u64
        };
        let mut r: Vec<char> = Vec::new();
        r.push('-');
        let mut digits = u64_dec(mag);
        let mut j: usize = 0;
        let digits_len = digits.len();
        while j < digits_len
            invariant
                j <= digits_len == digits@.len(),
                r@ == seq!['-'] + digits@.take(j as int),
            decreases digits_len - j,
        {
            let c = digits[j];
            r.push(c);
            proof {
                assert(digits@.take(j + 1) =~= digits@.take(j as int).push(c));
                assert((seq!['-'] + digits@.take(j as int)).push(c) =~= seq!['-'] + digits@.take(
                    j as int,
                ).push(c));
            }
            j = j + 1;
        }
        proof {
            assert(digits@.take(digits@.len() as int) =~= digits@);
        }
        r
    }
}

/// The value of the digits of `s`, read as a signed decimal number; `None`
/// when `s` is not a well-formed number or does not fit in an `i64`.
pub open spec fn spec_parse_i64(s: Seq<char>) -> Option<i64> {
    if s.len() >= 1 && s[0] == '-' {
        let digits = s.skip(1);
        if digits.len() >= 1 && all_digits(digits) && dec_val(digits) <= 9223372036854775808nat {
            Some((-(dec_val(digits) as int)) as i64)
        } else {
            None
        }
    } else {
        if s.len() >= 1 && all_digits(s) && dec_val(s) <= 9223372036854775807nat {
            Some(dec_val(s) as i64)
        } else {
            None
        }
    }
}

pub fn digit_of_char(c: char) -> (r: Option<u64>)
    ensures
        r is Some <==> is_digit(c),
        r is Some ==> r->0 < 10 && r->0 as nat == digit_val(c),
{
    let u = c as u32;
    if 48 <= u && u < 58 {
        Some((u - 48) as u64)
    } else {
        None
    }
}

/// Reads the digits `s[from..]` as a natural number, failing when a character
/// is no digit or the value passes `limit`.
fn dec_digits_val(s: &Vec<char>, from: usize, limit: u64) -> (r: Option<u64>)
    requires
        from <= s@.len(),
        9 <= limit < u64::MAX,
    ensures
        match r {
            Some(v) => s@.skip(from as int).len() >= 1 && all_digits(s@.skip(from as int)) && v
                as nat == dec_val(s@.skip(from as int)) && v <= limit,
            None => s@.skip(from as int).len() == 0 || !all_digits(s@.skip(from as int)) || dec_val(
                s@.skip(from as int),
            ) > limit,
        },
{
    let len = s.len();
    if from == len {
        return None;
    }
    let ghost digits = s@.skip(from as int);
    let mut acc: u64 = 0;
    let mut i: usize = from;
    while i < len
        invariant
            from <= i <= len == s@.len(),
            digits == s@.skip(from as int),
            all_digits(digits.take(i - from)),
            acc as nat == dec_val(digits.take(i - from)),
            acc <= limit,
            9 <= limit < u64::MAX,
        decreases len - i,
    {
        let c = s[i];
        match digit_of_char(c) {
            None => {
                proof {
                    assert(digits[i - from] == c);
                }
                return None;
            },
            Some(d) => {
                proof {
                    assert(digits.take(i - from + 1) =~= digits.take(i - from).push(c));
                    lemma_dec_val_push(digits.take(i - from), c);
                }
                if acc > (limit - d) / 10 {
                    proof {
                        assert(acc * 10 + d > limit) by (nonlinear_arith)
                            requires
                                acc > (limit - d) / 10,
                                d < 10,
                                d <= limit,
                                limit < u64::MAX,
                        ;
                        lemma_dec_val_prefix_grows(digits, i - from + 1);
                    }
                    return None;
                }
                proof {
                    assert(acc * 10 + d <= limit) by (nonlinear_arith)
                        requires
                            acc <= (limit - d) / 10,
                            d < 10,
                            d <= limit,
                            limit < u64::MAX,
                    ;
                }
                acc = acc * 10 + d;
                i = i + 1;
            },
        }
    }
    proof {
        assert(digits.take(len - from) =~= digits);
    }
    Some(acc)
}

/// Reads `s` as a signed decimal number.
pub fn parse_i64(s: &Vec<char>) -> (r: Option<i64>)
    ensures
        r == spec_parse_i64(s@),
{
    proof {
        assert(s@.skip(0) =~= s@);
    }
    let len = s.len();
    if len >= 1 && s[0] == '-' {
        match dec_digits_val(s, 1, 9223372036854775808u64) {
            None => None,
            Some(v) => {
                if v == 9223372036854775808u64 {
                    Some(i64::MIN)
                } else {
                    Some(-(v as i64))
                }
            },
        }
    } else {
        match dec_digits_val(s, 0, 9223372036854775807u64) {
            None => None,
            Some(v) => Some(v as i64),
        }
    }
}

/// Reading back the canonical spelling of a number returns the number.
pub proof fn lemma_int_dec_round_trip(n: int)
    requires
        i64::MIN <= n <= i64::MAX,
    ensures
        spec_parse_i64(int_dec_of(n)) == Some(n as i64),
{
    if n < 0 {
        let s = int_dec_of(n);
        lemma_dec_of_digits((-n) as nat);
        assert(s.skip(1) =~= dec_of((-n) as nat));
    } else {
        lemma_dec_of_digits(n as nat);
        let s = int_dec_of(n);
        assert(s[0] != '-');
    }
}

} // verus!
