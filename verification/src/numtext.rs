//! Scaled-integer text fields: parsing digit strings into integers scaled by
//! 100 (two implicit decimal digits), and rendering such integers back as
//! fixed two-decimal text.

use vstd::prelude::*;
use vstd::arithmetic::div_mod::lemma_fundamental_div_mod;
use vstd::arithmetic::mul::lemma_mul_inequality;

verus! {

/// Whether `c` is an ASCII decimal digit.
pub open spec fn is_digit_char(c: char) -> bool {
    48 <= c as int <= 57
}

/// The numeric value of an ASCII digit character.
pub open spec fn digit_val(c: char) -> int {
    c as int - 48
}

/// The ASCII digit character for a value in `0..10`.
pub open spec fn digit_char(d: int) -> char {
    (48 + d) as char
}

/// Whether every character of `s` is an ASCII decimal digit.
pub open spec fn all_digits(s: Seq<char>) -> bool {
    forall|i: int| 0 <= i < s.len() ==> is_digit_char(s[i])
}

/// The base-10 value of a digit string, most significant digit first.
pub open spec fn digits_val(s: Seq<char>) -> int
    decreases s.len(),
{
    if s.len() == 0 {
        0
    } else {
        digits_val(s.drop_last()) * 10 + digit_val(s.last())
    }
}

/// What a price or quantity text field must look like to decode: non-empty,
/// all digits, and with a value a 64-bit unsigned integer can hold.
pub open spec fn scaled_field_ok(s: Seq<char>) -> bool {
    &&& s.len() > 0
    &&& all_digits(s)
    &&& digits_val(s) <= u64::MAX
}

/// A digit string has a non-negative value.
pub proof fn lemma_digits_val_nonneg(s: Seq<char>)
    requires
        all_digits(s),
    ensures
        digits_val(s) >= 0,
    decreases s.len(),
{
    if s.len() > 0 {
        assert(forall|i: int| 0 <= i < s.drop_last().len() ==> s.drop_last()[i] == s[i]);
        lemma_digits_val_nonneg(s.drop_last());
        assert(is_digit_char(s.last()));
    }
}

/// Reading more digits can only grow the value: any prefix of an all-digit
/// string is worth at most the whole string.
pub proof fn lemma_digits_val_prefix(s: Seq<char>, j: int)
    requires
        all_digits(s),
        0 <= j <= s.len(),
    ensures
        digits_val(s.subrange(0, j)) <= digits_val(s),
    decreases s.len(),
{
    if j == s.len() {
        assert(s.subrange(0, j) =~= s);
    } else {
        let head = s.drop_last();
        assert(forall|i: int| 0 <= i < head.len() ==> head[i] == s[i]);
        assert(s.subrange(0, j) =~= head.subrange(0, j));
        lemma_digits_val_prefix(head, j);
        lemma_digits_val_nonneg(head);
        assert(is_digit_char(s.last()));
        assert(digits_val(s) == digits_val(head) * 10 + digit_val(s.last()));
    }
}

/// Parses a scaled-integer text field: the base-10 value of a non-empty
/// all-digit string, `None` on anything else. The feed writes its prices and
/// quantities multiplied by 100, so the parsed integer carries two implicit
/// decimal digits.
pub fn two_dec(s: &str) -> (r: Option<u64>)
    ensures
        match r {
            Some(v) => scaled_field_ok(s@) && v == digits_val(s@),
            None => !scaled_field_ok(s@),
        },
{
    let n: usize = s.unicode_len();
    if n == 0 {
        return None;
    }
    let mut acc: u64 = 0;
    let mut i: usize = 0;
    while i < n
        invariant
            0 < n == s@.len(),
            i <= n,
            all_digits(s@.subrange(0, i as int)),
            acc == digits_val(s@.subrange(0, i as int)),
        decreases n - i,
    {
        let c: char = s.get_char(i);
        let cu: u32 = c as u32;
        if cu < 48 || cu > 57 {
            proof {
                assert(!is_digit_char(s@[i as int]));
            }
            return None;
        }
        let d: u64 = (cu - 48) as u64;
        proof {
            assert(d == digit_val(s@[i as int]));
        }
        if acc > (u64::MAX - d) / 10 {
            proof {
                let pre = s@.subrange(0, i as int);
                let ext = s@.subrange(0, i + 1);
                assert(ext.drop_last() =~= pre);
                assert(ext.last() == s@[i as int]);
                lemma_fundamental_div_mod((u64::MAX - d) as int, 10);
                let q = ((u64::MAX - d) as int) / 10;
                lemma_mul_inequality(q + 1, acc as int, 10);
                assert(digits_val(ext) > u64::MAX);
                if all_digits(s@) {
                    lemma_digits_val_prefix(s@, i + 1);
                }
            }
            return None;
        }
        proof {
            lemma_fundamental_div_mod((u64::MAX - d) as int, 10);
            let q = ((u64::MAX - d) as int) / 10;
            lemma_mul_inequality(acc as int, q, 10);
            let pre = s@.subrange(0, i as int);
            let ext = s@.subrange(0, i + 1);
            assert(ext.drop_last() =~= pre);
            assert(ext.last() == s@[i as int]);
        }
        acc = acc * 10 + d;
        i = i + 1;
    }
    proof {
        assert(s@.subrange(0, n as int) =~= s@);
    }
    Some(acc)
}

/// The decimal digit string of a non-negative integer, without leading
/// zeros (a lone zero for 0).
pub open spec fn dec_digits(n: int) -> Seq<char>
    recommends
        n >= 0,
    decreases n,
{
    if n < 10 {
        seq![digit_char(n)]
    } else {
        dec_digits(n / 10).push(digit_char(n % 10))
    }
}

/// Formatting a value gives digits whose value is the value back: the
/// format/parse round trip on scaled-integer fields is the identity.
pub proof fn lemma_dec_digits(n: int)
    requires
        n >= 0,
    ensures
        all_digits(dec_digits(n)),
        digits_val(dec_digits(n)) == n,
        dec_digits(n).len() >= 1,
    decreases n,
{
    if n < 10 {
        let s = seq![digit_char(n)];
        assert(digit_char(n) as int == 48 + n);
        assert(s.drop_last() =~= Seq::<char>::empty());
        assert(digits_val(Seq::<char>::empty()) == 0);
        assert(s.len() == 1 && s.last() == digit_char(n));
        assert(digits_val(s) == digits_val(s.drop_last()) * 10 + digit_val(s.last()));
        assert(digits_val(s) == digit_val(digit_char(n)));
    } else {
        lemma_dec_digits(n / 10);
        let head = dec_digits(n / 10);
        let c = digit_char(n % 10);
        assert(c as int == 48 + n % 10);
        let s = head.push(c);
        assert(s.drop_last() =~= head);
        assert(s.last() == c);
        lemma_fundamental_div_mod(n, 10);
        assert(forall|i: int| 0 <= i < head.len() ==> s[i] == head[i]);
    }
}

/// Decoding the text that a value formats to yields the value back: the
/// scaled-integer round trip law.
pub proof fn lemma_scaled_round_trip(v: u64)
    ensures
        scaled_field_ok(dec_digits(v as int)),
        digits_val(dec_digits(v as int)) == v as int,
{
    lemma_dec_digits(v as int);
}

/// A single ASCII digit as a string slice.
fn digit_str(d: u64) -> (r: &'static str)
    requires
        d < 10,
    ensures
        r@ == seq![digit_char(d as int)],
{
    let r: &'static str = if d == 0 {
        "0"
    } else if d == 1 {
        "1"
    } else if d == 2 {
        "2"
    } else if d == 3 {
        "3"
    } else if d == 4 {
        "4"
    } else if d == 5 {
        "5"
    } else if d == 6 {
        "6"
    } else if d == 7 {
        "7"
    } else if d == 8 {
        "8"
    } else {
        "9"
    };
    proof {
        reveal_strlit("0");
        reveal_strlit("1");
        reveal_strlit("2");
        reveal_strlit("3");
        reveal_strlit("4");
        reveal_strlit("5");
        reveal_strlit("6");
        reveal_strlit("7");
        reveal_strlit("8");
        reveal_strlit("9");
        assert(r@ =~= seq![digit_char(d as int)]);
    }
    r
}

/// The digits of `rev` read back to front, as characters.
pub open spec fn rev_digit_chars(t: Seq<u64>) -> Seq<char> {
    Seq::new(t.len(), |i: int| digit_char(t[t.len() - 1 - i] as int))
}

/// Renders a non-negative integer as its decimal digit string.
pub fn u64_to_dec(v: u64) -> (r: String)
    ensures
        r@ == dec_digits(v as int),
{
    let mut rev: Vec<u64> = Vec::new();
    let mut x: u64 = v;
    while x >= 10
        invariant
            forall|j: int| 0 <= j < rev@.len() ==> rev@[j] < 10,
            dec_digits(v as int) == dec_digits(x as int) + rev_digit_chars(rev@),
        decreases x,
    {
        let d: u64 = x % 10;
        let ghost old_x = x as int;
        let ghost old_rev = rev@;
        x = x / 10;
        rev.push(d);
        proof {
            assert(dec_digits(old_x) == dec_digits(x as int).push(digit_char(d as int)));
            assert(rev_digit_chars(rev@) =~= seq![digit_char(d as int)] + rev_digit_chars(old_rev));
            assert(dec_digits(x as int).push(digit_char(d as int)) + rev_digit_chars(old_rev)
                =~= dec_digits(x as int) + rev_digit_chars(rev@));
        }
    }
    let mut out: String = String::from_str(digit_str(x));
    let mut k: usize = rev.len();
    proof {
        assert(out@ =~= dec_digits(x as int) + rev_digit_chars(rev@).subrange(
            0,
            rev@.len() - k,
        ));
    }
    while k > 0
        invariant
            k <= rev@.len(),
            forall|j: int| 0 <= j < rev@.len() ==> rev@[j] < 10,
            out@ == dec_digits(x as int) + rev_digit_chars(rev@).subrange(0, rev@.len() - k),
            dec_digits(v as int) == dec_digits(x as int) + rev_digit_chars(rev@),
        decreases k,
    {
        let ghost old_out = out@;
        let d: u64 = rev[k - 1];
        out.append(digit_str(d));
        k = k - 1;
        proof {
            assert(rev_digit_chars(rev@)[rev@.len() - 1 - (k as int)] == digit_char(
                rev@[k as int] as int,
            ));
            assert(out@ =~= dec_digits(x as int) + rev_digit_chars(rev@).subrange(
                0,
                rev@.len() - k,
            ));
        }
    }
    proof {
        assert(rev_digit_chars(rev@).subrange(0, rev@.len() as int) =~= rev_digit_chars(rev@));
    }
    out
}

/// The fixed two-decimal rendering of a scaled integer: the integer part,
/// a dot, then exactly two fractional digits.
pub open spec fn two_dec_text(c: int) -> Seq<char>
    recommends
        c >= 0,
{
    dec_digits(c / 100) + seq!['.'] + seq![digit_char((c % 100) / 10), digit_char((c % 100) % 10)]
}

/// Renders a scaled integer with two decimal places, never in scientific
/// notation: `12345` becomes `123.45`.
pub fn fmt_two_dec(v: u64) -> (r: String)
    ensures
        r@ == two_dec_text(v as int),
{
    let mut out: String = u64_to_dec(v / 100);
    out.append(".");
    let rem: u64 = v % 100;
    out.append(digit_str(rem / 10));
    out.append(digit_str(rem % 10));
    proof {
        reveal_strlit(".");
        assert(out@ =~= two_dec_text(v as int));
    }
    out
}

} // verus!
