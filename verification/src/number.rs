//! Numbers written out as decimal digits, and read back from them.

use vstd::prelude::*;

verus! {

/// The character of one decimal digit.
pub open spec fn digit_char(d: int) -> char {
    if d == 0 {
        '0'
    } else if d == 1 {
        '1'
    } else if d == 2 {
        '2'
    } else if d == 3 {
        '3'
    } else if d == 4 {
        '4'
    } else if d == 5 {
        '5'
    } else if d == 6 {
        '6'
    } else if d == 7 {
        '7'
    } else if d == 8 {
        '8'
    } else {
        '9'
    }
}

/// Whether a character is an ASCII digit.
pub open spec fn is_digit(c: char) -> bool {
    '0' <= c && c <= '9'
}

/// The value of an ASCII digit.
pub open spec fn digit_value(c: char) -> int {
    c as int - 48
}

/// A natural number in decimal, with no leading zero.
pub open spec fn decimal(n: nat) -> Seq<char>
    decreases n,
{
    if n < 10 {
        seq![digit_char(n as int)]
    } else {
        decimal(n / 10).push(digit_char((n % 10) as int))
    }
}

/// `k` zeros.
pub open spec fn zeros(k: int) -> Seq<char> {
    Seq::new(if k > 0 { k as nat } else { 0 }, |i: int| '0')
}

/// A natural number zero-padded on the left to at least `width` characters.
pub open spec fn padded(n: nat, width: int) -> Seq<char> {
    zeros(width - decimal(n).len()) + decimal(n)
}

/// An integer zero-padded to `width` characters including its sign, the way
/// `{:0w}` writes it.
pub open spec fn padded_int(n: int, width: int) -> Seq<char> {
    if n < 0 {
        seq!['-'] + padded((-n) as nat, width - 1)
    } else {
        padded(n as nat, width)
    }
}

/// An integer in decimal, with a minus sign when it is negative.
pub open spec fn decimal_int(n: int) -> Seq<char> {
    padded_int(n, 0)
}

/// The value of a run of decimal digits.
pub open spec fn digits_value(s: Seq<char>) -> int
    decreases s.len(),
{
    if s.len() == 0 {
        0
    } else {
        digits_value(s.drop_last()) * 10 + digit_value(s.last())
    }
}

/// Whether every character of `s` is an ASCII digit.
pub open spec fn all_digits(s: Seq<char>) -> bool {
    forall|i: int| 0 <= i < s.len() ==> is_digit(#[trigger] s[i])
}

/// The digit for `d` reads back as `d`.
pub proof fn lemma_digit(d: int)
    requires
        0 <= d < 10,
    ensures
        is_digit(digit_char(d)),
        digit_value(digit_char(d)) == d,
{
}

/// A decimal rendering is digits only, at least one of them.
pub proof fn lemma_decimal_digits(n: nat)
    ensures
        decimal(n).len() >= 1,
        all_digits(decimal(n)),
        digits_value(decimal(n)) == n,
    decreases n,
{
    lemma_digit((n % 10) as int);
    let s = decimal(n);
    if n >= 10 {
        lemma_decimal_digits(n / 10);
        assert(s.drop_last() =~= decimal(n / 10));
    } else {
        assert(s.drop_last() =~= Seq::<char>::empty());
    }
    assert(digits_value(s) == digits_value(s.drop_last()) * 10 + digit_value(s.last()));
}

/// The digit for `d`.
pub fn digit(d: u64) -> (c: char)
    requires
        d < 10,
    ensures
        c == digit_char(d as int),
        is_digit(c),
{
    if d == 0 {
        '0'
    } else if d == 1 {
        '1'
    } else if d == 2 {
        '2'
    } else if d == 3 {
        '3'
    } else if d == 4 {
        '4'
    } else if d == 5 {
        '5'
    } else if d == 6 {
        '6'
    } else if d == 7 {
        '7'
    } else if d == 8 {
        '8'
    } else {
        '9'
    }
}

/// How many digits `n` has in decimal.
pub fn digit_count(n: u64) -> (k: usize)
    ensures
        k == decimal(n as nat).len(),
        1 <= k <= 20,
    decreases n,
{
    if n < 10 {
        1
    } else {
        let k = digit_count(n / 10);
        proof {
            assert(decimal(n as nat) == decimal((n / 10) as nat).push(
                digit_char((n % 10) as int),
            ));
        }
        assert(k < 20) by {
            lemma_count_bound(n / 10);
        }
        k + 1
    }
}

/// Ten to the `k`.
pub open spec fn pow10(k: nat) -> nat
    decreases k,
{
    if k == 0 {
        1
    } else {
        10 * pow10((k - 1) as nat)
    }
}

/// A number below ten to the `k` has at most `k` digits.
pub proof fn lemma_digits_below(n: nat, k: nat)
    requires
        n < pow10(k),
        k >= 1,
    ensures
        decimal(n).len() <= k,
    decreases k,
{
    if n >= 10 {
        assert(n / 10 < pow10((k - 1) as nat));
        lemma_digits_below(n / 10, (k - 1) as nat);
    }
}

proof fn lemma_count_bound(n: u64)
    requires
        n <= u64::MAX / 10,
    ensures
        decimal(n as nat).len() <= 19,
{
    reveal_with_fuel(pow10, 20);
    assert(pow10(19) == 10000000000000000000nat);
    lemma_digits_below(n as nat, 19);
}

/// The value of digits written after other digits.
pub proof fn lemma_digits_concat(a: Seq<char>, b: Seq<char>)
    ensures
        digits_value(a + b) == digits_value(a) * pow10(b.len()) + digits_value(b),
    decreases b.len(),
{
    if b.len() == 0 {
        assert(a + b =~= a);
        assert(pow10(0) == 1);
        assert(digits_value(b) == 0);
        assert(digits_value(a) * pow10(b.len()) == digits_value(a));
    } else {
        assert((a + b).drop_last() =~= a + b.drop_last());
        assert((a + b).last() == b.last());
        lemma_digits_concat(a, b.drop_last());
        let p = pow10((b.len() - 1) as nat);
        assert(pow10(b.len()) == 10 * p);
        let x = digits_value(a);
        let y = digits_value(b.drop_last());
        let d = digit_value(b.last());
        assert(digits_value(a + b) == digits_value(a + b.drop_last()) * 10 + d);
        assert(digits_value(a + b.drop_last()) == x * p + y);
        assert(digits_value(b) == y * 10 + d);
        assert((x * p + y) * 10 + d == x * (10 * p) + (y * 10 + d)) by (nonlinear_arith);
        assert(x * pow10(b.len()) == x * (10 * p));
        assert(digits_value(a + b) == x * pow10(b.len()) + digits_value(b));
    }
}

/// Zeros are digits worth nothing.
pub proof fn lemma_zeros_value(k: int)
    ensures
        all_digits(zeros(k)),
        digits_value(zeros(k)) == 0,
    decreases k,
{
    if k > 0 {
        assert(zeros(k).drop_last() =~= zeros(k - 1));
        lemma_zeros_value(k - 1);
    } else {
        assert(zeros(k) =~= Seq::<char>::empty());
    }
}

/// A zero-padded number is digits, worth the number, and exactly as wide as
/// asked when the number fits.
pub proof fn lemma_padded_value(n: nat, width: int)
    ensures
        all_digits(padded(n, width)),
        digits_value(padded(n, width)) == n,
        decimal(n).len() <= width ==> padded(n, width).len() == width,
{
    lemma_decimal_digits(n);
    lemma_zeros_value(width - decimal(n).len());
    lemma_digits_concat(zeros(width - decimal(n).len()), decimal(n));
    let z = zeros(width - decimal(n).len());
    assert forall|i: int| 0 <= i < padded(n, width).len() implies is_digit(
        #[trigger] padded(n, width)[i],
    ) by {
        if i < z.len() {
            assert(padded(n, width)[i] == z[i]);
        } else {
            assert(padded(n, width)[i] == decimal(n)[i - z.len()]);
        }
    }
}

/// Digits are worth less than ten to the power of how many there are.
pub proof fn lemma_digits_bound(s: Seq<char>)
    requires
        all_digits(s),
    ensures
        0 <= digits_value(s) < pow10(s.len()),
    decreases s.len(),
{
    if s.len() > 0 {
        assert(all_digits(s.drop_last())) by {
            assert forall|i: int| 0 <= i < s.drop_last().len() implies is_digit(
                #[trigger] s.drop_last()[i],
            ) by {
                assert(s.drop_last()[i] == s[i]);
            }
        }
        lemma_digits_bound(s.drop_last());
        assert(is_digit(s[s.len() - 1]));
        assert(pow10(s.len()) == 10 * pow10((s.len() - 1) as nat));
    }
}

/// Two runs of digits of one length worth the same are the same digits.
pub proof fn lemma_digits_injective(a: Seq<char>, b: Seq<char>)
    requires
        all_digits(a),
        all_digits(b),
        a.len() == b.len(),
        digits_value(a) == digits_value(b),
    ensures
        a == b,
    decreases a.len(),
{
    if a.len() > 0 {
        let a0 = a.drop_last();
        let b0 = b.drop_last();
        assert(all_digits(a0)) by {
            assert forall|i: int| 0 <= i < a0.len() implies is_digit(#[trigger] a0[i]) by {
                assert(a0[i] == a[i]);
            }
        }
        assert(all_digits(b0)) by {
            assert forall|i: int| 0 <= i < b0.len() implies is_digit(#[trigger] b0[i]) by {
                assert(b0[i] == b[i]);
            }
        }
        lemma_digits_bound(a0);
        lemma_digits_bound(b0);
        assert(is_digit(a[a.len() - 1]) && is_digit(b[b.len() - 1]));
        let x = digits_value(a0);
        let y = digits_value(b0);
        let da = digit_value(a.last());
        let db = digit_value(b.last());
        assert(x * 10 + da == y * 10 + db);
        assert(x == y && da == db) by (nonlinear_arith)
            requires
                x * 10 + da == y * 10 + db,
                0 <= da < 10,
                0 <= db < 10,
        ;
        lemma_digits_injective(a0, b0);
        assert(a =~= a0.push(a.last()));
        assert(b =~= b0.push(b.last()));
    } else {
        assert(a =~= b);
    }
}

/// Digits padded back to their own width are the same digits.
pub proof fn lemma_padded_of_digits(w: Seq<char>)
    requires
        all_digits(w),
        w.len() >= 1,
    ensures
        padded(digits_value(w) as nat, w.len() as int) == w,
{
    lemma_digits_bound(w);
    let n = digits_value(w) as nat;
    lemma_digits_below(n, w.len());
    lemma_padded_value(n, w.len() as int);
    lemma_digits_injective(padded(n, w.len() as int), w);
}

/// Write `n` in decimal onto the end of `out`.
pub fn push_decimal(out: &mut String, n: u64)
    ensures
        final(out)@ == old(out)@ + decimal(n as nat),
    decreases n,
{
    if n >= 10 {
        push_decimal(out, n / 10);
    }
    out.push(digit(n % 10));
    proof {
        if n >= 10 {
            assert(decimal(n as nat) == decimal((n / 10) as nat).push(
                digit_char((n % 10) as int),
            ));
        }
    }
    assert(out@ =~= old(out)@ + decimal(n as nat)) by {
        if n < 10 {
            assert(decimal(n as nat) =~= seq![digit_char(n as int)]);
        }
    }
}

/// Write `n` zero-padded to `width` characters onto the end of `out`.
pub fn push_padded(out: &mut String, n: u64, width: usize)
    ensures
        final(out)@ == old(out)@ + padded(n as nat, width as int),
{
    let k = digit_count(n);
    let mut i = k;
    while i < width
        invariant
            k <= i,
            i <= width || i == k,
            k == decimal(n as nat).len(),
            out@ == old(out)@ + zeros(i - k),
        decreases width - i,
    {
        out.push('0');
        assert(zeros(i + 1 - k) =~= zeros(i - k).push('0'));
        i = i + 1;
    }
    push_decimal(out, n);
    assert(zeros(i - k) =~= zeros(width - k)) by {
        if width < k {
            assert(i == k);
        }
    }
    assert(out@ =~= old(out)@ + padded(n as nat, width as int));
}

/// Write `n` zero-padded to `width` characters including its sign.
pub fn push_padded_int(out: &mut String, n: i64, width: usize)
    ensures
        final(out)@ == old(out)@ + padded_int(n as int, width as int),
{
    if n < 0 {
        out.push('-');
        let magnitude: u64 = if n == i64::MIN {
            9223372036854775808u64
        } else {
            (-n) as u64
        };
        let rest: usize = if width > 0 {
            width - 1
        } else {
            0
        };
        push_padded(out, magnitude, rest);
        assert(zeros(rest - decimal(magnitude as nat).len()) =~= zeros(
            width - 1 - decimal(magnitude as nat).len(),
        ));
        assert(out@ =~= old(out)@ + padded_int(n as int, width as int));
    } else {
        push_padded(out, n as u64, width);
    }
}

/// Write `n` in decimal, with a minus sign when it is negative.
pub fn push_int(out: &mut String, n: i64)
    ensures
        final(out)@ == old(out)@ + decimal_int(n as int),
{
    push_padded_int(out, n, 0);
}


/// A zero-padded rendering is at least as wide as asked.
pub proof fn lemma_padded_len(n: nat, width: int)
    ensures
        padded(n, width).len() >= width,
        padded(n, width).len() >= 1,
{
    lemma_decimal_digits(n);
}

/// A signed zero-padded rendering is at least as wide as asked.
pub proof fn lemma_padded_int_len(n: int, width: int)
    ensures
        padded_int(n, width).len() >= width,
        padded_int(n, width).len() >= 1,
{
    if n < 0 {
        lemma_padded_len((-n) as nat, width - 1);
    } else {
        lemma_padded_len(n as nat, width);
    }
}

} // verus!
