//! Decimal numerals (printing and reading) and fresh temporary names.
use vstd::prelude::*;

verus! {

/// The ASCII digit character for `d` (`d < 10`).
pub open spec fn digit_char(d: nat) -> char {
    ((48 + d) as u8) as char
}

/// `true` for the ASCII digits `0`..`9`.
pub open spec fn is_digit(c: char) -> bool {
    '0' <= c && c <= '9'
}

/// The numeric value of an ASCII digit.
pub open spec fn digit_value(c: char) -> nat {
    (c as u8 - 48) as nat
}

/// The shortest decimal numeral of `n`, most significant digit first.
pub open spec fn decimal(n: nat) -> Seq<char>
    decreases n,
{
    if n < 10 {
        seq![digit_char(n)]
    } else {
        decimal(n / 10).push(digit_char(n % 10))
    }
}

/// The decimal numeral of a signed integer, with a leading `-` when it is negative.
pub open spec fn signed_decimal(v: int) -> Seq<char> {
    if v < 0 {
        seq!['-'] + decimal((-v) as nat)
    } else {
        decimal(v as nat)
    }
}

/// Every character of `s` is an ASCII digit.
pub open spec fn all_digits(s: Seq<char>) -> bool {
    forall|i: int| 0 <= i < s.len() ==> #[trigger] is_digit(s[i])
}

/// The value of a string of digits read in base ten.
pub open spec fn digits_value(s: Seq<char>) -> nat
    decreases s.len(),
{
    if s.len() == 0 {
        0
    } else {
        digits_value(s.drop_last()) * 10 + digit_value(s.last())
    }
}

/// What reading `s` as a `usize` gives: an optional `+` sign followed by at least one
/// digit and nothing else, whose value fits in a `usize`.
pub open spec fn read_usize(s: Seq<char>) -> Option<nat> {
    if s.len() > 0 && s[0] == '+' {
        read_digits(s.drop_first())
    } else {
        read_digits(s)
    }
}

/// What reading a string that must consist of digits alone gives: its value when it is
/// a nonempty run of digits whose value fits in a `usize`.
pub open spec fn read_digits(d: Seq<char>) -> Option<nat> {
    if d.len() > 0 && all_digits(d) && digits_value(d) <= usize::MAX {
        Some(digits_value(d))
    } else {
        None
    }
}

/// The name of the `k`-th temporary: `tmp.` followed by `k` in decimal.
pub open spec fn tmp_name(k: nat) -> Seq<char> {
    "tmp."@ + decimal(k)
}

/// The counter after one temporary was taken; it wraps around like an atomic `fetch_add`.
pub open spec fn next_counter(c: usize) -> usize {
    if c == usize::MAX {
        0
    } else {
        (c + 1) as usize
    }
}

/// A decimal numeral holds at least one character, all of them digits.
pub proof fn lemma_decimal_digits(n: nat)
    ensures
        decimal(n).len() >= 1,
        all_digits(decimal(n)),
        digits_value(decimal(n)) == n,
    decreases n,
{
    lemma_digit_char(n % 10);
    if n < 10 {
        assert(decimal(n) =~= seq![digit_char(n)]);
        assert(decimal(n).drop_last() =~= Seq::<char>::empty());
        assert(digits_value(decimal(n)) == digits_value(Seq::<char>::empty()) * 10 + digit_value(digit_char(n)));
    } else {
        lemma_decimal_digits(n / 10);
        let d = decimal(n);
        assert(d.drop_last() =~= decimal(n / 10));
        assert(d.last() == digit_char(n % 10));
        assert(digits_value(d) == (n / 10) * 10 + n % 10);
        assert forall|i: int| 0 <= i < d.len() implies #[trigger] is_digit(d[i]) by {
            if i < d.len() - 1 {
                assert(d[i] == decimal(n / 10)[i]);
            }
        }
    }
}

/// A digit character is a digit and reads back as its value.
pub proof fn lemma_digit_char(d: nat)
    requires
        d < 10,
    ensures
        is_digit(digit_char(d)),
        digit_value(digit_char(d)) == d,
{
    let b: u8 = (48 + d) as u8;
    assert(b == 48 + d);
    assert(b as char as u8 == b);
}

/// Different numbers have different decimal numerals.
pub proof fn lemma_decimal_injective(a: nat, b: nat)
    requires
        decimal(a) == decimal(b),
    ensures
        a == b,
{
    lemma_decimal_digits(a);
    lemma_decimal_digits(b);
}

/// Reading back a numeral printed by `decimal` gives the number.
pub proof fn lemma_read_decimal(n: nat)
    requires
        n <= usize::MAX,
    ensures
        read_usize(decimal(n)) == Some(n),
{
    lemma_decimal_digits(n);
    assert(is_digit(decimal(n)[0]));
}

/// Different counters name different temporaries.
pub proof fn lemma_tmp_name_injective(a: nat, b: nat)
    requires
        tmp_name(a) == tmp_name(b),
    ensures
        a == b,
{
    reveal_strlit("tmp.");
    assert(decimal(a) =~= tmp_name(a).skip(4));
    assert(decimal(b) =~= tmp_name(b).skip(4));
    lemma_decimal_injective(a, b);
}

/// The magnitude of an integer.
pub open spec fn abs_nat(v: int) -> nat {
    if v < 0 {
        (-v) as nat
    } else {
        v as nat
    }
}

/// A signed numeral is `-` and the digits of the magnitude for a negative number, and
/// the digits of the number otherwise; its digits are `0` to `9` and read back, in base
/// ten, as the magnitude.
pub proof fn lemma_signed_decimal_reads(v: int)
    ensures
        v < 0 ==> signed_decimal(v)[0] == '-' && signed_decimal(v).drop_first() == decimal(
            abs_nat(v),
        ),
        v >= 0 ==> signed_decimal(v) == decimal(abs_nat(v)),
        decimal(abs_nat(v)).len() >= 1,
        forall|i: int|
            0 <= i < decimal(abs_nat(v)).len() ==> '0' <= #[trigger] decimal(abs_nat(v))[i] <= '9',
        digits_value(decimal(abs_nat(v))) == abs_nat(v),
{
    let n = abs_nat(v);
    lemma_decimal_digits(n);
    if v < 0 {
        assert(signed_decimal(v).drop_first() =~= decimal(n));
    }
    assert forall|i: int| 0 <= i < decimal(n).len() implies '0' <= #[trigger] decimal(n)[i] <= '9' by {
        assert(is_digit(decimal(n)[i]));
    }
}

/// A temporary's name is `tmp.` followed by its number, which reads back as that number.
pub proof fn lemma_tmp_name_reads(n: nat)
    requires
        n <= usize::MAX,
    ensures
        tmp_name(n).len() > 4,
        tmp_name(n).take(4) == seq!['t', 'm', 'p', '.'],
        read_usize(tmp_name(n).skip(4)) == Some(n),
{
    reveal_strlit("tmp.");
    lemma_decimal_digits(n);
    assert(tmp_name(n).take(4) =~= seq!['t', 'm', 'p', '.']);
    assert(tmp_name(n).skip(4) =~= decimal(n));
    lemma_read_decimal(n);
}

/// The one-character string of a digit.
fn digit_str(d: usize) -> (s: &'static str)
    requires
        d < 10,
    ensures
        s@ == seq![digit_char(d as nat)],
{
    proof {
        reveal_strlit("0");
        reveal_strlit("1");
        reveal_strlit("2");
        reveal_strlit("3");
        reveal_strlit("4");
        reveal_strlit("5");
        reveal_strlit("6");
        reveal_strlit("7");
        reveal_strlit("8");
        reveal_strlit("9");
    }
    match d {
        0 => "0",
        1 => "1",
        2 => "2",
        3 => "3",
        4 => "4",
        5 => "5",
        6 => "6",
        7 => "7",
        8 => "8",
        _ => "9",
    }
}

/// Appends the decimal numeral of `n` to `out`.
pub fn push_decimal(out: &mut String, n: usize)
    ensures
        final(out)@ == old(out)@ + decimal(n as nat),
    decreases n,
{
    if n >= 10 {
        push_decimal(out, n / 10);
    }
    let s = digit_str(n % 10);
    out.append(s);
    proof {
        if n < 10 {
            assert(decimal(n as nat) == seq![digit_char(n as nat)]);
        }
    }
    assert(final(out)@ =~= old(out)@ + decimal(n as nat));
}

/// Appends the decimal numeral of `v`, with a `-` sign when negative, to `out`.
pub fn push_signed_decimal(out: &mut String, v: isize)
    ensures
        final(out)@ == old(out)@ + signed_decimal(v as int),
{
    if v < 0 {
        proof {
            reveal_strlit("-");
        }
        out.append("-");
        let m: usize = (-(v + 1)) as usize + 1;
        push_decimal(out, m);
        assert(final(out)@ =~= old(out)@ + signed_decimal(v as int));
    } else {
        push_decimal(out, v as usize);
    }
}

/// Reads `s` as a `usize` the way `str::parse::<usize>` does: an optional `+`
/// followed by decimal digits; `None` when that is not the form of `s` or the
/// value does not fit.
pub fn parse_usize(s: &str) -> (r: Option<usize>)
    ensures
        r == (match read_usize(s@) {
            Some(v) => Some(v as usize),
            None => None,
        }),
{
    let n = s.unicode_len();
    let mut i: usize = 0;
    if n > 0 && s.get_char(0) == '+' {
        i = 1;
    }
    let start = i;
    let ghost d = s@.skip(start as int);
    assert(d =~= (if s@.len() > 0 && s@[0] == '+' { s@.drop_first() } else { s@ }));
    if start == n {
        return None;
    }
    let mut acc: usize = 0;
    while i < n
        invariant
            start <= i <= n,
            n == s@.len(),
            d == s@.skip(start as int),
            read_usize(s@) == read_digits(d),
            all_digits(d.take(i - start)),
            acc as nat == digits_value(d.take(i - start)),
        decreases n - i,
    {
        let c = s.get_char(i);
        assert(d[i - start] == c);
        if !('0' <= c && c <= '9') {
            assert(!is_digit(d[i - start]));
            assert(!all_digits(d));
            return None;
        }
        let dv: usize = (c as u8 - 48u8) as usize;
        assert(d.take(i - start + 1).drop_last() =~= d.take(i - start));
        assert(d.take(i - start + 1).last() == c);
        if acc > (usize::MAX - dv) / 10 {
            proof {
                assert(acc * 10 + dv > usize::MAX) by (nonlinear_arith)
                    requires
                        acc > (usize::MAX - dv) / 10,
                        dv < 10,
                ;
                lemma_digits_value_prefix(d, (i - start + 1) as nat);
            }
            return None;
        }
        acc = acc * 10 + dv;
        i = i + 1;
        assert forall|k: int| 0 <= k < d.take(i - start).len() implies #[trigger] is_digit(
            d.take(i - start)[k],
        ) by {
            if k < i - 1 - start {
                assert(d.take(i - start)[k] == d.take(i - 1 - start)[k]);
            }
        }
    }
    assert(d.take(n - start) =~= d);
    Some(acc)
}

/// The value of a string of digits is at least the value of any prefix of it.
proof fn lemma_digits_value_prefix(s: Seq<char>, k: nat)
    requires
        k <= s.len(),
    ensures
        digits_value(s.take(k as int)) <= digits_value(s) || !all_digits(s),
    decreases s.len(),
{
    if k < s.len() && all_digits(s) {
        assert(s.drop_last().take(k as int) =~= s.take(k as int));
        assert(is_digit(s[s.len() - 1]));
        assert forall|i: int| 0 <= i < s.drop_last().len() implies #[trigger] is_digit(
            s.drop_last()[i],
        ) by {
            assert(is_digit(s[i]));
        }
        lemma_digits_value_prefix(s.drop_last(), k);
    } else if k == s.len() {
        assert(s.take(k as int) =~= s);
    }
}

/// Takes a fresh temporary name: `tmp.` followed by the counter in decimal; the counter
/// then moves on by one, wrapping around at the top of its range.
pub fn make_temporary(counter: &mut usize) -> (name: String)
    ensures
        name@ == tmp_name(*old(counter) as nat),
        *final(counter) == next_counter(*old(counter)),
{
    let mut name = String::new();
    proof {
        reveal_strlit("tmp.");
    }
    name.append("tmp.");
    push_decimal(&mut name, *counter);
    *counter = counter.wrapping_add(1);
    assert(name@ =~= tmp_name(*old(counter) as nat));
    name
}

} // verus!
