//! Decimal text of integers and of monetary amounts, and the reading of
//! integers from text.

use vstd::prelude::*;
use vstd::string::*;

verus! {

/// The character that stands for the decimal digit `d`.
pub open spec fn digit_char(d: int) -> char {
    if d == 0 {
        '0'
    } else if d == 1 {
        '1'
    } else if d == 2 {
        '2'
    } else if d == 3 {
        '3'
    } else if d == 4 {
        '4'
    } else if d == 5 {
        '5'
    } else if d == 6 {
        '6'
    } else if d == 7 {
        '7'
    } else if d == 8 {
        '8'
    } else {
        '9'
    }
}

/// The decimal digits of `n`, most significant first, without leading zeros.
pub open spec fn nat_text(n: nat) -> Seq<char>
    decreases n,
{
    if n < 10 {
        seq![digit_char(n as int)]
    } else {
        nat_text(n / 10).push(digit_char((n % 10) as int))
    }
}

/// The decimal text of an integer: a minus sign for negative numbers, then
/// the digits of the magnitude.
pub open spec fn int_text(n: int) -> Seq<char> {
    if n < 0 {
        seq!['-'] + nat_text((-n) as nat)
    } else {
        nat_text(n as nat)
    }
}

/// The text of an amount held in hundredths. The whole part is followed by a
/// point and one or two fraction digits: a trailing zero is dropped, but one
/// fraction digit always stays (`1000.0`, `100.5`, `1234.56`, `-0.05`).
pub open spec fn amount_text(a: int) -> Seq<char> {
    let m = if a < 0 { -a } else { a };
    let sign = if a < 0 { seq!['-'] } else { Seq::<char>::empty() };
    let tenths = (m % 100) / 10;
    let hundredths = m % 10;
    let fraction = if hundredths == 0 {
        seq![digit_char(tenths)]
    } else {
        seq![digit_char(tenths), digit_char(hundredths)]
    };
    sign + nat_text((m / 100) as nat) + seq!['.'] + fraction
}

fn digit_str(d: u64) -> (r: &'static str)
    requires
        d < 10,
    ensures
        r@ == seq![digit_char(d as int)],
{
    proof {
        reveal_strlit("0");
        reveal_strlit("1");
        reveal_strlit("2");
        reveal_strlit("3");
        reveal_strlit("4");
        reveal_strlit("5");
        reveal_strlit("6");
        reveal_strlit("7");
        reveal_strlit("8");
        reveal_strlit("9");
    }
    let r = if d == 0 {
        "0"
    } else if d == 1 {
        "1"
    } else if d == 2 {
        "2"
    } else if d == 3 {
        "3"
    } else if d == 4 {
        "4"
    } else if d == 5 {
        "5"
    } else if d == 6 {
        "6"
    } else if d == 7 {
        "7"
    } else if d == 8 {
        "8"
    } else {
        "9"
    };
    assert(r@ =~= seq![digit_char(d as int)]);
    r
}

/// Appends the decimal digits of `n` to `out`.
pub fn push_nat_text(out: &mut String, n: u128)
    ensures
        final(out)@ == old(out)@ + nat_text(n as nat),
    decreases n,
{
    if n >= 10 {
        push_nat_text(out, n / 10);
    }
    let d: u64 = (n % 10) as u64;
    out.append(digit_str(d));
    assert(final(out)@ =~= old(out)@ + nat_text(n as nat));
}

/// Appends the decimal text of `n` to `out`.
pub fn push_int_text(out: &mut String, n: i128)
    ensures
        final(out)@ == old(out)@ + int_text(n as int),
{
    if n < 0 {
        proof {
            reveal_strlit("-");
        }
        out.append("-");
        let magnitude: u128 = ((-(n + 1)) as u128) + 1;
        push_nat_text(out, magnitude);
        assert(final(out)@ =~= old(out)@ + int_text(n as int));
    } else {
        push_nat_text(out, n as u128);
    }
}

/// The decimal text of a 64-bit integer.
pub fn i64_to_text(n: i64) -> (s: String)
    ensures
        s@ == int_text(n as int),
{
    let mut s = String::new();
    push_int_text(&mut s, n as i128);
    assert(s@ =~= int_text(n as int));
    s
}

/// Appends the text of an amount in hundredths to `out`.
pub fn push_amount_text(out: &mut String, a: i64)
    ensures
        final(out)@ == old(out)@ + amount_text(a as int),
{
    let wide: i128 = a as i128;
    let m: u128 = if wide < 0 { (-wide) as u128 } else { wide as u128 };
    proof {
        reveal_strlit("-");
        reveal_strlit(".");
    }
    if a < 0 {
        out.append("-");
    }
    push_nat_text(out, m / 100);
    out.append(".");
    let tenths: u64 = ((m % 100) / 10) as u64;
    let hundredths: u64 = (m % 10) as u64;
    out.append(digit_str(tenths));
    if hundredths != 0 {
        out.append(digit_str(hundredths));
    }
    assert(final(out)@ =~= old(out)@ + amount_text(a as int));
}

/// The value of a decimal digit character, if `c` is one.
pub open spec fn digit_of(c: char) -> Option<int> {
    if c == '0' {
        Some(0)
    } else if c == '1' {
        Some(1)
    } else if c == '2' {
        Some(2)
    } else if c == '3' {
        Some(3)
    } else if c == '4' {
        Some(4)
    } else if c == '5' {
        Some(5)
    } else if c == '6' {
        Some(6)
    } else if c == '7' {
        Some(7)
    } else if c == '8' {
        Some(8)
    } else if c == '9' {
        Some(9)
    } else {
        None
    }
}

/// Every character of `s` is a decimal digit.
pub open spec fn all_digits(s: Seq<char>) -> bool {
    forall|i: int| 0 <= i < s.len() ==> (#[trigger] digit_of(s[i])) is Some
}

/// The number that a sequence of decimal digits denotes.
pub open spec fn digits_value(s: Seq<char>) -> int
    decreases s.len(),
{
    if s.len() == 0 {
        0
    } else {
        let d = match digit_of(s.last()) {
            Some(d) => d,
            None => 0,
        };
        digits_value(s.drop_last()) * 10 + d
    }
}

/// The integer that `s` denotes: an optional sign (`+` or `-`) followed by one
/// or more decimal digits. Anything else denotes nothing.
pub open spec fn parse_int(s: Seq<char>) -> Option<int> {
    if s.len() > 0 && (s[0] == '-' || s[0] == '+') {
        let body = s.skip(1);
        if body.len() > 0 && all_digits(body) {
            Some(if s[0] == '-' { -digits_value(body) } else { digits_value(body) })
        } else {
            None
        }
    } else if s.len() > 0 && all_digits(s) {
        Some(digits_value(s))
    } else {
        None
    }
}

/// The 32-bit integer that `s` denotes, if it denotes an integer in range.
pub open spec fn parse_i32_text(s: Seq<char>) -> Option<i32> {
    match parse_int(s) {
        Some(v) => if i32::MIN <= v <= i32::MAX {
            Some(v as i32)
        } else {
            None
        },
        None => None,
    }
}

fn digit_value(c: char) -> (r: Option<u8>)
    ensures
        match r {
            Some(d) => digit_of(c) == Some(d as int) && d < 10,
            None => digit_of(c) is None,
        },
{
    if c == '0' {
        Some(0)
    } else if c == '1' {
        Some(1)
    } else if c == '2' {
        Some(2)
    } else if c == '3' {
        Some(3)
    } else if c == '4' {
        Some(4)
    } else if c == '5' {
        Some(5)
    } else if c == '6' {
        Some(6)
    } else if c == '7' {
        Some(7)
    } else if c == '8' {
        Some(8)
    } else if c == '9' {
        Some(9)
    } else {
        None
    }
}

/// A run of digits is worth at least as much as any shorter run it starts with.
proof fn lemma_digits_value_grows(s: Seq<char>, k: int)
    requires
        all_digits(s),
        0 <= k <= s.len(),
    ensures
        0 <= digits_value(s.take(k)) <= digits_value(s),
    decreases s.len() - k,
{
    if k == 0 {
        assert(s.take(0).len() == 0);
        lemma_digits_value_nonnegative(s);
    } else if k == s.len() {
        assert(s.take(k) =~= s);
        lemma_digits_value_nonnegative(s);
    } else {
        lemma_digits_value_grows(s, k + 1);
        let longer = s.take(k + 1);
        assert(longer.drop_last() =~= s.take(k));
        assert(longer.last() == s[k]);
        assert(digit_of(s[k]) is Some);
        lemma_digits_value_nonnegative(s.take(k));
    }
}

proof fn lemma_digits_value_nonnegative(s: Seq<char>)
    ensures
        digits_value(s) >= 0,
    decreases s.len(),
{
    if s.len() > 0 {
        lemma_digits_value_nonnegative(s.drop_last());
    }
}

/// Reads a 32-bit integer from text: an optional sign, then digits.
pub fn parse_i32(s: &str) -> (r: Option<i32>)
    ensures
        r == parse_i32_text(s@),
{
    let n: usize = s.unicode_len();
    if n == 0 {
        return None;
    }
    let first = s.get_char(0);
    let negative = first == '-';
    let start: usize = if first == '-' || first == '+' { 1 } else { 0 };
    if start == n {
        return None;
    }
    let ghost body = s@.skip(start as int);
    let mut acc: i64 = 0;
    let mut i: usize = start;
    while i < n
        invariant
            start <= i <= n,
            start < n,
            n == s@.len(),
            start == (if s@[0] == '-' || s@[0] == '+' { 1int } else { 0int }),
            negative == (s@[0] == '-'),
            body == s@.skip(start as int),
            all_digits(body.take(i - start)),
            acc == digits_value(body.take(i - start)),
            0 <= acc <= 2147483648,
        decreases n - i,
    {
        let c = s.get_char(i);
        let ghost before = body.take(i - start);
        let ghost after = body.take(i + 1 - start);
        proof {
            assert(after.drop_last() =~= before);
            assert(after.last() == s@[i as int]);
        }
        match digit_value(c) {
            None => {
                proof {
                    assert(body[i - start] == c);
                    assert(!all_digits(body));
                    if start == 0 {
                        assert(body =~= s@);
                    }
                }
                return None;
            },
            Some(d) => {
                let next: i64 = acc * 10 + (d as i64);
                proof {
                    assert forall|j: int| 0 <= j < after.len() implies (#[trigger] digit_of(
                        after[j],
                    )) is Some by {
                        if j < before.len() {
                            assert(after[j] == before[j]);
                        }
                    }
                    assert(next == digits_value(after));
                }
                if next > 2147483648 {
                    proof {
                        if all_digits(body) {
                            lemma_digits_value_grows(body, i + 1 - start);
                        }
                        if start == 0 {
                            assert(body =~= s@);
                        }
                    }
                    return None;
                }
                acc = next;
            },
        }
        i = i + 1;
    }
    proof {
        assert(body.take(n - start) =~= body);
        if start == 0 {
            assert(body =~= s@);
        }
    }
    if negative {
        Some((-acc) as i32)
    } else if acc <= 2147483647 {
        Some(acc as i32)
    } else {
        None
    }
}

/// A text that consists of decimal digits denotes a number of at most
/// `bound`. A text with any other character passes.
pub open spec fn decimal_within(text: Seq<char>, bound: int) -> bool {
    all_digits(text) ==> digits_value(text) <= bound
}

/// Says whether a text of decimal digits, if it is one, denotes a number of
/// at most `bound`.
pub fn decimal_is_within(text: &str, bound: u32) -> (r: bool)
    ensures
        r == decimal_within(text@, bound as int),
{
    let n: usize = text.unicode_len();
    let mut acc: u64 = 0;
    let mut over = false;
    let mut i: usize = 0;
    assert(text@.take(0).len() == 0);
    while i < n
        invariant
            i <= n,
            n == text@.len(),
            all_digits(text@.take(i as int)),
            over ==> digits_value(text@.take(i as int)) > bound,
            !over ==> acc == digits_value(text@.take(i as int)) && acc <= bound,
        decreases n - i,
    {
        let c = text.get_char(i);
        let ghost before = text@.take(i as int);
        let ghost after = text@.take(i + 1);
        proof {
            assert(after.drop_last() =~= before);
            assert(after.last() == c);
        }
        match digit_value(c) {
            None => {
                assert(!all_digits(text@));
                return true;
            },
            Some(d) => {
                proof {
                    assert forall|j: int| 0 <= j < after.len() implies (#[trigger] digit_of(
                        after[j],
                    )) is Some by {
                        if j < before.len() {
                            assert(after[j] == before[j]);
                        }
                    }
                }
                if !over {
                    let next: u64 = acc * 10 + (d as u64);
                    if next > bound as u64 {
                        over = true;
                    } else {
                        acc = next;
                    }
                }
            },
        }
        i = i + 1;
    }
    assert(text@.take(n as int) =~= text@);
    !over
}

/// The digits written for `n` denote `n`.
pub proof fn lemma_nat_text_reads_back(n: nat)
    ensures
        all_digits(nat_text(n)),
        nat_text(n).len() > 0,
        digits_value(nat_text(n)) == n,
    decreases n,
{
    if n < 10 {
        let t = nat_text(n);
        assert(t.drop_last().len() == 0);
        assert(digit_of(digit_char(n as int)) == Some(n as int));
        assert(digits_value(t.drop_last()) == 0);
    } else {
        lemma_nat_text_reads_back(n / 10);
        let shorter = nat_text(n / 10);
        let t = nat_text(n);
        assert(t.drop_last() =~= shorter);
        assert(digit_of(digit_char((n % 10) as int)) == Some((n % 10) as int));
        assert forall|j: int| 0 <= j < t.len() implies (#[trigger] digit_of(t[j])) is Some by {
            if j < shorter.len() {
                assert(t[j] == shorter[j]);
            }
        }
    }
}

/// Reading the text written for an integer gives that integer back.
pub proof fn lemma_int_text_reads_back(n: int)
    ensures
        parse_int(int_text(n)) == Some(n),
{
    if n < 0 {
        let m = (-n) as nat;
        lemma_nat_text_reads_back(m);
        assert(int_text(n).skip(1) =~= nat_text(m));
        assert(int_text(n)[0] == '-');
    } else {
        lemma_nat_text_reads_back(n as nat);
        let t = nat_text(n as nat);
        assert(digit_of(t[0]) is Some);
    }
}

} // verus!
