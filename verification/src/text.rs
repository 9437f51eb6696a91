//! Small text routines: decimal numbers, digit grouping, access to the
//! characters of a string.

use vstd::prelude::*;
use vstd::string::*;

verus! {

/// The texts of a sequence of strings.
pub open spec fn texts(strings: Seq<String>) -> Seq<Seq<char>> {
    strings.map_values(|s: String| s@)
}

/// The text of an optional string.
pub open spec fn optional_text(s: Option<String>) -> Option<Seq<char>> {
    match s {
        Some(s) => Some(s@),
        None => None,
    }
}

/// A copy of an optional string.
pub fn clone_optional(s: &Option<String>) -> (r: Option<String>)
    ensures
        optional_text(r) == optional_text(*s),
{
    match s {
        Some(s) => Some(s.clone()),
        None => None,
    }
}

/// The view of a value that may be missing.
pub open spec fn optional_view<T: View>(record: Option<T>) -> Option<T::V> {
    match record {
        Some(record) => Some(record@),
        None => None,
    }
}

/// The character of a decimal digit.
pub open spec fn digit_char(d: int) -> char {
    seq!['0', '1', '2', '3', '4', '5', '6', '7', '8', '9'][d]
}

/// The decimal numeral of `n`, without leading zeros.
pub open spec fn decimal(n: nat) -> Seq<char>
    decreases n,
{
    if n < 10 {
        seq![digit_char(n as int)]
    } else {
        decimal(n / 10).push(digit_char((n % 10) as int))
    }
}

/// A numeral with a space between each group of three digits, counted from
/// the right.
pub open spec fn grouped(digits: Seq<char>) -> Seq<char>
    decreases digits.len(),
{
    if digits.len() <= 3 {
        digits
    } else {
        grouped(digits.take(digits.len() - 3)) + seq![' '] + digits.skip(digits.len() - 3)
    }
}

/// The numeral spelled by digits given lowest first.
pub open spec fn numeral(lowest_first: Seq<u8>) -> Seq<char> {
    Seq::new(lowest_first.len(), |i: int| digit_char(lowest_first[lowest_first.len() - 1 - i] as int))
}

/// The text of one decimal digit.
fn digit_str(d: u8) -> (r: &'static str)
    requires
        d < 10,
    ensures
        r@ == seq![digit_char(d as int)],
{
    proof {
        reveal_strlit("0");
        reveal_strlit("1");
        reveal_strlit("2");
        reveal_strlit("3");
        reveal_strlit("4");
        reveal_strlit("5");
        reveal_strlit("6");
        reveal_strlit("7");
        reveal_strlit("8");
        reveal_strlit("9");
    }
    let r = match d {
        0 => "0",
        1 => "1",
        2 => "2",
        3 => "3",
        4 => "4",
        5 => "5",
        6 => "6",
        7 => "7",
        8 => "8",
        _ => "9",
    };
    assert(r@ =~= seq![digit_char(d as int)]);
    r
}

/// The decimal digits of `n`, lowest first.
fn digits_lowest_first(n: u64) -> (r: Vec<u8>)
    ensures
        numeral(r@) == decimal(n as nat),
        0 < r.len() <= 20,
        forall|i: int| 0 <= i < r.len() ==> r[i] < 10,
{
    let mut rest: u64 = n / 10;
    let mut r: Vec<u8> = Vec::new();
    r.push((n % 10) as u8);
    assert(numeral(r@) =~= seq![digit_char((n % 10) as int)]);
    assert(rest * pow10(1) <= n) by {
        assert(pow10(1) == 10) by {
            reveal_with_fuel(pow10, 2);
        }
        assert(rest * 10 <= n);
    }
    assert(decimal(n as nat) =~= (if rest > 0 {
        decimal(rest as nat)
    } else {
        Seq::empty()
    }) + numeral(r@));
    while rest > 0
        invariant
            decimal(n as nat) == (if rest > 0 {
                decimal(rest as nat)
            } else {
                Seq::empty()
            }) + numeral(r@),
            0 < r.len() <= 20,
            forall|i: int| 0 <= i < r.len() ==> r[i] < 10,
            rest * pow10(r.len() as nat) <= u64::MAX,
        decreases rest,
    {
        let ghost before = r@;
        let ghost m = rest;
        r.push((rest % 10) as u8);
        rest = rest / 10;
        proof {
            let head = if rest > 0 {
                decimal(rest as nat)
            } else {
                Seq::<char>::empty()
            };
            assert(decimal(m as nat) =~= head.push(digit_char((m % 10) as int)));
            assert(numeral(r@) =~= seq![digit_char((m % 10) as int)] + numeral(before));
            assert(head + numeral(r@) =~= decimal(m as nat) + numeral(before));
            lemma_pow10_bound(m as nat, before.len());
        }
    }
    r
}

/// Ten to the power `e`.
pub open spec fn pow10(e: nat) -> nat
    decreases e,
{
    if e == 0 {
        1
    } else {
        10 * pow10((e - 1) as nat)
    }
}

/// A number with `len` digits already split off has at most twenty digits in all.
proof fn lemma_pow10_bound(m: nat, len: nat)
    requires
        0 < m,
        m * pow10(len) <= u64::MAX,
        0 < len,
    ensures
        len < 20,
        (m / 10) * pow10(len + 1) <= u64::MAX,
{
    assert((m / 10) * (10 * pow10(len)) <= m * pow10(len)) by (nonlinear_arith)
        requires
            0 <= m,
            0 <= pow10(len),
    ;
    if len >= 20 {
        lemma_pow10_grows(20, len);
        assert(pow10(20) == 100_000_000_000_000_000_000nat) by {
            reveal_with_fuel(pow10, 21);
        }
        assert(m * pow10(len) >= pow10(len)) by (nonlinear_arith)
            requires
                m >= 1,
                pow10(len) >= 0,
        ;
    }
}

/// Powers of ten do not shrink.
proof fn lemma_pow10_grows(a: nat, b: nat)
    requires
        a <= b,
    ensures
        pow10(a) <= pow10(b),
        pow10(a) > 0,
    decreases b,
{
    if a < b {
        lemma_pow10_grows(a, (b - 1) as nat);
    } else if a > 0 {
        lemma_pow10_grows((a - 1) as nat, (a - 1) as nat);
    }
}

/// Appends to `out` the digits of a numeral from place `from` up to `to`,
/// places counted from the left.
fn push_digits(out: &mut String, lowest_first: &Vec<u8>, from: usize, to: usize)
    requires
        from <= to <= lowest_first.len(),
        forall|i: int| 0 <= i < lowest_first.len() ==> lowest_first[i] < 10,
    ensures
        final(out)@ == old(out)@ + numeral(lowest_first@).subrange(from as int, to as int),
{
    let len = lowest_first.len();
    let mut i = from;
    assert(out@ =~= old(out)@ + numeral(lowest_first@).subrange(from as int, i as int));
    while i < to
        invariant
            from <= i <= to <= len == lowest_first.len(),
            forall|i: int| 0 <= i < lowest_first.len() ==> lowest_first[i] < 10,
            out@ == old(out)@ + numeral(lowest_first@).subrange(from as int, i as int),
        decreases to - i,
    {
        let ghost before = out@;
        out.append(digit_str(lowest_first[len - 1 - i]));
        i = i + 1;
        assert(out@ =~= old(out)@ + numeral(lowest_first@).subrange(from as int, i as int));
    }
}

/// The characters of `s`, one by one.
pub fn chars_of(s: &str) -> (r: Vec<char>)
    ensures
        r@ == s@,
{
    let mut out: Vec<char> = Vec::new();
    for c in it: s.chars()
        invariant
            it.seq() == s@,
            out@ == s@.take(it.index() as int),
    {
        out.push(c);
        assert(out@ =~= s@.take(it.index() + 1));
    }
    assert(s@.take(s@.len() as int) =~= s@);
    out
}

/// The decimal numeral of `n`.
pub fn decimal_string(n: u64) -> (r: String)
    ensures
        r@ == decimal(n as nat),
{
    let digits = digits_lowest_first(n);
    let mut out = String::new();
    push_digits(&mut out, &digits, 0, digits.len());
    assert(out@ =~= numeral(digits@));
    out
}

/// The decimal numeral of `number` with its digits in groups of three,
/// a space between the groups: `1234567` gives `1 234 567`.
pub fn format_number(number: u64) -> (r: String)
    ensures
        r@ == grouped(decimal(number as nat)),
{
    let digits = digits_lowest_first(number);
    let len = digits.len();
    let ghost numeral = numeral(digits@);
    let mut out = String::new();
    let mut done: usize = (len - 1) % 3 + 1;
    push_digits(&mut out, &digits, 0, done);
    proof {
        reveal_strlit(" ");
        assert(out@ =~= numeral.take(done as int));
    }
    while done < len
        invariant
            0 < done <= len == digits.len() == numeral.len(),
            (len - done) % 3 == 0,
            numeral == crate::text::numeral(digits@),
            forall|i: int| 0 <= i < digits.len() ==> digits[i] < 10,
            out@ == grouped(numeral.take(done as int)),
            " "@ == seq![' '],
        decreases len - done,
    {
        let ghost before = numeral.take(done as int);
        let ghost next = numeral.take(done + 3);
        out.append(" ");
        push_digits(&mut out, &digits, done, done + 3);
        proof {
            assert(next.take(next.len() - 3) =~= before);
            assert(next.skip(next.len() - 3) =~= numeral.subrange(done as int, done + 3));
        }
        done = done + 3;
    }
    assert(numeral.take(len as int) =~= numeral);
    out
}

} // verus!
