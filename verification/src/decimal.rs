//! Fixed-point decimal quantities with two fractional digits, used for
//! prices, amounts and norm hours, and their text at the boundary.

use vstd::prelude::*;
use vstd::string::StringExecFns;
use vstd::utf8::is_ascii_chars_encode_utf8;
use crate::lookup::{first_index, is_first, lemma_first_index, lemma_first_index_found};

verus! {

/// A non-negative quantity counted in hundredths.
#[derive(Clone, Copy, Debug, PartialEq, Eq, Structural, Hash)]
pub struct Decimal {
    pub hundredths: u64,
}

/// The ten decimal digits.
pub open spec fn is_digit(c: char) -> bool {
    '0' <= c && c <= '9'
}

/// The value of a decimal digit.
pub open spec fn digit_value(c: char) -> nat {
    (c as int - '0' as int) as nat
}

/// The decimal digit of a value below ten.
pub open spec fn digit_char(d: nat) -> char {
    if d == 0 {
        '0'
    } else if d == 1 {
        '1'
    } else if d == 2 {
        '2'
    } else if d == 3 {
        '3'
    } else if d == 4 {
        '4'
    } else if d == 5 {
        '5'
    } else if d == 6 {
        '6'
    } else if d == 7 {
        '7'
    } else if d == 8 {
        '8'
    } else {
        '9'
    }
}

/// Every character of the sequence is a decimal digit.
pub open spec fn all_digits(s: Seq<char>) -> bool {
    forall|i: int| 0 <= i < s.len() ==> is_digit(#[trigger] s[i])
}

/// The number that a sequence of decimal digits writes.
pub open spec fn number(s: Seq<char>) -> nat
    decreases s.len(),
{
    if s.len() == 0 {
        0
    } else {
        number(s.drop_last()) * 10 + digit_value(s.last())
    }
}

/// The decimal digits of a number, without leading zeros.
pub open spec fn numeral(n: nat) -> Seq<char>
    decreases n,
{
    if n < 10 {
        seq![digit_char(n)]
    } else {
        numeral(n / 10).push(digit_char(n % 10))
    }
}

/// The predicate "is the decimal point".
pub open spec fn is_dot() -> spec_fn(char) -> bool {
    |c: char| c == '.'
}

/// Where the first decimal point of a text stands; the length of the text
/// where it has none.
pub open spec fn dot_position(s: Seq<char>) -> int {
    match first_index(s, is_dot()) {
        Some(i) => i,
        None => s.len() as int,
    }
}

/// What stands before the first decimal point.
pub open spec fn whole_part(s: Seq<char>) -> Seq<char> {
    s.subrange(0, dot_position(s))
}

/// What stands behind the first decimal point.
pub open spec fn fraction_part(s: Seq<char>) -> Seq<char> {
    if dot_position(s) < s.len() {
        s.subrange(dot_position(s) + 1, s.len() as int)
    } else {
        Seq::empty()
    }
}

/// A text writes a quantity when it is one or more digits, alone or
/// followed by a decimal point and one or two digits.
pub open spec fn well_written(s: Seq<char>) -> bool {
    &&& whole_part(s).len() > 0
    &&& all_digits(whole_part(s))
    &&& all_digits(fraction_part(s))
    &&& fraction_part(s).len() <= 2
    &&& dot_position(s) < s.len() ==> fraction_part(s).len() >= 1
}

/// The hundredths that up to two fraction digits write.
pub open spec fn fraction_value(f: Seq<char>) -> nat {
    if f.len() == 0 {
        0
    } else if f.len() == 1 {
        digit_value(f[0]) * 10
    } else {
        digit_value(f[0]) * 10 + digit_value(f[1])
    }
}

/// The hundredths that a well-written text writes.
pub open spec fn written_value(s: Seq<char>) -> nat {
    number(whole_part(s)) * 100 + fraction_value(fraction_part(s))
}

/// The quantity that a text writes, if it writes one that fits.
pub open spec fn parsed(s: Seq<char>) -> Option<Decimal> {
    if well_written(s) && written_value(s) <= u64::MAX {
        Some(Decimal { hundredths: written_value(s) as u64 })
    } else {
        None
    }
}

/// The text of a quantity: the whole part without leading zeros, a decimal
/// point, and two fraction digits.
pub open spec fn text_of(d: Decimal) -> Seq<char> {
    numeral((d.hundredths / 100) as nat) + seq![
        '.',
        digit_char((d.hundredths % 100 / 10) as nat),
        digit_char((d.hundredths % 10) as nat),
    ]
}

/// A text in the form that `text_of` writes: no leading zero before a
/// further digit, and exactly two fraction digits.
pub open spec fn canonical(s: Seq<char>) -> bool {
    &&& well_written(s)
    &&& fraction_part(s).len() == 2
    &&& whole_part(s).len() == 1 || whole_part(s)[0] != '0'
}

/// A digit is the digit of its own value.
pub proof fn lemma_digit_round_trip(c: char)
    requires
        is_digit(c),
    ensures
        digit_value(c) < 10,
        digit_char(digit_value(c)) == c,
{
}

/// The digit of a value below ten is a digit with that value, and no
/// decimal point.
pub proof fn lemma_digit_char(d: nat)
    requires
        d < 10,
    ensures
        is_digit(digit_char(d)),
        digit_value(digit_char(d)) == d,
        digit_char(d) != '.',
{
}

/// One more digit multiplies the number by ten and adds the digit.
pub proof fn lemma_number_push(s: Seq<char>, c: char)
    ensures
        number(s.push(c)) == number(s) * 10 + digit_value(c),
{
    assert(s.push(c).drop_last() =~= s);
}

/// The digits of a number write that number.
pub proof fn lemma_numeral(n: nat)
    ensures
        numeral(n).len() >= 1,
        all_digits(numeral(n)),
        number(numeral(n)) == n,
        numeral(n).len() == 1 || numeral(n)[0] != '0',
    decreases n,
{
    if n < 10 {
        lemma_digit_char(n);
        let s = numeral(n);
        assert(s.drop_last() =~= Seq::<char>::empty());
        assert(number(s.drop_last()) == 0);
    } else {
        lemma_numeral(n / 10);
        lemma_digit_char(n % 10);
        lemma_number_push(numeral(n / 10), digit_char(n % 10));
        let init = numeral(n / 10);
        if init.len() == 1 {
            assert(number(init) == n / 10);
            assert(init.drop_last() =~= Seq::<char>::empty());
            assert(number(init.drop_last()) == 0);
            assert(digit_value(init[0]) >= 1);
        }
    }
}

/// A digit sequence that does not start with a zero writes a number of at
/// least one.
pub proof fn lemma_number_positive(s: Seq<char>)
    requires
        s.len() >= 1,
        all_digits(s),
        s[0] != '0',
    ensures
        number(s) >= 1,
    decreases s.len(),
{
    if s.len() == 1 {
        assert(s.drop_last() =~= Seq::<char>::empty());
        assert(number(s.drop_last()) == 0);
        assert(is_digit(s[0]));
    } else {
        let init = s.drop_last();
        assert(init[0] == s[0]);
        assert(all_digits(init)) by {
            assert forall|i: int| 0 <= i < init.len() implies is_digit(#[trigger] init[i]) by {
                assert(init[i] == s[i]);
            }
        }
        lemma_number_positive(init);
    }
}

/// A digit sequence without a leading zero is the numeral of its number.
pub proof fn lemma_numeral_of_number(s: Seq<char>)
    requires
        s.len() >= 1,
        all_digits(s),
        s.len() == 1 || s[0] != '0',
    ensures
        numeral(number(s)) == s,
    decreases s.len(),
{
    let init = s.drop_last();
    let last = s.last();
    assert(is_digit(last));
    lemma_digit_round_trip(last);
    if s.len() == 1 {
        assert(init =~= Seq::<char>::empty());
        assert(number(init) == 0);
        assert(numeral(number(s)) =~= s);
    } else {
        assert(init[0] == s[0]);
        assert(all_digits(init)) by {
            assert forall|i: int| 0 <= i < init.len() implies is_digit(#[trigger] init[i]) by {
                assert(init[i] == s[i]);
            }
        }
        lemma_number_positive(init);
        lemma_numeral_of_number(init);
        let n = number(s);
        assert(n == number(init) * 10 + digit_value(last));
        assert(n / 10 == number(init));
        assert(n % 10 == digit_value(last));
        assert(numeral(n) =~= s);
    }
}

/// The text of one decimal digit.
fn digit_str(d: u64) -> (r: &'static str)
    requires
        d < 10,
    ensures
        r@ == seq![digit_char(d as nat)],
{
    proof {
        reveal_strlit("0");
        reveal_strlit("1");
        reveal_strlit("2");
        reveal_strlit("3");
        reveal_strlit("4");
        reveal_strlit("5");
        reveal_strlit("6");
        reveal_strlit("7");
        reveal_strlit("8");
        reveal_strlit("9");
    }
    let r = if d == 0 {
        "0"
    } else if d == 1 {
        "1"
    } else if d == 2 {
        "2"
    } else if d == 3 {
        "3"
    } else if d == 4 {
        "4"
    } else if d == 5 {
        "5"
    } else if d == 6 {
        "6"
    } else if d == 7 {
        "7"
    } else if d == 8 {
        "8"
    } else {
        "9"
    };
    assert(r@ =~= seq![digit_char(d as nat)]);
    r
}

/// Writes the digits of `n` behind what `out` holds.
fn push_numeral(out: &mut String, n: u64)
    ensures
        final(out)@ == old(out)@ + numeral(n as nat),
    decreases n,
{
    if n >= 10 {
        push_numeral(out, n / 10);
    }
    out.append(digit_str(n % 10));
    proof {
        if n >= 10 {
            assert(final(out)@ =~= old(out)@ + numeral(n as nat));
        } else {
            assert(final(out)@ =~= old(out)@ + numeral(n as nat));
        }
    }
}

fn is_digit_byte(b: u8) -> (r: bool)
    ensures
        r == (48 <= b <= 57),
{
    48 <= b && b <= 57
}

impl Decimal {
    /// The quantity `0.00`.
    pub fn zero() -> (r: Decimal)
        ensures
            r.hundredths == 0,
    {
        Decimal { hundredths: 0 }
    }

    /// The quantity `1.00`.
    pub fn one() -> (r: Decimal)
        ensures
            r.hundredths == 100,
    {
        Decimal { hundredths: 100 }
    }

    /// The part before the decimal point.
    pub fn units(&self) -> (r: u64)
        ensures
            r == self.hundredths / 100,
    {
        self.hundredths / 100
    }

    /// The two digits behind the decimal point, as a number below 100.
    pub fn cents(&self) -> (r: u64)
        ensures
            r == self.hundredths % 100,
    {
        self.hundredths % 100
    }

    /// Writes the quantity with two fraction digits.
    pub fn to_text(&self) -> (r: String)
        ensures
            r@ == text_of(*self),
    {
        let mut out = String::new();
        push_numeral(&mut out, self.hundredths / 100);
        out.append(".");
        out.append(digit_str(self.hundredths % 100 / 10));
        out.append(digit_str(self.hundredths % 10));
        proof {
            reveal_strlit(".");
            assert("."@ =~= seq!['.']);
            assert(out@ =~= text_of(*self));
        }
        out
    }

    /// Reads a quantity: digits, alone or followed by a decimal point and
    /// one or two digits. Any other text, and a quantity that does not fit,
    /// gives `None`.
    pub fn parse(text: &str) -> (r: Option<Decimal>)
        ensures
            r == parsed(text@),
    {
        let ghost s = text@;
        if !text.is_ascii() {
            proof {
                lemma_written_text_is_ascii(s);
            }
            return None;
        }
        let bytes = text.as_bytes();
        proof {
            is_ascii_chars_encode_utf8(s);
        }
        let n = bytes.len();
        let mut i: usize = 0;
        let mut whole: u64 = 0;
        let mut overflow = false;
        while i < n && is_digit_byte(bytes[i])
            invariant
                i <= n,
                n == s.len(),
                bytes@.len() == n,
                forall|j: int| 0 <= j < n ==> bytes@[j] == (#[trigger] s[j]) as u8,
                forall|j: int| 0 <= j < n ==> '\0' <= (#[trigger] s[j]) <= '\u{7f}',
                forall|j: int| 0 <= j < i ==> is_digit(#[trigger] s[j]),
                !overflow ==> whole == number(s.take(i as int)),
                overflow ==> number(s.take(i as int)) > u64::MAX,
            decreases n - i,
        {
            let d = (bytes[i] - 48) as u64;
            proof {
                assert(is_digit(s[i as int]));
                assert(d == digit_value(s[i as int]));
                assert(s.take(i as int + 1) =~= s.take(i as int).push(s[i as int]));
                lemma_number_push(s.take(i as int), s[i as int]);
            }
            if !overflow {
                if whole > (u64::MAX - d) / 10 {
                    overflow = true;
                } else {
                    whole = whole * 10 + d;
                }
            }
            i += 1;
        }
        proof {
            lemma_scan_stops_at_dot(s, i as int);
        }
        if i == 0 {
            return None;
        }
        let mut fraction: u64 = 0;
        if i < n {
            if bytes[i] != 46 {
                return None;
            }
            assert(s[i as int] == '.');
            let digits = n - i - 1;
            if digits == 0 || digits > 2 {
                return None;
            }
            if !is_digit_byte(bytes[i + 1]) {
                assert(!is_digit(fraction_part(s)[0]));
                return None;
            }
            assert(is_digit(s[i as int + 1]));
            fraction = (bytes[i + 1] - 48) as u64 * 10;
            if digits == 2 {
                if !is_digit_byte(bytes[i + 2]) {
                    assert(!is_digit(fraction_part(s)[1]));
                    return None;
                }
                assert(is_digit(s[i as int + 2]));
                fraction = fraction + (bytes[i + 2] - 48) as u64;
            }
            proof {
                let f = fraction_part(s);
                assert(f[0] == s[i as int + 1]);
                if digits == 2 {
                    assert(f[1] == s[i as int + 2]);
                }
                assert(all_digits(f));
                assert(fraction == fraction_value(f));
            }
        }
        proof {
            assert(whole_part(s) =~= s.take(i as int));
            assert(all_digits(whole_part(s)));
            assert(well_written(s));
            assert(fraction == fraction_value(fraction_part(s)));
        }
        if overflow {
            return None;
        }
        if whole > (u64::MAX - fraction) / 100 {
            return None;
        }
        Some(Decimal { hundredths: whole * 100 + fraction })
    }
}

/// A text that writes a quantity holds ASCII characters only.
proof fn lemma_written_text_is_ascii(s: Seq<char>)
    requires
        !vstd::utf8::is_ascii_chars(s),
    ensures
        !well_written(s),
{
    let i = choose|i: int| 0 <= i < s.len() && !('\0' <= (#[trigger] s[i]) <= '\u{7f}');
    lemma_first_index(s, is_dot());
    let dot = dot_position(s);
    if i < dot {
        assert(whole_part(s)[i] == s[i]);
        assert(!is_digit(whole_part(s)[i]));
    } else if i > dot {
        assert(fraction_part(s)[i - dot - 1] == s[i]);
        assert(!is_digit(fraction_part(s)[i - dot - 1]));
    } else {
        assert(is_dot()(s[i]));
    }
}

/// Where the digits at the start of a text end, its whole part ends too,
/// unless what follows is neither the end nor a decimal point: then the
/// text writes no quantity.
proof fn lemma_scan_stops_at_dot(s: Seq<char>, i: int)
    requires
        0 <= i <= s.len(),
        forall|j: int| 0 <= j < i ==> is_digit(#[trigger] s[j]),
        i < s.len() ==> !is_digit(s[i]),
    ensures
        i == s.len() || s[i] == '.' ==> dot_position(s) == i,
        i < s.len() && s[i] != '.' ==> !well_written(s),
        i == 0 ==> !well_written(s),
{
    let p = is_dot();
    lemma_first_index(s, p);
    if i == s.len() {
        if first_index(s, p) is Some {
            let k = first_index(s, p)->0;
            assert(p(s[k]));
            assert(is_digit(s[k]));
        }
    } else if s[i] == '.' {
        assert(p(s[i]));
        assert forall|j: int| 0 <= j < i implies !p(#[trigger] s[j]) by {
            assert(is_digit(s[j]));
        }
        assert(is_first(s, p, i));
        lemma_first_index_found(s, p, i);
    } else {
        let dot = dot_position(s);
        if dot <= i {
            if dot < i {
                assert(p(s[dot]));
                assert(is_digit(s[dot]));
            } else {
                assert(p(s[dot]));
            }
        } else {
            assert(whole_part(s)[i] == s[i]);
            assert(!is_digit(whole_part(s)[i]));
        }
    }
    if i == 0 {
        if 0 < s.len() && s[0] == '.' {
            assert(dot_position(s) == 0);
        }
    }
}

/// Reading the text of a quantity gives the quantity back.
pub proof fn law_text_round_trip(d: Decimal)
    ensures
        parsed(text_of(d)) == Some(d),
        canonical(text_of(d)),
{
    let h = d.hundredths as nat;
    let w = numeral(h / 100);
    let a = digit_char(h % 100 / 10);
    let b = digit_char(h % 10);
    let s = text_of(d);
    lemma_numeral(h / 100);
    lemma_digit_char(h % 100 / 10);
    lemma_digit_char(h % 10);
    let p = is_dot();
    let k = w.len() as int;
    assert(s.len() == k + 3);
    assert forall|j: int| 0 <= j < k implies !p(#[trigger] s[j]) by {
        assert(s[j] == w[j]);
        assert(is_digit(w[j]));
    }
    assert(s[k] == '.');
    assert(p(s[k]));
    assert(is_first(s, p, k));
    lemma_first_index_found(s, p, k);
    assert(whole_part(s) =~= w);
    assert(fraction_part(s) =~= seq![a, b]);
    assert(all_digits(fraction_part(s)));
    assert(h % 100 / 10 * 10 + h % 10 == h % 100) by (nonlinear_arith);
    assert(h / 100 * 100 + h % 100 == h) by (nonlinear_arith);
}

/// Writing the quantity that a canonical text was read as gives the text
/// back: a text with two decimal places passes through unchanged.
pub proof fn law_canonical_text_is_kept(s: Seq<char>)
    requires
        canonical(s),
        parsed(s) is Some,
    ensures
        text_of(parsed(s)->0) == s,
{
    let w = whole_part(s);
    let f = fraction_part(s);
    let d = parsed(s)->0;
    let h = d.hundredths as nat;
    lemma_first_index(s, is_dot());
    let dot = dot_position(s);
    assert(dot < s.len());
    assert(s[dot] == '.');
    assert(is_digit(f[0]) && is_digit(f[1]));
    lemma_digit_round_trip(f[0]);
    lemma_digit_round_trip(f[1]);
    lemma_numeral_of_number(w);
    let fv = fraction_value(f);
    assert(fv < 100);
    assert(h == number(w) * 100 + fv);
    assert(h / 100 == number(w)) by (nonlinear_arith)
        requires
            h == number(w) * 100 + fv,
            fv < 100,
    ;
    assert(h % 100 == fv) by (nonlinear_arith)
        requires
            h == number(w) * 100 + fv,
            fv < 100,
    ;
    assert(fv / 10 == digit_value(f[0]));
    assert(h % 10 == digit_value(f[1])) by (nonlinear_arith)
        requires
            h == number(w) * 100 + digit_value(f[0]) * 10 + digit_value(f[1]),
            digit_value(f[1]) < 10,
    ;
    assert(text_of(d) =~= s);
}

} // verus!
