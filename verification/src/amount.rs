//! Exact signed decimal amounts.
//!
//! An amount is held as its decimal digits, so that no input is too long or
//! too precise for it: a sign, the digits before the decimal point and the
//! digits after it. The digits are kept in normal form, in which equal
//! amounts have equal digits.

use vstd::prelude::*;
use vstd::slice::slice_subrange;
use crate::text::{chars_of, find_char, find_from, lemma_find_from, lemma_find_from_is};

verus! {

/// Whether `c` is one of the ten decimal digits.
pub open spec fn is_digit(c: char) -> bool {
    '0' <= c <= '9'
}

/// The number that the digit `c` stands for.
pub open spec fn digit_value(c: char) -> u8 {
    (c as u32 - '0' as u32) as u8
}

/// The character that writes the digit `d`.
pub open spec fn digit_char(d: u8) -> char {
    (d + '0' as u32) as char
}

/// Whether every character of `s` is a decimal digit.
pub open spec fn all_digit_chars(s: Seq<char>) -> bool {
    forall|i: int| 0 <= i < s.len() ==> is_digit(#[trigger] s[i])
}

/// Whether every item of `d` is a digit, at most nine.
pub open spec fn all_digits(d: Seq<u8>) -> bool {
    forall|i: int| 0 <= i < d.len() ==> #[trigger] d[i] <= 9
}

/// The digits that the characters of `s` stand for.
pub open spec fn digits_of(s: Seq<char>) -> Seq<u8> {
    s.map_values(|c: char| digit_value(c))
}

/// The characters that write the digits `d`.
pub open spec fn chars_of_digits(d: Seq<u8>) -> Seq<char> {
    d.map_values(|x: u8| digit_char(x))
}

/// `d` without its leading zeros.
pub open spec fn strip_leading_zeros(d: Seq<u8>) -> Seq<u8>
    decreases d.len(),
{
    if d.len() > 0 && d[0] == 0 {
        strip_leading_zeros(d.drop_first())
    } else {
        d
    }
}

/// `d` without its trailing zeros.
pub open spec fn strip_trailing_zeros(d: Seq<u8>) -> Seq<u8>
    decreases d.len(),
{
    if d.len() > 0 && d.last() == 0 {
        strip_trailing_zeros(d.drop_last())
    } else {
        d
    }
}

/// The number that the digits `d` write, most significant digit first.
pub open spec fn digits_value(d: Seq<u8>) -> nat
    decreases d.len(),
{
    if d.len() == 0 {
        0
    } else {
        digits_value(d.drop_last()) * 10 + d.last() as nat
    }
}

/// The digits of the number after the one that `d` writes: the last digit
/// below nine goes up by one and the nines behind it turn to zeros; a run of
/// nines alone gains a leading one.
pub open spec fn successor(d: Seq<u8>) -> Seq<u8>
    decreases d.len(),
{
    if d.len() == 0 {
        seq![1u8]
    } else if d.last() < 9 {
        d.drop_last().push((d.last() + 1) as u8)
    } else {
        successor(d.drop_last()).push(0u8)
    }
}

/// What an amount is: a sign and the decimal digits on both sides of the
/// point, most significant first.
pub struct Decimal {
    pub negative: bool,
    pub whole: Seq<u8>,
    pub fraction: Seq<u8>,
}

impl Decimal {
    /// The amount zero.
    pub open spec fn zero() -> Decimal {
        Decimal { negative: false, whole: Seq::empty(), fraction: Seq::empty() }
    }

    /// Whether no digit is left, which in normal form means zero.
    pub open spec fn is_zero(self) -> bool {
        self.whole.len() == 0 && self.fraction.len() == 0
    }

    /// Normal form: digits only, no zero in front of the whole part, none at
    /// the end of the fraction, and no sign on zero.
    pub open spec fn wf(self) -> bool {
        &&& all_digits(self.whole)
        &&& all_digits(self.fraction)
        &&& self.whole.len() > 0 ==> self.whole[0] != 0
        &&& self.fraction.len() > 0 ==> self.fraction.last() != 0
        &&& self.negative ==> !self.is_zero()
    }

    /// The amount of the opposite sign; zero stays zero.
    pub open spec fn negated(self) -> Decimal {
        Decimal { negative: !self.negative && !self.is_zero(), ..self }
    }

    /// The amount without its sign.
    pub open spec fn abs(self) -> Decimal {
        Decimal { negative: false, ..self }
    }

    /// The shortest decimal numeral of the amount: a minus sign where it is
    /// negative, the whole part (`0` where it has no digit) and, where the
    /// fraction has digits, a point and the fraction.
    pub open spec fn numeral(self) -> Seq<char> {
        (if self.negative {
            seq!['-']
        } else {
            Seq::<char>::empty()
        }) + (if self.whole.len() == 0 {
            seq!['0']
        } else {
            chars_of_digits(self.whole)
        }) + (if self.fraction.len() == 0 {
            Seq::<char>::empty()
        } else {
            seq!['.'] + chars_of_digits(self.fraction)
        })
    }

    /// The first two digits of the fraction, zeros standing in for missing
    /// ones.
    pub open spec fn first_two_places(self) -> Seq<u8> {
        if self.fraction.len() >= 2 {
            self.fraction.take(2)
        } else if self.fraction.len() == 1 {
            seq![self.fraction[0], 0u8]
        } else {
            seq![0u8, 0u8]
        }
    }

    /// Whether rounding to two places goes up: what lies beyond the second
    /// place is more than half a hundredth, or exactly half of one with an
    /// odd digit in the second place (ties go to the even neighbour).
    pub open spec fn rounds_up(self) -> bool {
        let f = self.fraction;
        &&& f.len() > 2
        &&& f[2] >= 5
        &&& f[2] == 5 ==> f.len() > 3 || f[1] % 2 == 1
    }

    /// The digits of the amount's size in hundredths, rounded half to even:
    /// at least two digits, of which the last two are the places after the
    /// point.
    pub open spec fn hundredths(self) -> Seq<u8> {
        let kept = self.whole + self.first_two_places();
        if self.rounds_up() {
            successor(kept)
        } else {
            kept
        }
    }

    /// The numeral of the amount with exactly two places after the point.
    pub open spec fn fixed2(self) -> Seq<char> {
        let h = self.hundredths();
        let whole = h.take(h.len() - 2);
        (if self.negative {
            seq!['-']
        } else {
            Seq::<char>::empty()
        }) + (if whole.len() == 0 {
            seq!['0']
        } else {
            chars_of_digits(whole)
        }) + seq!['.'] + chars_of_digits(h.skip(h.len() - 2))
    }
}

/// Whether `s` has a sign in front.
pub open spec fn has_sign(s: Seq<char>) -> bool {
    s.len() > 0 && (s[0] == '-' || s[0] == '+')
}

/// `s` without the sign in front, if it has one.
pub open spec fn unsigned_part(s: Seq<char>) -> Seq<char> {
    if has_sign(s) {
        s.drop_first()
    } else {
        s
    }
}

/// Whether `s` writes a decimal number without a sign: digits with at most
/// one point among them, before them or behind them, and at least one digit.
pub open spec fn is_unsigned_decimal(s: Seq<char>) -> bool {
    let dot = find_from(s, '.', 0);
    &&& all_digit_chars(s.take(dot))
    &&& dot < s.len() ==> all_digit_chars(s.skip(dot + 1))
    &&& s.len() > (if dot < s.len() { 1int } else { 0int })
}

/// The amount that the unsigned decimal `s` writes.
pub open spec fn unsigned_decimal(s: Seq<char>) -> Decimal {
    let dot = find_from(s, '.', 0);
    Decimal {
        negative: false,
        whole: strip_leading_zeros(digits_of(s.take(dot))),
        fraction: if dot < s.len() {
            strip_trailing_zeros(digits_of(s.skip(dot + 1)))
        } else {
            Seq::<u8>::empty()
        },
    }
}

/// Whether `s` writes a decimal number: an unsigned decimal, with or
/// without a `+` or `-` in front.
pub open spec fn is_decimal(s: Seq<char>) -> bool {
    is_unsigned_decimal(unsigned_part(s))
}

/// The amount that the decimal `s` writes.
pub open spec fn decimal(s: Seq<char>) -> Decimal {
    let size = unsigned_decimal(unsigned_part(s));
    if s.len() > 0 && s[0] == '-' {
        size.negated()
    } else {
        size
    }
}

/// Reading the characters that write digits gives the digits back.
pub proof fn lemma_digits_are_read_back(d: Seq<u8>)
    requires
        all_digits(d),
    ensures
        all_digit_chars(chars_of_digits(d)),
        digits_of(chars_of_digits(d)) == d,
{
    assert(digits_of(chars_of_digits(d)) =~= d);
}

/// The shortest numeral of an amount in normal form is a decimal, and
/// reads as that amount.
pub proof fn lemma_numeral_is_read_back(d: Decimal)
    requires
        d.wf(),
    ensures
        is_decimal(d.numeral()),
        decimal(d.numeral()) == d,
{
    let sign = if d.negative {
        seq!['-']
    } else {
        Seq::<char>::empty()
    };
    let whole = if d.whole.len() == 0 {
        seq!['0']
    } else {
        chars_of_digits(d.whole)
    };
    let fraction = if d.fraction.len() == 0 {
        Seq::<char>::empty()
    } else {
        seq!['.'] + chars_of_digits(d.fraction)
    };
    let text = d.numeral();
    let body = whole + fraction;
    lemma_digits_are_read_back(d.whole);
    lemma_digits_are_read_back(d.fraction);
    assert(text =~= sign + body);
    assert(is_digit(whole[0]));
    assert(unsigned_part(text) =~= body);
    let dot = whole.len() as int;
    assert forall|i: int| 0 <= i < dot implies body[i] != '.' by {
        assert(body[i] == whole[i]);
        assert(is_digit(whole[i]));
    }
    if d.fraction.len() > 0 {
        lemma_find_from_is(body, '.', 0, dot);
        assert(body.skip(dot + 1) =~= chars_of_digits(d.fraction));
    } else {
        lemma_find_from(body, '.', 0);
        assert(body =~= whole);
    }
    assert(find_from(body, '.', 0) == dot);
    assert(body.take(dot) =~= whole);
    let read = unsigned_decimal(body);
    if d.whole.len() == 0 {
        assert(digits_of(whole) =~= seq![0u8]);
        assert(seq![0u8].drop_first() =~= Seq::<u8>::empty());
        assert(strip_leading_zeros(seq![0u8]) =~= Seq::<u8>::empty()) by {
            reveal_with_fuel(strip_leading_zeros, 2);
        }
    }
    assert(read.whole =~= d.whole);
    assert(read.fraction =~= d.fraction);
}

/// A signed decimal amount of any size and precision.
#[derive(Debug, PartialEq, Eq)]
pub struct Amount {
    negative: bool,
    whole: Vec<u8>,
    fraction: Vec<u8>,
}

impl View for Amount {
    type V = Decimal;

    closed spec fn view(&self) -> Decimal {
        Decimal { negative: self.negative, whole: self.whole@, fraction: self.fraction@ }
    }
}

/// The number that the digit `c` stands for.
pub fn digit_of(c: char) -> (d: u8)
    requires
        is_digit(c),
    ensures
        d == digit_value(c),
        d <= 9,
{
    (c as u32 - '0' as u32) as u8
}

/// The character that writes the digit `d`.
pub fn char_of_digit(d: u8) -> (c: char)
    requires
        d <= 9,
    ensures
        c == digit_char(d),
        is_digit(c),
        digit_value(c) == d,
{
    (d + 48u8) as char
}

/// The digits that `s` writes, where `s` holds digits only.
pub fn digits_in(s: &[char]) -> (found: Option<Vec<u8>>)
    ensures
        found is Some <==> all_digit_chars(s@),
        found matches Some(d) ==> d@ == digits_of(s@) && all_digits(d@),
{
    let mut out: Vec<u8> = Vec::new();
    let mut i: usize = 0;
    while i < s.len()
        invariant
            i <= s@.len(),
            out@ == digits_of(s@.take(i as int)),
            all_digits(out@),
            all_digit_chars(s@.take(i as int)),
        decreases s@.len() - i,
    {
        let c = s[i];
        if !('0' <= c && c <= '9') {
            return None;
        }
        out.push(digit_of(c));
        proof {
            assert(s@.take(i + 1) == s@.take(i as int).push(c));
            assert(out@ == digits_of(s@.take(i + 1)));
        }
        i += 1;
    }
    proof {
        assert(s@.take(i as int) == s@);
    }
    Some(out)
}

/// `digits` without its leading zeros.
pub fn without_leading_zeros(digits: Vec<u8>) -> (out: Vec<u8>)
    ensures
        out@ == strip_leading_zeros(digits@),
        out@.len() > 0 ==> out@[0] != 0,
        all_digits(digits@) ==> all_digits(out@),
{
    let mut k: usize = 0;
    proof {
        assert(digits@.skip(0) == digits@);
    }
    while k < digits.len() && digits[k] == 0
        invariant
            k <= digits@.len(),
            strip_leading_zeros(digits@) == strip_leading_zeros(digits@.skip(k as int)),
        decreases digits@.len() - k,
    {
        proof {
            assert(digits@.skip(k as int).drop_first() == digits@.skip(k + 1));
        }
        k += 1;
    }
    let mut out: Vec<u8> = Vec::new();
    let mut i: usize = k;
    while i < digits.len()
        invariant
            k <= i <= digits@.len(),
            out@ == digits@.subrange(k as int, i as int),
        decreases digits@.len() - i,
    {
        out.push(digits[i]);
        i += 1;
    }
    proof {
        assert(digits@.subrange(k as int, digits@.len() as int) == digits@.skip(k as int));
    }
    out
}

/// `digits` without its trailing zeros.
pub fn without_trailing_zeros(digits: Vec<u8>) -> (out: Vec<u8>)
    ensures
        out@ == strip_trailing_zeros(digits@),
        out@.len() > 0 ==> out@.last() != 0,
        all_digits(digits@) ==> all_digits(out@),
{
    let mut out = digits;
    while out.len() > 0 && out[out.len() - 1] == 0
        invariant
            strip_trailing_zeros(digits@) == strip_trailing_zeros(out@),
            out@.len() <= digits@.len(),
            out@ == digits@.take(out@.len() as int),
        decreases out@.len(),
    {
        out.pop();
    }
    out
}

/// Behind a last digit below nine stand only nines: the successor raises
/// that digit and turns the nines to zeros.
proof fn lemma_successor_after(d: Seq<u8>, at: int)
    requires
        0 <= at < d.len(),
        d[at] < 9,
        forall|i: int| at < i < d.len() ==> d[i] == 9,
    ensures
        successor(d) == d.take(at).push((d[at] + 1) as u8) + Seq::new(
            (d.len() - at - 1) as nat,
            |i: int| 0u8,
        ),
    decreases d.len(),
{
    let zeros = Seq::new((d.len() - at - 1) as nat, |i: int| 0u8);
    if at == d.len() - 1 {
        assert(d.drop_last() == d.take(at));
        assert(successor(d) == d.take(at).push((d[at] + 1) as u8) + zeros);
    } else {
        let front = d.drop_last();
        lemma_successor_after(front, at);
        let fewer = Seq::new((front.len() - at - 1) as nat, |i: int| 0u8);
        assert(front.take(at) == d.take(at));
        assert(fewer.push(0u8) == zeros);
        assert(successor(d) == d.take(at).push((d[at] + 1) as u8) + zeros);
    }
}

/// The successor of a run of nines is a one and as many zeros.
proof fn lemma_successor_nines(d: Seq<u8>)
    requires
        forall|i: int| 0 <= i < d.len() ==> d[i] == 9,
    ensures
        successor(d) == seq![1u8] + Seq::new(d.len(), |i: int| 0u8),
    decreases d.len(),
{
    let zeros = Seq::new(d.len(), |i: int| 0u8);
    if d.len() == 0 {
        assert(seq![1u8] + zeros == seq![1u8]);
    } else {
        lemma_successor_nines(d.drop_last());
        let fewer = Seq::new((d.len() - 1) as nat, |i: int| 0u8);
        assert((seq![1u8] + fewer).push(0u8) == seq![1u8] + zeros);
    }
}

/// The successor of a numeral writes the next number.
pub proof fn lemma_successor_value(d: Seq<u8>)
    requires
        all_digits(d),
    ensures
        digits_value(successor(d)) == digits_value(d) + 1,
        all_digits(successor(d)),
        successor(d).len() >= d.len(),
        successor(d).len() >= 1,
    decreases d.len(),
{
    if d.len() == 0 {
        assert(seq![1u8].drop_last() == Seq::<u8>::empty());
        assert(digits_value(seq![1u8]) == 1) by {
            reveal_with_fuel(digits_value, 2);
        }
    } else if d.last() < 9 {
        let next = d.drop_last().push((d.last() + 1) as u8);
        assert(next.drop_last() == d.drop_last());
    } else {
        lemma_successor_value(d.drop_last());
        let next = successor(d.drop_last()).push(0u8);
        assert(next.drop_last() == successor(d.drop_last()));
    }
}

/// The digits of the number after the one that `digits` writes.
pub fn increment(digits: &Vec<u8>) -> (out: Vec<u8>)
    requires
        all_digits(digits@),
    ensures
        out@ == successor(digits@),
{
    let n = digits.len();
    let mut at: usize = n;
    while at > 0 && digits[at - 1] == 9
        invariant
            at <= n == digits@.len(),
            forall|i: int| at <= i < n ==> digits@[i] == 9,
        decreases at,
    {
        at -= 1;
    }
    let mut out: Vec<u8> = Vec::new();
    if at == 0 {
        out.push(1);
        proof {
            lemma_successor_nines(digits@);
        }
    } else {
        let mut i: usize = 0;
        while i < at - 1
            invariant
                0 < at <= n == digits@.len(),
                i <= at - 1,
                out@ == digits@.take(i as int),
            decreases at - 1 - i,
        {
            out.push(digits[i]);
            i += 1;
        }
        out.push(digits[at - 1] + 1);
        proof {
            lemma_successor_after(digits@, at - 1);
        }
    }
    let ghost front = out@;
    let mut k: usize = at;
    while k < n
        invariant
            at <= k <= n,
            out@ == front + Seq::new((k - at) as nat, |i: int| 0u8),
        decreases n - k,
    {
        out.push(0);
        k += 1;
    }
    out
}

/// Appends the characters that write `digits` to `out`.
fn push_digits(out: &mut String, digits: &[u8])
    requires
        all_digits(digits@),
    ensures
        final(out)@ == old(out)@ + chars_of_digits(digits@),
{
    let mut i: usize = 0;
    while i < digits.len()
        invariant
            i <= digits@.len(),
            all_digits(digits@),
            out@ == old(out)@ + chars_of_digits(digits@.take(i as int)),
        decreases digits@.len() - i,
    {
        out.push(char_of_digit(digits[i]));
        proof {
            assert(digits@.take(i + 1) == digits@.take(i as int).push(digits@[i as int]));
            assert(chars_of_digits(digits@.take(i + 1)) == chars_of_digits(
                digits@.take(i as int),
            ).push(digit_char(digits@[i as int])));
        }
        i += 1;
    }
    proof {
        assert(digits@.take(i as int) == digits@);
    }
}

/// A copy of `digits`.
fn copy_digits(digits: &Vec<u8>) -> (out: Vec<u8>)
    ensures
        out@ == digits@,
{
    let mut out: Vec<u8> = Vec::new();
    let mut i: usize = 0;
    while i < digits.len()
        invariant
            i <= digits@.len(),
            out@ == digits@.take(i as int),
        decreases digits@.len() - i,
    {
        out.push(digits[i]);
        i += 1;
    }
    proof {
        assert(digits@.take(i as int) == digits@);
    }
    out
}

impl Clone for Amount {
    fn clone(&self) -> (a: Amount)
        ensures
            a@ == self@,
    {
        proof {
            use_type_invariant(self);
        }
        Amount {
            negative: self.negative,
            whole: copy_digits(&self.whole),
            fraction: copy_digits(&self.fraction),
        }
    }
}

impl Amount {
    /// Every amount is kept in normal form.
    #[verifier::type_invariant]
    pub open spec fn normal(&self) -> bool {
        self@.wf()
    }

    /// The amount zero.
    pub fn zero() -> (a: Amount)
        ensures
            a@ == Decimal::zero(),
    {
        Amount { negative: false, whole: Vec::new(), fraction: Vec::new() }
    }

    /// Reads the unsigned decimal `s`.
    pub fn parse_unsigned(s: &[char]) -> (read: Option<Amount>)
        ensures
            read is Some <==> is_unsigned_decimal(s@),
            read matches Some(a) ==> a@ == unsigned_decimal(s@),
    {
        let dot = find_char(s, '.', 0);
        proof {
            lemma_find_from(s@, '.', 0);
            assert(s@.subrange(0, dot as int) == s@.take(dot as int));
        }
        let whole = match digits_in(slice_subrange(s, 0, dot)) {
            Some(d) => d,
            None => {
                return None;
            },
        };
        let fraction = if dot < s.len() {
            proof {
                assert(s@.subrange(dot + 1, s@.len() as int) == s@.skip(dot + 1));
            }
            match digits_in(slice_subrange(s, dot + 1, s.len())) {
                Some(d) => d,
                None => {
                    return None;
                },
            }
        } else {
            Vec::new()
        };
        if whole.len() == 0 && fraction.len() == 0 {
            return None;
        }
        let whole = without_leading_zeros(whole);
        let fraction = without_trailing_zeros(fraction);
        Some(Amount { negative: false, whole, fraction })
    }

    /// Reads the decimal `s`, with or without a sign in front.
    pub fn parse_chars(s: &[char]) -> (read: Option<Amount>)
        ensures
            read is Some <==> is_decimal(s@),
            read matches Some(a) ==> a@ == decimal(s@),
    {
        let signed = s.len() > 0 && (s[0] == '-' || s[0] == '+');
        let from: usize = if signed {
            1
        } else {
            0
        };
        proof {
            assert(s@.subrange(from as int, s@.len() as int) == unsigned_part(s@));
        }
        match Amount::parse_unsigned(slice_subrange(s, from, s.len())) {
            Some(size) => {
                if signed && s[0] == '-' {
                    Some(size.negated())
                } else {
                    Some(size)
                }
            },
            None => None,
        }
    }

    /// Reads a decimal numeral such as `12.50`, `-3` or `.5`: digits with at
    /// most one point and at least one digit, with or without a sign in
    /// front. Anything else is no amount.
    pub fn parse(text: &str) -> (read: Option<Amount>)
        ensures
            read is Some <==> is_decimal(text@),
            read matches Some(a) ==> a@ == decimal(text@),
    {
        let chars = chars_of(text);
        Amount::parse_chars(chars.as_slice())
    }

    /// Whether the amount is below zero.
    pub fn is_negative(&self) -> (b: bool)
        ensures
            b == self@.negative,
    {
        self.negative
    }

    /// Whether the amount is zero.
    pub fn is_zero(&self) -> (b: bool)
        ensures
            b == self@.is_zero(),
    {
        self.whole.len() == 0 && self.fraction.len() == 0
    }

    /// The amount of the opposite sign.
    pub fn negated(self) -> (a: Amount)
        ensures
            a@ == self@.negated(),
    {
        proof {
            use_type_invariant(&self);
        }
        let negative = !self.negative && !self.is_zero();
        Amount { negative, whole: self.whole, fraction: self.fraction }
    }

    /// The amount without its sign.
    pub fn abs(&self) -> (a: Amount)
        ensures
            a@ == self@.abs(),
    {
        proof {
            use_type_invariant(self);
        }
        Amount {
            negative: false,
            whole: copy_digits(&self.whole),
            fraction: copy_digits(&self.fraction),
        }
    }

    /// The shortest decimal numeral of the amount, such as `-100.5`, `200`
    /// or `0.07`.
    pub fn to_string(&self) -> (out: String)
        ensures
            out@ == self@.numeral(),
    {
        proof {
            use_type_invariant(self);
        }
        let mut out = String::new();
        if self.negative {
            out.push('-');
        }
        if self.whole.len() == 0 {
            out.push('0');
        } else {
            push_digits(&mut out, self.whole.as_slice());
        }
        if self.fraction.len() > 0 {
            out.push('.');
            push_digits(&mut out, self.fraction.as_slice());
        }
        proof {
            assert(out@ == self@.numeral());
        }
        out
    }

    /// The numeral of the amount with exactly two places after the point,
    /// rounded half to even, such as `-100.50` or `0.07`.
    pub fn to_fixed2(&self) -> (out: String)
        ensures
            out@ == self@.fixed2(),
    {
        proof {
            use_type_invariant(self);
        }
        let mut kept = copy_digits(&self.whole);
        let places = self.fraction.len();
        kept.push(if places >= 1 { self.fraction[0] } else { 0 });
        kept.push(if places >= 2 { self.fraction[1] } else { 0 });
        assert(kept@ == self@.whole + self@.first_two_places());
        let up = places > 2 && self.fraction[2] >= 5 && (self.fraction[2] != 5 || places > 3
            || self.fraction[1] % 2 == 1);
        assert(up == self@.rounds_up());
        let digits = if up {
            proof {
                lemma_successor_value(kept@);
            }
            increment(&kept)
        } else {
            kept
        };
        assert(digits@ == self@.hundredths());
        let n = digits.len();
        let mut out = String::new();
        if self.negative {
            out.push('-');
        }
        if n == 2 {
            out.push('0');
        } else {
            push_digits(&mut out, slice_subrange(digits.as_slice(), 0, n - 2));
        }
        out.push('.');
        push_digits(&mut out, slice_subrange(digits.as_slice(), n - 2, n));
        proof {
            assert(digits@.subrange(0, n - 2) == digits@.take(n - 2));
            assert(digits@.subrange(n - 2, n as int) == digits@.skip(n - 2));
            assert(out@ == self@.fixed2());
        }
        out
    }
}

} // verus!
