use vstd::prelude::*;
use vstd::arithmetic::power::pow;
use crate::cursor::Cursor;
use crate::text::string_of;

verus! {

/// Whether `c` is a digit of base `radix`: `0`-`7` in base 8, and
/// `0`-`9`, `a`-`f`, `A`-`F` in base 16.
pub open spec fn is_digit_of(c: char, radix: nat) -> bool {
    if radix == 8 {
        '0' <= c <= '7'
    } else {
        ('0' <= c <= '9') || ('a' <= c <= 'f') || ('A' <= c <= 'F')
    }
}

/// The value of a digit character.
pub open spec fn digit_value(c: char) -> nat {
    if '0' <= c <= '9' {
        (c as nat - '0' as nat) as nat
    } else if 'a' <= c <= 'f' {
        (c as nat - 'a' as nat + 10) as nat
    } else {
        (c as nat - 'A' as nat + 10) as nat
    }
}

/// The leading digits of `s` in base `radix`, at most `width` of them.
pub open spec fn lead_digits(s: Seq<char>, width: nat, radix: nat) -> Seq<char>
    decreases width,
{
    if width == 0 || s.len() == 0 || !is_digit_of(s[0], radix) {
        Seq::empty()
    } else {
        seq![s[0]] + lead_digits(s.drop_first(), (width - 1) as nat, radix)
    }
}

/// The number that the digits `d` write in base `radix`, most significant first.
pub open spec fn digits_value(d: Seq<char>, radix: nat) -> nat
    decreases d.len(),
{
    if d.len() == 0 {
        0
    } else {
        digits_value(d.drop_last(), radix) * radix + digit_value(d.last())
    }
}

/// The outcome of reading exactly `width` digits of base `radix` from `s`: the character
/// with that code when there are `width` digits and the value is below 128, and otherwise
/// a failure carrying the digits that were read.
pub open spec fn fixed_parse(s: Seq<char>, width: nat, radix: nat) -> Result<char, Seq<char>> {
    let d = lead_digits(s, width, radix);
    if d.len() == width && digits_value(d, radix) < 128 {
        Ok((digits_value(d, radix) as u8) as char)
    } else {
        Err(d)
    }
}

/// What the octal parser gives on `s`.
pub open spec fn oct_parse(s: Seq<char>) -> Result<char, Seq<char>> {
    fixed_parse(s, 3, 8)
}

/// How many characters the octal parser consumes from `s`.
pub open spec fn oct_taken(s: Seq<char>) -> nat {
    lead_digits(s, 3, 8).len()
}

/// What the hexadecimal parser gives on `s`.
pub open spec fn hex_parse(s: Seq<char>) -> Result<char, Seq<char>> {
    fixed_parse(s, 2, 16)
}

/// How many characters the hexadecimal parser consumes from `s`.
pub open spec fn hex_taken(s: Seq<char>) -> nat {
    lead_digits(s, 2, 16).len()
}

/// A parser result seen as a character or the text of its failure payload.
pub open spec fn outcome(r: Result<char, String>) -> Result<char, Seq<char>> {
    match r {
        Ok(c) => Ok(c),
        Err(e) => Err(e@),
    }
}

/// The leading digits are a prefix of the input, no longer than `width`.
pub proof fn lemma_lead_digits_prefix(s: Seq<char>, width: nat, radix: nat)
    ensures
        lead_digits(s, width, radix).len() <= width,
        lead_digits(s, width, radix).len() <= s.len(),
        lead_digits(s, width, radix) == s.take(lead_digits(s, width, radix).len() as int),
    decreases width,
{
    if width == 0 || s.len() == 0 || !is_digit_of(s[0], radix) {
        assert(s.take(0) =~= Seq::<char>::empty());
    } else {
        let t = s.drop_first();
        lemma_lead_digits_prefix(t, (width - 1) as nat, radix);
        let k = lead_digits(t, (width - 1) as nat, radix).len();
        assert(seq![s[0]] + t.take(k as int) =~= s.take(k + 1 as int));
    }
}

/// Whether `c` is a digit of base `radix`.
fn digit_of(c: char, radix: u32) -> (r: bool)
    requires
        radix == 8 || radix == 16,
    ensures
        r == is_digit_of(c, radix as nat),
{
    if radix == 8 {
        '0' <= c && c <= '7'
    } else {
        ('0' <= c && c <= '9') || ('a' <= c && c <= 'f') || ('A' <= c && c <= 'F')
    }
}

/// The value of a digit character of base 8 or 16.
fn value_of(c: char, radix: u32) -> (r: u32)
    requires
        radix == 8 || radix == 16,
        is_digit_of(c, radix as nat),
    ensures
        r == digit_value(c),
        r < radix,
{
    if '0' <= c && c <= '9' {
        c as u32 - '0' as u32
    } else if 'a' <= c && c <= 'f' {
        c as u32 - 'a' as u32 + 10
    } else {
        c as u32 - 'A' as u32 + 10
    }
}

/// Reads up to `width` digits of base `radix`, consuming only digits; see `fixed_parse`.
fn parse_fixed(chars: &mut Cursor, width: usize, radix: u32) -> (r: Result<char, String>)
    requires
        (width == 3 && radix == 8) || (width == 2 && radix == 16),
    ensures
        outcome(r) == fixed_parse(old(chars)@, width as nat, radix as nat),
        final(chars)@ == old(chars)@.skip(lead_digits(old(chars)@, width as nat, radix as nat).len() as int),
{
    let ghost start = chars@;
    let ghost lead = lead_digits(start, width as nat, radix as nat);
    let mut buff: Vec<char> = Vec::new();
    let mut value: u32 = 0;
    let mut i: usize = 0;
    proof {
        vstd::arithmetic::power::lemma_pow0(radix as int);
    }
    while i < width
        invariant
            (width == 3 && radix == 8) || (width == 2 && radix == 16),
            start == old(chars)@,
            lead == lead_digits(start, width as nat, radix as nat),
            i <= width,
            buff@.len() == i,
            i <= start.len(),
            chars@ == start.skip(i as int),
            buff@ + lead_digits(chars@, (width - i) as nat, radix as nat) == lead,
            value == digits_value(buff@, radix as nat),
            value < pow(radix as int, i as nat),
        decreases width - i,
    {
        match chars.peek() {
            Some(c) => {
                if digit_of(c, radix) {
                    let ghost before = chars@;
                    chars.next();
                    let ghost prev = buff@;
                    buff.push(c);
                    proof {
                        assert(buff@.drop_last() =~= prev);
                        assert(prev + seq![c] + lead_digits(chars@, (width - i - 1) as nat, radix as nat)
                            =~= prev + (seq![c] + lead_digits(before.drop_first(), (width - i - 1) as nat, radix as nat)));
                        assert(chars@ =~= start.skip(i + 1));
                        vstd::arithmetic::power::lemma_pow_adds(radix as int, i as nat, 1);
                        vstd::arithmetic::power::lemma_pow1(radix as int);
                        let p = pow(radix as int, i as nat);
                        assert(value * radix + digit_value(c) < p * radix) by (nonlinear_arith)
                            requires value < p, digit_value(c) < radix;
                        assert(p <= 256) by {
                            vstd::arithmetic::power::lemma_pow_increases(radix as nat, i as nat, (width - 1) as nat);
                            reveal_with_fuel(pow, 3);
                        }
                    }
                    let dv = value_of(c, radix);
                    value = value * radix + dv;
                } else {
                    assert(lead_digits(chars@, (width - i) as nat, radix as nat) =~= Seq::<char>::empty());
                    assert(buff@ =~= lead);
                    return Err(string_of(&buff));
                }
            }
            None => {
                assert(lead_digits(chars@, (width - i) as nat, radix as nat) =~= Seq::<char>::empty());
                assert(buff@ =~= lead);
                return Err(string_of(&buff));
            }
        }
        i = i + 1;
    }
    assert(buff@ =~= lead);
    if value < 128 {
        Ok((value as u8) as char)
    } else {
        Err(string_of(&buff))
    }
}

/// Reads exactly three octal digits from `chars` and gives the character with that code,
/// which must be below 128. Only octal digits are consumed: on failure the digits read
/// so far come back, and the character that stopped the read stays in `chars`.
pub fn parse_oct(chars: &mut Cursor) -> (r: Result<char, String>)
    ensures
        outcome(r) == oct_parse(old(chars)@),
        final(chars)@ == old(chars)@.skip(oct_taken(old(chars)@) as int),
{
    parse_fixed(chars, 3, 8)
}

/// Reads exactly two hexadecimal digits from `chars` and gives the character with that
/// code, which must be below 128. Only hexadecimal digits are consumed: on failure the
/// digits read so far come back, and the character that stopped the read stays in `chars`.
pub fn parse_hex(chars: &mut Cursor) -> (r: Result<char, String>)
    ensures
        outcome(r) == hex_parse(old(chars)@),
        final(chars)@ == old(chars)@.skip(hex_taken(old(chars)@) as int),
{
    parse_fixed(chars, 2, 16)
}

} // verus!
