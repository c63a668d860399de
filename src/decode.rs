use vstd::prelude::*;
use crate::cursor::{Cursor, plain_prefix, lemma_plain_prefix};
use crate::numeric::{
    parse_oct, parse_hex, oct_parse, oct_taken, hex_parse, hex_taken, lemma_lead_digits_prefix,
};
use crate::text::{chars_of, string_of};

verus! {

/// The character that a one-letter escape `\tag` stands for, if `tag` names one.
pub open spec fn simple_escape(tag: char) -> Option<char> {
    if tag == '\\' {
        Some('\\')
    } else if tag == 'a' {
        Some('\u{0007}')
    } else if tag == 'b' {
        Some('\u{0008}')
    } else if tag == 'e' {
        Some('\u{001B}')
    } else if tag == 'f' {
        Some('\u{000C}')
    } else if tag == 'n' {
        Some('\n')
    } else if tag == 'r' {
        Some('\r')
    } else if tag == 't' {
        Some('\t')
    } else if tag == 'v' {
        Some('\u{000B}')
    } else {
        None
    }
}

/// The text that a numeric escape `\tag` gives: the decoded character, or on failure the
/// escape written out again with the digits that its sub-parser read.
pub open spec fn numeric_text(tag: char, r: Result<char, Seq<char>>) -> Seq<char> {
    match r {
        Ok(c) => seq![c],
        Err(d) => seq!['\\', tag] + d,
    }
}

/// The text that an escape `\tag` other than `\c`, `\0` and `\x` gives: its character,
/// or the escape itself when `tag` names none.
pub open spec fn tag_text(tag: char) -> Seq<char> {
    match simple_escape(tag) {
        Some(c) => seq![c],
        None => seq!['\\', tag],
    }
}

/// The text that `s` decodes to. Characters other than a backslash are copied; a backslash
/// with nothing after it ends the text and is dropped; `\c` ends the text and drops the
/// rest; `\0` reads three octal digits and `\x` two hexadecimal ones; any other escape
/// gives its character, or itself.
pub open spec fn decode(s: Seq<char>) -> Seq<char>
    decreases s.len(),
{
    if s.len() == 0 {
        Seq::empty()
    } else if s[0] != '\\' {
        seq![s[0]] + decode(s.drop_first())
    } else if s.len() == 1 {
        Seq::empty()
    } else {
        let tag = s[1];
        let rest = s.skip(2);
        if tag == 'c' {
            Seq::empty()
        } else if tag == '0' {
            proof {
                lemma_lead_digits_prefix(rest, 3, 8);
            }
            numeric_text('0', oct_parse(rest)) + decode(rest.skip(oct_taken(rest) as int))
        } else if tag == 'x' {
            proof {
                lemma_lead_digits_prefix(rest, 2, 16);
            }
            numeric_text('x', hex_parse(rest)) + decode(rest.skip(hex_taken(rest) as int))
        } else {
            tag_text(tag) + decode(rest)
        }
    }
}

/// Whether `s` holds no backslash.
pub open spec fn no_backslash(s: Seq<char>) -> bool {
    forall|i: int| 0 <= i < s.len() ==> s[i] != '\\'
}

/// A run of characters before the first backslash decodes to itself.
pub proof fn lemma_decode_plain_run(s: Seq<char>)
    ensures
        decode(s) == plain_prefix(s) + decode(s.skip(plain_prefix(s).len() as int)),
    decreases s.len(),
{
    if s.len() == 0 || s[0] == '\\' {
        assert(s.skip(0) =~= s);
    } else {
        let t = s.drop_first();
        lemma_decode_plain_run(t);
        lemma_plain_prefix(t);
        assert(t.skip(plain_prefix(t).len() as int) =~= s.skip(plain_prefix(s).len() as int));
    }
}

/// Text without a backslash decodes to itself.
pub proof fn lemma_plain_text_unchanged(s: Seq<char>)
    requires
        no_backslash(s),
    ensures
        decode(s) == s,
    decreases s.len(),
{
    if s.len() > 0 {
        let t = s.drop_first();
        assert(no_backslash(t)) by {
            assert forall|i: int| 0 <= i < t.len() implies t[i] != '\\' by {
                assert(t[i] == s[i + 1]);
            }
        }
        lemma_plain_text_unchanged(t);
        assert(seq![s[0]] + t =~= s);
    }
}

/// Decoding text without a backslash a second time changes nothing: both the first and
/// the second decoding give the text back.
pub proof fn lemma_plain_decode_twice(s: Seq<char>)
    requires
        no_backslash(s),
    ensures
        decode(decode(s)) == decode(s),
        decode(decode(s)) == s,
{
    lemma_plain_text_unchanged(s);
}

/// The character that a one-letter escape `\tag` stands for, if `tag` names one.
fn simple_escape_of(tag: char) -> (r: Option<char>)
    ensures
        r == simple_escape(tag),
{
    match tag {
        '\\' => Some('\\'),
        'a' => Some('\u{0007}'),
        'b' => Some('\u{0008}'),
        'e' => Some('\u{001B}'),
        'f' => Some('\u{000C}'),
        'n' => Some('\n'),
        'r' => Some('\r'),
        't' => Some('\t'),
        'v' => Some('\u{000B}'),
        _ => None,
    }
}

/// Appends the text of a numeric escape `\tag` to `out`, given its sub-parser's result.
fn push_numeric(out: &mut Vec<char>, tag: char, r: Result<char, String>)
    ensures
        final(out)@ == old(out)@ + numeric_text(tag, crate::numeric::outcome(r)),
{
    match r {
        Ok(c) => {
            out.push(c);
            assert(final(out)@ =~= old(out)@ + seq![c]);
        },
        Err(d) => {
            out.push('\\');
            out.push(tag);
            let mut digits = chars_of(d.as_str());
            out.append(&mut digits);
            assert(out@ =~= old(out)@ + (seq!['\\', tag] + d@));
        },
    }
}

/// Decodes the backslash escapes of `s`; see `decode` for what each escape gives. No input
/// is refused: an escape that cannot be decoded is kept as text.
pub fn escape(s: &str) -> (r: String)
    ensures
        r@ == decode(s@),
{
    let mut cur = Cursor::new(chars_of(s));
    let mut out = cur.take_plain();
    proof {
        lemma_decode_plain_run(s@);
        lemma_plain_prefix(s@);
    }
    if cur.is_empty() {
        // No backslash: the text passes through as it stands.
        proof {
            lemma_plain_text_unchanged(s@);
        }
        return s.to_owned();
    }
    while !cur.is_empty()
        invariant
            decode(s@) == out@ + decode(cur@),
        decreases cur@.len(),
    {
        let ghost before = cur@;
        let mut run = cur.take_plain();
        proof {
            lemma_decode_plain_run(before);
            lemma_plain_prefix(before);
        }
        out.append(&mut run);
        let ghost at = cur@;
        if cur.next().is_some() {
            // `at` starts with a backslash.
            match cur.next() {
                None => {
                    assert(out@ + decode(cur@) =~= out@);
                },
                Some(tag) => {
                    let ghost rest = cur@;
                    assert(at.skip(2) =~= rest);
                    if tag == 'c' {
                        assert(out@ + decode(at) =~= out@);
                        return string_of(&out);
                    } else if tag == '0' {
                        proof {
                            lemma_lead_digits_prefix(rest, 3, 8);
                        }
                        let r = parse_oct(&mut cur);
                        push_numeric(&mut out, '0', r);
                    } else if tag == 'x' {
                        proof {
                            lemma_lead_digits_prefix(rest, 2, 16);
                        }
                        let r = parse_hex(&mut cur);
                        push_numeric(&mut out, 'x', r);
                    } else {
                        match simple_escape_of(tag) {
                            Some(c) => {
                                out.push(c);
                            },
                            None => {
                                out.push('\\');
                                out.push(tag);
                            },
                        }
                    }
                },
            }
        }
    }
    string_of(&out)
}

} // verus!
