//! Verified text helpers: parsing a decimal id, reading a zero-terminated
//! byte field into its display form, and building padded display strings.

use vstd::prelude::*;

verus! {

/// `b` is an ASCII decimal digit.
pub open spec fn is_digit(b: u8) -> bool {
    48 <= b <= 57
}

/// Every byte of `b` is an ASCII decimal digit.
pub open spec fn all_digits(b: Seq<u8>) -> bool {
    forall|i: int| 0 <= i < b.len() ==> is_digit(#[trigger] b[i])
}

/// The value of `b` read as decimal digits, most significant first.
pub open spec fn dec_val(b: Seq<u8>) -> nat
    recommends
        all_digits(b),
    decreases b.len(),
{
    if b.len() == 0 {
        0
    } else {
        (dec_val(b.drop_last()) * 10 + (b.last() - 48)) as nat
    }
}

/// The digits of an id token: an optional leading `+` is skipped.
pub open spec fn digits_part(b: Seq<u8>) -> Seq<u8> {
    if b.len() > 0 && b[0] == 43 {
        b.drop_first()
    } else {
        b
    }
}

/// The id token's value: after an optional leading `+`, at least one
/// digit and nothing else, with a value that fits in 32 bits.
pub open spec fn spec_parse_u32(b: Seq<u8>) -> Option<u32> {
    let d = digits_part(b);
    if d.len() > 0 && all_digits(d) && dec_val(d) <= u32::MAX {
        Some(dec_val(d) as u32)
    } else {
        None
    }
}

/// A digit prefix never exceeds the value of the whole digit string.
proof fn lemma_dec_val_prefix_le(b: Seq<u8>, i: int)
    requires
        0 <= i <= b.len(),
        all_digits(b),
    ensures
        dec_val(b.subrange(0, i)) <= dec_val(b),
    decreases b.len() - i,
{
    if i == b.len() {
        assert(b.subrange(0, i) =~= b);
    } else {
        assert(b.subrange(0, i + 1).drop_last() =~= b.subrange(0, i));
        assert(b.subrange(0, i + 1).last() == b[i]);
        assert(dec_val(b.subrange(0, i)) <= dec_val(b.subrange(0, i + 1)));
        lemma_dec_val_prefix_le(b, i + 1);
    }
}

/// Parses an unsigned 32-bit decimal integer from `bytes`, per
/// [`spec_parse_u32`].
pub fn parse_u32(bytes: &[u8]) -> (r: Option<u32>)
    ensures
        r == spec_parse_u32(bytes@),
{
    let ghost d = digits_part(bytes@);
    let start: usize = if bytes.len() > 0 && bytes[0] == 43 {
        1
    } else {
        0
    };
    proof {
        assert(d =~= bytes@.subrange(start as int, bytes@.len() as int));
    }
    if bytes.len() == start {
        return None;
    }
    let mut acc: u64 = 0;
    let mut i: usize = start;
    while i < bytes.len()
        invariant
            start <= i <= bytes@.len(),
            start < bytes@.len(),
            d == digits_part(bytes@),
            d =~= bytes@.subrange(start as int, bytes@.len() as int),
            all_digits(d.subrange(0, i - start)),
            acc == dec_val(d.subrange(0, i - start)),
            acc <= u32::MAX,
        decreases bytes@.len() - i,
    {
        let c = bytes[i];
        if c < 48 || c > 57 {
            proof {
                assert(d[i - start] == bytes@[i as int]);
                assert(!all_digits(d));
            }
            return None;
        }
        proof {
            let p = d.subrange(0, i + 1 - start);
            assert(p.drop_last() =~= d.subrange(0, i - start));
            assert(p.last() == d[i - start]);
            assert(d[i - start] == bytes@[i as int]);
            assert(dec_val(p) == dec_val(d.subrange(0, i - start)) * 10 + (bytes@[i as int] - 48));
            assert forall|j: int| 0 <= j < i + 1 - start implies is_digit(#[trigger] p[j]) by {
                if j < i - start {
                    assert(is_digit(d.subrange(0, i - start)[j]));
                }
            }
            assert(all_digits(p));
        }
        acc = acc * 10 + ((c - 48) as u64);
        if acc > u32::MAX as u64 {
            proof {
                assert(dec_val(d.subrange(0, i + 1 - start)) == acc);
                if all_digits(d) {
                    lemma_dec_val_prefix_le(d, i + 1 - start);
                    assert(dec_val(d) > u32::MAX);
                }
            }
            return None;
        }
        i = i + 1;
    }
    proof {
        assert(d.subrange(0, d.len() as int) =~= d);
        assert(d.len() > 0);
    }
    Some(acc as u32)
}

/// Relies on `String::push`: appends the character to the end of the string.
#[verifier::external_body]
fn push_char(s: &mut String, c: char)
    ensures
        final (s)@ == old(s)@.push(c),
{
    s.push(c);
}

/// The position of the first zero byte of `b`, or `b.len()` if none.
pub open spec fn nul_index(b: Seq<u8>) -> int
    decreases b.len(),
{
    if b.len() == 0 {
        0
    } else if b[0] == 0 {
        0
    } else {
        1 + nul_index(b.drop_first())
    }
}

/// `nul_index` points at the first zero byte, or past the end.
pub proof fn lemma_nul_index(b: Seq<u8>)
    ensures
        0 <= nul_index(b) <= b.len(),
        forall|j: int| 0 <= j < nul_index(b) ==> b[j] != 0,
        nul_index(b) < b.len() ==> b[nul_index(b)] == 0,
    decreases b.len(),
{
    if b.len() > 0 && b[0] != 0 {
        lemma_nul_index(b.drop_first());
        assert forall|j: int| 0 <= j < nul_index(b) implies b[j] != 0 by {
            if j > 0 {
                assert(b.drop_first()[j - 1] != 0);
            }
        }
        if nul_index(b) < b.len() {
            assert(b[nul_index(b)] == b.drop_first()[nul_index(b.drop_first())]);
        }
    }
}

/// The display text of a zero-padded field: its bytes up to the first zero
/// byte, each read as one character.
pub open spec fn text_of(b: Seq<u8>) -> Seq<char> {
    b.subrange(0, nul_index(b)).map(|i: int, x: u8| x as char)
}

/// Reads a zero-padded byte field into its display text, stopping at the
/// first zero byte.
pub fn field_text(field: &[u8]) -> (s: String)
    ensures
        s@ == text_of(field@),
{
    let mut s = String::new();
    let mut i: usize = 0;
    while i < field.len() && field[i] != 0
        invariant
            i <= field@.len(),
            forall|j: int| 0 <= j < i ==> field@[j] != 0,
            s@ == field@.subrange(0, i as int).map(|k: int, x: u8| x as char),
        decreases field@.len() - i,
    {
        push_char(&mut s, field[i] as char);
        proof {
            assert(field@.subrange(0, i + 1).map(|k: int, x: u8| x as char) =~= field@.subrange(
                0,
                i as int,
            ).map(|k: int, x: u8| x as char).push(field@[i as int] as char));
        }
        i = i + 1;
    }
    proof {
        lemma_nul_index(field@);
        assert(nul_index(field@) == i);
    }
    s
}

/// The decimal digit character for a value below ten.
pub open spec fn digit_char(d: nat) -> char
    recommends
        d < 10,
{
    ((48 + d) as u8) as char
}

/// The decimal digits of `n`, most significant first, no leading zeros.
pub open spec fn dec_chars(n: nat) -> Seq<char>
    decreases n,
{
    if n < 10 {
        seq![digit_char(n)]
    } else {
        dec_chars(n / 10).push(digit_char(n % 10))
    }
}

/// Renders `n` in decimal, per [`dec_chars`].
pub fn u32_dec(n: u32) -> (s: String)
    ensures
        s@ == dec_chars(n as nat),
    decreases n,
{
    if n < 10 {
        let mut s = String::new();
        push_char(&mut s, ((48 + (n as u8)) as char));
        s
    } else {
        let mut s = u32_dec(n / 10);
        push_char(&mut s, ((48 + ((n % 10) as u8)) as char));
        s
    }
}

/// A sequence of `n` space characters.
pub open spec fn spaces(n: int) -> Seq<char> {
    Seq::new(n as nat, |i: int| ' ')
}

/// `s` padded on the right with spaces to width `w` (unchanged if already
/// wider).
pub open spec fn pad_chars(s: Seq<char>, w: int) -> Seq<char> {
    if s.len() >= w {
        s
    } else {
        s + spaces(w - s.len())
    }
}

/// Appends spaces to `s` until it is at least `width` characters long.
pub fn pad_right(s: &mut String, width: usize)
    ensures
        final (s)@ == pad_chars(old(s)@, width as int),
{
    let mut n: usize = s.as_str().unicode_len();
    if n >= width {
        return ;
    }
    proof {
        assert(old(s)@ + spaces(0) =~= old(s)@);
    }
    while n < width
        invariant
            old(s)@.len() <= n <= width,
            old(s)@.len() < width,
            s@.len() == n,
            s@ == old(s)@ + spaces(n - old(s)@.len()),
        decreases width - n,
    {
        push_char(s, ' ');
        proof {
            assert(spaces(n + 1 - old(s)@.len()) =~= spaces(n - old(s)@.len()).push(' '));
            assert(old(s)@ + spaces(n + 1 - old(s)@.len()) =~= (old(s)@ + spaces(
                n - old(s)@.len(),
            )).push(' '));
        }
        n = n + 1;
    }
}

} // verus!
