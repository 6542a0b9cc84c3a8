//! Character-level string building: decimal rendering of numbers and the
//! character substitutions applied to displayed names.

use vstd::prelude::*;

verus! {

/// The decimal digit character for `d`, which must be below ten.
pub open spec fn digit_char(d: int) -> char {
    if d == 0 {
        '0'
    } else if d == 1 {
        '1'
    } else if d == 2 {
        '2'
    } else if d == 3 {
        '3'
    } else if d == 4 {
        '4'
    } else if d == 5 {
        '5'
    } else if d == 6 {
        '6'
    } else if d == 7 {
        '7'
    } else if d == 8 {
        '8'
    } else {
        '9'
    }
}

/// The decimal rendering of `n`, without sign or padding.
pub open spec fn dec_str(n: nat) -> Seq<char>
    decreases n,
{
    if n < 10 {
        seq![digit_char(n as int)]
    } else {
        dec_str(n / 10).push(digit_char((n % 10) as int))
    }
}

/// The decimal rendering of `n` left-padded with zeros to at least
/// `width` characters.
pub open spec fn dec_str_pad(n: nat, width: nat) -> Seq<char>
    decreases width,
{
    if width <= 1 {
        dec_str(n)
    } else if n < 10 {
        dec_str_pad(0, (width - 1) as nat) + dec_str(n)
    } else {
        dec_str_pad(n / 10, (width - 1) as nat).push(digit_char((n % 10) as int))
    }
}

/// The first `i` characters of `s` with every ampersand replaced by the
/// word `and`.
pub open spec fn sanitize_prefix(s: Seq<char>, i: int) -> Seq<char>
    decreases i,
{
    if i <= 0 {
        Seq::empty()
    } else {
        sanitize_prefix(s, i - 1) + (if s[i - 1] == '&' {
            "and"@
        } else {
            seq![s[i - 1]]
        })
    }
}

/// `s` with every ampersand replaced by the word `and`.
pub open spec fn sanitized(s: Seq<char>) -> Seq<char> {
    sanitize_prefix(s, s.len() as int)
}

/// The first `i` characters of `s` with every space replaced by a dash.
pub open spec fn dash_prefix(s: Seq<char>, i: int) -> Seq<char>
    decreases i,
{
    if i <= 0 {
        Seq::empty()
    } else {
        dash_prefix(s, i - 1).push(
            if s[i - 1] == ' ' {
                '-'
            } else {
                s[i - 1]
            },
        )
    }
}

/// `s` with every space replaced by a dash.
pub open spec fn dashed(s: Seq<char>) -> Seq<char> {
    dash_prefix(s, s.len() as int)
}

/// The base of a box identifier: the displayed (sanitized) name with its
/// spaces turned into dashes.
pub open spec fn id_base_chars(name: Seq<char>) -> Seq<char> {
    dashed(sanitized(name))
}

/// Relies on `String::push` of std: it appends exactly the given character.
#[verifier::external_body]
pub fn push_char(out: &mut String, c: char)
    ensures
        final(out)@ == old(out)@.push(c),
{
    out.push(c);
}

/// Appends the decimal digit character for `d`.
pub fn push_digit(out: &mut String, d: u8)
    requires
        d < 10,
    ensures
        final(out)@ == old(out)@.push(digit_char(d as int)),
{
    if d == 0 {
        push_char(out, '0');
    } else if d == 1 {
        push_char(out, '1');
    } else if d == 2 {
        push_char(out, '2');
    } else if d == 3 {
        push_char(out, '3');
    } else if d == 4 {
        push_char(out, '4');
    } else if d == 5 {
        push_char(out, '5');
    } else if d == 6 {
        push_char(out, '6');
    } else if d == 7 {
        push_char(out, '7');
    } else if d == 8 {
        push_char(out, '8');
    } else {
        push_char(out, '9');
    }
}

/// Appends the decimal rendering of `n`.
pub fn push_dec(out: &mut String, n: u128)
    ensures
        final(out)@ == old(out)@ + dec_str(n as nat),
    decreases n,
{
    if n >= 10 {
        push_dec(out, n / 10);
        push_digit(out, (n % 10) as u8);
        proof {
            assert(out@ =~= old(out)@ + dec_str(n as nat));
        }
    } else {
        push_digit(out, n as u8);
        proof {
            assert(out@ =~= old(out)@ + dec_str(n as nat));
        }
    }
}

/// Replaces every ampersand in a displayed name with the word `and`, so
/// that the emitted document needs no entity escaping for it.
pub fn sanitize(s: &str) -> (r: String)
    ensures
        r@ == sanitized(s@),
{
    let len = s.unicode_len();
    let mut out = String::new();
    let mut i: usize = 0;
    while i < len
        invariant
            len == s@.len(),
            i <= len,
            out@ == sanitize_prefix(s@, i as int),
        decreases len - i,
    {
        let c = s.get_char(i);
        if c == '&' {
            out.append("and");
        } else {
            push_char(&mut out, c);
            proof {
                assert(out@ =~= sanitize_prefix(s@, i as int) + seq![s@[i as int]]);
            }
        }
        i = i + 1;
    }
    out
}

/// Builds the identifier base of a box from its displayed name: the
/// sanitized name with spaces turned into dashes.
pub fn id_base(name: &str) -> (r: String)
    ensures
        r@ == id_base_chars(name@),
{
    let clean = sanitize(name);
    let clean_str = clean.as_str();
    let len = clean_str.unicode_len();
    let mut out = String::new();
    let mut i: usize = 0;
    while i < len
        invariant
            len == clean_str@.len(),
            clean_str@ == sanitized(name@),
            i <= len,
            out@ == dash_prefix(clean_str@, i as int),
        decreases len - i,
    {
        let c = clean_str.get_char(i);
        if c == ' ' {
            push_char(&mut out, '-');
        } else {
            push_char(&mut out, c);
        }
        i = i + 1;
    }
    out
}

/// Appends the decimal rendering of `n` left-padded with zeros to at
/// least `width` characters.
pub fn push_dec_pad(out: &mut String, n: u128, width: u32)
    ensures
        final(out)@ == old(out)@ + dec_str_pad(n as nat, width as nat),
    decreases width,
{
    if width <= 1 {
        push_dec(out, n);
    } else if n < 10 {
        push_dec_pad(out, 0, width - 1);
        push_dec(out, n);
        proof {
            assert(out@ =~= old(out)@ + dec_str_pad(n as nat, width as nat));
        }
    } else {
        push_dec_pad(out, n / 10, width - 1);
        push_digit(out, (n % 10) as u8);
        proof {
            assert(out@ =~= old(out)@ + dec_str_pad(n as nat, width as nat));
        }
    }
}

} // verus!
