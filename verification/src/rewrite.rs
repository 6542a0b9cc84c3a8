//! The replacement rule of the date-string rewriter: an ISO-styled
//! `year-month-day` match becomes `"<year>, <Mon> <day>"` with a
//! three-letter month name and the day's leading zeros dropped. The
//! scanning for matches is the caller's concern; this is the rule applied
//! to each one.

use vstd::prelude::*;

verus! {

/// Whether `s` is a month token the rewriter accepts: `1`..`9`, zero
/// padded or not, or `10`..`12`.
pub open spec fn is_month_token(s: Seq<char>) -> bool {
    if s.len() == 1 {
        '1' <= s[0] <= '9'
    } else if s.len() == 2 && s[0] == '0' {
        '1' <= s[1] <= '9'
    } else if s.len() == 2 && s[0] == '1' {
        s[1] == '0' || s[1] == '1' || s[1] == '2'
    } else {
        false
    }
}

/// The three-letter name for a month token; empty for anything else.
pub open spec fn month_abbrev(s: Seq<char>) -> Seq<char> {
    if s.len() == 1 || (s.len() == 2 && s[0] == '0') {
        let d = s[s.len() - 1];
        if d == '1' {
            "Jan"@
        } else if d == '2' {
            "Feb"@
        } else if d == '3' {
            "Mar"@
        } else if d == '4' {
            "Apr"@
        } else if d == '5' {
            "May"@
        } else if d == '6' {
            "Jun"@
        } else if d == '7' {
            "Jul"@
        } else if d == '8' {
            "Aug"@
        } else if d == '9' {
            "Sep"@
        } else {
            Seq::empty()
        }
    } else if s.len() == 2 && s[0] == '1' {
        if s[1] == '0' {
            "Oct"@
        } else if s[1] == '1' {
            "Nov"@
        } else if s[1] == '2' {
            "Dec"@
        } else {
            Seq::empty()
        }
    } else {
        Seq::empty()
    }
}

/// `s` with every leading zero removed.
pub open spec fn trim_zeros(s: Seq<char>) -> Seq<char>
    decreases s.len(),
{
    if s.len() > 0 && s[0] == '0' {
        trim_zeros(s.drop_first())
    } else {
        s
    }
}

/// Builds the replacement text for one matched date: the year, the
/// three-letter month name, and the day without leading zeros. Returns
/// nothing when the month token names no month.
pub fn rewritten_date(year: &str, month: &str, day: &str) -> (r: Option<String>)
    ensures
        r is Some <==> is_month_token(month@),
        r matches Some(s) ==> s@ == year@ + ", "@ + month_abbrev(month@) + " "@ + trim_zeros(day@),
{
    let mlen = month.unicode_len();
    let abbrev: &str;
    if mlen == 1 {
        abbrev = match month.get_char(0) {
            '1' => "Jan",
            '2' => "Feb",
            '3' => "Mar",
            '4' => "Apr",
            '5' => "May",
            '6' => "Jun",
            '7' => "Jul",
            '8' => "Aug",
            '9' => "Sep",
            _ => {
                return None;
            },
        };
    } else if mlen == 2 {
        let c0 = month.get_char(0);
        let c1 = month.get_char(1);
        if c0 == '0' {
            abbrev = match c1 {
                '1' => "Jan",
                '2' => "Feb",
                '3' => "Mar",
                '4' => "Apr",
                '5' => "May",
                '6' => "Jun",
                '7' => "Jul",
                '8' => "Aug",
                '9' => "Sep",
                _ => {
                    return None;
                },
            };
        } else if c0 == '1' {
            abbrev = match c1 {
                '0' => "Oct",
                '1' => "Nov",
                '2' => "Dec",
                _ => {
                    return None;
                },
            };
        } else {
            return None;
        }
    } else {
        return None;
    }
    let dlen = day.unicode_len();
    proof {
        assert(day@.subrange(0, dlen as int) =~= day@);
    }
    let mut i: usize = 0;
    while i < dlen && day.get_char(i) == '0'
        invariant
            dlen == day@.len(),
            i <= dlen,
            trim_zeros(day@) == trim_zeros(day@.subrange(i as int, dlen as int)),
        decreases dlen - i,
    {
        proof {
            let tail = day@.subrange(i as int, dlen as int);
            assert(tail.drop_first() =~= day@.subrange(i as int + 1, dlen as int));
        }
        i = i + 1;
    }
    let day_trimmed = day.substring_char(i, dlen);
    proof {
        assert(trim_zeros(day@.subrange(i as int, dlen as int)) == day@.subrange(
            i as int,
            dlen as int,
        ));
    }
    let mut out = String::new();
    out.append(year);
    out.append(", ");
    out.append(abbrev);
    out.append(" ");
    out.append(day_trimmed);
    proof {
        assert(out@ =~= year@ + ", "@ + month_abbrev(month@) + " "@ + trim_zeros(day@));
    }
    Some(out)
}

} // verus!
