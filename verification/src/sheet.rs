//! The row model of the tabular export: the same membership data flattened
//! into one comma-separated record per assigned role, with organization,
//! sub-organization, and sub-sub-organization columns.

use vstd::prelude::*;

verus! {

use crate::text::dec_str_pad;
use crate::text::push_dec_pad;

/// A calendar date as the tabular export shows it.
#[derive(Debug, Clone, Copy, PartialEq, Eq, Structural)]
pub struct Date {
    pub year: u16,
    pub month: u8,
    pub day: u8,
}

/// The `YYYY-MM-DD` rendering of a date.
pub open spec fn ymd_chars(d: Date) -> Seq<char> {
    dec_str_pad(d.year as nat, 4) + "-"@ + dec_str_pad(d.month as nat, 2) + "-"@ + dec_str_pad(
        d.day as nat,
        2,
    )
}

impl Date {
    /// Renders the date as `YYYY-MM-DD`, each field zero-padded.
    pub fn to_string(&self) -> (r: String)
        ensures
            r@ == ymd_chars(*self),
    {
        let mut s = String::new();
        push_dec_pad(&mut s, self.year as u128, 4);
        s.append("-");
        push_dec_pad(&mut s, self.month as u128, 2);
        s.append("-");
        push_dec_pad(&mut s, self.day as u128, 2);
        proof {
            assert(s@ =~= ymd_chars(*self));
        }
        s
    }
}

/// A person assigned to a role, with the date the assignment began.
#[derive(Debug)]
pub struct MemberWithCalling {
    pub given_names: String,
    pub last_name: String,
    pub email: Option<String>,
    pub phone: Option<String>,
    pub held_calling_since: Date,
    pub set_apart: bool,
}

/// A named role, vacant when `member` is `None`.
#[derive(Debug)]
pub struct Calling {
    pub name: String,
    pub member: Option<MemberWithCalling>,
}

/// A node of the organization tree.
#[derive(Debug)]
pub struct Organization {
    pub name: String,
    pub children: Vec<Organization>,
    pub callings: Vec<Calling>,
}

/// One row of the tabular export.
#[derive(Debug)]
pub struct CsvRecord {
    pub member_last_name: String,
    pub member_given_names: String,
    pub calling: String,
    pub sub_sub_organization: String,
    pub sub_organization: String,
    pub organization: String,
    pub held_calling_since: Date,
    pub set_apart: bool,
    pub member_email: Option<String>,
    pub member_phone: Option<String>,
}

/// `s` wrapped in double quotes.
pub open spec fn quoted(s: Seq<char>) -> Seq<char> {
    "\""@ + s + "\""@
}

/// The display rendering of a boolean.
pub open spec fn bool_chars(b: bool) -> Seq<char> {
    if b {
        "true"@
    } else {
        "false"@
    }
}

/// The view of an optional text field: its text, or empty when absent.
pub open spec fn opt_chars(o: Option<String>) -> Seq<char> {
    match o {
        Some(s) => s@,
        None => Seq::empty(),
    }
}

/// The comma-separated rendering of one row: the six name columns quoted,
/// then the date, the flag, and the quoted contact columns.
pub open spec fn record_chars(r: CsvRecord) -> Seq<char> {
    quoted(r.member_last_name@) + ","@ + quoted(r.member_given_names@) + ","@ + quoted(r.calling@)
        + ","@ + quoted(r.sub_sub_organization@) + ","@ + quoted(r.sub_organization@) + ","@
        + quoted(r.organization@) + ","@ + ymd_chars(r.held_calling_since) + ","@ + bool_chars(
        r.set_apart,
    ) + ","@ + quoted(opt_chars(r.member_email)) + ","@ + quoted(opt_chars(r.member_phone))
}

impl CsvRecord {
    /// Renders the row as one comma-separated line, without a terminator.
    #[verifier::rlimit(100)]
    pub fn to_string(&self) -> (r: String)
        ensures
            r@ == record_chars(*self),
    {
        let mut s = String::new();
        s.append("\"");
        s.append(self.member_last_name.as_str());
        s.append("\"");
        s.append(",");
        s.append("\"");
        s.append(self.member_given_names.as_str());
        s.append("\"");
        s.append(",");
        s.append("\"");
        s.append(self.calling.as_str());
        s.append("\"");
        s.append(",");
        s.append("\"");
        s.append(self.sub_sub_organization.as_str());
        s.append("\"");
        s.append(",");
        s.append("\"");
        s.append(self.sub_organization.as_str());
        s.append("\"");
        s.append(",");
        s.append("\"");
        s.append(self.organization.as_str());
        s.append("\"");
        s.append(",");
        push_dec_pad(&mut s, self.held_calling_since.year as u128, 4);
        s.append("-");
        push_dec_pad(&mut s, self.held_calling_since.month as u128, 2);
        s.append("-");
        push_dec_pad(&mut s, self.held_calling_since.day as u128, 2);
        s.append(",");
        if self.set_apart {
            s.append("true");
        } else {
            s.append("false");
        }
        s.append(",");
        s.append("\"");
        match &self.member_email {
            Some(e) => {
                s.append(e.as_str());
            },
            None => {},
        }
        s.append("\"");
        s.append(",");
        s.append("\"");
        match &self.member_phone {
            Some(p) => {
                s.append(p.as_str());
            },
            None => {},
        }
        s.append("\"");
        proof {
            assert(s@ =~= record_chars(*self));
        }
        s
    }
}

} // verus!
