//! The organization tree that the layout engine consumes, and the calendar
//! dates attached to role holders.

use vstd::prelude::*;

verus! {

use crate::text::dec_str;
use crate::text::push_dec;

/// An out-of-range field in a [`Date`].
#[derive(Debug, Clone, PartialEq, Eq, Structural)]
pub enum DataError {
    InvalidMonth(u8),
    InvalidDay { day: u8, month: u8 },
}

/// A calendar date, kept as plain numeric fields.
#[derive(Debug, Clone, Copy, PartialEq, Eq, Structural)]
pub struct Date {
    pub year: u16,
    pub month: u8,
    pub day: u8,
}

/// The display message of a data error.
pub open spec fn data_error_chars(e: DataError) -> Seq<char> {
    match e {
        DataError::InvalidMonth(month) => "Invalid month: "@ + dec_str(month as nat),
        DataError::InvalidDay { day, month } => "Invalid day: "@ + dec_str(day as nat)
            + " for month "@ + dec_str(month as nat),
    }
}

impl DataError {
    /// Renders the error for display.
    pub fn to_string(&self) -> (r: String)
        ensures
            r@ == data_error_chars(*self),
    {
        let mut s = String::new();
        match self {
            DataError::InvalidMonth(month) => {
                s.append("Invalid month: ");
                push_dec(&mut s, *month as u128);
            },
            DataError::InvalidDay { day, month } => {
                s.append("Invalid day: ");
                push_dec(&mut s, *day as u128);
                s.append(" for month ");
                push_dec(&mut s, *month as u128);
            },
        }
        proof {
            assert(s@ =~= data_error_chars(*self));
        }
        s
    }
}

/// Whether `year` is a leap year under the Gregorian rule.
pub open spec fn is_leap_year(year: int) -> bool {
    year % 4 == 0 && (year % 100 != 0 || year % 400 == 0)
}

/// Number of days in `month` of `year`; zero for a month outside 1..=12.
pub open spec fn days_in_month(year: int, month: int) -> int {
    if month == 1 {
        31
    } else if month == 2 {
        if is_leap_year(year) {
            29
        } else {
            28
        }
    } else if month == 3 {
        31
    } else if month == 4 {
        30
    } else if month == 5 {
        31
    } else if month == 6 {
        30
    } else if month == 7 {
        31
    } else if month == 8 {
        31
    } else if month == 9 {
        30
    } else if month == 10 {
        31
    } else if month == 11 {
        30
    } else if month == 12 {
        31
    } else {
        0
    }
}

/// The display name of `month`; empty for a month outside 1..=12.
pub open spec fn month_name(month: int) -> Seq<char> {
    if month == 1 {
        "January"@
    } else if month == 2 {
        "February"@
    } else if month == 3 {
        "March"@
    } else if month == 4 {
        "April"@
    } else if month == 5 {
        "May"@
    } else if month == 6 {
        "June"@
    } else if month == 7 {
        "July"@
    } else if month == 8 {
        "August"@
    } else if month == 9 {
        "September"@
    } else if month == 10 {
        "October"@
    } else if month == 11 {
        "November"@
    } else if month == 12 {
        "December"@
    } else {
        Seq::empty()
    }
}

/// The English ordinal suffix for day-of-month `day`.
pub open spec fn ordinal_suffix(day: int) -> Seq<char> {
    if day == 1 || day == 21 || day == 31 {
        "st"@
    } else if day == 2 || day == 22 {
        "nd"@
    } else if day == 3 || day == 23 {
        "rd"@
    } else {
        "th"@
    }
}

/// The display rendering of a valid date:
/// `"<year>, <Month name> <day><ordinal suffix>"`.
pub open spec fn date_chars(d: Date) -> Seq<char> {
    dec_str(d.year as nat) + ", "@ + month_name(d.month as int) + " "@ + dec_str(d.day as nat)
        + ordinal_suffix(d.day as int)
}

impl Date {
    /// A date is valid when its month is 1..=12 and its day fits that
    /// month of that year.
    pub open spec fn is_valid(self) -> bool {
        1 <= self.month <= 12 && 1 <= self.day <= days_in_month(
            self.year as int,
            self.month as int,
        )
    }

    /// Renders the date for display, or reports the first out-of-range
    /// field: the month when it is outside 1..=12, otherwise the day.
    pub fn to_string(&self) -> (r: Result<String, DataError>)
        ensures
            r is Ok <==> self.is_valid(),
            r matches Ok(s) ==> s@ == date_chars(*self),
            !(1 <= self.month <= 12) ==> r == Result::<String, DataError>::Err(
                DataError::InvalidMonth(self.month),
            ),
            1 <= self.month <= 12 && !self.is_valid() ==> r == Result::<String, DataError>::Err(
                DataError::InvalidDay { day: self.day, month: self.month },
            ),
    {
        let month_str: &str;
        let days: u8;
        match self.month {
            1 => {
                month_str = "January";
                days = 31;
            },
            2 => {
                let is_leap = (self.year % 4 == 0) && (self.year % 100 != 0 || self.year % 400
                    == 0);
                month_str = "February";
                days = if is_leap {
                    29
                } else {
                    28
                };
            },
            3 => {
                month_str = "March";
                days = 31;
            },
            4 => {
                month_str = "April";
                days = 30;
            },
            5 => {
                month_str = "May";
                days = 31;
            },
            6 => {
                month_str = "June";
                days = 30;
            },
            7 => {
                month_str = "July";
                days = 31;
            },
            8 => {
                month_str = "August";
                days = 31;
            },
            9 => {
                month_str = "September";
                days = 30;
            },
            10 => {
                month_str = "October";
                days = 31;
            },
            11 => {
                month_str = "November";
                days = 30;
            },
            12 => {
                month_str = "December";
                days = 31;
            },
            _ => {
                return Err(DataError::InvalidMonth(self.month));
            },
        }
        if self.day == 0 || self.day > days {
            return Err(DataError::InvalidDay { day: self.day, month: self.month });
        }
        let suffix: &str = match self.day {
            1 | 21 | 31 => "st",
            2 | 22 => "nd",
            3 | 23 => "rd",
            _ => "th",
        };
        let mut s = String::new();
        push_dec(&mut s, self.year as u128);
        s.append(", ");
        s.append(month_str);
        s.append(" ");
        push_dec(&mut s, self.day as u128);
        s.append(suffix);
        proof {
            assert(s@ =~= date_chars(*self));
        }
        Ok(s)
    }
}

/// A person assigned to a role, with the date the assignment began.
#[derive(Debug)]
pub struct MemberWithCalling {
    pub given_names: String,
    pub last_name: String,
    pub email: Option<String>,
    pub phone: Option<String>,
    pub held_calling_since: Date,
    pub set_apart: bool,
}

/// A named role, vacant when `member` is `None`. A vacant role is never
/// drawn.
#[derive(Debug)]
pub struct Calling {
    pub name: String,
    pub member: Option<MemberWithCalling>,
}

/// A node of the organization tree: nested child organizations and the
/// roles assigned directly to this node.
#[derive(Debug)]
pub struct Organization {
    pub name: String,
    pub children: Vec<Organization>,
    pub callings: Vec<Calling>,
}

} // verus!
