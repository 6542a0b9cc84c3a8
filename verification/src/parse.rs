//! The field rules of the raw membership input: the `activeDate` stamp and
//! the `"Last, Given"` member name. The surrounding JSON traversal is the
//! external parser's edge; these are the rules it applies to each field.

use vstd::prelude::*;

verus! {

use crate::data::Calling;
use crate::data::DataError;
use crate::data::Date;
use crate::data::MemberWithCalling;
use crate::data::Organization;

/// Why a raw input field was rejected.
#[derive(Debug)]
pub enum ParseError {
    DataError(DataError),
    InvalidFormat(String),
}

/// The display message of an input-field error.
pub open spec fn parse_error_chars(e: ParseError) -> Seq<char> {
    match e {
        ParseError::DataError(d) => "Data error: "@ + crate::data::data_error_chars(d),
        ParseError::InvalidFormat(m) => "Invalid format: "@ + m@,
    }
}

impl ParseError {
    /// Renders the error for display.
    pub fn to_string(&self) -> (r: String)
        ensures
            r@ == parse_error_chars(*self),
    {
        let mut s = String::new();
        match self {
            ParseError::DataError(d) => {
                s.append("Data error: ");
                let inner = d.to_string();
                s.append(inner.as_str());
            },
            ParseError::InvalidFormat(m) => {
                s.append("Invalid format: ");
                s.append(m.as_str());
            },
        }
        proof {
            assert(s@ =~= parse_error_chars(*self));
        }
        s
    }
}

impl From<DataError> for ParseError {
    fn from(err: DataError) -> (r: ParseError) {
        ParseError::DataError(err)
    }
}

impl vstd::std_specs::convert::FromSpecImpl<DataError> for ParseError {
    open spec fn obeys_from_spec() -> bool {
        true
    }

    open spec fn from_spec(err: DataError) -> ParseError {
        ParseError::DataError(err)
    }
}

/// Whether `ch` is a decimal digit.
pub open spec fn is_digit(ch: char) -> bool {
    ch == '0' || ch == '1' || ch == '2' || ch == '3' || ch == '4' || ch == '5' || ch == '6' || ch
        == '7' || ch == '8' || ch == '9'
}

/// The value of the digit `ch`; zero when it is no digit.
pub open spec fn digit_val(ch: char) -> int {
    if ch == '1' {
        1
    } else if ch == '2' {
        2
    } else if ch == '3' {
        3
    } else if ch == '4' {
        4
    } else if ch == '5' {
        5
    } else if ch == '6' {
        6
    } else if ch == '7' {
        7
    } else if ch == '8' {
        8
    } else if ch == '9' {
        9
    } else {
        0
    }
}

/// The decimal value of the digits `s[from..to]`.
pub open spec fn num_val(s: Seq<char>, from: int, to: int) -> int
    decreases to - from,
{
    if to <= from {
        0
    } else {
        num_val(s, from, to - 1) * 10 + digit_val(s[to - 1])
    }
}

/// Whether `s[from..to]` consists of decimal digits only.
pub open spec fn all_digits(s: Seq<char>, from: int, to: int) -> bool {
    forall|i: int| from <= i < to ==> is_digit(#[trigger] s[i])
}

/// A well-formed date stamp: exactly eight decimal digits, `YYYYMMDD`.
pub open spec fn date_token_valid(s: Seq<char>) -> bool {
    s.len() == 8 && all_digits(s, 0, 8)
}

/// The date a well-formed stamp denotes. The fields are taken as they
/// stand; whether the day fits the month is checked later, when the date
/// is displayed.
pub open spec fn date_of_token(s: Seq<char>) -> Date {
    Date {
        year: num_val(s, 0, 4) as u16,
        month: num_val(s, 4, 6) as u8,
        day: num_val(s, 6, 8) as u8,
    }
}

/// Index of the first comma in `s` at or after `i`.
pub open spec fn first_comma_from(s: Seq<char>, i: int) -> Option<int>
    decreases s.len() - i,
{
    if i < 0 || i >= s.len() {
        None
    } else if s[i] == ',' {
        Some(i)
    } else {
        first_comma_from(s, i + 1)
    }
}

/// Index of the first comma in `s`, if any.
pub open spec fn first_comma(s: Seq<char>) -> Option<int> {
    first_comma_from(s, 0)
}

proof fn lemma_num_val_bound(s: Seq<char>, from: int, to: int)
    requires
        from <= to,
    ensures
        0 <= num_val(s, from, to),
        to - from <= 1 ==> num_val(s, from, to) < 10,
        to - from <= 2 ==> num_val(s, from, to) < 100,
        to - from <= 3 ==> num_val(s, from, to) < 1000,
        to - from <= 4 ==> num_val(s, from, to) < 10000,
    decreases to - from,
{
    if to > from {
        lemma_num_val_bound(s, from, to - 1);
    }
}

/// Parses the digits `s[from..to]`, left to right.
fn parse_digits(s: &str, from: usize, to: usize) -> (r: Option<u32>)
    requires
        from <= to <= s@.len(),
        to - from <= 4,
    ensures
        r is Some <==> all_digits(s@, from as int, to as int),
        r matches Some(v) ==> v == num_val(s@, from as int, to as int),
{
    let mut i: usize = from;
    let mut v: u32 = 0;
    while i < to
        invariant
            from <= i <= to <= s@.len(),
            to - from <= 4,
            all_digits(s@, from as int, i as int),
            v == num_val(s@, from as int, i as int),
        decreases to - i,
    {
        proof {
            lemma_num_val_bound(s@, from as int, i as int);
        }
        let c = s.get_char(i);
        let d: u32 = match c {
            '0' => 0,
            '1' => 1,
            '2' => 2,
            '3' => 3,
            '4' => 4,
            '5' => 5,
            '6' => 6,
            '7' => 7,
            '8' => 8,
            '9' => 9,
            _ => {
                return None;
            },
        };
        v = v * 10 + d;
        i = i + 1;
    }
    Some(v)
}

/// Validates and reads an `activeDate` stamp: exactly eight decimal
/// digits, `YYYYMMDD`. On a stamp of the wrong length the whole stamp is
/// named in the error; on a non-digit segment the offending segment is.
pub fn date_from_activedate(s: &str) -> (r: Result<Date, ParseError>)
    ensures
        r is Ok <==> date_token_valid(s@),
        r matches Ok(d) ==> d == date_of_token(s@),
        s@.len() != 8 ==> (r matches Err(ParseError::InvalidFormat(m)) && m@
            == "Invalid date format: "@ + s@),
        r is Err ==> r matches Err(ParseError::InvalidFormat(_)),
{
    let len = s.unicode_len();
    if len != 8 {
        return Err(
            ParseError::InvalidFormat(String::from_str("Invalid date format: ").concat(s)),
        );
    }
    let year = match parse_digits(s, 0, 4) {
        Some(v) => v,
        None => {
            return Err(
                ParseError::InvalidFormat(
                    String::from_str("Invalid year: ").concat(s.substring_char(0, 4)),
                ),
            );
        },
    };
    let month = match parse_digits(s, 4, 6) {
        Some(v) => v,
        None => {
            return Err(
                ParseError::InvalidFormat(
                    String::from_str("Invalid month: ").concat(s.substring_char(4, 6)),
                ),
            );
        },
    };
    let day = match parse_digits(s, 6, 8) {
        Some(v) => v,
        None => {
            return Err(
                ParseError::InvalidFormat(
                    String::from_str("Invalid day: ").concat(s.substring_char(6, 8)),
                ),
            );
        },
    };
    proof {
        lemma_num_val_bound(s@, 0, 4);
        lemma_num_val_bound(s@, 4, 6);
        lemma_num_val_bound(s@, 6, 8);
        assert forall|i: int| 0 <= i < 8 implies is_digit(#[trigger] s@[i]) by {
            if i < 4 {
                assert(is_digit(s@[i]));
            } else if i < 6 {
                assert(is_digit(s@[i]));
            } else {
                assert(is_digit(s@[i]));
            }
        }
    }
    Ok(Date { year: year as u16, month: month as u8, day: day as u8 })
}

/// Splits a `"Last, Given"` member name at its first comma: the last name
/// before it, the given names after the comma and the one character that
/// follows it. Rejects a name without a comma, and one too short to hold
/// anything after the separator.
pub fn split_member_name(name: &str) -> (r: Result<(String, String), ParseError>)
    ensures
        r is Ok <==> (first_comma(name@) matches Some(p) && p + 2 < name@.len()),
        r matches Ok(pair) ==> (first_comma(name@) matches Some(p) && pair.0@ == name@.subrange(
            0,
            p,
        ) && pair.1@ == name@.subrange(p + 2, name@.len() as int)),
        r matches Err(e) ==> e matches ParseError::InvalidFormat(m) && m@
            == "Invalid member name format: "@ + name@,
{
    let len = name.unicode_len();
    let mut i: usize = 0;
    let mut comma: usize = 0;
    let mut found: bool = false;
    while i < len && !found
        invariant
            len == name@.len(),
            i <= len,
            found ==> comma < len && name@[comma as int] == ',' && first_comma(name@) == Some(
                comma as int,
            ),
            !found ==> first_comma(name@) == first_comma_from(name@, i as int),
        decreases len - i, (if found {
            0int
        } else {
            1int
        }),
    {
        if name.get_char(i) == ',' {
            found = true;
            comma = i;
        } else {
            i = i + 1;
        }
    }
    if !found {
        return Err(
            ParseError::InvalidFormat(
                String::from_str("Invalid member name format: ").concat(name),
            ),
        );
    }
    if len < 3 || comma >= len - 2 {
        return Err(
            ParseError::InvalidFormat(
                String::from_str("Invalid member name format: ").concat(name),
            ),
        );
    }
    let last = String::from_str(name.substring_char(0, comma));
    let given = String::from_str(name.substring_char(comma + 2, len));
    Ok((last, given))
}


/// A JSON value, modeled with plain fields. Object fields keep their
/// order; numeric payloads are not consumed by this library and carry no
/// value.
pub enum JsonValue {
    Null,
    Bool(bool),
    Number,
    Text(String),
    Array(Vec<JsonValue>),
    Object(Vec<(String, JsonValue)>),
}

/// Index of the first field named `key`, at or after `i`.
pub open spec fn field_index_from(
    fs: Seq<(String, JsonValue)>,
    key: Seq<char>,
    i: int,
) -> Option<int>
    decreases fs.len() - i,
{
    if i < 0 || i >= fs.len() {
        None
    } else if fs[i].0@ == key {
        Some(i)
    } else {
        field_index_from(fs, key, i + 1)
    }
}

/// The value of the first field named `key`, if any.
pub open spec fn obj_get(fs: Seq<(String, JsonValue)>, key: Seq<char>) -> Option<JsonValue> {
    match field_index_from(fs, key, 0) {
        Some(k) => Some(fs[k].1),
        None => None,
    }
}

/// A role holder corresponds to the raw fields: the name splits at its
/// first comma into last and given names, the date stamp is well formed
/// and read field by field, the flag is present, and the contact fields
/// are taken when they are text.
pub open spec fn member_matches(
    m: MemberWithCalling,
    name: Seq<char>,
    fs: Seq<(String, JsonValue)>,
) -> bool {
    &&& first_comma(name) matches Some(p) && p + 2 < name.len() && m.last_name@ == name.subrange(
        0,
        p,
    ) && m.given_names@ == name.subrange(p + 2, name.len() as int)
    &&& obj_get(fs, "activeDate"@) matches Some(d) && d matches JsonValue::Text(ds)
        && date_token_valid(ds@) && m.held_calling_since == date_of_token(ds@)
    &&& obj_get(fs, "setApart"@) matches Some(b) && b matches JsonValue::Bool(bv) && m.set_apart
        == bv
    &&& match obj_get(fs, "memberEmail"@) {
        Some(JsonValue::Text(e)) => m.email matches Some(es) && es@ == e@,
        _ => m.email is None,
    }
    &&& match obj_get(fs, "memberPhone"@) {
        Some(JsonValue::Text(ph)) => m.phone matches Some(ps) && ps@ == ph@,
        _ => m.phone is None,
    }
}

/// A role corresponds to a raw record: named by `position`, vacant exactly
/// when `memberName` is null, otherwise held by the member the fields
/// describe.
pub open spec fn calling_matches(cal: Calling, v: JsonValue) -> bool {
    &&& v matches JsonValue::Object(fs)
    &&& obj_get(fs@, "position"@) matches Some(p) && p matches JsonValue::Text(ps) && cal.name@
        == ps@
    &&& match obj_get(fs@, "memberName"@) {
        Some(JsonValue::Null) => cal.member is None,
        Some(JsonValue::Text(n)) => cal.member matches Some(m) && member_matches(m, n@, fs@),
        _ => false,
    }
}

/// A role list corresponds to a raw array, record by record, in order.
pub open spec fn callings_match(cals: Seq<Calling>, v: JsonValue) -> bool {
    &&& v matches JsonValue::Array(items)
    &&& cals.len() == items@.len()
    &&& forall|i: int| 0 <= i < cals.len() ==> calling_matches(#[trigger] cals[i], items@[i])
}

/// An organization corresponds to a raw object: its name, its children
/// (recursively), and its role list.
pub open spec fn org_matches(o: Organization, v: JsonValue) -> bool
    decreases o,
{
    &&& v matches JsonValue::Object(fs)
    &&& obj_get(fs@, "name"@) matches Some(n) && n matches JsonValue::Text(ns) && o.name@ == ns@
    &&& obj_get(fs@, "children"@) matches Some(ch) && children_match(o.children@, ch)
    &&& obj_get(fs@, "callings"@) matches Some(cs) && callings_match(o.callings@, cs)
}

/// A child list corresponds to a raw array, child by child, in order.
pub open spec fn children_match(children: Seq<Organization>, v: JsonValue) -> bool
    decreases children,
{
    &&& v matches JsonValue::Array(items)
    &&& children.len() == items@.len()
    &&& forall|i: int|
        0 <= i < children.len() ==> org_matches(#[trigger] children[i], items@[i])
}

/// An organization list corresponds to the raw root array, in order.
pub open spec fn orgs_match(orgs: Seq<Organization>, v: JsonValue) -> bool {
    &&& v matches JsonValue::Array(items)
    &&& orgs.len() == items@.len()
    &&& forall|i: int| 0 <= i < orgs.len() ==> org_matches(#[trigger] orgs[i], items@[i])
}

/// Looks up the first field named `key`.
fn get_field<'a>(fs: &'a Vec<(String, JsonValue)>, key: &str) -> (r: Option<&'a JsonValue>)
    ensures
        r is Some <==> obj_get(fs@, key@) is Some,
        r matches Some(u) ==> obj_get(fs@, key@) == Some(*u),
{
    let mut i: usize = 0;
    while i < fs.len()
        invariant
            i <= fs@.len(),
            field_index_from(fs@, key@, 0) == field_index_from(fs@, key@, i as int),
        decreases fs@.len() - i,
    {
        if str_eq(fs[i].0.as_str(), key) {
            proof {
                assert(field_index_from(fs@, key@, i as int) == Some(i as int));
            }
            return Some(&fs[i].1);
        }
        i = i + 1;
    }
    None
}

/// Relies on `<str as PartialEq>::eq` of std: it compares the two strings'
/// characters.
#[verifier::external_body]
fn str_eq(a: &str, b: &str) -> (r: bool)
    ensures
        r == (a@ == b@),
{
    a == b
}

/// Builds one role from its raw record, or reports the first missing or
/// mistyped field, in the order the fields are read.
fn calling_from_value(v: &JsonValue) -> (r: Result<Calling, ParseError>)
    ensures
        r is Ok <==> exists|cal: Calling| calling_matches(cal, *v),
        r matches Ok(cal) ==> calling_matches(cal, *v),
        r is Err ==> r matches Err(ParseError::InvalidFormat(_)),
{
    let fs = match v {
        JsonValue::Object(fs) => fs,
        _ => {
            return Err(
                ParseError::InvalidFormat(String::from_str("Expected object for calling")),
            );
        },
    };
    let name = match get_field(fs, "position") {
        Some(JsonValue::Text(p)) => p.clone(),
        _ => {
            return Err(
                ParseError::InvalidFormat(
                    String::from_str("Missing or invalid 'position' field"),
                ),
            );
        },
    };
    let member_name_value = match get_field(fs, "memberName") {
        Some(u) => u,
        None => {
            return Err(
                ParseError::InvalidFormat(String::from_str("Missing 'memberName' field")),
            );
        },
    };
    match member_name_value {
        JsonValue::Null => {
            let cal = Calling { name, member: None };
            proof {
                assert(calling_matches(cal, *v));
            }
            Ok(cal)
        },
        JsonValue::Text(member_name) => {
            let date_text = match get_field(fs, "activeDate") {
                Some(JsonValue::Text(d)) => d,
                _ => {
                    return Err(
                        ParseError::InvalidFormat(
                            String::from_str("Missing or invalid 'activeDate' field"),
                        ),
                    );
                },
            };
            let held_calling_since = match date_from_activedate(date_text.as_str()) {
                Ok(d) => d,
                Err(e) => {
                    return Err(e);
                },
            };
            let set_apart = match get_field(fs, "setApart") {
                Some(JsonValue::Bool(b)) => *b,
                _ => {
                    return Err(
                        ParseError::InvalidFormat(
                            String::from_str("Missing or invalid 'setApart' field"),
                        ),
                    );
                },
            };
            let (last_name, given_names) = match split_member_name(member_name.as_str()) {
                Ok(pair) => pair,
                Err(e) => {
                    return Err(e);
                },
            };
            let email: Option<String> = match get_field(fs, "memberEmail") {
                Some(JsonValue::Text(e)) => Some(e.clone()),
                _ => None,
            };
            let phone: Option<String> = match get_field(fs, "memberPhone") {
                Some(JsonValue::Text(p)) => Some(p.clone()),
                _ => None,
            };
            let cal = Calling {
                name,
                member: Some(
                    MemberWithCalling {
                        given_names,
                        last_name,
                        email,
                        phone,
                        held_calling_since,
                        set_apart,
                    },
                ),
            };
            proof {
                assert(calling_matches(cal, *v));
            }
            Ok(cal)
        },
        _ => Err(ParseError::InvalidFormat(String::from_str("Invalid 'memberName' field"))),
    }
}

/// Builds the role list from a raw array, record by record, in order.
fn callings_from_value(v: &JsonValue) -> (r: Result<Vec<Calling>, ParseError>)
    ensures
        r is Ok <==> exists|cals: Seq<Calling>| callings_match(cals, *v),
        r matches Ok(cals) ==> callings_match(cals@, *v),
        r is Err ==> r matches Err(ParseError::InvalidFormat(_)),
{
    let items = match v {
        JsonValue::Array(items) => items,
        _ => {
            return Err(
                ParseError::InvalidFormat(String::from_str("Expected array for callings")),
            );
        },
    };
    let mut cals: Vec<Calling> = Vec::new();
    let mut i: usize = 0;
    while i < items.len()
        invariant
            *v is Array,
            *items == v->Array_0,
            i <= items@.len(),
            cals@.len() == i,
            forall|t: int| 0 <= t < i ==> calling_matches(#[trigger] cals@[t], items@[t]),
        decreases items@.len() - i,
    {
        match calling_from_value(&items[i]) {
            Ok(cal) => {
                cals.push(cal);
            },
            Err(e) => {
                proof {
                    assert forall|cs: Seq<Calling>| !callings_match(cs, *v) by {
                        if callings_match(cs, *v) {
                            assert(calling_matches(cs[i as int], items@[i as int]));
                        }
                    }
                }
                return Err(e);
            },
        }
        i = i + 1;
    }
    proof {
        assert(callings_match(cals@, *v));
    }
    Ok(cals)
}

/// Builds one organization from its raw object: name, children
/// (recursively), and role list, reporting the first missing or mistyped
/// field in the order the fields are read.
fn org_from_value(v: &JsonValue) -> (r: Result<Organization, ParseError>)
    ensures
        r is Ok <==> exists|o: Organization| org_matches(o, *v),
        r matches Ok(o) ==> org_matches(o, *v),
        r is Err ==> r matches Err(ParseError::InvalidFormat(_)),
    decreases *v,
{
    let fs = match v {
        JsonValue::Object(fs) => fs,
        _ => {
            return Err(
                ParseError::InvalidFormat(String::from_str("Expected object for organization")),
            );
        },
    };
    let name = match get_field(fs, "name") {
        Some(JsonValue::Text(n)) => n.clone(),
        _ => {
            return Err(
                ParseError::InvalidFormat(String::from_str("Missing or invalid 'name' field")),
            );
        },
    };
    let mut k: usize = 0;
    let mut found: bool = false;
    while k < fs.len() && !found
        invariant
            *v is Object,
            *fs == v->Object_0,
            k <= fs@.len(),
            found ==> k < fs@.len() && fs@[k as int].0@ == "children"@ && field_index_from(
                fs@,
                "children"@,
                0,
            ) == Some(k as int),
            !found ==> field_index_from(fs@, "children"@, 0) == field_index_from(
                fs@,
                "children"@,
                k as int,
            ),
        decreases fs@.len() - k, (if found {
            0int
        } else {
            1int
        }),
    {
        if str_eq(fs[k].0.as_str(), "children") {
            proof {
                assert(field_index_from(fs@, "children"@, k as int) == Some(k as int));
            }
            found = true;
        } else {
            k = k + 1;
        }
    }
    if !found {
        return Err(ParseError::InvalidFormat(String::from_str("Missing 'children' field")));
    }
    let callings_value = match get_field(fs, "callings") {
        Some(u) => u,
        None => {
            return Err(ParseError::InvalidFormat(String::from_str("Missing 'callings' field")));
        },
    };
    let children_items = match &fs[k].1 {
        JsonValue::Array(items) => items,
        _ => {
            proof {
                assert(obj_get(fs@, "children"@) == Some(fs@[k as int].1));
            }
            return Err(
                ParseError::InvalidFormat(String::from_str("Expected array for children")),
            );
        },
    };
    let mut children: Vec<Organization> = Vec::new();
    let mut ci: usize = 0;
    while ci < children_items.len()
        invariant
            *v is Object,
            *fs == v->Object_0,
            k < fs@.len(),
            fs@[k as int].1 is Array,
            *children_items == fs@[k as int].1->Array_0,
            field_index_from(fs@, "children"@, 0) == Some(k as int),
            ci <= children_items@.len(),
            children@.len() == ci,
            forall|t: int|
                0 <= t < ci ==> org_matches(#[trigger] children@[t], children_items@[t]),
        decreases children_items@.len() - ci,
    {
        proof {
            assert(decreases_to!(*v => *fs));
            assert(decreases_to!(*fs => fs@));
            assert(decreases_to!(fs@ => fs@[k as int]));
            assert(decreases_to!(fs@[k as int] => fs@[k as int].1));
            assert(decreases_to!(fs@[k as int].1 => *children_items));
            assert(decreases_to!(*children_items => children_items@));
            assert(decreases_to!(children_items@ => children_items@[ci as int]));
        }
        match org_from_value(&children_items[ci]) {
            Ok(child) => {
                children.push(child);
            },
            Err(e) => {
                proof {
                    assert(obj_get(fs@, "children"@) == Some(fs@[k as int].1));
                    assert forall|o: Organization| !org_matches(o, *v) by {
                        if org_matches(o, *v) {
                            assert(children_match(o.children@, fs@[k as int].1));
                            assert(org_matches(o.children@[ci as int], children_items@[ci as int]));
                        }
                    }
                }
                return Err(e);
            },
        }
        ci = ci + 1;
    }
    let callings = match callings_from_value(callings_value) {
        Ok(cs) => cs,
        Err(e) => {
            proof {
                assert forall|o: Organization| !org_matches(o, *v) by {
                    if org_matches(o, *v) {
                        assert(callings_match(o.callings@, obj_get(fs@, "callings"@)->0));
                    }
                }
            }
            return Err(e);
        },
    };
    let o = Organization { name, children, callings };
    proof {
        assert(obj_get(fs@, "children"@) == Some(fs@[k as int].1));
        assert(children_match(o.children@, fs@[k as int].1));
        assert(org_matches(o, *v));
    }
    Ok(o)
}

/// Builds the organization tree from the raw root array. Succeeds exactly
/// when a tree corresponds to the input, record by record; the returned
/// tree is that one.
pub fn orgs_from_lcr_data(root: &JsonValue) -> (r: Result<Vec<Organization>, ParseError>)
    ensures
        r is Ok <==> exists|orgs: Seq<Organization>| orgs_match(orgs, *root),
        r matches Ok(orgs) ==> orgs_match(orgs@, *root),
        r is Err ==> r matches Err(ParseError::InvalidFormat(_)),
{
    let items = match root {
        JsonValue::Array(items) => items,
        _ => {
            return Err(
                ParseError::InvalidFormat(String::from_str("Expected array at root level")),
            );
        },
    };
    let mut orgs: Vec<Organization> = Vec::new();
    let mut i: usize = 0;
    while i < items.len()
        invariant
            *root is Array,
            *items == root->Array_0,
            i <= items@.len(),
            orgs@.len() == i,
            forall|t: int| 0 <= t < i ==> org_matches(#[trigger] orgs@[t], items@[t]),
        decreases items@.len() - i,
    {
        match org_from_value(&items[i]) {
            Ok(o) => {
                orgs.push(o);
            },
            Err(e) => {
                proof {
                    assert forall|os: Seq<Organization>| !orgs_match(os, *root) by {
                        if orgs_match(os, *root) {
                            assert(org_matches(os[i as int], items@[i as int]));
                        }
                    }
                }
                return Err(e);
            },
        }
        i = i + 1;
    }
    proof {
        assert(orgs_match(orgs@, *root));
    }
    Ok(orgs)
}

} // verus!
