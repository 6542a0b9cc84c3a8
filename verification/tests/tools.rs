use callings_diagram::parse::{
    date_from_activedate, orgs_from_lcr_data, split_member_name, JsonValue, ParseError,
};
use callings_diagram::rewrite::rewritten_date;
use callings_diagram::sheet::{CsvRecord, Date};

#[test]
fn activedate_reads_the_three_fields() {
    let d = date_from_activedate("20240229").unwrap();
    assert_eq!((d.year, d.month, d.day), (2024, 2, 29));
    let d = date_from_activedate("19991231").unwrap();
    assert_eq!((d.year, d.month, d.day), (1999, 12, 31));
}

#[test]
fn activedate_rejects_wrong_length() {
    match date_from_activedate("2024022") {
        Err(ParseError::InvalidFormat(m)) => {
            assert_eq!(m, "Invalid date format: 2024022");
        },
        _ => panic!("expected a format error"),
    }
}

#[test]
fn activedate_rejects_non_digits() {
    match date_from_activedate("20x40229") {
        Err(ParseError::InvalidFormat(m)) => {
            assert_eq!(m, "Invalid year: 20x4");
        },
        _ => panic!("expected a format error"),
    }
    match date_from_activedate("2024ab29") {
        Err(ParseError::InvalidFormat(m)) => {
            assert_eq!(m, "Invalid month: ab");
        },
        _ => panic!("expected a format error"),
    }
    match date_from_activedate("202402z9") {
        Err(ParseError::InvalidFormat(m)) => {
            assert_eq!(m, "Invalid day: z9");
        },
        _ => panic!("expected a format error"),
    }
}

#[test]
fn member_name_splits_at_first_comma() {
    let (last, given) = split_member_name("Doe, Jane Q").unwrap();
    assert_eq!(last, "Doe");
    assert_eq!(given, "Jane Q");
    let (last, given) = split_member_name("Van Dyke, Ann, Jr").unwrap();
    assert_eq!(last, "Van Dyke");
    assert_eq!(given, "Ann, Jr");
}

#[test]
fn member_name_without_comma_is_rejected() {
    match split_member_name("Madonna") {
        Err(ParseError::InvalidFormat(m)) => {
            assert_eq!(m, "Invalid member name format: Madonna");
        },
        _ => panic!("expected a format error"),
    }
}

#[test]
fn member_name_with_nothing_after_the_separator_is_rejected() {
    match split_member_name("Doe, ") {
        Err(ParseError::InvalidFormat(m)) => {
            assert_eq!(m, "Invalid member name format: Doe, ");
        },
        _ => panic!("expected a format error"),
    }
}

#[test]
fn sheet_date_renders_zero_padded() {
    let d = Date { year: 2024, month: 2, day: 3 };
    assert_eq!(d.to_string(), "2024-02-03");
    let d = Date { year: 987, month: 12, day: 31 };
    assert_eq!(d.to_string(), "0987-12-31");
}

#[test]
fn csv_record_renders_one_line() {
    let r = CsvRecord {
        member_last_name: "Doe".to_string(),
        member_given_names: "Jane".to_string(),
        calling: "Lead".to_string(),
        sub_sub_organization: "".to_string(),
        sub_organization: "Team".to_string(),
        organization: "Alpha".to_string(),
        held_calling_since: Date { year: 2024, month: 2, day: 29 },
        set_apart: false,
        member_email: Some("jane@example.com".to_string()),
        member_phone: None,
    };
    assert_eq!(
        r.to_string(),
        "\"Doe\",\"Jane\",\"Lead\",\"\",\"Team\",\"Alpha\",2024-02-29,false,\"jane@example.com\",\"\""
    );
}

#[test]
fn rewritten_dates_use_month_names() {
    assert_eq!(rewritten_date("2023", "03", "05").unwrap(), "2023, Mar 5");
    assert_eq!(rewritten_date("2023", "3", "15").unwrap(), "2023, Mar 15");
    assert_eq!(rewritten_date("2024", "12", "01").unwrap(), "2024, Dec 1");
    assert_eq!(rewritten_date("2024", "1", "31").unwrap(), "2024, Jan 31");
}

#[test]
fn rewritten_dates_reject_impossible_months() {
    assert!(rewritten_date("2023", "13", "05").is_none());
    assert!(rewritten_date("2023", "0", "05").is_none());
    assert!(rewritten_date("2023", "00", "05").is_none());
}

fn text(s: &str) -> JsonValue {
    JsonValue::Text(s.to_string())
}

fn org_value(
    name: &str,
    children: Vec<JsonValue>,
    callings: Vec<JsonValue>,
) -> JsonValue {
    JsonValue::Object(vec![
        ("name".to_string(), text(name)),
        ("children".to_string(), JsonValue::Array(children)),
        ("callings".to_string(), JsonValue::Array(callings)),
    ])
}

fn calling_value(position: &str, member: Option<(&str, &str, bool)>) -> JsonValue {
    let mut fields = vec![("position".to_string(), text(position))];
    match member {
        None => fields.push(("memberName".to_string(), JsonValue::Null)),
        Some((name, date, set_apart)) => {
            fields.push(("memberName".to_string(), text(name)));
            fields.push(("activeDate".to_string(), text(date)));
            fields.push(("setApart".to_string(), JsonValue::Bool(set_apart)));
            fields.push(("memberEmail".to_string(), text("a@b.c")));
            fields.push(("memberPhone".to_string(), JsonValue::Null));
        },
    }
    JsonValue::Object(fields)
}

#[test]
fn tree_builder_reads_nested_organizations() {
    let root = JsonValue::Array(vec![org_value(
        "Alpha",
        vec![org_value(
            "Beta",
            vec![],
            vec![calling_value("Lead", Some(("Doe, Jane", "20240229", true)))],
        )],
        vec![calling_value("Chair", None)],
    )]);
    let orgs = orgs_from_lcr_data(&root).unwrap();
    assert_eq!(orgs.len(), 1);
    assert_eq!(orgs[0].name, "Alpha");
    assert_eq!(orgs[0].children.len(), 1);
    assert_eq!(orgs[0].children[0].name, "Beta");
    assert!(orgs[0].callings[0].member.is_none());
    let m = orgs[0].children[0].callings[0].member.as_ref().unwrap();
    assert_eq!(m.last_name, "Doe");
    assert_eq!(m.given_names, "Jane");
    assert_eq!((m.held_calling_since.year, m.held_calling_since.month, m.held_calling_since.day), (2024, 2, 29));
    assert!(m.set_apart);
    assert_eq!(m.email.as_deref(), Some("a@b.c"));
    assert!(m.phone.is_none());
}

#[test]
fn tree_builder_rejects_missing_fields() {
    let root = JsonValue::Array(vec![JsonValue::Object(vec![(
        "name".to_string(),
        text("Alpha"),
    )])]);
    match orgs_from_lcr_data(&root) {
        Err(ParseError::InvalidFormat(m)) => assert_eq!(m, "Missing 'children' field"),
        _ => panic!("expected a format error"),
    }
    match orgs_from_lcr_data(&text("not a tree")) {
        Err(ParseError::InvalidFormat(m)) => assert_eq!(m, "Expected array at root level"),
        _ => panic!("expected a format error"),
    }
}

#[test]
fn tree_builder_rejects_bad_dates_in_records() {
    let root = JsonValue::Array(vec![org_value(
        "Alpha",
        vec![],
        vec![calling_value("Lead", Some(("Doe, Jane", "2024229", false)))],
    )]);
    match orgs_from_lcr_data(&root) {
        Err(ParseError::InvalidFormat(m)) => assert_eq!(m, "Invalid date format: 2024229"),
        _ => panic!("expected a format error"),
    }
}

#[test]
fn parse_error_messages_name_the_offending_values() {
    let e = ParseError::InvalidFormat("Invalid year: 20x4".to_string());
    assert_eq!(e.to_string(), "Invalid format: Invalid year: 20x4");
    let e = ParseError::DataError(callings_diagram::data::DataError::InvalidMonth(13));
    assert_eq!(e.to_string(), "Data error: Invalid month: 13");
}
