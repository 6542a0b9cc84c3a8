use callings_diagram::config::{Config, Dimensions, MarginSet, OrgOrdering};
use callings_diagram::data::{Calling, DataError, Date, MemberWithCalling, Organization};
use callings_diagram::emit::render_document;
use callings_diagram::generate::{diagram_file_contents, GenerateError};
use callings_diagram::layout::{check_orgs_bounded, compute_layout, container_height, packed_position};
use callings_diagram::text::sanitize;

fn test_config(ordering: Vec<(&str, bool)>) -> Config {
    Config {
        diagram_start_x: 0,
        diagram_start_y: 0,
        calling_bubbles_per_row: 3,
        org_bubble_width: 1100,
        org_bubble_title_height: 40,
        org_bubble_margins: MarginSet { top: 15, right: 25, bottom: 35, left: 25 },
        sub_org_bubble_horzontal_margins: 10,
        sub_org_bubble_vertical_margins: 10,
        calling_bubble_vertical_margins: 10,
        calling_bubble_dimensions: Dimensions { width: 340, height: 110 },
        calling_bubble_min_horizontal_margin: 5,
        org_ordering: ordering
            .into_iter()
            .map(|(name, col)| OrgOrdering { name: name.to_string(), begins_new_column: col })
            .collect(),
    }
}

fn member(last: &str, given: &str, date: Date) -> MemberWithCalling {
    MemberWithCalling {
        given_names: given.to_string(),
        last_name: last.to_string(),
        email: None,
        phone: None,
        held_calling_since: date,
        set_apart: true,
    }
}

fn filled(name: &str, last: &str, given: &str) -> Calling {
    Calling {
        name: name.to_string(),
        member: Some(member(last, given, Date { year: 2024, month: 2, day: 29 })),
    }
}

fn vacant(name: &str) -> Calling {
    Calling { name: name.to_string(), member: None }
}

fn leaf_org(name: &str, callings: Vec<Calling>) -> Organization {
    Organization { name: name.to_string(), children: Vec::new(), callings }
}

#[test]
fn date_formats_leap_day() {
    let d = Date { year: 2024, month: 2, day: 29 };
    assert_eq!(d.to_string().unwrap(), "2024, February 29th");
}

#[test]
fn date_rejects_non_leap_february() {
    let d = Date { year: 2023, month: 2, day: 29 };
    assert_eq!(d.to_string().unwrap_err(), DataError::InvalidDay { day: 29, month: 2 });
}

#[test]
fn date_rejects_month_out_of_range() {
    let d = Date { year: 2023, month: 13, day: 1 };
    assert_eq!(d.to_string().unwrap_err(), DataError::InvalidMonth(13));
}

#[test]
fn date_ordinal_suffixes() {
    let mk = |day: u8| Date { year: 2023, month: 11, day }.to_string().unwrap();
    assert_eq!(mk(1), "2023, November 1st");
    assert_eq!(mk(2), "2023, November 2nd");
    assert_eq!(mk(3), "2023, November 3rd");
    assert_eq!(mk(11), "2023, November 11th");
    assert_eq!(mk(21), "2023, November 21st");
    assert_eq!(mk(22), "2023, November 22nd");
    assert_eq!(mk(23), "2023, November 23rd");
    assert_eq!(mk(30), "2023, November 30th");
}

#[test]
fn height_estimator_seven_roles_three_rows() {
    let conf = test_config(vec![]);
    // ceil(7/3) = 3 rows; 3 * (110 + 10) + 10 + 40.
    assert_eq!(container_height(7, &conf), 410);
}

#[test]
fn height_estimator_floors_at_minimum() {
    let conf = test_config(vec![]);
    let min = 40 + 110 + 2 * 10;
    assert_eq!(container_height(0, &conf), min as u128);
    assert_eq!(container_height(1, &conf), min as u128);
    assert_eq!(container_height(3, &conf), min as u128);
    assert!(container_height(4, &conf) > min as u128);
}

#[test]
fn packed_positions_fill_rows_left_to_right() {
    // k = 3, box 340 x 110, vertical margin 10, left margin 20, title 40.
    assert_eq!(packed_position(0, 3, 340, 110, 10, 20, 40), (20, 50));
    assert_eq!(packed_position(1, 3, 340, 110, 10, 20, 40), (380, 50));
    assert_eq!(packed_position(2, 3, 340, 110, 10, 20, 40), (740, 50));
    assert_eq!(packed_position(3, 3, 340, 110, 10, 20, 40), (20, 170));
    assert_eq!(packed_position(7, 3, 340, 110, 10, 20, 40), (380, 290));
}

#[test]
fn vacant_roles_consume_no_slot() {
    let with_vacant = vec![leaf_org(
        "Alpha",
        vec![
            vacant("Chair"),
            filled("Lead", "Doe", "Jane"),
            vacant("Scribe"),
            filled("Helper", "Roe", "Jon"),
        ],
    )];
    let without_vacant = vec![leaf_org(
        "Alpha",
        vec![filled("Lead", "Doe", "Jane"), filled("Helper", "Roe", "Jon")],
    )];
    let conf = test_config(vec![("Alpha", false)]);
    let l1 = compute_layout(&with_vacant, &conf).unwrap();
    let l2 = compute_layout(&without_vacant, &conf).unwrap();
    assert_eq!(l1.orgs.len(), 1);
    assert_eq!(l1.orgs[0].callings.len(), 2);
    assert_eq!(l2.orgs[0].callings.len(), 2);
    for (b1, b2) in l1.orgs[0].callings.iter().zip(l2.orgs[0].callings.iter()) {
        assert_eq!(b1.num, b2.num);
        assert_eq!(b1.x, b2.x);
        assert_eq!(b1.y, b2.y);
        assert_eq!(b1.name, b2.name);
    }
    assert_eq!(l1.orgs[0].height, l2.orgs[0].height);
}

#[test]
fn unknown_org_name_is_a_layout_error() {
    let orgs = vec![leaf_org("Alpha", vec![filled("Lead", "Doe", "Jane")])];
    let conf = test_config(vec![("Alpha", false), ("Missing", false)]);
    match compute_layout(&orgs, &conf) {
        Err(GenerateError::InvalidLayout(m)) => {
            assert_eq!(m, "Unrecognized org name: Missing");
        },
        other => panic!("expected a layout error, got {:?}", other.is_ok()),
    }
}

#[test]
fn zero_capacity_is_a_layout_error() {
    let orgs = vec![leaf_org("Alpha", vec![])];
    let mut conf = test_config(vec![("Alpha", false)]);
    conf.calling_bubbles_per_row = 0;
    match compute_layout(&orgs, &conf) {
        Err(GenerateError::InvalidLayout(m)) => {
            assert_eq!(m, "Calling bubbles per row must be positive");
        },
        _ => panic!("expected a layout error"),
    }
}

#[test]
fn narrow_org_bubble_is_a_layout_error() {
    let orgs = vec![leaf_org("Alpha", vec![])];
    let mut conf = test_config(vec![("Alpha", false)]);
    conf.org_bubble_width = 1040;  // sub margin would fall below the minimum
    match compute_layout(&orgs, &conf) {
        Err(GenerateError::InvalidLayout(m)) => {
            assert_eq!(m, "Org bubble width too small");
        },
        _ => panic!("expected a layout error"),
    }
}

#[test]
fn invalid_holder_date_is_a_data_error() {
    let bad = Calling {
        name: "Lead".to_string(),
        member: Some(member("Doe", "Jane", Date { year: 2023, month: 13, day: 1 })),
    };
    let orgs = vec![leaf_org("Alpha", vec![bad])];
    let conf = test_config(vec![("Alpha", false)]);
    match compute_layout(&orgs, &conf) {
        Err(GenerateError::DataError(DataError::InvalidMonth(13))) => {},
        _ => panic!("expected the invalid month to be reported"),
    }
}

#[test]
fn children_with_no_visible_roles_give_minimum_height() {
    let child1 = leaf_org("Beta", vec![vacant("Chair")]);
    let child2 = leaf_org("Gamma", vec![]);
    let org = Organization {
        name: "Alpha".to_string(),
        children: vec![child1, child2],
        callings: Vec::new(),
    };
    let conf = test_config(vec![("Alpha", false)]);
    let l = compute_layout(&vec![org], &conf).unwrap();
    assert_eq!(l.orgs[0].sub_orgs.len(), 0);
    assert_eq!(l.orgs[0].height, 170);  // title 40 + box 110 + two margins of 10
}

#[test]
fn grandchild_roles_flatten_into_the_child_box() {
    let grandchild = leaf_org("Gamma", vec![filled("Aide", "Roe", "Jon"), vacant("Clerk")]);
    let child = Organization {
        name: "Beta".to_string(),
        children: vec![grandchild],
        callings: vec![filled("Lead", "Doe", "Jane")],
    };
    let org = Organization {
        name: "Alpha".to_string(),
        children: vec![child],
        callings: Vec::new(),
    };
    let conf = test_config(vec![("Alpha", false)]);
    let l = compute_layout(&vec![org], &conf).unwrap();
    assert_eq!(l.orgs[0].sub_orgs.len(), 1);
    let sub = &l.orgs[0].sub_orgs[0];
    assert_eq!(sub.name, "Beta");
    assert_eq!(sub.callings.len(), 2);
    assert_eq!(sub.callings[0].name, "Lead");
    assert_eq!(sub.callings[1].name, "Aide");
    assert_eq!(sub.callings[0].num, 0);
    assert_eq!(sub.callings[1].num, 1);
    // One row of two boxes: the child box keeps the minimum height.
    assert_eq!(sub.height, 170);
    assert_eq!(sub.y, 50);  // title 40 + one sub-organization margin 10
    assert_eq!(l.orgs[0].height, 40 + 10 + 170 + 10);
}

#[test]
fn organizations_stack_down_a_column() {
    let orgs = vec![
        leaf_org("Alpha", vec![filled("Lead", "Doe", "Jane")]),
        leaf_org("Beta", vec![filled("Aide", "Roe", "Jon")]),
        leaf_org("Gamma", vec![]),
    ];
    let conf = test_config(vec![("Alpha", false), ("Beta", false), ("Gamma", true)]);
    let l = compute_layout(&orgs, &conf).unwrap();
    assert_eq!(l.orgs.len(), 3);
    assert_eq!((l.orgs[0].x, l.orgs[0].y), (0, 15));
    // Alpha: top margin 15 + height 170 + bottom margin 35, then Beta's top margin.
    assert_eq!((l.orgs[1].x, l.orgs[1].y), (0, 15 + 170 + 35 + 15));
    // Gamma begins a new column: x advances by width + right + left margins.
    assert_eq!((l.orgs[2].x, l.orgs[2].y), (1100 + 25 + 25, 15));
}

#[test]
fn rendering_is_deterministic_for_fixed_tags() {
    let orgs = vec![
        leaf_org("Alpha & Friends", vec![filled("Lead", "Doe", "Jane"), vacant("Chair")]),
    ];
    let conf = test_config(vec![("Alpha & Friends", false)]);
    let l = compute_layout(&orgs, &conf).unwrap();
    let mut tags: Vec<u32> = Vec::new();
    for org in &l.orgs {
        tags.push(123456);
        for _ in &org.sub_orgs {
            tags.push(654321);
        }
    }
    let a = render_document(&l, 42, &tags);
    let b = render_document(&l, 42, &tags);
    assert_eq!(a, b);
    assert!(a.starts_with("<mxfile host=\"app.diagrams.net\""));
    assert!(a.ends_with("</mxfile>"));
    assert!(a.contains("<diagram id=\"42\" name=\"Page-1\">"));
    assert!(a.contains("id=\"Alpha-and-Friends-123456\""));
    assert!(a.contains("Alpha and Friends"));
    // The one drawn role box, at the first grid slot.
    assert!(a.contains("<mxGeometry x=\"20\" y=\"50\" width=\"340\" height=\"110\" as=\"geometry\" />"));
    // The organization box at the cursor after its top margin.
    assert!(a.contains("<mxGeometry x=\"0\" y=\"15\" width=\"1100\" height=\"170\" as=\"geometry\" />"));
    assert!(a.contains("Doe, Jane"));
    assert!(a.contains("Since: 2024, February 29th"));
}

#[test]
fn diagram_file_contents_emits_a_document() {
    let orgs = vec![leaf_org("Alpha", vec![filled("Lead", "Doe", "Jane")])];
    let conf = test_config(vec![("Alpha", false)]);
    assert!(conf.check_wf());
    assert!(check_orgs_bounded(&orgs));
    let doc = diagram_file_contents(&orgs, &conf).unwrap();
    assert!(doc.starts_with("<mxfile host=\"app.diagrams.net\""));
    assert!(doc.ends_with("</mxfile>"));
    assert!(doc.contains("Alpha"));
    assert!(doc.contains("Doe, Jane"));
}

#[test]
fn diagram_file_contents_reports_unknown_names() {
    let orgs = vec![leaf_org("Alpha", vec![])];
    let conf = test_config(vec![("Beta", false)]);
    match diagram_file_contents(&orgs, &conf) {
        Err(GenerateError::InvalidLayout(m)) => {
            assert_eq!(m, "Unrecognized org name: Beta");
        },
        _ => panic!("expected a layout error"),
    }
}

#[test]
fn counter_runs_across_organizations() {
    let orgs = vec![
        leaf_org("Alpha", vec![filled("A", "D", "J"), filled("B", "E", "K")]),
        leaf_org("Beta", vec![filled("C", "F", "L")]),
    ];
    let conf = test_config(vec![("Alpha", false), ("Beta", false)]);
    let l = compute_layout(&orgs, &conf).unwrap();
    assert_eq!(l.orgs[0].callings[0].num, 0);
    assert_eq!(l.orgs[0].callings[1].num, 1);
    assert_eq!(l.orgs[1].callings[0].num, 2);
}

#[test]
fn sanitize_replaces_ampersands() {
    assert_eq!(sanitize("A & B & C"), "A and B and C");
    assert_eq!(sanitize("plain"), "plain");
    assert_eq!(sanitize(""), "");
    assert_eq!(sanitize("&&"), "andand");
}

#[test]
fn error_messages_name_the_offending_values() {
    assert_eq!(DataError::InvalidMonth(13).to_string(), "Invalid month: 13");
    assert_eq!(
        DataError::InvalidDay { day: 29, month: 2 }.to_string(),
        "Invalid day: 29 for month 2"
    );
    let e = GenerateError::DataError(DataError::InvalidMonth(13));
    assert_eq!(e.to_string(), "Data error: Invalid month: 13");
    let e = GenerateError::InvalidLayout("Org bubble width too small".to_string());
    assert_eq!(e.to_string(), "Invalid layout: Org bubble width too small");
}
