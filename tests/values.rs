use opendrive::enums::{Access, ContactPoint, ElementType};
use opendrive::error::ParseError;
use opendrive::link::PredecessorSuccessor;
use opendrive::profile::Elevation;
use opendrive::markup::{Attribute, Event};
use opendrive::number::{is_number_text_exec, Number};
use opendrive::objects::ParkingSpace;
use opendrive::text::str_eq_ignore_case;

#[test]
fn number_syntax() {
    for ok in ["0", "-5.0", "+1", "1.", ".5", "1e10", "1.5E-3", "-2e+7", "inf", "-Infinity", "NaN"] {
        assert!(is_number_text_exec(ok), "{}", ok);
    }
    for bad in ["", "-", ".", "e5", "1e", "1e+", "1.2.3", "abc", "1 ", "0x10", "infinit"] {
        assert!(!is_number_text_exec(bad), "{}", bad);
    }
}

#[test]
fn number_keeps_its_text() {
    let n = Number::parse("6.02214076e23").unwrap();
    assert_eq!(n.to_text(), "6.02214076e23");
    assert!(Number::parse("six").is_none());
}

#[test]
fn ignore_case_compare() {
    assert!(str_eq_ignore_case("OpenDrive", "openDRIVE"));
    assert!(!str_eq_ignore_case("ab", "abc"));
    assert!(!str_eq_ignore_case("a", "b"));
}

#[test]
fn parking_space_reads_and_writes() {
    let events = vec![Event::End { name: "parkingSpace".to_string() }];
    let attrs = vec![
        Attribute { name: "access".to_string(), value: "Women".to_string() },
        Attribute { name: "restrictions".to_string(), value: "night only".to_string() },
    ];
    let (p, end) = ParkingSpace::from_events(&events, 0, &attrs).unwrap();
    assert_eq!(end, 1);
    assert_eq!(p.access, Access::Women);
    assert_eq!(p.restrictions.as_deref(), Some("night only"));
    let out = p.visit_attributes();
    assert_eq!(out[0].name, "access");
    assert_eq!(out[0].value, "women");
    assert_eq!(out[1].value, "night only");
    assert!(p.visit_children().is_empty());
}

#[test]
fn parking_space_without_restrictions_writes_one_attribute() {
    let p = ParkingSpace { access: Access::Bus, restrictions: None };
    let out = p.visit_attributes();
    assert_eq!(out.len(), 1);
    assert_eq!(out[0].value, "bus");
}

#[test]
fn elevation_attributes_in_declaration_order() {
    let n = |t: &str| Number::parse(t).unwrap();
    let e = Elevation { a: n("1.5"), b: n("0"), c: n("-2e-3"), d: n("4"), s: n("10") };
    let pairs: Vec<(String, String)> =
        e.visit_attributes().into_iter().map(|a| (a.name, a.value)).collect();
    let expected: Vec<(String, String)> = [("a", "1.5"), ("b", "0"), ("c", "-2e-3"), ("d", "4"), ("s", "10")]
        .iter()
        .map(|(x, y)| (x.to_string(), y.to_string()))
        .collect();
    assert_eq!(pairs, expected);
    assert!(e.visit_children().is_empty());
    let events = e.to_events("elevation");
    assert_eq!(events.len(), 2);
    assert!(matches!(&events[1], Event::End { name } if name == "elevation"));
}

#[test]
fn edge_writes_present_attributes_only() {
    let p = PredecessorSuccessor {
        contact_point: Some(ContactPoint::End),
        element_dir: None,
        element_id: "12".to_string(),
        element_s: None,
        element_type: Some(ElementType::Junction),
    };
    let pairs: Vec<(String, String)> =
        p.visit_attributes().into_iter().map(|a| (a.name, a.value)).collect();
    assert_eq!(
        pairs,
        vec![
            ("contactPoint".to_string(), "end".to_string()),
            ("elementId".to_string(), "12".to_string()),
            ("elementType".to_string(), "junction".to_string()),
        ]
    );
}

#[test]
fn invalid_enum_on_edge_fails() {
    let events = vec![Event::End { name: "successor".to_string() }];
    let attrs = vec![
        Attribute { name: "elementId".to_string(), value: "3".to_string() },
        Attribute { name: "contactPoint".to_string(), value: "middle".to_string() },
    ];
    let err = PredecessorSuccessor::from_events(&events, 0, &attrs).unwrap_err();
    assert_eq!(
        err,
        ParseError::InvalidValue {
            field: "contactPoint".to_string(),
            raw: "middle".to_string(),
            expected: "ContactPoint".to_string(),
        }
    );
}
