use opendrive::enums::{Access, BorderType, ContactPoint, ElementDir, ElementType, Rule, Token};
use opendrive::error::ParseError;
use opendrive::markup::{Attribute, Event};
use opendrive::document::{parse, serialize, Document};
use opendrive::road::Road;

fn start(name: &str, attrs: &[(&str, &str)]) -> Event {
    Event::Start {
        name: name.to_string(),
        attributes: attrs
            .iter()
            .map(|(n, v)| Attribute { name: n.to_string(), value: v.to_string() })
            .collect(),
    }
}

fn end(name: &str) -> Event {
    Event::End { name: name.to_string() }
}

fn text(t: &str) -> Event {
    Event::Text { text: t.to_string() }
}

fn leaf(name: &str, attrs: &[(&str, &str)]) -> Vec<Event> {
    vec![start(name, attrs), end(name)]
}

const ROAD_ATTRS: [(&str, &str); 3] = [("id", "1"), ("junction", "-1"), ("length", "100.5")];

/// A document of one road with the given attributes and children.
fn document(road_attrs: &[(&str, &str)], children: Vec<Event>) -> Vec<Event> {
    let mut ev = vec![start("OpenDRIVE", &[]), start("road", road_attrs)];
    ev.extend(children);
    ev.push(end("road"));
    ev.push(end("OpenDRIVE"));
    ev
}

fn plain_children() -> Vec<Event> {
    let mut c = leaf("planView", &[]);
    c.extend(leaf("lanes", &[]));
    c
}

fn only_road(doc: &Document) -> &Road {
    assert_eq!(doc.roads.len(), 1);
    &doc.roads[0]
}

#[test]
fn reads_minimal_road() {
    let doc = parse(&document(&ROAD_ATTRS, plain_children())).unwrap();
    let road = only_road(&doc);
    assert_eq!(road.id, "1");
    assert_eq!(road.junction, "-1");
    assert_eq!(road.length.text, "100.5");
    assert_eq!(road.name, None);
    assert_eq!(road.rule, None);
    assert!(road.link.is_none());
    assert!(road.elevation_profile.is_none());
}

#[test]
fn enum_tokens_round_trip() {
    for v in [ElementType::Road, ElementType::Junction] {
        assert_eq!(ElementType::parse_token(v.as_str()), Some(v));
    }
    for v in [Rule::RightHandTraffic, Rule::LeftHandTraffic] {
        assert_eq!(Rule::parse_token(v.as_str()), Some(v));
    }
    for v in [BorderType::Concrete, BorderType::Curb] {
        assert_eq!(BorderType::parse_token(v.as_str()), Some(v));
    }
    for v in [ContactPoint::Start, ContactPoint::End] {
        assert_eq!(ContactPoint::parse_token(v.as_str()), Some(v));
    }
    for v in [ElementDir::Plus, ElementDir::Minus] {
        assert_eq!(ElementDir::parse_token(v.as_str()), Some(v));
    }
    for v in [
        Access::All, Access::Car, Access::Women, Access::Handicapped,
        Access::Bus, Access::Truck, Access::Electric, Access::Residents,
    ] {
        assert_eq!(Access::parse_token(v.as_str()), Some(v));
    }
}

#[test]
fn enum_tokens_ignore_case() {
    assert_eq!(Rule::parse_token("rht"), Some(Rule::RightHandTraffic));
    assert_eq!(Rule::parse_token("Lht"), Some(Rule::LeftHandTraffic));
    assert_eq!(ElementType::parse_token("JUNCTION"), Some(ElementType::Junction));
    assert_eq!(BorderType::parse_token("Curb"), Some(BorderType::Curb));
    assert_eq!(Rule::RightHandTraffic.as_str(), "RHT");
    assert_eq!(ElementType::Road.as_str(), "road");
}

#[test]
fn enum_unknown_token_is_rejected() {
    assert_eq!(Rule::parse_token("RHTX"), None);
    assert_eq!(ElementType::parse_token("street"), None);
    assert_eq!(Access::parse_token(""), None);
    assert_eq!(BorderType::parse_token("concrete "), None);
}

#[test]
fn invalid_rule_attribute_fails_with_invalid_value() {
    let attrs = [("id", "1"), ("junction", "-1"), ("length", "1"), ("rule", "middle")];
    let err = parse(&document(&attrs, plain_children())).unwrap_err();
    assert_eq!(
        err,
        ParseError::InvalidValue {
            field: "rule".to_string(),
            raw: "middle".to_string(),
            expected: "Rule".to_string(),
        }
    );
}

#[test]
fn invalid_length_fails_with_invalid_value() {
    let attrs = [("id", "1"), ("junction", "-1"), ("length", "ten")];
    let err = parse(&document(&attrs, plain_children())).unwrap_err();
    assert_eq!(
        err,
        ParseError::InvalidValue {
            field: "length".to_string(),
            raw: "ten".to_string(),
            expected: "number".to_string(),
        }
    );
}

#[test]
fn missing_id_fails_with_missing_attribute() {
    let attrs = [("junction", "-1"), ("length", "1")];
    let err = parse(&document(&attrs, plain_children())).unwrap_err();
    assert_eq!(err, ParseError::MissingAttribute { field: "id".to_string() });
}

#[test]
fn missing_plan_view_fails() {
    let err = parse(&document(&ROAD_ATTRS, leaf("lanes", &[]))).unwrap_err();
    assert_eq!(err, ParseError::MissingElement { tag: "planView".to_string() });
}

#[test]
fn missing_lanes_fails() {
    let err = parse(&document(&ROAD_ATTRS, leaf("planView", &[]))).unwrap_err();
    assert_eq!(err, ParseError::MissingElement { tag: "lanes".to_string() });
}

#[test]
fn second_link_fails_with_duplicate() {
    let mut c = leaf("link", &[]);
    c.extend(leaf("link", &[]));
    c.extend(plain_children());
    let err = parse(&document(&ROAD_ATTRS, c)).unwrap_err();
    assert_eq!(err, ParseError::DuplicateElement { tag: "link".to_string() });
}

#[test]
fn second_plan_view_fails_with_duplicate() {
    let mut c = plain_children();
    c.extend(leaf("planView", &[]));
    let err = parse(&document(&ROAD_ATTRS, c)).unwrap_err();
    assert_eq!(err, ParseError::DuplicateElement { tag: "planView".to_string() });
}

#[test]
fn unknown_subtree_is_skipped() {
    let mut c = vec![
        start("unknownFutureThing", &[("x", "1")]),
        leaf("a", &[]).remove(0),
        end("a"),
        start("b", &[]),
        start("c", &[]),
        text("deep"),
        end("c"),
        end("b"),
        end("unknownFutureThing"),
    ];
    c.extend(plain_children());
    let with_unknown = parse(&document(&ROAD_ATTRS, c)).unwrap();
    let without = parse(&document(&ROAD_ATTRS, plain_children())).unwrap();
    assert_eq!(with_unknown, without);
}

#[test]
fn unknown_child_of_link_is_skipped() {
    let mut c = vec![start("link", &[]), start("future", &[]), start("inner", &[]), end("inner"), end("future")];
    c.extend(leaf("successor", &[("elementId", "7"), ("elementType", "road"), ("contactPoint", "start")]));
    c.push(end("link"));
    c.extend(plain_children());
    let doc = parse(&document(&ROAD_ATTRS, c)).unwrap();
    let link = only_road(&doc).link.as_ref().unwrap();
    assert!(link.predecessor.is_none());
    let s = link.successor.as_ref().unwrap();
    assert_eq!(s.element_id, "7");
    assert_eq!(s.element_type, Some(ElementType::Road));
    assert_eq!(s.contact_point, Some(ContactPoint::Start));
}

#[test]
fn absent_rule_means_right_hand_traffic() {
    let doc = parse(&document(&ROAD_ATTRS, plain_children())).unwrap();
    let road = only_road(&doc);
    assert_eq!(road.rule, None);
    assert_eq!(road.rule_or_default(), Rule::RightHandTraffic);
    let attrs = [("id", "1"), ("junction", "-1"), ("length", "1"), ("rule", "LHT")];
    let doc = parse(&document(&attrs, plain_children())).unwrap();
    assert_eq!(only_road(&doc).rule_or_default(), Rule::LeftHandTraffic);
}

#[test]
fn element_s_on_junction_is_accepted() {
    let mut c = vec![start("link", &[])];
    c.extend(leaf(
        "predecessor",
        &[("elementId", "9"), ("elementType", "junction"), ("elementS", "12.5"), ("contactPoint", "end")],
    ));
    c.push(end("link"));
    c.extend(plain_children());
    let doc = parse(&document(&ROAD_ATTRS, c)).unwrap();
    let p = only_road(&doc).link.as_ref().unwrap().predecessor.as_ref().unwrap();
    assert_eq!(p.element_type, Some(ElementType::Junction));
    assert_eq!(p.element_s.as_ref().unwrap().text, "12.5");
    assert_eq!(p.contact_point, Some(ContactPoint::End));
}

#[test]
fn negative_length_is_accepted() {
    let attrs = [("id", "1"), ("junction", "-1"), ("length", "-5.0")];
    let doc = parse(&document(&attrs, plain_children())).unwrap();
    assert_eq!(only_road(&doc).length.text, "-5.0");
}

#[test]
fn elevation_with_child_is_rejected() {
    let mut c = plain_children();
    c.extend(vec![
        start("elevationProfile", &[]),
        start("elevation", &[("a", "1"), ("b", "0"), ("c", "0"), ("d", "0"), ("s", "0")]),
        start("extra", &[]),
        end("extra"),
        end("elevation"),
        end("elevationProfile"),
    ]);
    let err = parse(&document(&ROAD_ATTRS, c)).unwrap_err();
    assert_eq!(err, ParseError::UnexpectedChildElement { tag: "extra".to_string() });
}

#[test]
fn truncated_stream_fails() {
    let ev = vec![start("OpenDRIVE", &[]), start("road", &ROAD_ATTRS)];
    assert_eq!(parse(&ev).unwrap_err(), ParseError::UnexpectedEnd);
}

#[test]
fn wrong_root_fails() {
    let ev = vec![start("Other", &[]), end("Other")];
    assert_eq!(parse(&ev).unwrap_err(), ParseError::MissingElement { tag: "OpenDRIVE".to_string() });
}

#[test]
fn full_document_round_trips() {
    let mut c = vec![start("link", &[])];
    c.extend(leaf("predecessor", &[("elementId", "3"), ("elementType", "ROAD"), ("contactPoint", "END")]));
    c.extend(leaf("successor", &[("elementId", "4"), ("elementS", "2e1"), ("elementDir", "-")]));
    c.push(end("link"));
    c.extend(leaf("planView", &[]));
    c.push(start("elevationProfile", &[]));
    c.extend(leaf("elevation", &[("a", "1.5"), ("b", "0"), ("c", "-2E-3"), ("d", "0.25"), ("s", "0")]));
    c.extend(leaf("elevation", &[("a", "2"), ("b", "1"), ("c", "0"), ("d", "0"), ("s", "50")]));
    c.push(end("elevationProfile"));
    c.push(start("lateralProfile", &[]));
    c.extend(leaf("superelevation", &[("a", "0.01"), ("b", "0"), ("c", "0"), ("d", "0"), ("s", "0")]));
    c.push(end("lateralProfile"));
    c.extend(leaf("lanes", &[]));
    let attrs = [("id", "1"), ("junction", "-1"), ("length", "100"), ("name", "Main"), ("rule", "lht")];
    let doc = parse(&document(&attrs, c)).unwrap();
    let written = serialize(&doc);
    let again = parse(&written).unwrap();
    assert_eq!(doc, again);
    let road = only_road(&again);
    assert_eq!(road.rule, Some(Rule::LeftHandTraffic));
    assert_eq!(road.elevation_profile.as_ref().unwrap().elevations.len(), 2);
    assert_eq!(road.elevation_profile.as_ref().unwrap().elevations[0].c.text, "-2E-3");
    assert_eq!(road.lateral_profile.as_ref().unwrap().superelevations.len(), 1);
}

#[test]
fn writer_uses_canonical_tokens_and_order() {
    let attrs = [("length", "7"), ("rule", "rht"), ("junction", "-1"), ("id", "5")];
    let doc = parse(&document(&attrs, plain_children())).unwrap();
    let written = serialize(&doc);
    match &written[1] {
        Event::Start { name, attributes } => {
            assert_eq!(name, "road");
            let pairs: Vec<(&str, &str)> =
                attributes.iter().map(|a| (a.name.as_str(), a.value.as_str())).collect();
            assert_eq!(pairs, vec![("id", "5"), ("junction", "-1"), ("length", "7"), ("rule", "RHT")]);
        }
        other => panic!("unexpected event {:?}", other),
    }
    assert_eq!(written.len(), 8);
}
