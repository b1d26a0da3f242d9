//! Roads: their attributes, their child elements, and how they are read and written.
use crate::attributes::{
    first_error, number_kind, lemma_lookup_concat, lemma_lookup_single, lookup, number_error, optional_string,
    optional_token, presence_error, required_number, required_string, token_error,
};
use crate::dispatch::{
    balanced, elem_end, first_rule, lemma_elem_end_bounds, lemma_next_nontext_ge, next_nontext,
    lemma_balanced_join, lemma_closed_by_end, lemma_event_view,
    lemma_whole_element, next_child, skip_element, Cardinality, Child, ChildRule, Dispatch,
};
use crate::entity::{
    empty_element, lemma_concat_windows, lemma_element_parts, lemma_opt_attr, lemma_window,
    opt_events, opt_text, opt_token, opt_token_text, start_at, string_text, token_text, write_empty,
};
use crate::enums::Rule;
use crate::error::{ParseError, ParseErrorView};
use crate::link::{Link, LinkV, lemma_link_events, lemma_link_unique, link_at, link_walk};
use crate::markup::{attrs_view, closes_at, delta, events_view, level, Attribute, Event, EventView};
use crate::number::Number;
use crate::profile::{
    ElevationProfile, LateralProfile, PieceV, lemma_pieces_len_all, pieces_views, pieces_walk, lemma_segments_unique, pieces_view,
    segments_at,
};
use crate::text::copy_string;
use crate::writer::{element, element_view, opt_attr, push_attr, push_events, push_opt_attr};
use vstd::prelude::*;

verus! {

/// The `<planView>` of a road. Its geometry primitives are outside this model;
/// their subtree is consumed and not kept.
#[derive(Debug, PartialEq)]
pub struct PlanView {}

impl PlanView {
    pub fn from_events(events: &Vec<Event>, pos: usize, _attributes: &Vec<Attribute>) -> (r: Result<(PlanView, usize), ParseError>)
        requires
            pos <= events.len(),
        ensures
            match elem_end(events_view(events@), pos as int) {
                Some(e) => r matches Ok((_, x)) && x == e,
                None => r is Err && r->Err_0@ == ParseErrorView::UnexpectedEnd,
            },
            match r {
                Ok((_, end)) => closes_at(events_view(events@), pos as int, end - 1),
                Err(_) => true,
            },
            pos < events.len() && events_view(events@)[pos as int] is End ==> (r matches Ok((_, end)) && end == pos + 1),
    {
        proof {
            if pos < events.len() {
                assert(level(events_view(events@), pos as int, pos + 1) == level(events_view(events@), pos as int, pos as int) + delta(events_view(events@)[pos as int]));
            }
        }
        match skip_element(events, pos) {
            Ok(end) => Ok((PlanView {}, end)),
            Err(e) => Err(e),
        }
    }
}

/// The `<lanes>` of a road. The lane layout is outside this model; its subtree
/// is consumed and not kept.
#[derive(Debug, PartialEq)]
pub struct Lanes {}

impl Lanes {
    pub fn from_events(events: &Vec<Event>, pos: usize, _attributes: &Vec<Attribute>) -> (r: Result<(Lanes, usize), ParseError>)
        requires
            pos <= events.len(),
        ensures
            match elem_end(events_view(events@), pos as int) {
                Some(e) => r matches Ok((_, x)) && x == e,
                None => r is Err && r->Err_0@ == ParseErrorView::UnexpectedEnd,
            },
            match r {
                Ok((_, end)) => closes_at(events_view(events@), pos as int, end - 1),
                Err(_) => true,
            },
            pos < events.len() && events_view(events@)[pos as int] is End ==> (r matches Ok((_, end)) && end == pos + 1),
    {
        proof {
            if pos < events.len() {
                assert(level(events_view(events@), pos as int, pos + 1) == level(events_view(events@), pos as int, pos as int) + delta(events_view(events@)[pos as int]));
            }
        }
        match skip_element(events, pos) {
            Ok(end) => Ok((Lanes {}, end)),
            Err(e) => Err(e),
        }
    }
}

/// One stretch of road along a reference line.
#[derive(Debug, PartialEq)]
pub struct Road {
    /// Identifier, unique in the document.
    pub id: String,
    /// Identifier of the junction that the road belongs to; `-1` for none.
    pub junction: String,
    /// Length of the reference line in meters.
    pub length: Number,
    /// Free name of the road.
    pub name: Option<String>,
    /// Traffic handedness; right-hand traffic when absent.
    pub rule: Option<Rule>,
    pub link: Option<Link>,
    pub plan_view: PlanView,
    pub elevation_profile: Option<ElevationProfile>,
    pub lateral_profile: Option<LateralProfile>,
    pub lanes: Lanes,
}

/// The traffic rule that a road follows: the one given, else right-hand traffic.
pub open spec fn effective_rule(rule: Option<Rule>) -> Rule {
    match rule {
        Some(r) => r,
        None => Rule::RightHandTraffic,
    }
}

/// Number of events written for an optional link.
pub open spec fn link_len(o: Option<Link>) -> int {
    match o {
        Some(l) => l.written().len() as int,
        None => 0,
    }
}

/// Number of events written for an optional elevation profile.
pub open spec fn elevation_len(o: Option<ElevationProfile>) -> int {
    match o {
        Some(l) => l.written().len() as int,
        None => 0,
    }
}

/// Number of events written for an optional lateral profile.
pub open spec fn lateral_len(o: Option<LateralProfile>) -> int {
    match o {
        Some(l) => l.written().len() as int,
        None => 0,
    }
}

/// Structural equality of optional links.
pub open spec fn opt_link_eqv(a: Option<Link>, b: Option<Link>) -> bool {
    match (a, b) {
        (Some(x), Some(y)) => x.eqv(&y),
        (None, None) => true,
        _ => false,
    }
}

/// Structural equality of optional elevation profiles.
pub open spec fn opt_elevation_eqv(a: Option<ElevationProfile>, b: Option<ElevationProfile>) -> bool {
    match (a, b) {
        (Some(x), Some(y)) => x.eqv(&y),
        (None, None) => true,
        _ => false,
    }
}

/// Structural equality of optional lateral profiles.
pub open spec fn opt_lateral_eqv(a: Option<LateralProfile>, b: Option<LateralProfile>) -> bool {
    match (a, b) {
        (Some(x), Some(y)) => x.eqv(&y),
        (None, None) => true,
        _ => false,
    }
}

/// The events from `pos` on are the children written for road `x`, followed by
/// an end event, and the attributes are those written for it.
pub open spec fn road_at(ev: Seq<EventView>, pos: int, attrs: Seq<(Seq<char>, Seq<char>)>, x: Road) -> bool {
    &&& 0 <= pos
    &&& pos + x.children_view().len() < ev.len()
    &&& ev.subrange(pos, pos + x.children_view().len()) == x.children_view()
    &&& ev[pos + x.children_view().len()] is End
    &&& attrs == x.attributes_view()
    &&& x.wf()
}

/// Where each written child of a road stands.
pub proof fn lemma_road_events(ev: Seq<EventView>, pos: int, attrs: Seq<(Seq<char>, Seq<char>)>, x: Road)
    requires
        road_at(ev, pos, attrs, x),
    ensures
        ({
            let o1 = pos + link_len(x.link);
            let o2 = o1 + 2;
            let o3 = o2 + elevation_len(x.elevation_profile);
            let o4 = o3 + lateral_len(x.lateral_profile);
            &&& x.children_view().len() == o4 + 2 - pos
            &&& x.link is Some ==> ev[pos] == (EventView::Start { name: "link"@, attributes: seq![] })
                && link_at(ev, pos + 1, x.link->0)
            &&& ev[o1] == (EventView::Start { name: "planView"@, attributes: seq![] })
            &&& ev[o1 + 1] is End
            &&& x.elevation_profile is Some ==> ev[o2] == (EventView::Start { name: "elevationProfile"@, attributes: seq![] })
                && segments_at(ev, o2 + 1, x.elevation_profile->0.elevations@, "elevation"@)
            &&& x.lateral_profile is Some ==> ev[o3] == (EventView::Start { name: "lateralProfile"@, attributes: seq![] })
                && segments_at(ev, o3 + 1, x.lateral_profile->0.superelevations@, "superelevation"@)
            &&& ev[o4] == (EventView::Start { name: "lanes"@, attributes: seq![] })
            &&& ev[o4 + 1] is End
            &&& ev[o4 + 2] is End
        }),
{
    let cv = x.children_view();
    let a = opt_events(match x.link {
        Some(l) => Some(l.written()),
        None => None,
    });
    let b = empty_element("planView"@);
    let c = opt_events(match x.elevation_profile {
        Some(p) => Some(p.written()),
        None => None,
    });
    let d = opt_events(match x.lateral_profile {
        Some(p) => Some(p.written()),
        None => None,
    });
    let e = empty_element("lanes"@);
    assert(cv == a + b + c + d + e);
    let o1 = pos + link_len(x.link);
    let o2 = o1 + 2;
    let o3 = o2 + elevation_len(x.elevation_profile);
    let o4 = o3 + lateral_len(x.lateral_profile);
    assert(a.len() == link_len(x.link));
    assert(c.len() == elevation_len(x.elevation_profile));
    assert(d.len() == lateral_len(x.lateral_profile));
    let s2 = a + b;
    let s3 = s2 + c;
    let s4 = s3 + d;
    lemma_concat_windows(s4, e);
    lemma_concat_windows(s3, d);
    lemma_concat_windows(s2, c);
    lemma_concat_windows(a, b);
    lemma_window(ev, pos, cv, 0, s4);
    lemma_window(ev, pos, cv, s4.len() as int, e);
    lemma_window(ev, pos, s4, 0, s3);
    lemma_window(ev, pos, s4, s3.len() as int, d);
    lemma_window(ev, pos, s3, 0, s2);
    lemma_window(ev, pos, s3, s2.len() as int, c);
    lemma_window(ev, pos, s2, 0, a);
    lemma_window(ev, pos, s2, a.len() as int, b);
    assert(b =~= element_view("planView"@, seq![], seq![]));
    lemma_element_parts(ev, o1, "planView"@, seq![], seq![]);
    lemma_element_parts(ev, o4, "lanes"@, seq![], seq![]);
    if x.link is Some {
        let l = x.link->0;
        lemma_element_parts(ev, pos, "link"@, seq![], l.children_view());
    }
    if x.elevation_profile is Some {
        let q = x.elevation_profile->0;
        let pv = pieces_view(q.elevations@, "elevation"@);
        lemma_element_parts(ev, o2, "elevationProfile"@, seq![], pv);
    }
    if x.lateral_profile is Some {
        let q = x.lateral_profile->0;
        let pv = pieces_view(q.superelevations@, "superelevation"@);
        lemma_element_parts(ev, o3, "lateralProfile"@, seq![], pv);
    }
}

/// Tag of the child slot `i` of a road.
pub open spec fn road_tag(i: int) -> Seq<char> {
    if i == 0 {
        "link"@
    } else if i == 1 {
        "planView"@
    } else if i == 2 {
        "elevationProfile"@
    } else if i == 3 {
        "lateralProfile"@
    } else {
        "lanes"@
    }
}

/// The first slot at or after `stage` that a road writes (5: none).
pub open spec fn next_slot(x: Road, stage: int) -> int {
    if stage <= 0 && slot_present(x, 0) {
        0
    } else if stage <= 1 {
        1
    } else if stage <= 2 && slot_present(x, 2) {
        2
    } else if stage <= 3 && slot_present(x, 3) {
        3
    } else if stage <= 4 {
        4
    } else {
        5
    }
}

/// The lengths of the child tags of a road, which tell them apart.
pub proof fn lemma_tag_lengths()
    ensures
        "link"@.len() == 4,
        "planView"@.len() == 8,
        "elevationProfile"@.len() == 16,
        "lateralProfile"@.len() == 14,
        "lanes"@.len() == 5,
        "predecessor"@.len() == 11,
        "successor"@.len() == 9,
        "road"@.len() == 4,
        "road"@[0] != "link"@[0],
{
    reveal_strlit("link");
    reveal_strlit("planView");
    reveal_strlit("elevationProfile");
    reveal_strlit("lateralProfile");
    reveal_strlit("lanes");
    reveal_strlit("predecessor");
    reveal_strlit("successor");
    reveal_strlit("road");
}

/// A road's dispatch table routes each child tag to its slot.
pub proof fn lemma_first_rule_road(table: Seq<(Seq<char>, Cardinality)>, name: Seq<char>, slot: int)
    requires
        table == seq![
            ("link"@, Cardinality::Optional),
            ("planView"@, Cardinality::Required),
            ("elevationProfile"@, Cardinality::Optional),
            ("lateralProfile"@, Cardinality::Optional),
            ("lanes"@, Cardinality::Required),
        ],
        0 <= slot < 5,
        name == road_tag(slot),
    ensures
        first_rule(table, name, 0) == Some(slot),
{
    lemma_tag_lengths();
    assert(first_rule(table, name, 5) is None);
    assert(first_rule(table, name, 4) == (if slot == 4 { Some(4int) } else { None }));
    assert(first_rule(table, name, 3) == (if slot >= 3 { Some(slot) } else { None }));
    assert(first_rule(table, name, 2) == (if slot >= 2 { Some(slot) } else { None }));
    assert(first_rule(table, name, 1) == (if slot >= 1 { Some(slot) } else { None }));
}

/// What the events hold at the reading position of a written road.
pub proof fn lemma_road_next(ev: Seq<EventView>, pos: int, attrs: Seq<(Seq<char>, Seq<char>)>, x: Road, stage: int)
    requires
        road_at(ev, pos, attrs, x),
        0 <= stage <= 5,
    ensures
        ({
            let i = next_slot(x, stage);
            let off = road_offset(x, pos, stage);
            &&& off == road_offset(x, pos, i)
            &&& i == 5 ==> stage == 5 && ev[off] is End && off == pos + x.children_view().len()
            &&& i < 5 ==> ev[off] == (EventView::Start { name: road_tag(i), attributes: seq![] })
            &&& i == 0 ==> link_at(ev, off + 1, x.link->0)
                && road_offset(x, pos, 1) == off + x.link->0.children_view().len() + 2
            &&& (i == 1 || i == 4) ==> ev[off + 1] is End && road_offset(x, pos, i + 1) == off + 2
            &&& i == 2 ==> segments_at(ev, off + 1, x.elevation_profile->0.elevations@, "elevation"@)
                && road_offset(x, pos, 3) == off + x.elevation_profile->0.written().len()
            &&& i == 3 ==> segments_at(ev, off + 1, x.lateral_profile->0.superelevations@, "superelevation"@)
                && road_offset(x, pos, 4) == off + x.lateral_profile->0.written().len()
        }),
{
    lemma_road_events(ev, pos, attrs, x);
}

/// Structural equality of roads is transitive.
pub proof fn lemma_eqv_trans(a: Road, b: Road, c: Road)
    requires
        a.eqv(&b),
        b.eqv(&c),
    ensures
        a.eqv(&c),
{
    if a.elevation_profile is Some && c.elevation_profile is Some {
        let (x, y, z) = (a.elevation_profile->0.elevations@, b.elevation_profile->0.elevations@, c.elevation_profile->0.elevations@);
        assert forall|i: int| 0 <= i < x.len() implies #[trigger] x[i].eqv(&z[i]) by {
            assert(x[i].eqv(&y[i]));
            assert(y[i].eqv(&z[i]));
        }
    }
    if a.lateral_profile is Some && c.lateral_profile is Some {
        let (x, y, z) = (a.lateral_profile->0.superelevations@, b.lateral_profile->0.superelevations@, c.lateral_profile->0.superelevations@);
        assert forall|i: int| 0 <= i < x.len() implies #[trigger] x[i].eqv(&z[i]) by {
            assert(x[i].eqv(&y[i]));
            assert(y[i].eqv(&z[i]));
        }
    }
}

/// Whether a road writes its child slot `i` (link, plan view, elevation
/// profile, lateral profile, lanes).
pub open spec fn slot_present(x: Road, i: int) -> bool {
    if i == 0 {
        x.link is Some
    } else if i == 2 {
        x.elevation_profile is Some
    } else if i == 3 {
        x.lateral_profile is Some
    } else {
        true
    }
}

/// Where the written child slot `i` of a road starts (slot 5: the road's end event).
pub open spec fn road_offset(x: Road, pos: int, i: int) -> int {
    if i <= 0 {
        pos
    } else if i == 1 {
        pos + link_len(x.link)
    } else if i == 2 {
        pos + link_len(x.link) + 2
    } else if i == 3 {
        pos + link_len(x.link) + 2 + elevation_len(x.elevation_profile)
    } else if i == 4 {
        pos + link_len(x.link) + 2 + elevation_len(x.elevation_profile) + lateral_len(x.lateral_profile)
    } else {
        pos + link_len(x.link) + 2 + elevation_len(x.elevation_profile) + lateral_len(x.lateral_profile) + 2
    }
}

/// The reading of a written road's children has passed the slots before `stage`.
pub open spec fn road_stage(
    x: Road,
    pos: int,
    stage: int,
    p: int,
    seen: Seq<bool>,
    link: Option<Link>,
    ep: Option<ElevationProfile>,
    lp: Option<LateralProfile>,
) -> bool {
    &&& 0 <= stage <= 5
    &&& p == road_offset(x, pos, stage)
    &&& seen.len() == 5
    &&& forall|i: int| 0 <= i < 5 ==> #[trigger] seen[i] == (i < stage && slot_present(x, i))
    &&& (if stage >= 1 { opt_link_eqv(link, x.link) } else { link is None })
    &&& (if stage >= 3 { opt_elevation_eqv(ep, x.elevation_profile) } else { ep is None })
    &&& (if stage >= 4 { opt_lateral_eqv(lp, x.lateral_profile) } else { lp is None })
}

/// What a road holds, as mathematical values.
pub struct RoadV {
    pub id: Seq<char>,
    pub junction: Seq<char>,
    pub length: Seq<char>,
    pub name: Option<Seq<char>>,
    pub rule: Option<Rule>,
    pub link: Option<LinkV>,
    pub elevation_profile: Option<Seq<PieceV>>,
    pub lateral_profile: Option<Seq<PieceV>>,
}

/// The view of an optional link.
pub open spec fn opt_link_view(o: Option<Link>) -> Option<LinkV> {
    match o {
        Some(x) => Some(x@),
        None => None,
    }
}

/// The pieces of an optional elevation profile.
pub open spec fn opt_elevation_view(o: Option<ElevationProfile>) -> Option<Seq<PieceV>> {
    match o {
        Some(x) => Some(pieces_views(x.elevations@)),
        None => None,
    }
}

/// The pieces of an optional lateral profile.
pub open spec fn opt_lateral_view(o: Option<LateralProfile>) -> Option<Seq<PieceV>> {
    match o {
        Some(x) => Some(pieces_views(x.superelevations@)),
        None => None,
    }
}

impl View for Road {
    type V = RoadV;

    open spec fn view(&self) -> RoadV {
        RoadV {
            id: self.id@,
            junction: self.junction@,
            length: self.length@,
            name: opt_text(self.name),
            rule: self.rule,
            link: opt_link_view(self.link),
            elevation_profile: opt_elevation_view(self.elevation_profile),
            lateral_profile: opt_lateral_view(self.lateral_profile),
        }
    }
}

/// The rule of a road's dispatch table that a child tag names.
pub open spec fn road_rule_index(name: Seq<char>) -> Option<int> {
    if name == "link"@ {
        Some(0)
    } else if name == "planView"@ {
        Some(1)
    } else if name == "elevationProfile"@ {
        Some(2)
    } else if name == "lateralProfile"@ {
        Some(3)
    } else if name == "lanes"@ {
        Some(4)
    } else {
        None
    }
}

/// What a road gives when its end event is reached: `MissingElement` for a
/// missing `planView`, then for missing `lanes`; then the diagnostics of the
/// attributes `id`, `junction`, `length`, `rule` in that order; else the road.
pub open spec fn road_end(
    av: Seq<(Seq<char>, Seq<char>)>,
    link: Option<LinkV>,
    plan: bool,
    ep: Option<Seq<PieceV>>,
    lp: Option<Seq<PieceV>>,
    lanes: bool,
    end: int,
) -> Result<(RoadV, int), ParseErrorView> {
    if !plan {
        Err(ParseErrorView::MissingElement { tag: "planView"@ })
    } else if !lanes {
        Err(ParseErrorView::MissingElement { tag: "lanes"@ })
    } else {
        if presence_error(av, "id"@) is Some {
            Err(presence_error(av, "id"@)->0)
        } else if presence_error(av, "junction"@) is Some {
            Err(presence_error(av, "junction"@)->0)
        } else if number_error(av, "length"@, true) is Some {
            Err(number_error(av, "length"@, true)->0)
        } else if token_error::<Rule>(av, "rule"@) is Some {
            Err(token_error::<Rule>(av, "rule"@)->0)
        } else {
            Ok((
                RoadV {
                    id: lookup(av, "id"@)->0,
                    junction: lookup(av, "junction"@)->0,
                    length: lookup(av, "length"@)->0,
                    name: lookup(av, "name"@),
                    rule: opt_token::<Rule>(lookup(av, "rule"@)),
                    link,
                    elevation_profile: ep,
                    lateral_profile: lp,
                },
                end,
            ))
        }
    }
}

/// What reading the children of a road gives from position `p` on, with what
/// was read so far. Character data is skipped; the first end event closes the
/// road (see `road_end`); a start event is handled by `road_child`.
#[verifier::opaque]
pub open spec fn road_walk(
    ev: Seq<EventView>,
    p: int,
    av: Seq<(Seq<char>, Seq<char>)>,
    link: Option<LinkV>,
    plan: bool,
    ep: Option<Seq<PieceV>>,
    lp: Option<Seq<PieceV>>,
    lanes: bool,
) -> Result<(RoadV, int), ParseErrorView>
    decreases 2 * (ev.len() - p) + 1, 0int,
{
    let q = next_nontext(ev, p);
    if q < p || q >= ev.len() {
        Err(ParseErrorView::UnexpectedEnd)
    } else {
        match ev[q] {
            EventView::Start { .. } => road_child(ev, q, av, link, plan, ep, lp, lanes),
            _ => road_end(av, link, plan, ep, lp, lanes, q + 1),
        }
    }
}

/// What a road gives from the child start event at `q` on. `<link>`,
/// `<planView>`, `<elevationProfile>`, `<lateralProfile>` and `<lanes>` are
/// each read by their own reader, at most once (a second one gives
/// `DuplicateElement`); a child's diagnostic is passed on unchanged; any other
/// child is skipped whole. Reading then goes on past the child.
pub open spec fn road_child(
    ev: Seq<EventView>,
    q: int,
    av: Seq<(Seq<char>, Seq<char>)>,
    link: Option<LinkV>,
    plan: bool,
    ep: Option<Seq<PieceV>>,
    lp: Option<Seq<PieceV>>,
    lanes: bool,
) -> Result<(RoadV, int), ParseErrorView>
    decreases 2 * (ev.len() - q), 1int,
{
    if !(0 <= q < ev.len()) {
        Err(ParseErrorView::UnexpectedEnd)
    } else {
        match ev[q] {
            EventView::Start { name, .. } => {
                let dup = Err(ParseErrorView::DuplicateElement { tag: name });
                let cut = Err(ParseErrorView::UnexpectedEnd);
                if name == "link"@ {
                    if link is Some {
                        dup
                    } else {
                        match link_walk(ev, q + 1, None, None) {
                            Err(e) => Err(e),
                            Ok((v, e)) => if q < e <= ev.len() {
                                road_walk(ev, e, av, Some(v), plan, ep, lp, lanes)
                            } else {
                                cut
                            },
                        }
                    }
                } else if name == "elevationProfile"@ {
                    if ep is Some {
                        dup
                    } else {
                        match pieces_walk(ev, q + 1, "elevation"@, seq![]) {
                            Err(e) => Err(e),
                            Ok((v, e)) => if q < e <= ev.len() {
                                road_walk(ev, e, av, link, plan, Some(v), lp, lanes)
                            } else {
                                cut
                            },
                        }
                    }
                } else if name == "lateralProfile"@ {
                    if lp is Some {
                        dup
                    } else {
                        match pieces_walk(ev, q + 1, "superelevation"@, seq![]) {
                            Err(e) => Err(e),
                            Ok((v, e)) => if q < e <= ev.len() {
                                road_walk(ev, e, av, link, plan, ep, Some(v), lanes)
                            } else {
                                cut
                            },
                        }
                    }
                } else if name == "planView"@ || name == "lanes"@ {
                    let is_plan = name == "planView"@;
                    if (is_plan && plan) || (!is_plan && lanes) {
                        dup
                    } else {
                        match elem_end(ev, q + 1) {
                            None => cut,
                            Some(e) => if q < e <= ev.len() {
                                road_walk(ev, e, av, link, plan || is_plan, ep, lp, lanes || !is_plan)
                            } else {
                                cut
                            },
                        }
                    }
                } else {
                    match elem_end(ev, q + 1) {
                        None => cut,
                        Some(e) => if q < e <= ev.len() {
                            road_walk(ev, e, av, link, plan, ep, lp, lanes)
                        } else {
                            cut
                        },
                    }
                }
            },
            _ => Err(ParseErrorView::UnexpectedEnd),
        }
    }
}

/// One step of `road_walk`.
pub proof fn lemma_road_walk_unfold(
    ev: Seq<EventView>,
    p: int,
    av: Seq<(Seq<char>, Seq<char>)>,
    link: Option<LinkV>,
    plan: bool,
    ep: Option<Seq<PieceV>>,
    lp: Option<Seq<PieceV>>,
    lanes: bool,
)
    requires
        0 <= p <= ev.len(),
    ensures
        ({
            let q = next_nontext(ev, p);
            let w = road_walk(ev, p, av, link, plan, ep, lp, lanes);
            &&& p <= q <= ev.len()
            &&& q == ev.len() ==> w == Err::<(RoadV, int), ParseErrorView>(ParseErrorView::UnexpectedEnd)
            &&& q < ev.len() && ev[q] is Start ==> w == road_child(ev, q, av, link, plan, ep, lp, lanes)
            &&& q < ev.len() && !(ev[q] is Start) ==> w == road_end(av, link, plan, ep, lp, lanes, q + 1)
        }),
{
    reveal(road_walk);
    lemma_next_nontext_ge(ev, p);
}

/// A road's dispatch table routes every tag.
pub proof fn lemma_first_rule_road_any(table: Seq<(Seq<char>, Cardinality)>, name: Seq<char>)
    requires
        table == seq![
            ("link"@, Cardinality::Optional),
            ("planView"@, Cardinality::Required),
            ("elevationProfile"@, Cardinality::Optional),
            ("lateralProfile"@, Cardinality::Optional),
            ("lanes"@, Cardinality::Required),
        ],
    ensures
        first_rule(table, name, 0) == road_rule_index(name),
{
    lemma_tag_lengths();
    assert(table[0].0 == "link"@);
    assert(table[1].0 == "planView"@);
    assert(table[2].0 == "elevationProfile"@);
    assert(table[3].0 == "lateralProfile"@);
    assert(table[4].0 == "lanes"@);
    assert(first_rule(table, name, 5) is None);
    assert(first_rule(table, name, 4) == (if name == "lanes"@ { Some(4int) } else { None }));
    assert(first_rule(table, name, 3) == (if name == "lateralProfile"@ { Some(3int) } else { first_rule(table, name, 4) }));
    assert(first_rule(table, name, 2) == (if name == "elevationProfile"@ { Some(2int) } else { first_rule(table, name, 3) }));
    assert(first_rule(table, name, 1) == (if name == "planView"@ { Some(1int) } else { first_rule(table, name, 2) }));
}

impl Road {
    /// Each attribute written for a road reads back as the field it came from.
    pub proof fn lemma_attributes_read_back()
        ensures
            forall|x: Road| {
                let av = #[trigger] x.attributes_view();
                &&& lookup(av, "id"@) == Some(x.id@)
                &&& lookup(av, "junction"@) == Some(x.junction@)
                &&& lookup(av, "length"@) == Some(x.length@)
                &&& lookup(av, "name"@) == opt_text(x.name)
                &&& lookup(av, "rule"@) == opt_token_text(x.rule)
                &&& opt_token::<Rule>(opt_token_text(x.rule)) == x.rule
            },
    {
        reveal_strlit("id");
        reveal_strlit("junction");
        reveal_strlit("length");
        reveal_strlit("name");
        reveal_strlit("rule");
        assert("id"@.len() == 2);
        assert("junction"@.len() == 8);
        assert("length"@.len() == 6);
        assert("name"@.len() == 4);
        assert("rule"@.len() == 4);
        assert("name"@[0] != "rule"@[0]);
        assert forall|x: Road| {
            let av = #[trigger] x.attributes_view();
            &&& lookup(av, "id"@) == Some(x.id@)
            &&& lookup(av, "junction"@) == Some(x.junction@)
            &&& lookup(av, "length"@) == Some(x.length@)
            &&& lookup(av, "name"@) == opt_text(x.name)
            &&& lookup(av, "rule"@) == opt_token_text(x.rule)
            &&& opt_token::<Rule>(opt_token_text(x.rule)) == x.rule
        } by {
            let a = seq![("id"@, x.id@)];
            let b = seq![("junction"@, x.junction@)];
            let c = seq![("length"@, x.length@)];
            let d = opt_attr("name"@, opt_text(x.name));
            let e = opt_attr("rule"@, opt_token_text(x.rule));
            assert(x.attributes_view() == a + b + c + d + e) by {
                assert(seq![("id"@, x.id@), ("junction"@, x.junction@), ("length"@, x.length@)] =~= a + b + c);
            }
            lemma_lookup_single("id"@, x.id@);
            lemma_lookup_single("junction"@, x.junction@);
            lemma_lookup_single("length"@, x.length@);
            lemma_opt_attr("name"@, opt_text(x.name));
            lemma_opt_attr("rule"@, opt_token_text(x.rule));
            lemma_lookup_concat(a, b);
            lemma_lookup_concat(a + b, c);
            lemma_lookup_concat(a + b + c, d);
            lemma_lookup_concat(a + b + c + d, e);
            if x.rule is Some {
                crate::enums::lemma_rule_tokens(x.rule->0, Seq::empty());
            }
        }
    }

    /// The events and attributes determine the road that they were written from.
    pub proof fn lemma_unique(ev: Seq<EventView>, pos: int, attrs: Seq<(Seq<char>, Seq<char>)>, x: Road, y: Road)
        requires
            road_at(ev, pos, attrs, x),
            road_at(ev, pos, attrs, y),
        ensures
            x.eqv(&y),
            x.children_view().len() == y.children_view().len(),
    {
        Road::lemma_attributes_read_back();
        lemma_tag_lengths();
        lemma_road_events(ev, pos, attrs, x);
        lemma_road_events(ev, pos, attrs, y);
        assert(lookup(x.attributes_view(), "id"@) == Some(x.id@));
        assert(lookup(y.attributes_view(), "id"@) == Some(y.id@));
        if x.link is Some && y.link is Some {
            lemma_link_unique(ev, pos + 1, x.link->0, y.link->0);
            lemma_link_events(ev, pos + 1, x.link->0);
            lemma_link_events(ev, pos + 1, y.link->0);
        }
        assert(link_len(x.link) == link_len(y.link));
        let o2 = road_offset(x, pos, 2);
        lemma_pieces_len_all("elevation"@);
        lemma_pieces_len_all("superelevation"@);
        if x.elevation_profile is Some && y.elevation_profile is Some {
            lemma_segments_unique(ev, o2 + 1, x.elevation_profile->0.elevations@, y.elevation_profile->0.elevations@, "elevation"@);
        }
        assert(elevation_len(x.elevation_profile) == elevation_len(y.elevation_profile));
        let o3 = road_offset(x, pos, 3);
        if x.lateral_profile is Some && y.lateral_profile is Some {
            lemma_segments_unique(ev, o3 + 1, x.lateral_profile->0.superelevations@, y.lateral_profile->0.superelevations@, "superelevation"@);
        }
    }

    #[verifier::rlimit(100)]
    #[verifier::spinoff_prover]
    /// Reads a `<road>` element: at most one `<link>`, `<elevationProfile>` and
    /// `<lateralProfile>`, exactly one `<planView>` and `<lanes>`; other
    /// children are skipped. Children are read before the attributes.
    pub fn from_events(events: &Vec<Event>, pos: usize, attributes: &Vec<Attribute>) -> (r: Result<(Road, usize), ParseError>)
        requires
            pos <= events.len(),
        ensures
            match r {
                Ok((v, end)) => {
                    let av = attrs_view(attributes@);
                    &&& closes_at(events_view(events@), pos as int, end - 1)
                    &&& lookup(av, "id"@) == Some(v.id@)
                    &&& lookup(av, "junction"@) == Some(v.junction@)
                    &&& lookup(av, "length"@) == Some(v.length@)
                    &&& opt_text(v.name) == lookup(av, "name"@)
                    &&& v.rule == opt_token::<Rule>(lookup(av, "rule"@))
                    &&& v.wf()
                },
                Err(_) => true,
            },
            forall|x: Road| #[trigger] road_at(events_view(events@), pos as int, attrs_view(attributes@), x)
                ==> (r matches Ok((v, end)) && v.eqv(&x) && end == pos + x.children_view().len() + 1),
            match road_walk(events_view(events@), pos as int, attrs_view(attributes@), None, false, None, None, false) {
                Ok((v, e)) => r matches Ok((x, e2)) && x@ == v && e2 == e,
                Err(x) => r is Err && r->Err_0@ == x,
            },
    {
        let ghost ev = events_view(events@);
        let ghost av = attrs_view(attributes@);
        let ghost x = choose|x: Road| road_at(ev, pos as int, av, x);
        let ghost ok = road_at(ev, pos as int, av, x);
        proof {
            if ok {
                lemma_road_events(ev, pos as int, av, x);
            }
            assert forall|y: Road| #[trigger] road_at(ev, pos as int, av, y) implies ok by {}
            lemma_tag_lengths();
            Road::lemma_attributes_read_back();
        }
        let mut d = Dispatch::new(vec![
            ChildRule { tag: "link", cardinality: Cardinality::Optional },
            ChildRule { tag: "planView", cardinality: Cardinality::Required },
            ChildRule { tag: "elevationProfile", cardinality: Cardinality::Optional },
            ChildRule { tag: "lateralProfile", cardinality: Cardinality::Optional },
            ChildRule { tag: "lanes", cardinality: Cardinality::Required },
        ]);
        let ghost table = d.table();
        assert(table =~= seq![
            ("link"@, Cardinality::Optional),
            ("planView"@, Cardinality::Required),
            ("elevationProfile"@, Cardinality::Optional),
            ("lateralProfile"@, Cardinality::Optional),
            ("lanes"@, Cardinality::Required),
        ]);
        let mut link: Option<Link> = None;
        let mut elevation_profile: Option<ElevationProfile> = None;
        let mut lateral_profile: Option<LateralProfile> = None;
        let mut p: usize = pos;
        let ghost mut stage: int = 0;
        proof {
            if ok {
                assert(road_stage(x, pos as int, stage, p as int, d.seen@, link, elevation_profile, lateral_profile));
            }
        }
        while p < events.len()
            invariant
                pos <= p <= events.len(),
                ev == events_view(events@),
                ev.len() == events.len(),
                av == attrs_view(attributes@),
                balanced(ev, pos as int, p as int),
                d.wf(),
                d.table() == table,
                table == seq![
                    ("link"@, Cardinality::Optional),
                    ("planView"@, Cardinality::Required),
                    ("elevationProfile"@, Cardinality::Optional),
                    ("lateralProfile"@, Cardinality::Optional),
                    ("lanes"@, Cardinality::Required),
                ],
                link is Some ==> link->0.wf(),
                elevation_profile is Some ==> elevation_profile->0.wf(),
                lateral_profile is Some ==> lateral_profile->0.wf(),
                ok == road_at(ev, pos as int, av, x),
                forall|y: Road| #[trigger] road_at(ev, pos as int, av, y) ==> ok,
                ok ==> road_stage(x, pos as int, stage, p as int, d.seen@, link, elevation_profile, lateral_profile),
                road_walk(ev, pos as int, av, None, false, None, None, false) == road_walk(
                    ev,
                    p as int,
                    av,
                    opt_link_view(link),
                    d.seen@[1],
                    opt_elevation_view(elevation_profile),
                    opt_lateral_view(lateral_profile),
                    d.seen@[4],
                ),
                d.seen@[0] == link is Some,
                d.seen@[2] == elevation_profile is Some,
                d.seen@[3] == lateral_profile is Some,
            decreases events.len() - p,
        {
            proof {
                lemma_road_walk_unfold(ev, p as int, av, opt_link_view(link), d.seen@[1],
                    opt_elevation_view(elevation_profile), opt_lateral_view(lateral_profile), d.seen@[4]);
                lemma_tag_lengths();
                lemma_next_nontext_ge(ev, p as int);
                if ok {
                    lemma_road_next(ev, pos as int, av, x, stage);
                }
            }
            match next_child(events, p) {
                Err(e) => return Err(e),
                Ok(Child::Close(e)) => {
                    proof {
                        assert(balanced(ev, p as int, e - 1));
                        lemma_balanced_join(ev, pos as int, p as int, e - 1);
                        lemma_closed_by_end(ev, pos as int, e - 1);
                        if ok && e - 1 > p {
                            assert(ev[p as int] is Text);
                        }
                        if ok {
                            assert(stage == 5);
                            assert(d.seen@[1] && d.seen@[4]);
                            Road::lemma_attributes_read_back();
                            let xa = x.attributes_view();
                            assert(lookup(av, "id"@) == Some(x.id@));
                            assert(lookup(av, "junction"@) == Some(x.junction@));
                            assert(lookup(av, "length"@) == Some(x.length@));
                            assert(lookup(av, "rule"@) == opt_token_text(x.rule));
                        }
                    }
                    proof {
                        assert(table[1].0 == "planView"@);
                        assert(table[4].0 == "lanes"@);
                        reveal_with_fuel(first_error, 5);
                        assert(number_kind() == seq!['n', 'u', 'm', 'b', 'e', 'r']);
                    }
                    match d.finish() {
                        Ok(()) => {},
                        Err(x) => return Err(x),
                    }
                    proof {
                        assert(table[1].1 == Cardinality::Required);
                        assert(table[4].1 == Cardinality::Required);
                        assert(d.table().len() == d.rules@.len());
                        assert(d.seen@.len() == 5);
                        assert(d.table()[1].1 == Cardinality::Required);
                        assert(d.table()[4].1 == Cardinality::Required);
                        assert(d.seen@[1] && d.seen@[4]);
                        assert(road_walk(ev, pos as int, av, None, false, None, None, false) == road_end(
                            av,
                            opt_link_view(link),
                            true,
                            opt_elevation_view(elevation_profile),
                            opt_lateral_view(lateral_profile),
                            true,
                            e as int,
                        ));
                    }
                    let id = match required_string(attributes, "id") { Ok(v) => v, Err(x) => return Err(x) };
                    let junction = match required_string(attributes, "junction") { Ok(v) => v, Err(x) => return Err(x) };
                    let length = match required_number(attributes, "length") { Ok(v) => v, Err(x) => return Err(x) };
                    let name = optional_string(attributes, "name");
                    let rule = match optional_token::<Rule>(attributes, "rule") { Ok(v) => v, Err(x) => return Err(x) };
                    let road = Road {
                        id,
                        junction,
                        length,
                        name,
                        rule,
                        link,
                        plan_view: PlanView {},
                        elevation_profile,
                        lateral_profile,
                        lanes: Lanes {},
                    };
                    proof {
                        assert forall|y: Road| #[trigger] road_at(ev, pos as int, av, y)
                            implies road.eqv(&y) && e == pos + y.children_view().len() + 1 by {
                            Road::lemma_unique(ev, pos as int, av, x, y);
                            lemma_eqv_trans(road, x, y);
                        }
                    }
                    return Ok((road, e));
                },
                Ok(Child::Open(k)) => {
                    proof {
                        lemma_balanced_join(ev, pos as int, p as int, k as int);
                    }
                    let (name, child) = match start_at(events, k) {
                        Some(x) => x,
                        None => return Err(ParseError::UnexpectedEnd),
                    };
                    let ghost slot = next_slot(x, stage);
                    proof {
                        lemma_event_view(events@, k as int);
                        lemma_first_rule_road_any(table, name@);
                        assert(ev[k as int] == (EventView::Start { name: name@, attributes: attrs_view(child@) }));
                        if elem_end(ev, k + 1) is Some {
                            lemma_elem_end_bounds(ev, k + 1);
                        }
                        if ok && k > p {
                            assert(ev[p as int] is Text);
                        }
                        if ok {
                            assert(k == p);
                            assert(slot < 5);
                            lemma_first_rule_road(table, name@, slot);
                        }
                    }
                    let end = match d.route(name.as_str()) {
                        Err(e) => return Err(e),
                        Ok(Some(0)) => match Link::from_events(events, k + 1, child) {
                            Ok((v, e)) => {
                                link = Some(v);
                                e
                            },
                            Err(x) => return Err(x),
                        },
                        Ok(Some(1)) => match PlanView::from_events(events, k + 1, child) {
                            Ok((_, e)) => e,
                            Err(x) => return Err(x),
                        },
                        Ok(Some(2)) => match ElevationProfile::from_events(events, k + 1, child) {
                            Ok((v, e)) => {
                                elevation_profile = Some(v);
                                e
                            },
                            Err(x) => return Err(x),
                        },
                        Ok(Some(3)) => match LateralProfile::from_events(events, k + 1, child) {
                            Ok((v, e)) => {
                                lateral_profile = Some(v);
                                e
                            },
                            Err(x) => return Err(x),
                        },
                        Ok(Some(4)) => match Lanes::from_events(events, k + 1, child) {
                            Ok((_, e)) => e,
                            Err(x) => return Err(x),
                        },
                        Ok(_) => match skip_element(events, k + 1) {
                            Ok(e) => e,
                            Err(x) => return Err(x),
                        },
                    };
                    proof {
                        lemma_whole_element(ev, k as int, end as int);
                        lemma_balanced_join(ev, pos as int, k as int, end as int);
                        if ok {
                            stage = slot + 1;
                            assert(road_stage(x, pos as int, stage, end as int, d.seen@, link, elevation_profile, lateral_profile));
                        }
                    }
                    p = end;
                },
            }
        }
        proof {
            lemma_road_walk_unfold(ev, p as int, av, opt_link_view(link), d.seen@[1],
                opt_elevation_view(elevation_profile), opt_lateral_view(lateral_profile), d.seen@[4]);
        }
        Err(ParseError::UnexpectedEnd)
    }

    /// The traffic rule of the road; right-hand traffic when none is given.
    pub fn rule_or_default(&self) -> (r: Rule)
        ensures
            r == effective_rule(self.rule),
            self.rule is None ==> r == Rule::RightHandTraffic,
    {
        match self.rule {
            Some(r) => r,
            None => Rule::RightHandTraffic,
        }
    }
}

impl Road {
    pub open spec fn wf(&self) -> bool {
        &&& self.length.wf()
        &&& (self.link is Some ==> self.link->0.wf())
        &&& (self.elevation_profile is Some ==> self.elevation_profile->0.wf())
        &&& (self.lateral_profile is Some ==> self.lateral_profile->0.wf())
    }

    /// Structural equality of roads.
    pub open spec fn eqv(&self, o: &Road) -> bool {
        &&& self.id@ == o.id@
        &&& self.junction@ == o.junction@
        &&& self.length@ == o.length@
        &&& opt_text(self.name) == opt_text(o.name)
        &&& self.rule == o.rule
        &&& opt_link_eqv(self.link, o.link)
        &&& opt_elevation_eqv(self.elevation_profile, o.elevation_profile)
        &&& opt_lateral_eqv(self.lateral_profile, o.lateral_profile)
    }

    /// The attributes written for the road, present ones only, in this order.
    pub open spec fn attributes_view(&self) -> Seq<(Seq<char>, Seq<char>)> {
        seq![("id"@, self.id@), ("junction"@, self.junction@), ("length"@, self.length@)]
            + opt_attr("name"@, opt_text(self.name))
            + opt_attr("rule"@, opt_token_text(self.rule))
    }

    /// The child elements written for the road, in this order.
    pub open spec fn children_view(&self) -> Seq<EventView> {
        opt_events(match self.link {
            Some(l) => Some(l.written()),
            None => None,
        }) + empty_element("planView"@) + opt_events(match self.elevation_profile {
            Some(p) => Some(p.written()),
            None => None,
        }) + opt_events(match self.lateral_profile {
            Some(p) => Some(p.written()),
            None => None,
        }) + empty_element("lanes"@)
    }

    pub open spec fn written(&self) -> Seq<EventView> {
        element_view("road"@, self.attributes_view(), self.children_view())
    }

    /// The attributes of the road, present ones only, in declaration order.
    pub fn visit_attributes(&self) -> (r: Vec<Attribute>)
        ensures
            attrs_view(r@) == self.attributes_view(),
    {
        let mut out: Vec<Attribute> = Vec::new();
        push_attr(&mut out, "id", copy_string(&self.id));
        push_attr(&mut out, "junction", copy_string(&self.junction));
        push_attr(&mut out, "length", self.length.to_text());
        push_opt_attr(&mut out, "name", string_text(&self.name));
        push_opt_attr(&mut out, "rule", token_text(&self.rule));
        assert(attrs_view(out@) =~= self.attributes_view());
        out
    }

    /// The events of the road's children, in field order.
    pub fn visit_children(&self) -> (r: Vec<Event>)
        ensures
            events_view(r@) == self.children_view(),
    {
        let mut c: Vec<Event> = Vec::new();
        assert(events_view(c@) =~= seq![]);
        match &self.link {
            Some(l) => push_events(&mut c, l.to_events()),
            None => {},
        }
        push_events(&mut c, write_empty("planView"));
        match &self.elevation_profile {
            Some(p) => push_events(&mut c, p.to_events()),
            None => {},
        }
        match &self.lateral_profile {
            Some(p) => push_events(&mut c, p.to_events()),
            None => {},
        }
        push_events(&mut c, write_empty("lanes"));
        assert(events_view(c@) =~= self.children_view());
        c
    }

    pub fn to_events(&self) -> (r: Vec<Event>)
        ensures
            events_view(r@) == self.written(),
    {
        element("road", self.visit_attributes(), self.visit_children())
    }
}

} // verus!
