//! Road linkage: predecessor and successor edges, named by identifier.
use crate::attributes::{
    first_error, number_error, number_kind, presence_error, token_error,
    lemma_lookup_concat, lemma_lookup_single, lookup, optional_number, optional_token,
    required_string,
};
use crate::dispatch::{
    elem_end, lemma_elem_end, lemma_elem_end_bounds, lemma_next_nontext_ge, lemma_no_elem_end,
    next_nontext,
    balanced, first_rule, lemma_balanced_join, lemma_closed_by_end, lemma_event_view,
    lemma_whole_element, next_child, skip_element, Cardinality, Child, ChildRule, Dispatch,
};
use crate::entity::{
    lemma_opt_attr, number_text, opt_events, opt_number, opt_number_wf, opt_token, opt_token_text,
    start_at, token_text,
};
use crate::enums::{ContactPoint, ElementDir, ElementType};
use crate::error::{ParseError, ParseErrorView};
use crate::markup::{
    attrs_view, closes_at, delta, events_view, level, never_closes, Attribute, Event, EventView,
};
use crate::number::Number;
use crate::text::copy_string;
use crate::writer::{element, element_view, opt_attr, push_attr, push_events, push_opt_attr};
use vstd::prelude::*;

verus! {

/// One edge of the road-linkage graph: the element that a road continues from
/// or into, named by identifier. The combination of the optional fields is not
/// checked when read (both `contact_point` and `element_s`, or `element_s` on a
/// junction, are accepted); judging it is left to the consumer.
#[derive(Debug, PartialEq)]
pub struct PredecessorSuccessor {
    /// Contact point of the link on the linked element.
    pub contact_point: Option<ContactPoint>,
    /// Direction on the linked road from which this road is entered; meaningful with `element_s`.
    pub element_dir: Option<ElementDir>,
    /// Identifier of the linked element.
    pub element_id: String,
    /// Offset (meters) of a connection inside the linked road, instead of at its ends.
    pub element_s: Option<Number>,
    /// Kind of the linked element.
    pub element_type: Option<ElementType>,
}

/// What an edge holds, as mathematical values.
pub struct EdgeV {
    pub contact_point: Option<ContactPoint>,
    pub element_dir: Option<ElementDir>,
    pub element_id: Seq<char>,
    pub element_s: Option<Seq<char>>,
    pub element_type: Option<ElementType>,
}

impl View for PredecessorSuccessor {
    type V = EdgeV;

    open spec fn view(&self) -> EdgeV {
        EdgeV {
            contact_point: self.contact_point,
            element_dir: self.element_dir,
            element_id: self.element_id@,
            element_s: opt_number(self.element_s),
            element_type: self.element_type,
        }
    }
}

/// The edge that a list of attributes describes, once every check passed.
pub open spec fn edge_of(av: Seq<(Seq<char>, Seq<char>)>) -> EdgeV {
    EdgeV {
        contact_point: opt_token::<ContactPoint>(lookup(av, "contactPoint"@)),
        element_dir: opt_token::<ElementDir>(lookup(av, "elementDir"@)),
        element_id: lookup(av, "elementId"@)->0,
        element_s: lookup(av, "elementS"@),
        element_type: opt_token::<ElementType>(lookup(av, "elementType"@)),
    }
}

/// What reading an edge element whose content starts at `pos` gives: the
/// edge and the position past its end event, or the first diagnostic.
pub open spec fn edge_outcome(ev: Seq<EventView>, pos: int, av: Seq<(Seq<char>, Seq<char>)>) -> Result<(EdgeV, int), ParseErrorView> {
    let checks = seq![
        if elem_end(ev, pos) is None { Some(ParseErrorView::UnexpectedEnd) } else { None },
        token_error::<ContactPoint>(av, "contactPoint"@),
        token_error::<ElementDir>(av, "elementDir"@),
        presence_error(av, "elementId"@),
        number_error(av, "elementS"@, false),
        token_error::<ElementType>(av, "elementType"@),
    ];
    match first_error(checks) {
        Some(e) => Err(e),
        None => Ok((edge_of(av), elem_end(ev, pos)->0)),
    }
}

/// The view of an optional edge.
pub open spec fn opt_edge_view(o: Option<PredecessorSuccessor>) -> Option<EdgeV> {
    match o {
        Some(x) => Some(x@),
        None => None,
    }
}

impl PredecessorSuccessor {
    /// Reads a `<predecessor>` or `<successor>` element; children are skipped.
    pub fn from_events(events: &Vec<Event>, pos: usize, attributes: &Vec<Attribute>) -> (r: Result<(PredecessorSuccessor, usize), ParseError>)
        requires
            pos <= events.len(),
        ensures
            match r {
                Ok((v, end)) => {
                    let av = attrs_view(attributes@);
                    &&& closes_at(events_view(events@), pos as int, end - 1)
                    &&& v.contact_point == opt_token::<ContactPoint>(lookup(av, "contactPoint"@))
                    &&& v.element_dir == opt_token::<ElementDir>(lookup(av, "elementDir"@))
                    &&& lookup(av, "elementId"@) == Some(v.element_id@)
                    &&& opt_number(v.element_s) == lookup(av, "elementS"@)
                    &&& v.element_s is Some ==> v.element_s->0.wf()
                    &&& v.element_type == opt_token::<ElementType>(lookup(av, "elementType"@))
                },
                Err(_) => true,
            },
            ({
                let av = attrs_view(attributes@);
                let checks = seq![
                    if never_closes(events_view(events@), pos as int) { Some(ParseErrorView::UnexpectedEnd) } else { None },
                    token_error::<ContactPoint>(av, "contactPoint"@),
                    token_error::<ElementDir>(av, "elementDir"@),
                    presence_error(av, "elementId"@),
                    number_error(av, "elementS"@, false),
                    token_error::<ElementType>(av, "elementType"@),
                ];
                match first_error(checks) {
                    None => r is Ok,
                    Some(e) => r is Err && r->Err_0@ == e,
                }
            }),
            match edge_outcome(events_view(events@), pos as int, attrs_view(attributes@)) {
                Ok((v, e)) => r matches Ok((x, e2)) && x@ == v && e2 == e,
                Err(x) => r is Err && r->Err_0@ == x,
            },
            forall|x: PredecessorSuccessor|
                x.wf() && attrs_view(attributes@) == #[trigger] x.attributes_view() && pos < events.len()
                    && events_view(events@)[pos as int] is End
                    ==> (r matches Ok((v, end)) && v.eqv(&x) && end == pos + 1),
    {
        proof {
            PredecessorSuccessor::lemma_attributes_read_back();
            if pos < events.len() {
                assert(level(events_view(events@), pos as int, pos + 1) == level(events_view(events@), pos as int, pos as int) + delta(events_view(events@)[pos as int]));
            }
        }
        proof {
            reveal_with_fuel(first_error, 7);
            assert(number_kind() == seq!['n', 'u', 'm', 'b', 'e', 'r']);
        }
        let end = match skip_element(events, pos) {
            Ok(e) => e,
            Err(e) => {
                proof {
                    if pos < events.len() {
                        assert(level(events_view(events@), pos as int, pos as int + 1) >= 0);
                    }
                    lemma_no_elem_end(events_view(events@), pos as int);
                }
                return Err(e);
            },
        };
        proof {
            assert(!never_closes(events_view(events@), pos as int)) by {
                let ev = events_view(events@);
                let k = end - 1;
                assert(level(ev, pos as int, k + 1) == level(ev, pos as int, k) + delta(ev[k]));
                assert(level(ev, pos as int, k + 1) < 0);
            }
        }
        let contact_point = match optional_token::<ContactPoint>(attributes, "contactPoint") { Ok(v) => v, Err(e) => return Err(e) };
        let element_dir = match optional_token::<ElementDir>(attributes, "elementDir") { Ok(v) => v, Err(e) => return Err(e) };
        let element_id = match required_string(attributes, "elementId") { Ok(v) => v, Err(e) => return Err(e) };
        let element_s = match optional_number(attributes, "elementS") { Ok(v) => v, Err(e) => return Err(e) };
        let element_type = match optional_token::<ElementType>(attributes, "elementType") { Ok(v) => v, Err(e) => return Err(e) };
        proof {
            reveal_with_fuel(first_error, 7);
            lemma_elem_end(events_view(events@), pos as int, end - 1);
        }
        Ok((PredecessorSuccessor { contact_point, element_dir, element_id, element_s, element_type }, end))
    }
}

/// The predecessor and successor of a road; both absent for an isolated road.
#[derive(Debug, PartialEq)]
pub struct Link {
    pub predecessor: Option<PredecessorSuccessor>,
    pub successor: Option<PredecessorSuccessor>,
}

/// Structural equality of optional edges.
pub open spec fn opt_edge_eqv(a: Option<PredecessorSuccessor>, b: Option<PredecessorSuccessor>) -> bool {
    match (a, b) {
        (Some(x), Some(y)) => x.eqv(&y),
        (None, None) => true,
        _ => false,
    }
}

/// Number of events written for an optional edge.
pub open spec fn edge_len(o: Option<PredecessorSuccessor>) -> int {
    if o is Some {
        2
    } else {
        0
    }
}

/// The events from `pos` on are the children written for `x`, followed by an end event.
pub open spec fn link_at(ev: Seq<EventView>, pos: int, x: Link) -> bool {
    &&& 0 <= pos
    &&& pos + x.children_view().len() < ev.len()
    &&& ev.subrange(pos, pos + x.children_view().len()) == x.children_view()
    &&& ev[pos + x.children_view().len()] is End
    &&& x.wf()
}

/// Where each written child of a link stands.
pub proof fn lemma_link_events(ev: Seq<EventView>, pos: int, x: Link)
    requires
        link_at(ev, pos, x),
    ensures
        x.children_view().len() == edge_len(x.predecessor) + edge_len(x.successor),
        x.predecessor is Some ==> ev[pos] == (EventView::Start {
            name: "predecessor"@,
            attributes: x.predecessor->0.attributes_view(),
        }) && ev[pos + 1] is End,
        x.successor is Some ==> ev[pos + edge_len(x.predecessor)] == (EventView::Start {
            name: "successor"@,
            attributes: x.successor->0.attributes_view(),
        }) && ev[pos + edge_len(x.predecessor) + 1] is End,
        ev[pos + edge_len(x.predecessor) + edge_len(x.successor)] is End,
{
    let cv = x.children_view();
    let a = opt_events(match x.predecessor {
        Some(p) => Some(p.written("predecessor"@)),
        None => None,
    });
    let b = opt_events(match x.successor {
        Some(p) => Some(p.written("successor"@)),
        None => None,
    });
    assert(cv == a + b);
    assert(a.len() == edge_len(x.predecessor));
    assert(b.len() == edge_len(x.successor));
    if x.predecessor is Some {
        assert(ev[pos] == ev.subrange(pos, pos + cv.len())[0]);
        assert(ev[pos + 1] == ev.subrange(pos, pos + cv.len())[1]);
    }
    if x.successor is Some {
        let i = edge_len(x.predecessor);
        assert(ev[pos + i] == ev.subrange(pos, pos + cv.len())[i]);
        assert(ev[pos + i + 1] == ev.subrange(pos, pos + cv.len())[i + 1]);
        assert(cv[i] == b[0]);
        assert(cv[i + 1] == b[1]);
    }
}

/// Edges with the same written attributes are structurally equal.
pub proof fn lemma_edge_same_attributes(x: PredecessorSuccessor, y: PredecessorSuccessor)
    requires
        x.attributes_view() == y.attributes_view(),
    ensures
        x.eqv(&y),
{
    PredecessorSuccessor::lemma_attributes_read_back();
    assert(lookup(x.attributes_view(), "elementId"@) == Some(x.element_id@));
    assert(lookup(y.attributes_view(), "elementId"@) == Some(y.element_id@));
}

/// The events determine the link that they were written from.
pub proof fn lemma_link_unique(ev: Seq<EventView>, pos: int, x: Link, y: Link)
    requires
        link_at(ev, pos, x),
        link_at(ev, pos, y),
    ensures
        x.eqv(&y),
{
    reveal_strlit("predecessor");
    reveal_strlit("successor");
    assert("predecessor"@.len() == 11);
    assert("successor"@.len() == 9);
    lemma_link_events(ev, pos, x);
    lemma_link_events(ev, pos, y);
    if x.predecessor is Some && y.predecessor is Some {
        lemma_edge_same_attributes(x.predecessor->0, y.predecessor->0);
    }
    if x.successor is Some && y.successor is Some {
        lemma_edge_same_attributes(x.successor->0, y.successor->0);
    }
}

/// What a link holds, as mathematical values.
pub struct LinkV {
    pub predecessor: Option<EdgeV>,
    pub successor: Option<EdgeV>,
}

impl View for Link {
    type V = LinkV;

    open spec fn view(&self) -> LinkV {
        LinkV { predecessor: opt_edge_view(self.predecessor), successor: opt_edge_view(self.successor) }
    }
}

/// What reading the children of a link gives from position `p` on, with the
/// edges read so far: character data is skipped, `<predecessor>` and
/// `<successor>` are read at most once each (a second one gives
/// `DuplicateElement`), other children are skipped whole, and the first end
/// event closes the link. A child's diagnostic is passed on unchanged.
pub open spec fn link_walk(
    ev: Seq<EventView>,
    p: int,
    predecessor: Option<EdgeV>,
    successor: Option<EdgeV>,
) -> Result<(LinkV, int), ParseErrorView>
    decreases ev.len() - p,
{
    let q = next_nontext(ev, p);
    if q < p || q >= ev.len() {
        Err(ParseErrorView::UnexpectedEnd)
    } else {
        match ev[q] {
            EventView::Start { name, attributes } => {
                if name == "predecessor"@ || name == "successor"@ {
                    let first = name == "predecessor"@;
                    if (first && predecessor is Some) || (!first && successor is Some) {
                        Err(ParseErrorView::DuplicateElement { tag: name })
                    } else {
                        match edge_outcome(ev, q + 1, attributes) {
                            Err(e) => Err(e),
                            Ok((v, e)) => if q < e <= ev.len() {
                                if first {
                                    link_walk(ev, e, Some(v), successor)
                                } else {
                                    link_walk(ev, e, predecessor, Some(v))
                                }
                            } else {
                                Err(ParseErrorView::UnexpectedEnd)
                            },
                        }
                    }
                } else {
                    match elem_end(ev, q + 1) {
                        None => Err(ParseErrorView::UnexpectedEnd),
                        Some(e) => if q < e <= ev.len() {
                            link_walk(ev, e, predecessor, successor)
                        } else {
                            Err(ParseErrorView::UnexpectedEnd)
                        },
                    }
                }
            },
            _ => Ok((LinkV { predecessor, successor }, q + 1)),
        }
    }
}

/// A link's dispatch table routes each tag to its rule.
pub proof fn lemma_first_rule_link(table: Seq<(Seq<char>, Cardinality)>, name: Seq<char>)
    requires
        table == seq![("predecessor"@, Cardinality::Optional), ("successor"@, Cardinality::Optional)],
        "predecessor"@ != "successor"@,
    ensures
        first_rule(table, name, 0) == (if name == "predecessor"@ {
            Some(0int)
        } else if name == "successor"@ {
            Some(1int)
        } else {
            None
        }),
{
    assert(table[0].0 == "predecessor"@);
    assert(table[1].0 == "successor"@);
    assert(first_rule(table, name, 2) is None);
    assert(first_rule(table, name, 1) == (if name == "successor"@ { Some(1int) } else { None }));
}

impl Link {
    #[verifier::rlimit(100)]
    /// Reads a `<link>` element: at most one `<predecessor>` and one `<successor>`.
    pub fn from_events(events: &Vec<Event>, pos: usize, _attributes: &Vec<Attribute>) -> (r: Result<(Link, usize), ParseError>)
        requires
            pos <= events.len(),
        ensures
            match r {
                Ok((v, end)) => closes_at(events_view(events@), pos as int, end - 1) && v.wf(),
                Err(_) => true,
            },
            forall|x: Link| #[trigger] link_at(events_view(events@), pos as int, x)
                ==> (r matches Ok((v, end)) && v.eqv(&x) && end == pos + x.children_view().len() + 1),
            match link_walk(events_view(events@), pos as int, None, None) {
                Ok((v, e)) => r matches Ok((x, e2)) && x@ == v && e2 == e,
                Err(x) => r is Err && r->Err_0@ == x,
            },
    {
        let ghost ev = events_view(events@);
        let ghost x = choose|x: Link| link_at(ev, pos as int, x);
        let ghost ok = link_at(ev, pos as int, x);
        let ghost np = edge_len(x.predecessor);
        let ghost ns = edge_len(x.successor);
        proof {
            if ok {
                lemma_link_events(ev, pos as int, x);
            }
            assert forall|y: Link| #[trigger] link_at(ev, pos as int, y) implies ok by {}
            reveal_strlit("predecessor");
            reveal_strlit("successor");
            assert("predecessor"@.len() == 11);
            assert("successor"@.len() == 9);
        }
        let mut d = Dispatch::new(vec![
            ChildRule { tag: "predecessor", cardinality: Cardinality::Optional },
            ChildRule { tag: "successor", cardinality: Cardinality::Optional },
        ]);
        let ghost table = d.table();
        assert(table =~= seq![("predecessor"@, Cardinality::Optional), ("successor"@, Cardinality::Optional)]);
        let mut predecessor: Option<PredecessorSuccessor> = None;
        let mut successor: Option<PredecessorSuccessor> = None;
        let mut p: usize = pos;
        while p < events.len()
            invariant
                pos <= p <= events.len(),
                ev == events_view(events@),
                ev.len() == events.len(),
                balanced(ev, pos as int, p as int),
                d.wf(),
                d.table() == table,
                table == seq![("predecessor"@, Cardinality::Optional), ("successor"@, Cardinality::Optional)],
                "predecessor"@ != "successor"@,
                predecessor is Some ==> predecessor->0.wf(),
                successor is Some ==> successor->0.wf(),
                ok == link_at(ev, pos as int, x),
                forall|y: Link| #[trigger] link_at(ev, pos as int, y) ==> ok,
                link_walk(ev, pos as int, None, None) == link_walk(ev, p as int, opt_edge_view(predecessor), opt_edge_view(successor)),
                d.seen@[0] == predecessor is Some,
                d.seen@[1] == successor is Some,
                np == edge_len(x.predecessor),
                ns == edge_len(x.successor),
                ok ==> x.children_view().len() == np + ns,
                ok ==> (x.predecessor is Some ==> ev[pos as int] == (EventView::Start {
                    name: "predecessor"@,
                    attributes: x.predecessor->0.attributes_view(),
                }) && ev[pos + 1] is End),
                ok ==> (x.successor is Some ==> ev[pos + np] == (EventView::Start {
                    name: "successor"@,
                    attributes: x.successor->0.attributes_view(),
                }) && ev[pos + np + 1] is End),
                ok ==> ev[pos + np + ns] is End,
                ok ==> {
                    ||| (p == pos && !d.seen@[0] && !d.seen@[1] && predecessor is None && successor is None)
                    ||| (p == pos + np && x.predecessor is Some && d.seen@[0] && !d.seen@[1]
                        && opt_edge_eqv(predecessor, x.predecessor) && successor is None)
                    ||| (p == pos + np + ns && x.successor is Some && d.seen@[1]
                        && opt_edge_eqv(predecessor, x.predecessor) && opt_edge_eqv(successor, x.successor))
                },
            decreases events.len() - p,
        {
            proof {
                if ok && p > pos {
                    assert(ev[pos as int] is Start || ev[pos as int] is End);
                }
                lemma_next_nontext_ge(ev, p as int);
            }
            match next_child(events, p) {
                Err(e) => return Err(e),
                Ok(Child::Close(e)) => {
                    proof {
                        assert(balanced(ev, p as int, e - 1));
                        lemma_balanced_join(ev, pos as int, p as int, e - 1);
                        lemma_closed_by_end(ev, pos as int, e - 1);
                        if ok && e - 1 > p {
                            assert(ev[p as int] is Text);
                        }
                        assert forall|y: Link| #[trigger] link_at(ev, pos as int, y)
                            implies (Link { predecessor, successor }).eqv(&y) && e == pos + y.children_view().len() + 1 by {
                            lemma_link_unique(ev, pos as int, x, y);
                            lemma_link_events(ev, pos as int, y);
                        }
                    }
                    return Ok((Link { predecessor, successor }, e));
                },
                Ok(Child::Open(k)) => {
                    proof {
                        lemma_balanced_join(ev, pos as int, p as int, k as int);
                    }
                    let (name, child) = match start_at(events, k) {
                        Some(x) => x,
                        None => return Err(ParseError::UnexpectedEnd),
                    };
                    proof {
                        lemma_event_view(events@, k as int);
                        lemma_first_rule_link(table, name@);
                        assert(ev[k as int] == (EventView::Start { name: name@, attributes: attrs_view(child@) }));
                        if elem_end(ev, k + 1) is Some {
                            lemma_elem_end_bounds(ev, k + 1);
                        }
                        if ok && k > p {
                            assert(ev[p as int] is Text);
                        }
                        if ok {
                            if p == pos && x.predecessor is Some {
                                assert(name@ == "predecessor"@);
                                assert(first_rule(table, name@, 0) == Some(0int));
                            } else {
                                assert(x.successor is Some);
                                assert(p == pos + np);
                                assert(name@ == "successor"@);
                                assert(attrs_view(child@) == x.successor->0.attributes_view());
                                assert(first_rule(table, name@, 1) == Some(1int));
                                assert(first_rule(table, name@, 0) == Some(1int));
                            }
                        }
                    }
                    let end = match d.route(name.as_str()) {
                        Err(e) => return Err(e),
                        Ok(Some(0)) => match PredecessorSuccessor::from_events(events, k + 1, child) {
                            Ok((v, e)) => {
                                predecessor = Some(v);
                                e
                            },
                            Err(x) => return Err(x),
                        },
                        Ok(Some(1)) => match PredecessorSuccessor::from_events(events, k + 1, child) {
                            Ok((v, e)) => {
                                successor = Some(v);
                                e
                            },
                            Err(x) => return Err(x),
                        },
                        Ok(_) => match skip_element(events, k + 1) {
                            Ok(e) => e,
                            Err(x) => return Err(x),
                        },
                    };
                    proof {
                        lemma_whole_element(ev, k as int, end as int);
                        lemma_balanced_join(ev, pos as int, k as int, end as int);
                    }
                    p = end;
                },
            }
        }
        Err(ParseError::UnexpectedEnd)
    }
}

impl PredecessorSuccessor {
    pub open spec fn wf(&self) -> bool {
        opt_number_wf(self.element_s)
    }

    /// Structural equality of edges.
    pub open spec fn eqv(&self, o: &PredecessorSuccessor) -> bool {
        &&& self.contact_point == o.contact_point
        &&& self.element_dir == o.element_dir
        &&& self.element_id@ == o.element_id@
        &&& opt_number(self.element_s) == opt_number(o.element_s)
        &&& self.element_type == o.element_type
    }

    /// Each attribute written for an edge reads back as the field it came from.
    pub proof fn lemma_attributes_read_back()
        ensures
            forall|x: PredecessorSuccessor| {
                let av = #[trigger] x.attributes_view();
                &&& lookup(av, "contactPoint"@) == opt_token_text(x.contact_point)
                &&& lookup(av, "elementDir"@) == opt_token_text(x.element_dir)
                &&& lookup(av, "elementId"@) == Some(x.element_id@)
                &&& lookup(av, "elementS"@) == opt_number(x.element_s)
                &&& lookup(av, "elementType"@) == opt_token_text(x.element_type)
                &&& opt_token::<ContactPoint>(opt_token_text(x.contact_point)) == x.contact_point
                &&& opt_token::<ElementDir>(opt_token_text(x.element_dir)) == x.element_dir
                &&& opt_token::<ElementType>(opt_token_text(x.element_type)) == x.element_type
            },
    {
        reveal_strlit("contactPoint");
        reveal_strlit("elementDir");
        reveal_strlit("elementId");
        reveal_strlit("elementS");
        reveal_strlit("elementType");
        assert("contactPoint"@.len() == 12);
        assert("elementDir"@.len() == 10);
        assert("elementId"@.len() == 9);
        assert("elementS"@.len() == 8);
        assert("elementType"@.len() == 11);
        assert forall|x: PredecessorSuccessor| {
            let av = #[trigger] x.attributes_view();
            &&& lookup(av, "contactPoint"@) == opt_token_text(x.contact_point)
            &&& lookup(av, "elementDir"@) == opt_token_text(x.element_dir)
            &&& lookup(av, "elementId"@) == Some(x.element_id@)
            &&& lookup(av, "elementS"@) == opt_number(x.element_s)
            &&& lookup(av, "elementType"@) == opt_token_text(x.element_type)
            &&& opt_token::<ContactPoint>(opt_token_text(x.contact_point)) == x.contact_point
            &&& opt_token::<ElementDir>(opt_token_text(x.element_dir)) == x.element_dir
            &&& opt_token::<ElementType>(opt_token_text(x.element_type)) == x.element_type
        } by {
            let a = opt_attr("contactPoint"@, opt_token_text(x.contact_point));
            let b = opt_attr("elementDir"@, opt_token_text(x.element_dir));
            let c = seq![("elementId"@, x.element_id@)];
            let d = opt_attr("elementS"@, opt_number(x.element_s));
            let e = opt_attr("elementType"@, opt_token_text(x.element_type));
            lemma_opt_attr("contactPoint"@, opt_token_text(x.contact_point));
            lemma_opt_attr("elementDir"@, opt_token_text(x.element_dir));
            lemma_lookup_single("elementId"@, x.element_id@);
            lemma_opt_attr("elementS"@, opt_number(x.element_s));
            lemma_opt_attr("elementType"@, opt_token_text(x.element_type));
            lemma_lookup_concat(a, b);
            lemma_lookup_concat(a + b, c);
            lemma_lookup_concat(a + b + c, d);
            lemma_lookup_concat(a + b + c + d, e);
            if x.contact_point is Some {
                crate::enums::lemma_contact_point_tokens(x.contact_point->0, Seq::empty());
            }
            if x.element_dir is Some {
                crate::enums::lemma_element_dir_tokens(x.element_dir->0, Seq::empty());
            }
            if x.element_type is Some {
                crate::enums::lemma_element_type_tokens(x.element_type->0, Seq::empty());
            }
        }
    }

    /// The attributes written for the edge, present ones only, in this order.
    pub open spec fn attributes_view(&self) -> Seq<(Seq<char>, Seq<char>)> {
        opt_attr("contactPoint"@, opt_token_text(self.contact_point))
            + opt_attr("elementDir"@, opt_token_text(self.element_dir))
            + seq![("elementId"@, self.element_id@)]
            + opt_attr("elementS"@, opt_number(self.element_s))
            + opt_attr("elementType"@, opt_token_text(self.element_type))
    }

    pub open spec fn written(&self, tag: Seq<char>) -> Seq<EventView> {
        element_view(tag, self.attributes_view(), seq![])
    }

    /// The attributes of the edge, present ones only, in declaration order.
    pub fn visit_attributes(&self) -> (r: Vec<Attribute>)
        ensures
            attrs_view(r@) == self.attributes_view(),
    {
        let mut out: Vec<Attribute> = Vec::new();
        push_opt_attr(&mut out, "contactPoint", token_text(&self.contact_point));
        push_opt_attr(&mut out, "elementDir", token_text(&self.element_dir));
        push_attr(&mut out, "elementId", copy_string(&self.element_id));
        push_opt_attr(&mut out, "elementS", number_text(&self.element_s));
        push_opt_attr(&mut out, "elementType", token_text(&self.element_type));
        assert(attrs_view(out@) =~= self.attributes_view());
        out
    }

    /// The events of the edge as element `tag`.
    pub fn to_events(&self, tag: &str) -> (r: Vec<Event>)
        ensures
            events_view(r@) == self.written(tag@),
    {
        let c: Vec<Event> = Vec::new();
        assert(events_view(c@) =~= seq![]);
        element(tag, self.visit_attributes(), c)
    }
}

impl Link {
    pub open spec fn wf(&self) -> bool {
        &&& (self.predecessor is Some ==> self.predecessor->0.wf())
        &&& (self.successor is Some ==> self.successor->0.wf())
    }

    /// Structural equality of links.
    pub open spec fn eqv(&self, o: &Link) -> bool {
        opt_edge_eqv(self.predecessor, o.predecessor) && opt_edge_eqv(self.successor, o.successor)
    }

    pub open spec fn children_view(&self) -> Seq<EventView> {
        opt_events(match self.predecessor {
            Some(p) => Some(p.written("predecessor"@)),
            None => None,
        }) + opt_events(match self.successor {
            Some(p) => Some(p.written("successor"@)),
            None => None,
        })
    }

    pub open spec fn written(&self) -> Seq<EventView> {
        element_view("link"@, seq![], self.children_view())
    }

    pub fn to_events(&self) -> (r: Vec<Event>)
        ensures
            events_view(r@) == self.written(),
    {
        let mut c: Vec<Event> = Vec::new();
        assert(events_view(c@) =~= seq![]);
        match &self.predecessor {
            Some(p) => push_events(&mut c, p.to_events("predecessor")),
            None => {},
        }
        match &self.successor {
            Some(p) => push_events(&mut c, p.to_events("successor")),
            None => {},
        }
        assert(events_view(c@) =~= self.children_view());
        let a: Vec<Attribute> = Vec::new();
        assert(attrs_view(a@) =~= seq![]);
        element("link", a, c)
    }
}

} // verus!
