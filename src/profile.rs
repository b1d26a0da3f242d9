//! Profile pieces along the reference line and the profiles that hold them.
use crate::attributes::{
    first_error, lemma_lookup_concat, lemma_lookup_single, lookup, number_error, number_kind,
    required_number,
};
use crate::dispatch::{
    elem_end, lemma_elem_end_bounds, lemma_next_nontext_ge, next_nontext,
    no_children_outcome,
    all_text, balanced, expect_no_children, first_rule, lemma_balanced_join, lemma_closed_by_end,
    lemma_event_view, lemma_whole_element, next_child, skip_element, Cardinality, Child, ChildRule,
    Dispatch,
};
use crate::entity::start_at;
use crate::error::{ParseError, ParseErrorView};
use crate::markup::{attrs_view, closes_at, events_view, Attribute, Event, EventView};
use crate::number::Number;
use crate::writer::{element, element_view, push_attr, push_events};
use vstd::prelude::*;

verus! {

/// One cubic polynomial piece `a + b*ds + c*ds^2 + d*ds^3` of a profile along the
/// reference line, starting at `s`. Elevation and superelevation pieces share it.
/// Pieces of a profile are kept in document order; ascending `s` is not checked.
#[derive(Debug, PartialEq)]
pub struct Elevation {
    pub a: Number,
    pub b: Number,
    pub c: Number,
    pub d: Number,
    pub s: Number,
}

/// What a piece holds, as mathematical values.
pub struct PieceV {
    pub a: Seq<char>,
    pub b: Seq<char>,
    pub c: Seq<char>,
    pub d: Seq<char>,
    pub s: Seq<char>,
}

impl View for Elevation {
    type V = PieceV;

    open spec fn view(&self) -> PieceV {
        PieceV { a: self.a@, b: self.b@, c: self.c@, d: self.d@, s: self.s@ }
    }
}

/// The views of a sequence of pieces.
pub open spec fn pieces_views(s: Seq<Elevation>) -> Seq<PieceV> {
    s.map_values(|x: Elevation| x@)
}

/// The piece that a list of attributes describes, once every check passed.
pub open spec fn piece_of(av: Seq<(Seq<char>, Seq<char>)>) -> PieceV {
    PieceV {
        a: lookup(av, "a"@)->0,
        b: lookup(av, "b"@)->0,
        c: lookup(av, "c"@)->0,
        d: lookup(av, "d"@)->0,
        s: lookup(av, "s"@)->0,
    }
}

/// What reading a piece element whose content starts at `pos` gives.
pub open spec fn piece_outcome(ev: Seq<EventView>, pos: int, av: Seq<(Seq<char>, Seq<char>)>) -> Result<(PieceV, int), ParseErrorView> {
    let checks = seq![
        number_error(av, "a"@, true),
        number_error(av, "b"@, true),
        number_error(av, "c"@, true),
        number_error(av, "d"@, true),
        number_error(av, "s"@, true),
    ];
    match first_error(checks) {
        Some(e) => Err(e),
        None => match no_children_outcome(ev, pos) {
            Ok(e) => Ok((piece_of(av), e)),
            Err(x) => Err(x),
        },
    }
}

/// What reading the children of a profile gives from position `p` on, with
/// the pieces read so far: every child `tag` is read as a piece, in document
/// order; character data is skipped, other children are skipped whole, and
/// the first end event closes the profile.
pub open spec fn pieces_walk(ev: Seq<EventView>, p: int, tag: Seq<char>, acc: Seq<PieceV>) -> Result<(Seq<PieceV>, int), ParseErrorView>
    decreases ev.len() - p,
{
    let q = next_nontext(ev, p);
    if q < p || q >= ev.len() {
        Err(ParseErrorView::UnexpectedEnd)
    } else {
        match ev[q] {
            EventView::Start { name, attributes } => {
                if name == tag {
                    match piece_outcome(ev, q + 1, attributes) {
                        Err(e) => Err(e),
                        Ok((v, e)) => if q < e <= ev.len() {
                            pieces_walk(ev, e, tag, acc.push(v))
                        } else {
                            Err(ParseErrorView::UnexpectedEnd)
                        },
                    }
                } else {
                    match elem_end(ev, q + 1) {
                        None => Err(ParseErrorView::UnexpectedEnd),
                        Some(e) => if q < e <= ev.len() {
                            pieces_walk(ev, e, tag, acc)
                        } else {
                            Err(ParseErrorView::UnexpectedEnd)
                        },
                    }
                }
            },
            _ => Ok((acc, q + 1)),
        }
    }
}

impl Elevation {
    pub open spec fn wf(&self) -> bool {
        self.a.wf() && self.b.wf() && self.c.wf() && self.d.wf() && self.s.wf()
    }

    /// Structural equality of pieces.
    pub open spec fn eqv(&self, o: &Elevation) -> bool {
        self.a@ == o.a@ && self.b@ == o.b@ && self.c@ == o.c@ && self.d@ == o.d@ && self.s@ == o.s@
    }

    /// Each attribute written for a piece reads back as the field it came from.
    pub proof fn lemma_attributes_read_back()
        ensures
            forall|x: Elevation| {
                let av = #[trigger] x.attributes_view();
                &&& lookup(av, "a"@) == Some(x.a@)
                &&& lookup(av, "b"@) == Some(x.b@)
                &&& lookup(av, "c"@) == Some(x.c@)
                &&& lookup(av, "d"@) == Some(x.d@)
                &&& lookup(av, "s"@) == Some(x.s@)
            },
    {
        reveal_strlit("a");
        reveal_strlit("b");
        reveal_strlit("c");
        reveal_strlit("d");
        reveal_strlit("s");
        assert("a"@[0] != "b"@[0]);
        assert("a"@[0] != "c"@[0]);
        assert("a"@[0] != "d"@[0]);
        assert("a"@[0] != "s"@[0]);
        assert("b"@[0] != "c"@[0]);
        assert("b"@[0] != "d"@[0]);
        assert("b"@[0] != "s"@[0]);
        assert("c"@[0] != "d"@[0]);
        assert("c"@[0] != "s"@[0]);
        assert("d"@[0] != "s"@[0]);
        assert forall|x: Elevation| {
            let av = #[trigger] x.attributes_view();
            &&& lookup(av, "a"@) == Some(x.a@)
            &&& lookup(av, "b"@) == Some(x.b@)
            &&& lookup(av, "c"@) == Some(x.c@)
            &&& lookup(av, "d"@) == Some(x.d@)
            &&& lookup(av, "s"@) == Some(x.s@)
        } by {
            let a = seq![("a"@, x.a@)];
            let b = seq![("b"@, x.b@)];
            let c = seq![("c"@, x.c@)];
            let d = seq![("d"@, x.d@)];
            let e = seq![("s"@, x.s@)];
            lemma_lookup_single("a"@, x.a@);
            lemma_lookup_single("b"@, x.b@);
            lemma_lookup_single("c"@, x.c@);
            lemma_lookup_single("d"@, x.d@);
            lemma_lookup_single("s"@, x.s@);
            lemma_lookup_concat(a, b);
            lemma_lookup_concat(a + b, c);
            lemma_lookup_concat(a + b + c, d);
            lemma_lookup_concat(a + b + c + d, e);
        }
    }

    /// Reads an attribute-only `<elevation>` (or `<superelevation>`) element whose
    /// content starts at `pos`. Returns it with the position past its end event.
    pub fn from_events(events: &Vec<Event>, pos: usize, attributes: &Vec<Attribute>) -> (r: Result<(Elevation, usize), ParseError>)
        requires
            pos <= events.len(),
        ensures
            r is Ok ==> {
                let (e, end) = r->Ok_0;
                let av = attrs_view(attributes@);
                &&& e.wf()
                &&& lookup(av, "a"@) == Some(e.a@)
                &&& lookup(av, "b"@) == Some(e.b@)
                &&& lookup(av, "c"@) == Some(e.c@)
                &&& lookup(av, "d"@) == Some(e.d@)
                &&& lookup(av, "s"@) == Some(e.s@)
                &&& closes_at(events_view(events@), pos as int, end - 1)
                &&& all_text(events_view(events@), pos as int, end - 1)
            },
            forall|x: Elevation|
                x.wf() && attrs_view(attributes@) == #[trigger] x.attributes_view() && pos < events.len()
                    && events_view(events@)[pos as int] is End
                    ==> (r matches Ok((v, end)) && v.eqv(&x) && end == pos + 1),
            ({
                let av = attrs_view(attributes@);
                let ev = events_view(events@);
                let checks = seq![
                    number_error(av, "a"@, true),
                    number_error(av, "b"@, true),
                    number_error(av, "c"@, true),
                    number_error(av, "d"@, true),
                    number_error(av, "s"@, true),
                ];
                match first_error(checks) {
                    Some(e) => r is Err && r->Err_0@ == e,
                    None => match no_children_outcome(ev, pos as int) {
                        Ok(end) => r matches Ok((_, e2)) && e2 == end,
                        Err(e) => r is Err && r->Err_0@ == e,
                    },
                }
            }),
            match piece_outcome(events_view(events@), pos as int, attrs_view(attributes@)) {
                Ok((v, e)) => r matches Ok((x, e2)) && x@ == v && e2 == e,
                Err(x) => r is Err && r->Err_0@ == x,
            },
    {
        proof {
            Elevation::lemma_attributes_read_back();
            reveal_with_fuel(first_error, 6);
            assert(number_kind() == seq!['n', 'u', 'm', 'b', 'e', 'r']);
        }
        let a = match required_number(attributes, "a") { Ok(v) => v, Err(e) => return Err(e) };
        let b = match required_number(attributes, "b") { Ok(v) => v, Err(e) => return Err(e) };
        let c = match required_number(attributes, "c") { Ok(v) => v, Err(e) => return Err(e) };
        let d = match required_number(attributes, "d") { Ok(v) => v, Err(e) => return Err(e) };
        let s = match required_number(attributes, "s") { Ok(v) => v, Err(e) => return Err(e) };
        match expect_no_children(events, pos) {
            Ok(end) => Ok((Elevation { a, b, c, d, s }, end)),
            Err(e) => {
                Err(e)
            },
        }
    }
}

/// The events from `pos` on are the written pieces `xs` (each as element `tag`),
/// followed by an end event.
pub open spec fn segments_at(ev: Seq<EventView>, pos: int, xs: Seq<Elevation>, tag: Seq<char>) -> bool {
    &&& 0 <= pos
    &&& pos + pieces_view(xs, tag).len() < ev.len()
    &&& ev.subrange(pos, pos + pieces_view(xs, tag).len()) == pieces_view(xs, tag)
    &&& ev[pos + pieces_view(xs, tag).len()] is End
    &&& forall|i: int| 0 <= i < xs.len() ==> #[trigger] xs[i].wf()
}

/// Pointwise structural equality of two piece sequences.
pub open spec fn pieces_eqv(a: Seq<Elevation>, b: Seq<Elevation>) -> bool {
    a.len() == b.len() && forall|i: int| 0 <= i < a.len() ==> #[trigger] a[i].eqv(&b[i])
}

/// Each written piece is two events: its start with its attributes, and its end.
pub proof fn lemma_pieces_index(xs: Seq<Elevation>, tag: Seq<char>)
    ensures
        pieces_view(xs, tag).len() == 2 * xs.len(),
        forall|i: int| 0 <= i < xs.len() ==> pieces_view(xs, tag)[2 * i] == (EventView::Start {
            name: tag,
            attributes: #[trigger] xs[i].attributes_view(),
        }),
        forall|i: int| 0 <= i < xs.len() ==> #[trigger] pieces_view(xs, tag)[2 * i + 1] == (EventView::End { name: tag }),
    decreases xs.len(),
{
    if xs.len() > 0 {
        lemma_pieces_index(xs.drop_last(), tag);
        let w = xs.last().written(tag);
        assert(w.len() == 2);
        assert forall|i: int| 0 <= i < xs.len() implies pieces_view(xs, tag)[2 * i] == (EventView::Start {
            name: tag,
            attributes: #[trigger] xs[i].attributes_view(),
        }) by {
            if i < xs.len() - 1 {
                assert(xs.drop_last()[i] == xs[i]);
            }
        }
        assert forall|i: int| 0 <= i < xs.len() implies #[trigger] pieces_view(xs, tag)[2 * i + 1] == (EventView::End { name: tag }) by {
            if i < xs.len() - 1 {
                assert(xs.drop_last()[i] == xs[i]);
            }
        }
    }
}

/// Each written piece is two events.
pub proof fn lemma_pieces_len_all(tag: Seq<char>)
    ensures
        forall|xs: Seq<Elevation>| #[trigger] pieces_view(xs, tag).len() == 2 * xs.len(),
{
    assert forall|xs: Seq<Elevation>| #[trigger] pieces_view(xs, tag).len() == 2 * xs.len() by {
        lemma_pieces_index(xs, tag);
    }
}

/// Pieces with the same written attributes are structurally equal.
pub proof fn lemma_same_attributes(x: Elevation, y: Elevation)
    requires
        x.attributes_view() == y.attributes_view(),
    ensures
        x.eqv(&y),
{
    Elevation::lemma_attributes_read_back();
    assert(lookup(x.attributes_view(), "a"@) == Some(x.a@));
    assert(lookup(y.attributes_view(), "a"@) == Some(y.a@));
}

/// The events determine the pieces that they were written from.
pub proof fn lemma_segments_unique(ev: Seq<EventView>, pos: int, xs: Seq<Elevation>, ys: Seq<Elevation>, tag: Seq<char>)
    requires
        segments_at(ev, pos, xs, tag),
        segments_at(ev, pos, ys, tag),
    ensures
        pieces_eqv(xs, ys),
{
    lemma_pieces_index(xs, tag);
    lemma_pieces_index(ys, tag);
    let px = pieces_view(xs, tag);
    let py = pieces_view(ys, tag);
    if xs.len() < ys.len() {
        let i = xs.len() as int;
        assert(ev[pos + px.len()] == ev.subrange(pos, pos + py.len())[2 * i]);
        assert(py[2 * i] == (EventView::Start { name: tag, attributes: ys[i].attributes_view() }));
    }
    if ys.len() < xs.len() {
        let i = ys.len() as int;
        assert(ev[pos + py.len()] == ev.subrange(pos, pos + px.len())[2 * i]);
        assert(px[2 * i] == (EventView::Start { name: tag, attributes: xs[i].attributes_view() }));
    }
    assert forall|i: int| 0 <= i < xs.len() implies #[trigger] xs[i].eqv(&ys[i]) by {
        assert(px[2 * i] == ev.subrange(pos, pos + px.len())[2 * i]);
        assert(py[2 * i] == ev.subrange(pos, pos + py.len())[2 * i]);
        assert(px[2 * i] == (EventView::Start { name: tag, attributes: xs[i].attributes_view() }));
        assert(py[2 * i] == (EventView::Start { name: tag, attributes: ys[i].attributes_view() }));
        lemma_same_attributes(xs[i], ys[i]);
    }
}

/// Reads the pieces of a profile: every child `tag` element in document order,
/// other children skipped.
fn parse_segments(events: &Vec<Event>, pos: usize, tag: &'static str) -> (r: Result<(Vec<Elevation>, usize), ParseError>)
    requires
        pos <= events.len(),
    ensures
        match r {
            Ok((v, end)) => closes_at(events_view(events@), pos as int, end - 1)
                && forall|i: int| 0 <= i < v@.len() ==> #[trigger] v@[i].wf(),
            Err(_) => true,
        },
        forall|xs: Seq<Elevation>| #[trigger] segments_at(events_view(events@), pos as int, xs, tag@)
            ==> (r matches Ok((v, end)) && pieces_eqv(v@, xs) && end == pos + 2 * xs.len() + 1),
        match pieces_walk(events_view(events@), pos as int, tag@, seq![]) {
            Ok((v, e)) => r matches Ok((x, e2)) && pieces_views(x@) == v && e2 == e,
            Err(x) => r is Err && r->Err_0@ == x,
        },
{
    let ghost ev = events_view(events@);
    let ghost xs = choose|xs: Seq<Elevation>| segments_at(ev, pos as int, xs, tag@);
    let ghost ok = segments_at(ev, pos as int, xs, tag@);
    proof {
        if ok {
            lemma_pieces_index(xs, tag@);
        }
        assert forall|ys: Seq<Elevation>| #[trigger] segments_at(ev, pos as int, ys, tag@) implies ok by {}
    }
    let mut d = Dispatch::new(vec![ChildRule { tag, cardinality: Cardinality::Many }]);
    let ghost table = d.table();
    assert(table =~= seq![(tag@, Cardinality::Many)]);
    let mut out: Vec<Elevation> = Vec::new();
    assert(pieces_views(out@) =~= seq![]);
    let mut p: usize = pos;
    while p < events.len()
        invariant
            pos <= p <= events.len(),
            ev == events_view(events@),
            ev.len() == events.len(),
            balanced(ev, pos as int, p as int),
            d.wf(),
            d.table() == table,
            table == seq![(tag@, Cardinality::Many)],
            forall|i: int| 0 <= i < out@.len() ==> #[trigger] out@[i].wf(),
            pieces_walk(ev, pos as int, tag@, seq![]) == pieces_walk(ev, p as int, tag@, pieces_views(out@)),
            ok == segments_at(ev, pos as int, xs, tag@),
            forall|ys: Seq<Elevation>| #[trigger] segments_at(ev, pos as int, ys, tag@) ==> ok,
            ok ==> pieces_view(xs, tag@).len() == 2 * xs.len(),
            ok ==> forall|i: int| 0 <= i < xs.len() ==> pieces_view(xs, tag@)[2 * i] == (EventView::Start {
                name: tag@,
                attributes: #[trigger] xs[i].attributes_view(),
            }),
            ok ==> forall|i: int| 0 <= i < xs.len() ==> #[trigger] pieces_view(xs, tag@)[2 * i + 1] == (EventView::End { name: tag@ }),
            ok ==> p == pos + 2 * out@.len() && out@.len() <= xs.len()
                && forall|i: int| 0 <= i < out@.len() ==> #[trigger] out@[i].eqv(&xs[i]),
        decreases events.len() - p,
    {
        proof {
            lemma_next_nontext_ge(ev, p as int);
        }
        let ghost j = out@.len() as int;
        proof {
            if ok {
                let pv = pieces_view(xs, tag@);
                if j < xs.len() {
                    assert(ev[p as int] == ev.subrange(pos as int, pos + pv.len())[2 * j]);
                    assert(ev[p + 1] == ev.subrange(pos as int, pos + pv.len())[2 * j + 1]);
                }
            }
        }
        match next_child(events, p) {
            Err(e) => return Err(e),
            Ok(Child::Close(e)) => {
                proof {
                    assert(balanced(ev, p as int, e - 1));
                    lemma_balanced_join(ev, pos as int, p as int, e - 1);
                    lemma_closed_by_end(ev, pos as int, e - 1);
                    if ok && j < xs.len() {
                        let a = xs[j].attributes_view();
                        if e - 1 > p {
                            assert(ev[p as int] is Text);
                        }
                    }
                    if ok {
                        assert(j == xs.len());
                        assert(e == p + 1);
                    }
                    assert forall|ys: Seq<Elevation>| #[trigger] segments_at(ev, pos as int, ys, tag@)
                        implies pieces_eqv(out@, ys) && e == pos + 2 * ys.len() + 1 by {
                        lemma_segments_unique(ev, pos as int, xs, ys, tag@);
                        assert forall|i: int| 0 <= i < out@.len() implies #[trigger] out@[i].eqv(&ys[i]) by {
                            assert(out@[i].eqv(&xs[i]));
                            assert(xs[i].eqv(&ys[i]));
                        }
                    }
                }
                return Ok((out, e));
            },
            Ok(Child::Open(k)) => {
                proof {
                    lemma_balanced_join(ev, pos as int, p as int, k as int);
                }
                let (name, child) = match start_at(events, k) {
                    Some(x) => x,
                    None => return Err(ParseError::UnexpectedEnd),
                };
                proof {
                    lemma_event_view(events@, k as int);
                    if ok {
                        assert(k == p);
                        if j < xs.len() {
                            let a = xs[j].attributes_view();
                        }
                        assert(name@ == tag@);
                        assert(first_rule(table, name@, 0) == Some(0int));
                    }
                }
                proof {
                    lemma_event_view(events@, k as int);
                    assert(ev[k as int] == (EventView::Start { name: name@, attributes: attrs_view(child@) }));
                    assert(table[0].0 == tag@);
                    assert(first_rule(table, name@, 1) is None);
                    if elem_end(ev, k + 1) is Some {
                        lemma_elem_end_bounds(ev, k + 1);
                    }
                }
                let end = match d.route(name.as_str()) {
                    Err(e) => return Err(e),
                    Ok(Some(0)) => match Elevation::from_events(events, k + 1, child) {
                        Ok((v, e)) => {
                            proof {
                                assert(pieces_views(out@.push(v)) =~= pieces_views(out@).push(v@));
                            }
                            out.push(v);
                            proof {
                                if ok {
                                    assert(attrs_view(child@) == xs[j].attributes_view());
                                    assert(out@[j].eqv(&xs[j]));
                                }
                            }
                            e
                        },
                        Err(x) => return Err(x),
                    },
                    Ok(_) => match skip_element(events, k + 1) {
                        Ok(e) => e,
                        Err(x) => return Err(x),
                    },
                };
                proof {
                    lemma_whole_element(ev, k as int, end as int);
                    lemma_balanced_join(ev, pos as int, k as int, end as int);
                }
                p = end;
            },
        }
    }
    Err(ParseError::UnexpectedEnd)
}

/// The `<elevationProfile>` of a road: its elevation pieces in document order.
#[derive(Debug, PartialEq)]
pub struct ElevationProfile {
    pub elevations: Vec<Elevation>,
}

impl ElevationProfile {
    /// Reads the profile element whose content starts at `pos`: its `<elevation>`
    /// pieces in document order, other children skipped.
    pub fn from_events(events: &Vec<Event>, pos: usize, _attributes: &Vec<Attribute>) -> (r: Result<(ElevationProfile, usize), ParseError>)
        requires
            pos <= events.len(),
        ensures
            match r {
                Ok((v, end)) => closes_at(events_view(events@), pos as int, end - 1) && v.wf(),
                Err(_) => true,
            },
            forall|x: ElevationProfile| #[trigger] segments_at(events_view(events@), pos as int, x.elevations@, "elevation"@)
                ==> (r matches Ok((v, end)) && v.eqv(&x) && end == pos + x.written().len() - 1),
            match pieces_walk(events_view(events@), pos as int, "elevation"@, seq![]) {
                Ok((v, e)) => r matches Ok((x, e2)) && pieces_views(x.elevations@) == v && e2 == e,
                Err(x) => r is Err && r->Err_0@ == x,
            },
    {
        proof {
            reveal_strlit("elevation");
            assert forall|x: ElevationProfile| #[trigger] segments_at(events_view(events@), pos as int, x.elevations@, "elevation"@)
                implies x.written().len() == pieces_view(x.elevations@, "elevation"@).len() + 2 by {}
            lemma_pieces_len_all("elevation"@);
        }
        match parse_segments(events, pos, "elevation") {
            Ok((elevations, end)) => Ok((ElevationProfile { elevations }, end)),
            Err(e) => Err(e),
        }
    }
}

/// The `<lateralProfile>` of a road: its superelevation pieces in document order.
#[derive(Debug, PartialEq)]
pub struct LateralProfile {
    pub superelevations: Vec<Elevation>,
}

impl LateralProfile {
    /// Reads the profile element whose content starts at `pos`: its `<superelevation>`
    /// pieces in document order, other children skipped.
    pub fn from_events(events: &Vec<Event>, pos: usize, _attributes: &Vec<Attribute>) -> (r: Result<(LateralProfile, usize), ParseError>)
        requires
            pos <= events.len(),
        ensures
            match r {
                Ok((v, end)) => closes_at(events_view(events@), pos as int, end - 1) && v.wf(),
                Err(_) => true,
            },
            forall|x: LateralProfile| #[trigger] segments_at(events_view(events@), pos as int, x.superelevations@, "superelevation"@)
                ==> (r matches Ok((v, end)) && v.eqv(&x) && end == pos + x.written().len() - 1),
            match pieces_walk(events_view(events@), pos as int, "superelevation"@, seq![]) {
                Ok((v, e)) => r matches Ok((x, e2)) && pieces_views(x.superelevations@) == v && e2 == e,
                Err(x) => r is Err && r->Err_0@ == x,
            },
    {
        proof {
            reveal_strlit("superelevation");
            assert forall|x: LateralProfile| #[trigger] segments_at(events_view(events@), pos as int, x.superelevations@, "superelevation"@)
                implies x.written().len() == pieces_view(x.superelevations@, "superelevation"@).len() + 2 by {}
            lemma_pieces_len_all("superelevation"@);
        }
        match parse_segments(events, pos, "superelevation") {
            Ok((superelevations, end)) => Ok((LateralProfile { superelevations }, end)),
            Err(e) => Err(e),
        }
    }
}

/// The events of a sequence of profile pieces, each written as `tag`.
pub open spec fn pieces_view(s: Seq<Elevation>, tag: Seq<char>) -> Seq<EventView>
    decreases s.len(),
{
    if s.len() == 0 {
        seq![]
    } else {
        pieces_view(s.drop_last(), tag) + s.last().written(tag)
    }
}

fn write_pieces(s: &Vec<Elevation>, tag: &str) -> (r: Vec<Event>)
    ensures
        events_view(r@) == pieces_view(s@, tag@),
{
    let mut out: Vec<Event> = Vec::new();
    let mut i: usize = 0;
    while i < s.len()
        invariant
            i <= s.len(),
            events_view(out@) == pieces_view(s@.subrange(0, i as int), tag@),
        decreases s.len() - i,
    {
        push_events(&mut out, s[i].to_events(tag));
        assert(s@.subrange(0, i + 1).drop_last() == s@.subrange(0, i as int));
        i = i + 1;
    }
    assert(s@.subrange(0, i as int) == s@);
    out
}

impl Elevation {
    /// The attributes written for the piece, in this order.
    pub open spec fn attributes_view(&self) -> Seq<(Seq<char>, Seq<char>)> {
        seq![("a"@, self.a@)] + seq![("b"@, self.b@)] + seq![("c"@, self.c@)] + seq![("d"@, self.d@)]
            + seq![("s"@, self.s@)]
    }

    /// The events written for the piece as element `tag`.
    pub open spec fn written(&self, tag: Seq<char>) -> Seq<EventView> {
        element_view(tag, self.attributes_view(), seq![])
    }

    /// The attributes of the piece, in declaration order.
    pub fn visit_attributes(&self) -> (r: Vec<Attribute>)
        ensures
            attrs_view(r@) == self.attributes_view(),
    {
        let mut out: Vec<Attribute> = Vec::new();
        push_attr(&mut out, "a", self.a.to_text());
        push_attr(&mut out, "b", self.b.to_text());
        push_attr(&mut out, "c", self.c.to_text());
        push_attr(&mut out, "d", self.d.to_text());
        push_attr(&mut out, "s", self.s.to_text());
        assert(attrs_view(out@) =~= self.attributes_view());
        out
    }

    /// The child elements of the piece: none.
    pub fn visit_children(&self) -> (r: Vec<Event>)
        ensures
            r@.len() == 0,
    {
        Vec::new()
    }

    /// The events of the piece as element `tag`.
    pub fn to_events(&self, tag: &str) -> (r: Vec<Event>)
        ensures
            events_view(r@) == self.written(tag@),
    {
        let c = self.visit_children();
        assert(events_view(c@) =~= seq![]);
        element(tag, self.visit_attributes(), c)
    }
}

impl ElevationProfile {
    pub open spec fn wf(&self) -> bool {
        forall|i: int| 0 <= i < self.elevations@.len() ==> #[trigger] self.elevations@[i].wf()
    }

    /// Structural equality of profiles.
    pub open spec fn eqv(&self, o: &ElevationProfile) -> bool {
        pieces_eqv(self.elevations@, o.elevations@)
    }

    pub open spec fn written(&self) -> Seq<EventView> {
        element_view("elevationProfile"@, seq![], pieces_view(self.elevations@, "elevation"@))
    }

    pub fn to_events(&self) -> (r: Vec<Event>)
        ensures
            events_view(r@) == self.written(),
    {
        let a: Vec<Attribute> = Vec::new();
        assert(attrs_view(a@) =~= seq![]);
        element("elevationProfile", a, write_pieces(&self.elevations, "elevation"))
    }
}

impl LateralProfile {
    pub open spec fn wf(&self) -> bool {
        forall|i: int| 0 <= i < self.superelevations@.len() ==> #[trigger] self.superelevations@[i].wf()
    }

    /// Structural equality of profiles.
    pub open spec fn eqv(&self, o: &LateralProfile) -> bool {
        pieces_eqv(self.superelevations@, o.superelevations@)
    }

    pub open spec fn written(&self) -> Seq<EventView> {
        element_view("lateralProfile"@, seq![], pieces_view(self.superelevations@, "superelevation"@))
    }

    pub fn to_events(&self) -> (r: Vec<Event>)
        ensures
            events_view(r@) == self.written(),
    {
        let a: Vec<Attribute> = Vec::new();
        assert(attrs_view(a@) =~= seq![]);
        element("lateralProfile", a, write_pieces(&self.superelevations, "superelevation"))
    }
}

} // verus!
