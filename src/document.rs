//! Whole documents: the root element, reading and writing.
use crate::dispatch::{
    all_text, balanced, first_rule, lemma_balanced_join, lemma_closed_by_end, lemma_event_view,
    lemma_whole_element, next_child, skip_element, Cardinality, Child, ChildRule, Dispatch,
};
use crate::entity::{lemma_element_parts, lemma_window, start_at};
use crate::error::{ParseError, ParseErrorView};
use crate::markup::{attrs_view, closes_at, events_view, Attribute, Event, EventView};
use crate::road::{Road, lemma_eqv_trans, lemma_tag_lengths, road_at};
use crate::writer::{element, element_view, push_events};
use vstd::prelude::*;

verus! {

/// A whole document: its roads in document order.
#[derive(Debug, PartialEq)]
pub struct Document {
    pub roads: Vec<Road>,
}

/// The events from `pos` on are the written roads `xs`, followed by an end event.
pub open spec fn docs_at(ev: Seq<EventView>, pos: int, xs: Seq<Road>) -> bool {
    &&& 0 <= pos
    &&& pos + roads_view(xs).len() < ev.len()
    &&& ev.subrange(pos, pos + roads_view(xs).len()) == roads_view(xs)
    &&& ev[pos + roads_view(xs).len()] is End
    &&& forall|i: int| 0 <= i < xs.len() ==> #[trigger] xs[i].wf()
}

/// Pointwise structural equality of road sequences.
pub open spec fn roads_eqv(a: Seq<Road>, b: Seq<Road>) -> bool {
    a.len() == b.len() && forall|i: int| 0 <= i < a.len() ==> #[trigger] a[i].eqv(&b[i])
}

/// The events written for the first roads are a prefix of those written for all.
pub proof fn lemma_roads_prefix(xs: Seq<Road>, j: int)
    requires
        0 <= j <= xs.len(),
    ensures
        roads_view(xs.subrange(0, j)).len() <= roads_view(xs).len(),
        roads_view(xs).subrange(0, roads_view(xs.subrange(0, j)).len() as int) == roads_view(xs.subrange(0, j)),
    decreases xs.len() - j,
{
    if j == xs.len() {
        assert(xs.subrange(0, j) == xs);
        assert(roads_view(xs).subrange(0, roads_view(xs).len() as int) =~= roads_view(xs));
    } else {
        lemma_roads_prefix(xs, j + 1);
        let a = roads_view(xs.subrange(0, j));
        let b = roads_view(xs.subrange(0, j + 1));
        assert(xs.subrange(0, j + 1).drop_last() == xs.subrange(0, j));
        assert(b == a + xs[j].written());
        assert(b.subrange(0, a.len() as int) =~= a);
        assert(roads_view(xs).subrange(0, a.len() as int) =~= b.subrange(0, a.len() as int));
    }
}

/// Where the written road `j` stands.
pub proof fn lemma_road_in_doc(ev: Seq<EventView>, pos: int, xs: Seq<Road>, j: int)
    requires
        docs_at(ev, pos, xs),
        0 <= j < xs.len(),
    ensures
        ({
            let off = pos + roads_view(xs.subrange(0, j)).len();
            &&& roads_view(xs.subrange(0, j + 1)).len() == roads_view(xs.subrange(0, j)).len() + xs[j].children_view().len() + 2
            &&& ev[off] == (EventView::Start { name: "road"@, attributes: xs[j].attributes_view() })
            &&& road_at(ev, off + 1, xs[j].attributes_view(), xs[j])
        }),
{
    lemma_roads_prefix(xs, j + 1);
    let a = roads_view(xs.subrange(0, j));
    let b = roads_view(xs.subrange(0, j + 1));
    let w = xs[j].written();
    let rv = roads_view(xs);
    assert(xs.subrange(0, j + 1).drop_last() == xs.subrange(0, j));
    assert(b == a + w);
    lemma_window(ev, pos, rv, 0, b);
    assert(b.subrange(a.len() as int, (a.len() + w.len()) as int) =~= w);
    lemma_window(ev, pos, b, a.len() as int, w);
    let off = pos + a.len();
    lemma_element_parts(ev, off, "road"@, xs[j].attributes_view(), xs[j].children_view());
}

/// The events determine, road by road, the roads that they were written from.
pub proof fn lemma_docs_unique_upto(ev: Seq<EventView>, pos: int, xs: Seq<Road>, ys: Seq<Road>, j: int)
    requires
        docs_at(ev, pos, xs),
        docs_at(ev, pos, ys),
        0 <= j <= xs.len(),
        j <= ys.len(),
    ensures
        roads_view(xs.subrange(0, j)).len() == roads_view(ys.subrange(0, j)).len(),
        forall|i: int| 0 <= i < j ==> #[trigger] xs[i].eqv(&ys[i]),
    decreases j,
{
    if j > 0 {
        lemma_docs_unique_upto(ev, pos, xs, ys, j - 1);
        lemma_road_in_doc(ev, pos, xs, j - 1);
        lemma_road_in_doc(ev, pos, ys, j - 1);
        let off = pos + roads_view(xs.subrange(0, j - 1)).len();
        Road::lemma_unique(ev, off + 1, xs[j - 1].attributes_view(), xs[j - 1], ys[j - 1]);
    }
}

/// The events determine the roads that they were written from.
pub proof fn lemma_docs_unique(ev: Seq<EventView>, pos: int, xs: Seq<Road>, ys: Seq<Road>)
    requires
        docs_at(ev, pos, xs),
        docs_at(ev, pos, ys),
    ensures
        roads_eqv(xs, ys),
{
    lemma_tag_lengths();
    if xs.len() < ys.len() {
        let j = xs.len() as int;
        lemma_docs_unique_upto(ev, pos, xs, ys, j);
        lemma_road_in_doc(ev, pos, ys, j);
        assert(xs.subrange(0, j) == xs);
    } else if ys.len() < xs.len() {
        let j = ys.len() as int;
        lemma_docs_unique_upto(ev, pos, xs, ys, j);
        lemma_road_in_doc(ev, pos, xs, j);
        assert(ys.subrange(0, j) == ys);
    } else {
        lemma_docs_unique_upto(ev, pos, xs, ys, xs.len() as int);
    }
}

impl Document {
    pub open spec fn wf(&self) -> bool {
        forall|i: int| 0 <= i < self.roads@.len() ==> #[trigger] self.roads@[i].wf()
    }

    /// Structural equality of documents.
    pub open spec fn eqv(&self, o: &Document) -> bool {
        roads_eqv(self.roads@, o.roads@)
    }

    /// Reads the content of the root element: every `<road>`, other children skipped.
    pub fn from_events(events: &Vec<Event>, pos: usize, _attributes: &Vec<Attribute>) -> (r: Result<(Document, usize), ParseError>)
        requires
            pos <= events.len(),
        ensures
            match r {
                Ok((v, end)) => closes_at(events_view(events@), pos as int, end - 1) && v.wf(),
                Err(_) => true,
            },
            forall|x: Document| #[trigger] docs_at(events_view(events@), pos as int, x.roads@)
                ==> (r matches Ok((v, end)) && v.eqv(&x)),
    {
        let ghost ev = events_view(events@);
        let ghost xs = choose|xs: Seq<Road>| docs_at(ev, pos as int, xs);
        let ghost ok = docs_at(ev, pos as int, xs);
        proof {
            assert forall|ys: Seq<Road>| #[trigger] docs_at(ev, pos as int, ys) implies ok by {}
        }
        let mut d = Dispatch::new(vec![ChildRule { tag: "road", cardinality: Cardinality::Many }]);
        let ghost table = d.table();
        assert(table =~= seq![("road"@, Cardinality::Many)]);
        let mut roads: Vec<Road> = Vec::new();
        let mut p: usize = pos;
        while p < events.len()
            invariant
                pos <= p <= events.len(),
                ev == events_view(events@),
                ev.len() == events.len(),
                balanced(ev, pos as int, p as int),
                d.wf(),
                d.table() == table,
                table == seq![("road"@, Cardinality::Many)],
                forall|i: int| 0 <= i < roads@.len() ==> #[trigger] roads@[i].wf(),
                ok == docs_at(ev, pos as int, xs),
                forall|ys: Seq<Road>| #[trigger] docs_at(ev, pos as int, ys) ==> ok,
                ok ==> p == pos + roads_view(xs.subrange(0, roads@.len() as int)).len() && roads@.len() <= xs.len()
                    && forall|i: int| 0 <= i < roads@.len() ==> #[trigger] roads@[i].eqv(&xs[i]),
            decreases events.len() - p,
        {
            let ghost j = roads@.len() as int;
            proof {
                if ok {
                    if j < xs.len() {
                        lemma_road_in_doc(ev, pos as int, xs, j);
                    } else {
                        assert(xs.subrange(0, j) == xs);
                    }
                }
            }
            match next_child(events, p) {
                Err(e) => return Err(e),
                Ok(Child::Close(e)) => {
                    proof {
                        assert(balanced(ev, p as int, e - 1));
                        lemma_balanced_join(ev, pos as int, p as int, e - 1);
                        lemma_closed_by_end(ev, pos as int, e - 1);
                        if ok && j < xs.len() && e - 1 > p {
                            assert(ev[p as int] is Text);
                        }
                    }
                    let doc = Document { roads };
                    proof {
                        assert forall|x: Document| #[trigger] docs_at(ev, pos as int, x.roads@) implies doc.eqv(&x) by {
                            lemma_docs_unique(ev, pos as int, xs, x.roads@);
                            assert forall|i: int| 0 <= i < doc.roads@.len() implies #[trigger] doc.roads@[i].eqv(&x.roads@[i]) by {
                                lemma_eqv_trans(doc.roads@[i], xs[i], x.roads@[i]);
                            }
                        }
                    }
                    return Ok((doc, e));
                },
                Ok(Child::Open(k)) => {
                    proof {
                        lemma_balanced_join(ev, pos as int, p as int, k as int);
                    }
                    let (name, child) = match start_at(events, k) {
                        Some(x) => x,
                        None => return Err(ParseError::UnexpectedEnd),
                    };
                    proof {
                        lemma_event_view(events@, k as int);
                        if ok && k > p {
                            assert(ev[p as int] is Text);
                        }
                        if ok {
                            assert(k == p);
                            assert(name@ == "road"@);
                            assert(first_rule(table, name@, 0) == Some(0int));
                        }
                    }
                    let end = match d.route(name.as_str()) {
                        Err(e) => return Err(e),
                        Ok(Some(0)) => match Road::from_events(events, k + 1, child) {
                            Ok((v, e)) => {
                                roads.push(v);
                                proof {
                                    if ok {
                                        assert(attrs_view(child@) == xs[j].attributes_view());
                                        assert(roads@[j].eqv(&xs[j]));
                                        assert(xs.subrange(0, j + 1).drop_last() == xs.subrange(0, j));
                                    }
                                }
                                e
                            },
                            Err(x) => return Err(x),
                        },
                        Ok(_) => match skip_element(events, k + 1) {
                            Ok(e) => e,
                            Err(x) => return Err(x),
                        },
                    };
                    proof {
                        lemma_whole_element(ev, k as int, end as int);
                        lemma_balanced_join(ev, pos as int, k as int, end as int);
                    }
                    p = end;
                },
            }
        }
        proof {
            if ok {
                lemma_roads_prefix(xs, roads@.len() as int);
            }
        }
        Err(ParseError::UnexpectedEnd)
    }
}

/// The events of a sequence of roads.
pub open spec fn roads_view(s: Seq<Road>) -> Seq<EventView>
    decreases s.len(),
{
    if s.len() == 0 {
        seq![]
    } else {
        roads_view(s.drop_last()) + s.last().written()
    }
}

impl Document {
    pub open spec fn written(&self) -> Seq<EventView> {
        element_view("OpenDRIVE"@, seq![], roads_view(self.roads@))
    }
}

/// The events are a root `<OpenDRIVE>` start event, then the written roads of
/// the valid document `x`, then an end event.
pub open spec fn root_at(ev: Seq<EventView>, x: Document) -> bool {
    &&& x.wf()
    &&& ev.len() > 0
    &&& ev[0] == (EventView::Start { name: "OpenDRIVE"@, attributes: seq![] })
    &&& docs_at(ev, 1, x.roads@)
}

/// Writes a document as markup events: the root `<OpenDRIVE>` element holding
/// each road in order.
pub fn serialize(doc: &Document) -> (r: Vec<Event>)
    ensures
        events_view(r@) == doc.written(),
{
    let mut c: Vec<Event> = Vec::new();
    let mut i: usize = 0;
    while i < doc.roads.len()
        invariant
            i <= doc.roads.len(),
            events_view(c@) == roads_view(doc.roads@.subrange(0, i as int)),
        decreases doc.roads.len() - i,
    {
        push_events(&mut c, doc.roads[i].to_events());
        assert(doc.roads@.subrange(0, i + 1).drop_last() == doc.roads@.subrange(0, i as int));
        i = i + 1;
    }
    assert(doc.roads@.subrange(0, i as int) == doc.roads@);
    let a: Vec<Attribute> = Vec::new();
    assert(attrs_view(a@) =~= seq![]);
    element("OpenDRIVE", a, c)
}

/// Reads a document from markup events: the first element must be the root
/// `<OpenDRIVE>`; character data before it is skipped. The first error aborts
/// the read.
pub fn parse(events: &Vec<Event>) -> (r: Result<Document, ParseError>)
    ensures
        forall|x: Document| #[trigger] root_at(events_view(events@), x) ==> (r matches Ok(v) && v.eqv(&x)),
        r is Ok ==> r->Ok_0.wf(),
        all_text(events_view(events@), 0, events.len() as int) ==> r is Err && r->Err_0@ == ParseErrorView::UnexpectedEnd,
        forall|k: int| 0 <= k < events.len() && all_text(events_view(events@), 0, k)
            && (#[trigger] events_view(events@)[k] matches EventView::Start { name, .. } && name != "OpenDRIVE"@)
            ==> r is Err && r->Err_0@ == (ParseErrorView::MissingElement { tag: "OpenDRIVE"@ }),
{
    proof {
        reveal_strlit("OpenDRIVE");
    }
    match next_child(events, 0) {
        Ok(Child::Open(k)) => {
            let (name, attributes) = match start_at(events, k) {
                Some(x) => x,
                None => return Err(ParseError::UnexpectedEnd),
            };
            proof {
                lemma_event_view(events@, k as int);
                let ev = events_view(events@);
                assert forall|j: int| 0 <= j < events.len() && all_text(ev, 0, j) && #[trigger] ev[j] is Start implies j == k by {
                    if j < k {
                        assert(ev[j] is Text);
                    } else if k < j {
                        assert(ev[k as int] is Text);
                    }
                }
            }
            if !crate::text::str_eq(name.as_str(), "OpenDRIVE") {
                return Err(ParseError::MissingElement { tag: "OpenDRIVE".to_owned() });
            }
            proof {
                lemma_event_view(events@, 0);
            }
            match Document::from_events(events, k + 1, attributes) {
                Ok((d, _)) => Ok(d),
                Err(e) => Err(e),
            }
        },
        Ok(Child::Close(e)) => {
            proof {
                let ev = events_view(events@);
                assert(!all_text(ev, 0, events.len() as int)) by {
                    assert(!(ev[e - 1] is Text));
                }
                assert forall|j: int| 0 <= j < events.len() && all_text(ev, 0, j) implies !(#[trigger] ev[j] is Start) by {
                    if j < e - 1 {
                        assert(ev[j] is Text);
                    } else if e - 1 < j {
                        assert(ev[e - 1] is Text);
                    }
                }
            }
            Err(ParseError::UnexpectedEnd)
        },
        Err(e) => Err(e),
    }
}

} // verus!
