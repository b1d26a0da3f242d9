//! Building blocks of the writer: attribute lists and element event sequences.
use crate::markup::{attrs_view, events_view, Attribute, Event, EventView};
use vstd::prelude::*;

verus! {

/// The events of one element: its start, its content, its end.
pub open spec fn element_view(
    tag: Seq<char>,
    attrs: Seq<(Seq<char>, Seq<char>)>,
    children: Seq<EventView>,
) -> Seq<EventView> {
    seq![EventView::Start { name: tag, attributes: attrs }] + children + seq![EventView::End { name: tag }]
}

/// An attribute that is written only when present.
pub open spec fn opt_attr(name: Seq<char>, value: Option<Seq<char>>) -> Seq<(Seq<char>, Seq<char>)> {
    match value {
        Some(v) => seq![(name, v)],
        None => seq![],
    }
}

/// Appends one attribute.
pub fn push_attr(out: &mut Vec<Attribute>, name: &str, value: String)
    ensures
        attrs_view(final(out)@) == attrs_view(old(out)@).push((name@, value@)),
{
    let a = Attribute::new(name, value);
    out.push(a);
    assert(attrs_view(final(out)@) =~= attrs_view(old(out)@).push((name@, value@)));
}

/// Appends an attribute when a value is present.
pub fn push_opt_attr(out: &mut Vec<Attribute>, name: &str, value: Option<String>)
    ensures
        attrs_view(final(out)@) == attrs_view(old(out)@) + opt_attr(name@, match value {
            Some(v) => Some(v@),
            None => None,
        }),
{
    match value {
        Some(v) => {
            push_attr(out, name, v);
            assert(attrs_view(final(out)@) =~= attrs_view(old(out)@) + opt_attr(name@, Some(v@)));
        },
        None => {
            assert(attrs_view(final(out)@) =~= attrs_view(old(out)@) + opt_attr(name@, None));
        },
    }
}

/// Appends a sequence of events.
pub fn push_events(out: &mut Vec<Event>, more: Vec<Event>)
    ensures
        events_view(final(out)@) == events_view(old(out)@) + events_view(more@),
{
    let ghost m = more@;
    let mut more = more;
    out.append(&mut more);
    assert(events_view(final(out)@) =~= events_view(old(out)@) + events_view(m));
}

/// The events of one element with the given attributes and content.
pub fn element(tag: &str, attributes: Vec<Attribute>, children: Vec<Event>) -> (r: Vec<Event>)
    ensures
        events_view(r@) == element_view(tag@, attrs_view(attributes@), events_view(children@)),
{
    let ghost av = attrs_view(attributes@);
    let mut out: Vec<Event> = Vec::new();
    out.push(Event::Start { name: tag.to_owned(), attributes });
    assert(events_view(out@) =~= seq![EventView::Start { name: tag@, attributes: av }]);
    push_events(&mut out, children);
    let mut last: Vec<Event> = Vec::new();
    last.push(Event::End { name: tag.to_owned() });
    assert(events_view(last@) =~= seq![EventView::End { name: tag@ }]);
    push_events(&mut out, last);
    out
}

} // verus!
