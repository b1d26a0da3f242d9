//! Shared pieces of the entity model: optional values as views, access to
//! start events, and facts about windows of event sequences.
use crate::attributes::{lemma_lookup_empty, lemma_lookup_single, lookup};
use crate::dispatch::lemma_event_view;
use crate::enums::Token;
use crate::markup::{attrs_view, events_view, Attribute, Event, EventView};
use crate::number::Number;
use crate::text::copy_string;
use crate::writer::{element, element_view, opt_attr};
use vstd::prelude::*;

verus! {

/// The text that an optional string holds.
pub open spec fn opt_text(o: Option<String>) -> Option<Seq<char>> {
    match o {
        Some(s) => Some(s@),
        None => None,
    }
}

/// The text that an optional number holds.
pub open spec fn opt_number(o: Option<Number>) -> Option<Seq<char>> {
    match o {
        Some(n) => Some(n@),
        None => None,
    }
}

/// The name and attributes of the event at `k`, when it is a start event.
pub fn start_at(events: &Vec<Event>, k: usize) -> (r: Option<(&String, &Vec<Attribute>)>)
    requires
        k < events.len(),
    ensures
        events_view(events@)[k as int] is Start <==> r is Some,
        match r {
            Some((n, a)) => events@[k as int] == (Event::Start { name: *n, attributes: *a }),
            None => true,
        },
{
    proof {
        lemma_event_view(events@, k as int);
    }
    match &events[k] {
        Event::Start { name, attributes } => Some((name, attributes)),
        _ => None,
    }
}

/// The variant that an optional enumeration attribute names.
pub open spec fn opt_token<T: Token>(o: Option<Seq<char>>) -> Option<T> {
    match o {
        Some(v) => T::from_token(v),
        None => None,
    }
}

/// The token of an optional enumeration value.
pub open spec fn opt_token_text<T: Token>(o: Option<T>) -> Option<Seq<char>> {
    match o {
        Some(t) => Some(t.token()),
        None => None,
    }
}

/// Looking up in an attribute that is written only when present.
pub proof fn lemma_opt_attr(n: Seq<char>, v: Option<Seq<char>>)
    ensures
        forall|name: Seq<char>| #[trigger] lookup(opt_attr(n, v), name) == (if n == name {
            v
        } else {
            None
        }),
{
    match v {
        Some(x) => lemma_lookup_single(n, x),
        None => {
            assert(opt_attr(n, v) =~= Seq::<(Seq<char>, Seq<char>)>::empty());
            lemma_lookup_empty();
        },
    }
}

/// The events of an optional element.
pub open spec fn opt_events(o: Option<Seq<EventView>>) -> Seq<EventView> {
    match o {
        Some(e) => e,
        None => seq![],
    }
}

pub(crate) fn token_text<T: Token>(o: &Option<T>) -> (r: Option<String>)
    ensures
        opt_text(r) == opt_token_text(*o),
{
    match o {
        Some(t) => Some(t.as_str().to_owned()),
        None => None,
    }
}

pub(crate) fn number_text(o: &Option<Number>) -> (r: Option<String>)
    ensures
        opt_text(r) == opt_number(*o),
{
    match o {
        Some(n) => Some(n.to_text()),
        None => None,
    }
}

pub(crate) fn string_text(o: &Option<String>) -> (r: Option<String>)
    ensures
        opt_text(r) == opt_text(*o),
{
    match o {
        Some(n) => Some(copy_string(n)),
        None => None,
    }
}

/// The events of an element with no attributes and no content.
pub open spec fn empty_element(tag: Seq<char>) -> Seq<EventView> {
    element_view(tag, seq![], seq![])
}

pub(crate) fn write_empty(tag: &str) -> (r: Vec<Event>)
    ensures
        events_view(r@) == empty_element(tag@),
{
    let a: Vec<Attribute> = Vec::new();
    let c: Vec<Event> = Vec::new();
    assert(attrs_view(a@) =~= seq![]);
    assert(events_view(c@) =~= seq![]);
    element(tag, a, c)
}

/// The view of an optional number is the text of a number, when present.
pub open spec fn opt_number_wf(o: Option<Number>) -> bool {
    o is Some ==> o->0.wf()
}

/// The two halves of a concatenation.
pub proof fn lemma_concat_windows(x: Seq<EventView>, y: Seq<EventView>)
    ensures
        (x + y).subrange(0, x.len() as int) == x,
        (x + y).subrange(x.len() as int, (x.len() + y.len()) as int) == y,
{
    assert((x + y).subrange(0, x.len() as int) =~= x);
    assert((x + y).subrange(x.len() as int, (x.len() + y.len()) as int) =~= y);
}

/// A window of a window.
pub proof fn lemma_window(ev: Seq<EventView>, pos: int, s: Seq<EventView>, off: int, part: Seq<EventView>)
    requires
        0 <= pos,
        pos + s.len() <= ev.len(),
        ev.subrange(pos, pos + s.len()) == s,
        0 <= off,
        off + part.len() <= s.len(),
        s.subrange(off, off + part.len()) == part,
    ensures
        ev.subrange(pos + off, pos + off + part.len()) == part,
{
    assert forall|i: int| 0 <= i < part.len() implies ev[pos + off + i] == part[i] by {
        assert(ev.subrange(pos, pos + s.len())[off + i] == ev[pos + off + i]);
        assert(s.subrange(off, off + part.len())[i] == s[off + i]);
    }
    assert(ev.subrange(pos + off, pos + off + part.len()) =~= part);
}

/// The events of one element, seen from inside: start, content, end.
pub proof fn lemma_element_parts(ev: Seq<EventView>, at: int, tag: Seq<char>, attrs: Seq<(Seq<char>, Seq<char>)>, inner: Seq<EventView>)
    requires
        0 <= at,
        at + inner.len() + 2 <= ev.len(),
        ev.subrange(at, at + inner.len() + 2) == element_view(tag, attrs, inner),
    ensures
        ev[at] == (EventView::Start { name: tag, attributes: attrs }),
        ev.subrange(at + 1, at + 1 + inner.len()) == inner,
        ev[at + 1 + inner.len()] == (EventView::End { name: tag }),
{
    let w = element_view(tag, attrs, inner);
    assert(ev[at] == ev.subrange(at, at + inner.len() + 2)[0]);
    assert(ev[at + 1 + inner.len()] == ev.subrange(at, at + inner.len() + 2)[inner.len() + 1int]);
    assert(w.subrange(1, 1 + inner.len() as int) =~= inner);
    lemma_window(ev, at, w, 1, inner);
}

} // verus!
