//! The markup event model: the flat stream that the reader consumes and the
//! writer produces.
use vstd::prelude::*;

verus! {

/// One `name="value"` pair of a start tag.
#[derive(Debug, PartialEq)]
pub struct Attribute {
    pub name: String,
    pub value: String,
}

impl View for Attribute {
    type V = (Seq<char>, Seq<char>);

    open spec fn view(&self) -> (Seq<char>, Seq<char>) {
        (self.name@, self.value@)
    }
}

impl Attribute {
    /// An attribute with the given name and value.
    pub fn new(name: &str, value: String) -> (r: Attribute)
        ensures
            r@ == (name@, value@),
    {
        Attribute { name: name.to_owned(), value }
    }
}

/// A markup event.
#[derive(Debug, PartialEq)]
pub enum Event {
    /// A start tag with its attributes in document order.
    Start { name: String, attributes: Vec<Attribute> },
    /// An end tag.
    End { name: String },
    /// Character data between tags.
    Text { text: String },
}

/// What an event holds, as mathematical values.
pub enum EventView {
    Start { name: Seq<char>, attributes: Seq<(Seq<char>, Seq<char>)> },
    End { name: Seq<char> },
    Text { text: Seq<char> },
}

/// The views of a list of attributes.
pub open spec fn attrs_view(a: Seq<Attribute>) -> Seq<(Seq<char>, Seq<char>)> {
    a.map_values(|x: Attribute| x@)
}

impl View for Event {
    type V = EventView;

    open spec fn view(&self) -> EventView {
        match self {
            Event::Start { name, attributes } => EventView::Start {
                name: name@,
                attributes: attrs_view(attributes@),
            },
            Event::End { name } => EventView::End { name: name@ },
            Event::Text { text } => EventView::Text { text: text@ },
        }
    }
}

/// The views of a list of events.
pub open spec fn events_view(e: Seq<Event>) -> Seq<EventView> {
    e.map_values(|x: Event| x@)
}

/// How an event changes the nesting depth: a start opens, an end closes.
pub open spec fn delta(e: EventView) -> int {
    match e {
        EventView::Start { .. } => 1,
        EventView::End { .. } => -1,
        EventView::Text { .. } => 0,
    }
}

/// Nesting depth reached after the events `s[i..j]`, relative to position `i`.
pub open spec fn level(s: Seq<EventView>, i: int, j: int) -> int
    decreases j - i,
{
    if j <= i {
        0
    } else {
        level(s, i, j - 1) + delta(s[j - 1])
    }
}

/// `s[j]` is the end event that closes the element whose content starts at `i`:
/// the depth never drops below zero before it, and drops below zero at it.
pub open spec fn closes_at(s: Seq<EventView>, i: int, j: int) -> bool {
    &&& 0 <= i <= j < s.len()
    &&& s[j] is End
    &&& level(s, i, j) == 0
    &&& forall|k: int| i <= k < j ==> #[trigger] level(s, i, k + 1) >= 0
}

/// No event at or after `i` closes the element whose content starts at `i`.
pub open spec fn never_closes(s: Seq<EventView>, i: int) -> bool {
    forall|k: int| i <= k < s.len() ==> #[trigger] level(s, i, k + 1) >= 0
}

/// Depth is additive over adjacent ranges.
pub proof fn lemma_level_split(s: Seq<EventView>, i: int, k: int, j: int)
    requires
        i <= k <= j,
    ensures
        level(s, i, j) == level(s, i, k) + level(s, k, j),
    decreases j - k,
{
    if j > k {
        lemma_level_split(s, i, k, j - 1);
    }
}

} // verus!
