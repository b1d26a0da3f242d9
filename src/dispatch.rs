//! Element dispatch: walking the children of an element, routing each by tag
//! to a rule of a small table, and skipping subtrees that no rule names.
use crate::error::{ParseError, ParseErrorView};
use crate::markup::{
    closes_at, delta, events_view, lemma_level_split, level, never_closes, Event, EventView,
};
use crate::text::str_eq;
use vstd::prelude::*;

verus! {

/// The depth relative to `i` stays at or above zero over `s[i..j]` and is zero at `j`:
/// the events between are whole elements and character data.
pub open spec fn balanced(s: Seq<EventView>, i: int, j: int) -> bool {
    &&& i <= j
    &&& level(s, i, j) == 0
    &&& forall|k: int| i <= k < j ==> #[trigger] level(s, i, k + 1) >= 0
}

/// Two balanced stretches in a row make one.
pub proof fn lemma_balanced_join(s: Seq<EventView>, i: int, j: int, k: int)
    requires
        balanced(s, i, j),
        balanced(s, j, k),
    ensures
        balanced(s, i, k),
{
    lemma_level_split(s, i, j, k);
    assert forall|m: int| i <= m < k implies #[trigger] level(s, i, m + 1) >= 0 by {
        if m >= j {
            lemma_level_split(s, i, j, m + 1);
            assert(level(s, j, m + 1) >= 0);
        }
    }
}

/// A start event at `k` followed by the element content that it opens, up to and
/// including its end event at `e - 1`, is balanced.
pub proof fn lemma_whole_element(s: Seq<EventView>, k: int, e: int)
    requires
        0 <= k < s.len(),
        s[k] is Start,
        closes_at(s, k + 1, e - 1),
    ensures
        balanced(s, k, e),
{
    lemma_level_split(s, k, k + 1, e);
    assert(level(s, k, k + 1) == 1) by {
        assert(level(s, k, k) == 0);
    }
    assert forall|m: int| k <= m < e implies #[trigger] level(s, k, m + 1) >= 0 by {
        lemma_level_split(s, k, k + 1, m + 1);
        if m > k && m < e - 1 {
            assert(level(s, k + 1, (m - 1) + 1) >= 0);
        }
        if m == e - 1 && m > k {
            assert(level(s, k + 1, e) == level(s, k + 1, e - 1) + delta_end());
        }
    }
}

/// The depth change of an end event.
pub open spec fn delta_end() -> int {
    -1
}

/// A balanced stretch followed by an end event closes the element.
pub proof fn lemma_closed_by_end(s: Seq<EventView>, i: int, j: int)
    requires
        balanced(s, i, j),
        0 <= i,
        j < s.len(),
        s[j] is End,
    ensures
        closes_at(s, i, j),
{
}

/// The view of the event at `k`.
pub proof fn lemma_event_view(events: Seq<Event>, k: int)
    requires
        0 <= k < events.len(),
    ensures
        events_view(events)[k] == events[k]@,
        events_view(events).len() == events.len(),
{
}

/// Position of the first event at or after `p` that is not character data
/// (`s.len()` when there is none).
pub open spec fn next_nontext(s: Seq<EventView>, p: int) -> int
    decreases s.len() - p,
{
    if p < 0 || p >= s.len() {
        s.len() as int
    } else if s[p] is Text {
        next_nontext(s, p + 1)
    } else {
        p
    }
}

/// `next_nontext` from a position, in terms of a run of character data.
pub proof fn lemma_next_nontext(s: Seq<EventView>, p: int, q: int)
    requires
        0 <= p <= q <= s.len(),
        all_text(s, p, q),
        q == s.len() || !(s[q] is Text),
    ensures
        next_nontext(s, p) == q,
    decreases q - p,
{
    if p < q {
        lemma_next_nontext(s, p + 1, q);
    }
}

/// Position just past the end event that closes the element whose content
/// starts at `i`, when there is one.
pub open spec fn elem_end(s: Seq<EventView>, i: int) -> Option<int> {
    if exists|j: int| closes_at(s, i, j) {
        Some((choose|j: int| closes_at(s, i, j)) + 1)
    } else {
        None
    }
}

/// An element closes at one place only.
pub proof fn lemma_closes_unique(s: Seq<EventView>, i: int, j1: int, j2: int)
    requires
        closes_at(s, i, j1),
        closes_at(s, i, j2),
    ensures
        j1 == j2,
{
    if j1 < j2 {
        assert(level(s, i, j1 + 1) == level(s, i, j1) + delta(s[j1]));
        assert(level(s, i, j1 + 1) >= 0);
    } else if j2 < j1 {
        assert(level(s, i, j2 + 1) == level(s, i, j2) + delta(s[j2]));
        assert(level(s, i, j2 + 1) >= 0);
    }
}

/// `elem_end` at a known closing position.
pub proof fn lemma_elem_end(s: Seq<EventView>, i: int, j: int)
    requires
        closes_at(s, i, j),
    ensures
        elem_end(s, i) == Some(j + 1),
{
    let c = choose|c: int| closes_at(s, i, c);
    lemma_closes_unique(s, i, j, c);
}

/// An element that never closes has no `elem_end`.
pub proof fn lemma_no_elem_end(s: Seq<EventView>, i: int)
    requires
        never_closes(s, i),
    ensures
        elem_end(s, i) is None,
{
    if exists|j: int| closes_at(s, i, j) {
        let j = choose|j: int| closes_at(s, i, j);
        assert(level(s, i, j + 1) == level(s, i, j) + delta(s[j]));
        assert(level(s, i, j + 1) >= 0);
    }
}

/// `next_nontext` never goes back.
pub proof fn lemma_next_nontext_ge(ev: Seq<EventView>, p: int)
    requires
        0 <= p <= ev.len(),
    ensures
        p <= next_nontext(ev, p) <= ev.len(),
    decreases ev.len() - p,
{
    if p < ev.len() && ev[p] is Text {
        lemma_next_nontext_ge(ev, p + 1);
    }
}

/// Where an element closes is inside the events.
pub proof fn lemma_elem_end_bounds(ev: Seq<EventView>, i: int)
    requires
        elem_end(ev, i) is Some,
    ensures
        i < elem_end(ev, i)->0 <= ev.len(),
{
    let j = choose|j: int| closes_at(ev, i, j);
}

/// What `expect_no_children` gives for an element whose content starts at `pos`:
/// the end position, or the diagnostic.
pub open spec fn no_children_outcome(s: Seq<EventView>, pos: int) -> Result<int, ParseErrorView> {
    let q = next_nontext(s, pos);
    if q >= s.len() {
        Err(ParseErrorView::UnexpectedEnd)
    } else {
        match s[q] {
            EventView::Start { name, .. } => Err(ParseErrorView::UnexpectedChildElement { tag: name }),
            _ => Ok(q + 1),
        }
    }
}

/// Consumes the rest of an element whose content starts at `pos`, children
/// included, and returns the position just past its end event.
pub fn skip_element(events: &Vec<Event>, pos: usize) -> (r: Result<usize, ParseError>)
    requires
        pos <= events.len(),
    ensures
        match r {
            Ok(end) => closes_at(events_view(events@), pos as int, end - 1),
            Err(e) => never_closes(events_view(events@), pos as int) && e@ == ParseErrorView::UnexpectedEnd,
        },
        match elem_end(events_view(events@), pos as int) {
            Some(e) => r matches Ok(x) && x == e,
            None => r is Err,
        },
{
    let ghost ev = events_view(events@);
    let mut depth: usize = 0;
    let mut k: usize = pos;
    while k < events.len()
        invariant
            ev == events_view(events@),
            ev.len() == events.len(),
            pos <= k <= events.len(),
            depth <= k - pos,
            depth as int == level(ev, pos as int, k as int),
            forall|m: int| pos <= m < k ==> #[trigger] level(ev, pos as int, m + 1) >= 0,
        decreases events.len() - k,
    {
        proof {
            lemma_event_view(events@, k as int);
        }
        match &events[k] {
            Event::Start { .. } => {
                depth = depth + 1;
            },
            Event::End { .. } => {
                if depth == 0 {
                    proof {
                        lemma_elem_end(ev, pos as int, k as int);
                    }
                    return Ok(k + 1);
                }
                depth = depth - 1;
            },
            Event::Text { .. } => {},
        }
        k = k + 1;
    }
    proof {
        lemma_no_elem_end(ev, pos as int);
    }
    Err(ParseError::UnexpectedEnd)
}

/// The next thing inside an element, character data skipped.
pub enum Child {
    /// A child element opens with the start event at this position.
    Open(usize),
    /// The element closes; the position is just past its end event.
    Close(usize),
}

/// The events `s[i..j]` are all character data.
pub open spec fn all_text(s: Seq<EventView>, i: int, j: int) -> bool {
    forall|m: int| i <= m < j ==> #[trigger] s[m] is Text
}

proof fn lemma_text_balanced(s: Seq<EventView>, i: int, j: int)
    requires
        i <= j <= s.len(),
        0 <= i,
        all_text(s, i, j),
    ensures
        balanced(s, i, j),
    decreases j - i,
{
    if j > i {
        lemma_text_balanced(s, i, j - 1);
        assert(s[j - 1] is Text);
    }
}

/// Skips character data from `pos` and reports the next child element or the
/// end of the enclosing element.
pub fn next_child(events: &Vec<Event>, pos: usize) -> (r: Result<Child, ParseError>)
    requires
        pos <= events.len(),
    ensures
        match r {
            Ok(Child::Open(k)) => pos <= k < events.len() && events_view(events@)[k as int] is Start
                && all_text(events_view(events@), pos as int, k as int)
                && balanced(events_view(events@), pos as int, k as int),
            Ok(Child::Close(e)) => pos < e <= events.len() && events_view(events@)[e - 1] is End
                && all_text(events_view(events@), pos as int, e - 1)
                && closes_at(events_view(events@), pos as int, e - 1),
            Err(e) => all_text(events_view(events@), pos as int, events.len() as int)
                && e@ == ParseErrorView::UnexpectedEnd,
        },
        ({
            let q = next_nontext(events_view(events@), pos as int);
            match r {
                Ok(Child::Open(k)) => k == q,
                Ok(Child::Close(e)) => e == q + 1,
                Err(_) => q == events.len(),
            }
        }),
{
    let ghost ev = events_view(events@);
    let mut k: usize = pos;
    while k < events.len()
        invariant
            ev == events_view(events@),
            ev.len() == events.len(),
            pos <= k <= events.len(),
            all_text(ev, pos as int, k as int),
        decreases events.len() - k,
    {
        proof {
            lemma_event_view(events@, k as int);
        }
        match &events[k] {
            Event::Start { .. } => {
                proof {
                    lemma_text_balanced(ev, pos as int, k as int);
                    lemma_next_nontext(ev, pos as int, k as int);
                }
                return Ok(Child::Open(k));
            },
            Event::End { .. } => {
                proof {
                    lemma_text_balanced(ev, pos as int, k as int);
                    lemma_next_nontext(ev, pos as int, k as int);
                }
                return Ok(Child::Close(k + 1));
            },
            Event::Text { .. } => {},
        }
        k = k + 1;
    }
    proof {
        lemma_next_nontext(ev, pos as int, events.len() as int);
    }
    Err(ParseError::UnexpectedEnd)
}

/// Asserts that the element whose content starts at `pos` has no child element,
/// and returns the position just past its end event.
pub fn expect_no_children(events: &Vec<Event>, pos: usize) -> (r: Result<usize, ParseError>)
    requires
        pos <= events.len(),
    ensures
        match r {
            Ok(end) => closes_at(events_view(events@), pos as int, end - 1)
                && all_text(events_view(events@), pos as int, end - 1),
            Err(e) => match e@ {
                ParseErrorView::UnexpectedEnd => all_text(events_view(events@), pos as int, events.len() as int),
                ParseErrorView::UnexpectedChildElement { tag } => exists|k: int|
                    pos <= k < events.len() && all_text(events_view(events@), pos as int, k)
                    && (#[trigger] events_view(events@)[k] matches EventView::Start { name, .. } && name == tag),
                _ => false,
            },
        },
        match no_children_outcome(events_view(events@), pos as int) {
            Ok(e) => r matches Ok(x) && x == e,
            Err(x) => r is Err && r->Err_0@ == x,
        },
{
    match next_child(events, pos) {
        Ok(Child::Close(e)) => Ok(e),
        Ok(Child::Open(k)) => {
            proof {
                lemma_event_view(events@, k as int);
            }
            match &events[k] {
                Event::Start { name, .. } => Err(ParseError::UnexpectedChildElement { tag: name.clone() }),
                _ => Err(ParseError::UnexpectedEnd),
            }
        },
        Err(e) => Err(e),
    }
}

/// How often a child element may appear.
#[derive(Debug, Clone, Copy, PartialEq, Eq, Structural)]
pub enum Cardinality {
    /// Zero or one time.
    Optional,
    /// Exactly once.
    Required,
    /// Any number of times.
    Many,
}

/// One entry of a dispatch table: a child tag and how often it may appear.
pub struct ChildRule {
    pub tag: &'static str,
    pub cardinality: Cardinality,
}

/// The table's entries as mathematical values.
pub open spec fn rules_view(rules: Seq<ChildRule>) -> Seq<(Seq<char>, Cardinality)> {
    rules.map_values(|r: ChildRule| (r.tag@, r.cardinality))
}

/// Index of the first rule at or after `i` that names `tag`.
pub open spec fn first_rule(rules: Seq<(Seq<char>, Cardinality)>, tag: Seq<char>, i: int) -> Option<int>
    decreases rules.len() - i,
{
    if i < 0 || i >= rules.len() {
        None
    } else if rules[i].0 == tag {
        Some(i)
    } else {
        first_rule(rules, tag, i + 1)
    }
}

/// A dispatch table with the record of which rules have fired.
pub struct Dispatch {
    pub rules: Vec<ChildRule>,
    pub seen: Vec<bool>,
}

impl Dispatch {
    pub open spec fn wf(&self) -> bool {
        self.seen@.len() == self.rules@.len()
    }

    pub open spec fn table(&self) -> Seq<(Seq<char>, Cardinality)> {
        rules_view(self.rules@)
    }

    /// A table in which no rule has fired yet.
    pub fn new(rules: Vec<ChildRule>) -> (r: Dispatch)
        ensures
            r.wf(),
            r.rules@ == rules@,
            forall|i: int| 0 <= i < r.seen@.len() ==> !#[trigger] r.seen@[i],
    {
        let mut seen: Vec<bool> = Vec::new();
        let mut i: usize = 0;
        while i < rules.len()
            invariant
                i <= rules.len(),
                seen@.len() == i,
                forall|j: int| 0 <= j < i ==> !#[trigger] seen@[j],
            decreases rules.len() - i,
        {
            seen.push(false);
            i = i + 1;
        }
        Dispatch { rules, seen }
    }

    /// Routes a child tag: `Some(i)` for the first rule that names it, `None`
    /// for a tag that no rule names (its subtree is then to be skipped). A
    /// rule that is not `Many` and has fired before gives `DuplicateElement`.
    pub fn route(&mut self, tag: &str) -> (r: Result<Option<usize>, ParseError>)
        requires
            old(self).wf(),
        ensures
            final(self).wf(),
            final(self).rules@ == old(self).rules@,
            match first_rule(old(self).table(), tag@, 0) {
                None => r matches Ok(None) && final(self).seen@ == old(self).seen@,
                Some(i) => if old(self).seen@[i] && old(self).table()[i].1 != Cardinality::Many {
                    r is Err && r->Err_0@ == (ParseErrorView::DuplicateElement { tag: tag@ })
                        && final(self).seen@ == old(self).seen@
                } else {
                    r == Ok::<Option<usize>, ParseError>(Some(i as usize))
                        && final(self).seen@ == old(self).seen@.update(i, true)
                },
            },
    {
        let ghost t = self.table();
        let mut i: usize = 0;
        while i < self.rules.len()
            invariant
                i <= self.rules.len(),
                self.wf(),
                t == self.table(),
                self.rules@ == old(self).rules@,
                self.seen@ == old(self).seen@,
                first_rule(t, tag@, 0) == first_rule(t, tag@, i as int),
            decreases self.rules.len() - i,
        {
            if str_eq(self.rules[i].tag, tag) {
                if self.seen[i] && self.rules[i].cardinality != Cardinality::Many {
                    return Err(ParseError::DuplicateElement { tag: tag.to_owned() });
                }
                self.seen.set(i, true);
                return Ok(Some(i));
            }
            i = i + 1;
        }
        Ok(None)
    }

    /// After the enclosing element closed: `MissingElement` for the first
    /// `Required` rule that never fired.
    pub fn finish(&self) -> (r: Result<(), ParseError>)
        requires
            self.wf(),
        ensures
            r is Ok <==> forall|i: int|
                0 <= i < self.seen@.len() && self.table()[i].1 == Cardinality::Required
                    ==> #[trigger] self.seen@[i],
            r is Err ==> exists|i: int|
                0 <= i < self.seen@.len() && self.table()[i].1 == Cardinality::Required
                    && !#[trigger] self.seen@[i]
                    && r->Err_0@ == (ParseErrorView::MissingElement { tag: self.table()[i].0 })
                    && forall|j: int| 0 <= j < i && self.table()[j].1 == Cardinality::Required
                        ==> self.seen@[j],
    {
        let mut i: usize = 0;
        while i < self.rules.len()
            invariant
                i <= self.rules.len(),
                self.wf(),
                forall|j: int| 0 <= j < i && self.table()[j].1 == Cardinality::Required
                    ==> #[trigger] self.seen@[j],
            decreases self.rules.len() - i,
        {
            if self.rules[i].cardinality == Cardinality::Required && !self.seen[i] {
                return Err(ParseError::MissingElement { tag: self.rules[i].tag.to_owned() });
            }
            i = i + 1;
        }
        Ok(())
    }
}

} // verus!
