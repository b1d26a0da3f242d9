//! What the writer emits is what the reader takes back.
use crate::markup::EventView;
use crate::document::{root_at, roads_view, Document};
use crate::entity::lemma_element_parts;
use vstd::prelude::*;

verus! {

/// Round trip: the events that `serialize` writes for a valid document are
/// read back by `parse` as a document structurally equal to it (same roads in
/// the same order, same attribute texts, canonical enumeration variants, same
/// links and profile pieces).
pub proof fn lemma_serialize_then_parse(d: Document)
    requires
        d.wf(),
    ensures
        root_at(d.written(), d),
{
    let ev = d.written();
    let rv = roads_view(d.roads@);
    assert(ev.subrange(0, rv.len() + 2int) =~= ev);
    lemma_element_parts(ev, 0, "OpenDRIVE"@, seq![], rv);
}

} // verus!
