//! Object details that hang off road objects.
use crate::attributes::{
    first_error, lookup, optional_string, required_token, required_token_error,
};
use crate::dispatch::skip_element;
use crate::enums::{Access, Token};
use crate::error::{ParseError, ParseErrorView};
use crate::markup::{
    attrs_view, closes_at, delta, events_view, level, never_closes, Attribute, Event,
};
use crate::entity::opt_text;
use crate::text::copy_string;
use crate::writer::{opt_attr, push_attr, push_opt_attr};
use vstd::prelude::*;

verus! {

/// Details of a parking space, given on an `<object>` element.
#[derive(Debug, PartialEq)]
pub struct ParkingSpace {
    /// Who may park there. Spaces for `women` and `handicapped` are for cars.
    pub access: Access,
    /// Free text, depending on application.
    pub restrictions: Option<String>,
}

impl ParkingSpace {
    /// The attributes written for the space, present ones only, in this order.
    pub open spec fn attributes_view(&self) -> Seq<(Seq<char>, Seq<char>)> {
        seq![("access"@, self.access.token())] + opt_attr("restrictions"@, opt_text(self.restrictions))
    }

    /// Reads a `<parkingSpace>` element; children are skipped.
    pub fn from_events(events: &Vec<Event>, pos: usize, attributes: &Vec<Attribute>) -> (r: Result<(ParkingSpace, usize), ParseError>)
        requires
            pos <= events.len(),
        ensures
            match r {
                Ok((v, end)) => {
                    let av = attrs_view(attributes@);
                    &&& closes_at(events_view(events@), pos as int, end - 1)
                    &&& lookup(av, "access"@) is Some
                    &&& Access::from_token(lookup(av, "access"@)->0) == Some(v.access)
                    &&& opt_text(v.restrictions) == lookup(av, "restrictions"@)
                },
                Err(_) => true,
            },
            ({
                let checks = seq![
                    required_token_error::<Access>(attrs_view(attributes@), "access"@),
                    if never_closes(events_view(events@), pos as int) { Some(ParseErrorView::UnexpectedEnd) } else { None },
                ];
                match first_error(checks) {
                    None => r is Ok,
                    Some(e) => r is Err && r->Err_0@ == e,
                }
            }),
    {
        proof {
            reveal_with_fuel(first_error, 3);
        }
        let access = match required_token::<Access>(attributes, "access") {
            Ok(v) => v,
            Err(e) => return Err(e),
        };
        let restrictions = optional_string(attributes, "restrictions");
        match skip_element(events, pos) {
            Ok(end) => {
                proof {
                    let ev = events_view(events@);
                    let k = end - 1;
                    assert(level(ev, pos as int, k + 1) == level(ev, pos as int, k) + delta(ev[k]));
                }
                Ok((ParkingSpace { access, restrictions }, end))
            },
            Err(e) => Err(e),
        }
    }

    /// The attributes of the space, present ones only, in declaration order.
    pub fn visit_attributes(&self) -> (r: Vec<Attribute>)
        ensures
            attrs_view(r@) == self.attributes_view(),
    {
        let mut out: Vec<Attribute> = Vec::new();
        push_attr(&mut out, "access", self.access.as_str().to_owned());
        let restrictions = match &self.restrictions {
            Some(s) => Some(copy_string(s)),
            None => None,
        };
        push_opt_attr(&mut out, "restrictions", restrictions);
        assert(attrs_view(out@) =~= self.attributes_view());
        out
    }

    /// The child elements of the space: none.
    pub fn visit_children(&self) -> (r: Vec<Event>)
        ensures
            r@.len() == 0,
    {
        Vec::new()
    }
}

} // verus!
