//! Attribute coercion: from a start tag's attribute list to typed values.
use crate::enums::Token;
use crate::error::{ParseError, ParseErrorView};
use crate::markup::{attrs_view, Attribute};
use crate::number::{is_number_text, Number};
use crate::text::{copy_string, str_eq};
use vstd::prelude::*;

verus! {

/// The value of the first attribute named `name`, if any.
pub open spec fn lookup(attrs: Seq<(Seq<char>, Seq<char>)>, name: Seq<char>) -> Option<Seq<char>>
    decreases attrs.len(),
{
    if attrs.len() == 0 {
        None
    } else if lookup(attrs.drop_last(), name) is Some {
        lookup(attrs.drop_last(), name)
    } else if attrs.last().0 == name {
        Some(attrs.last().1)
    } else {
        None
    }
}

/// The diagnostic for a present attribute whose text is not of the expected kind.
pub open spec fn invalid(field: Seq<char>, raw: Seq<char>, expected: Seq<char>) -> ParseErrorView {
    ParseErrorView::InvalidValue { field, raw, expected }
}

/// What a required attribute of a given kind reads as: `Ok` with its text,
/// or the diagnostic. `valid` tells which texts are of the kind.
pub open spec fn required_outcome(
    attrs: Seq<(Seq<char>, Seq<char>)>,
    name: Seq<char>,
    valid: spec_fn(Seq<char>) -> bool,
    expected: Seq<char>,
) -> Result<Seq<char>, ParseErrorView> {
    match lookup(attrs, name) {
        None => Err(ParseErrorView::MissingAttribute { field: name }),
        Some(v) => if valid(v) {
            Ok(v)
        } else {
            Err(invalid(name, v, expected))
        },
    }
}

/// What an optional attribute of a given kind reads as.
pub open spec fn optional_outcome(
    attrs: Seq<(Seq<char>, Seq<char>)>,
    name: Seq<char>,
    valid: spec_fn(Seq<char>) -> bool,
    expected: Seq<char>,
) -> Result<Option<Seq<char>>, ParseErrorView> {
    match lookup(attrs, name) {
        None => Ok(None),
        Some(v) => if valid(v) {
            Ok(Some(v))
        } else {
            Err(invalid(name, v, expected))
        },
    }
}

proof fn lemma_lookup_prefix(attrs: Seq<(Seq<char>, Seq<char>)>, name: Seq<char>, i: int)
    requires
        0 <= i <= attrs.len(),
        lookup(attrs.subrange(0, i), name) is Some,
    ensures
        lookup(attrs, name) == lookup(attrs.subrange(0, i), name),
    decreases attrs.len() - i,
{
    if i < attrs.len() {
        let next = attrs.subrange(0, i + 1);
        assert(next.drop_last() == attrs.subrange(0, i));
        lemma_lookup_prefix(attrs, name, i + 1);
    } else {
        assert(attrs.subrange(0, i) == attrs);
    }
}

/// Looking up in two lists in a row: the first list wins.
pub proof fn lemma_lookup_concat(a: Seq<(Seq<char>, Seq<char>)>, b: Seq<(Seq<char>, Seq<char>)>)
    ensures
        forall|name: Seq<char>| #[trigger] lookup(a + b, name) == (if lookup(a, name) is Some {
            lookup(a, name)
        } else {
            lookup(b, name)
        }),
    decreases b.len(),
{
    if b.len() == 0 {
        assert(a + b == a);
    } else {
        lemma_lookup_concat(a, b.drop_last());
        assert((a + b).drop_last() == a + b.drop_last());
        assert((a + b).last() == b.last());
        assert forall|name: Seq<char>| #[trigger] lookup(a + b, name) == (if lookup(a, name) is Some {
            lookup(a, name)
        } else {
            lookup(b, name)
        }) by {
            assert(lookup(a + b.drop_last(), name) == (if lookup(a, name) is Some {
                lookup(a, name)
            } else {
                lookup(b.drop_last(), name)
            }));
        }
    }
}

/// Looking up in a list of one attribute.
pub proof fn lemma_lookup_single(n: Seq<char>, v: Seq<char>)
    ensures
        forall|name: Seq<char>| #[trigger] lookup(seq![(n, v)], name) == (if n == name {
            Some(v)
        } else {
            None
        }),
{
    assert forall|name: Seq<char>| #[trigger] lookup(seq![(n, v)], name) == (if n == name {
        Some(v)
    } else {
        None
    }) by {
        let s = seq![(n, v)];
        assert(s.drop_last() =~= Seq::<(Seq<char>, Seq<char>)>::empty());
        assert(lookup(s.drop_last(), name) is None);
        assert(s.last() == (n, v));
    }
}

/// Looking up in the empty list.
pub proof fn lemma_lookup_empty()
    ensures
        forall|name: Seq<char>| #[trigger] lookup(Seq::<(Seq<char>, Seq<char>)>::empty(), name) is None,
{
}

/// The value of the first attribute named `name`.
pub fn find_attribute(attrs: &Vec<Attribute>, name: &str) -> (r: Option<String>)
    ensures
        match r {
            Some(v) => lookup(attrs_view(attrs@), name@) == Some(v@),
            None => lookup(attrs_view(attrs@), name@) is None,
        },
{
    let ghost av = attrs_view(attrs@);
    let mut i: usize = 0;
    while i < attrs.len()
        invariant
            i <= attrs.len(),
            av == attrs_view(attrs@),
            lookup(av.subrange(0, i as int), name@) is None,
        decreases attrs.len() - i,
    {
        let a = &attrs[i];
        assert(av.subrange(0, i + 1).drop_last() == av.subrange(0, i as int));
        assert(av.subrange(0, i + 1).last() == a@);
        if str_eq(a.name.as_str(), name) {
            proof {
                lemma_lookup_prefix(av, name@, i + 1);
            }
            return Some(copy_string(&a.value));
        }
        i = i + 1;
    }
    assert(av.subrange(0, i as int) == av);
    None
}

fn missing(name: &str) -> (r: ParseError)
    ensures
        r@ == (ParseErrorView::MissingAttribute { field: name@ }),
{
    ParseError::MissingAttribute { field: name.to_owned() }
}

fn invalid_value(name: &str, raw: String, expected: &str) -> (r: ParseError)
    ensures
        r@ == invalid(name@, raw@, expected@),
{
    ParseError::InvalidValue { field: name.to_owned(), raw, expected: expected.to_owned() }
}

/// The diagnostic that an optional enumeration attribute gives, if any.
pub open spec fn token_error<T: Token>(attrs: Seq<(Seq<char>, Seq<char>)>, name: Seq<char>) -> Option<ParseErrorView> {
    match lookup(attrs, name) {
        Some(v) => if T::from_token(v) is Some {
            None
        } else {
            Some(invalid(name, v, T::kind()))
        },
        None => None,
    }
}

/// The diagnostic that a required enumeration attribute gives, if any.
pub open spec fn required_token_error<T: Token>(attrs: Seq<(Seq<char>, Seq<char>)>, name: Seq<char>) -> Option<ParseErrorView> {
    match lookup(attrs, name) {
        Some(_) => token_error::<T>(attrs, name),
        None => Some(ParseErrorView::MissingAttribute { field: name }),
    }
}

/// The diagnostic that a numeric attribute gives, if any; `required` adds
/// the one for its absence.
pub open spec fn number_error(attrs: Seq<(Seq<char>, Seq<char>)>, name: Seq<char>, required: bool) -> Option<ParseErrorView> {
    match lookup(attrs, name) {
        Some(v) => if is_number_text(v) {
            None
        } else {
            Some(invalid(name, v, number_kind()))
        },
        None => if required {
            Some(ParseErrorView::MissingAttribute { field: name })
        } else {
            None
        },
    }
}

/// The diagnostic that a required text attribute gives, if any.
pub open spec fn presence_error(attrs: Seq<(Seq<char>, Seq<char>)>, name: Seq<char>) -> Option<ParseErrorView> {
    match lookup(attrs, name) {
        Some(_) => None,
        None => Some(ParseErrorView::MissingAttribute { field: name }),
    }
}

/// The first diagnostic of a list of checks made in order, if any.
pub open spec fn first_error(s: Seq<Option<ParseErrorView>>) -> Option<ParseErrorView>
    decreases s.len(),
{
    if s.len() == 0 {
        None
    } else if s[0] is Some {
        s[0]
    } else {
        first_error(s.drop_first())
    }
}

/// Name of the numeric kind in diagnostics.
pub open spec fn number_kind() -> Seq<char> {
    seq!['n', 'u', 'm', 'b', 'e', 'r']
}

/// A required text attribute.
pub fn required_string(attrs: &Vec<Attribute>, name: &str) -> (r: Result<String, ParseError>)
    ensures
        match r {
            Ok(v) => lookup(attrs_view(attrs@), name@) == Some(v@),
            Err(e) => lookup(attrs_view(attrs@), name@) is None
                && e@ == (ParseErrorView::MissingAttribute { field: name@ }),
        },
{
    match find_attribute(attrs, name) {
        Some(v) => Ok(v),
        None => Err(missing(name)),
    }
}

/// An optional text attribute.
pub fn optional_string(attrs: &Vec<Attribute>, name: &str) -> (r: Option<String>)
    ensures
        match r {
            Some(v) => lookup(attrs_view(attrs@), name@) == Some(v@),
            None => lookup(attrs_view(attrs@), name@) is None,
        },
{
    find_attribute(attrs, name)
}

/// A required numeric attribute.
pub fn required_number(attrs: &Vec<Attribute>, name: &str) -> (r: Result<Number, ParseError>)
    ensures
        match required_outcome(attrs_view(attrs@), name@, |s: Seq<char>| is_number_text(s), number_kind()) {
            Ok(v) => r is Ok && r->Ok_0@ == v && r->Ok_0.wf(),
            Err(e) => r is Err && r->Err_0@ == e,
        },
{
    proof {
        reveal_strlit("number");
        assert("number"@ == number_kind());
    }
    match find_attribute(attrs, name) {
        None => Err(missing(name)),
        Some(v) => match Number::parse(v.as_str()) {
            Some(n) => Ok(n),
            None => Err(invalid_value(name, v, "number")),
        },
    }
}

/// An optional numeric attribute.
pub fn optional_number(attrs: &Vec<Attribute>, name: &str) -> (r: Result<Option<Number>, ParseError>)
    ensures
        match optional_outcome(attrs_view(attrs@), name@, |s: Seq<char>| is_number_text(s), number_kind()) {
            Ok(None) => r is Ok && r->Ok_0 is None,
            Ok(Some(v)) => r is Ok && r->Ok_0 is Some && r->Ok_0->0@ == v && r->Ok_0->0.wf(),
            Err(e) => r is Err && r->Err_0@ == e,
        },
{
    proof {
        reveal_strlit("number");
        assert("number"@ == number_kind());
    }
    match find_attribute(attrs, name) {
        None => Ok(None),
        Some(v) => match Number::parse(v.as_str()) {
            Some(n) => Ok(Some(n)),
            None => Err(invalid_value(name, v, "number")),
        },
    }
}

/// A required enumeration attribute.
pub fn required_token<T: Token>(attrs: &Vec<Attribute>, name: &str) -> (r: Result<T, ParseError>)
    ensures
        match lookup(attrs_view(attrs@), name@) {
            None => r is Err && r->Err_0@ == (ParseErrorView::MissingAttribute { field: name@ }),
            Some(v) => match T::from_token(v) {
                Some(t) => r == Ok::<T, ParseError>(t),
                None => r is Err && r->Err_0@ == invalid(name@, v, T::kind()),
            },
        },
{
    match find_attribute(attrs, name) {
        None => Err(missing(name)),
        Some(v) => match T::parse_token(v.as_str()) {
            Some(t) => Ok(t),
            None => Err(invalid_value(name, v, T::kind_name())),
        },
    }
}

/// An optional enumeration attribute.
pub fn optional_token<T: Token>(attrs: &Vec<Attribute>, name: &str) -> (r: Result<Option<T>, ParseError>)
    ensures
        match lookup(attrs_view(attrs@), name@) {
            None => r == Ok::<Option<T>, ParseError>(None),
            Some(v) => match T::from_token(v) {
                Some(t) => r == Ok::<Option<T>, ParseError>(Some(t)),
                None => r is Err && r->Err_0@ == invalid(name@, v, T::kind()),
            },
        },
{
    match find_attribute(attrs, name) {
        None => Ok(None),
        Some(v) => match T::parse_token(v.as_str()) {
            Some(t) => Ok(Some(t)),
            None => Err(invalid_value(name, v, T::kind_name())),
        },
    }
}

} // verus!
