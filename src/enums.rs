//! Closed enumerations of the format. Each variant has one canonical token;
//! reading matches tokens up to ASCII case, writing uses the canonical one.
use crate::text::{eq_ignore_case, str_eq_ignore_case};
use vstd::prelude::*;

verus! {

/// A closed set of variants, each written as one fixed token.
pub trait Token: Sized {
    /// The canonical token of a variant.
    spec fn token(&self) -> Seq<char>;

    /// The variant that a text names, matched up to ASCII case.
    spec fn from_token(s: Seq<char>) -> Option<Self>;

    /// The canonical token.
    fn as_str(&self) -> (r: &'static str)
        ensures
            r@ == self.token(),
    ;

    /// Reads a token, ignoring ASCII case; `None` when it names no variant.
    fn parse_token(s: &str) -> (r: Option<Self>)
        ensures
            r == Self::from_token(s@),
    ;

    /// Name of the enumeration, used in diagnostics.
    spec fn kind() -> Seq<char>;

    /// Name of the enumeration, used in diagnostics.
    fn kind_name() -> (r: &'static str)
        ensures
            r@ == Self::kind(),
    ;
}

/// Kind of border placed around an object.
#[derive(Debug, Clone, Copy, PartialEq, Eq, Structural)]
pub enum BorderType {
    Concrete,
    Curb,
}

impl Token for BorderType {
    open spec fn token(&self) -> Seq<char> {
        match self {
            BorderType::Concrete => seq!['c', 'o', 'n', 'c', 'r', 'e', 't', 'e'],
            BorderType::Curb => seq!['c', 'u', 'r', 'b'],
        }
    }

    open spec fn from_token(s: Seq<char>) -> Option<Self> {
        if eq_ignore_case(s, seq!['c', 'o', 'n', 'c', 'r', 'e', 't', 'e']) {
            Some(BorderType::Concrete)
        } else if eq_ignore_case(s, seq!['c', 'u', 'r', 'b']) {
            Some(BorderType::Curb)
        } else {
            None
        }
    }

    fn as_str(&self) -> (r: &'static str) {
        match self {
            BorderType::Concrete => {
                proof {
                    reveal_strlit("concrete");
                }
                "concrete"
            },
            BorderType::Curb => {
                proof {
                    reveal_strlit("curb");
                }
                "curb"
            },
        }
    }

    fn parse_token(s: &str) -> (r: Option<Self>) {
        proof {
            reveal_strlit("concrete");
            reveal_strlit("curb");
        }
        if str_eq_ignore_case(s, "concrete") {
            Some(BorderType::Concrete)
        } else if str_eq_ignore_case(s, "curb") {
            Some(BorderType::Curb)
        } else {
            None
        }
    }

    open spec fn kind() -> Seq<char> {
        seq!['B', 'o', 'r', 'd', 'e', 'r', 'T', 'y', 'p', 'e']
    }

    fn kind_name() -> (r: &'static str) {
        proof {
            reveal_strlit("BorderType");
        }
        "BorderType"
    }
}

/// Each variant's canonical token reads back as that variant, and a text
/// reads as some variant exactly when it equals one of the tokens up to ASCII case.
pub proof fn lemma_border_type_tokens(v: BorderType, s: Seq<char>)
    ensures
        BorderType::from_token(v.token()) == Some(v),
        BorderType::from_token(s) is Some <==> exists|w: BorderType| eq_ignore_case(s, #[trigger] w.token()),
{
    if BorderType::from_token(s) is Some {
        let w = BorderType::from_token(s)->0;
        assert(eq_ignore_case(s, w.token()));
    }
}

/// Who may use a parking space.
#[derive(Debug, Clone, Copy, PartialEq, Eq, Structural)]
pub enum Access {
    All,
    Car,
    Women,
    Handicapped,
    Bus,
    Truck,
    Electric,
    Residents,
}

impl Token for Access {
    open spec fn token(&self) -> Seq<char> {
        match self {
            Access::All => seq!['a', 'l', 'l'],
            Access::Car => seq!['c', 'a', 'r'],
            Access::Women => seq!['w', 'o', 'm', 'e', 'n'],
            Access::Handicapped => seq!['h', 'a', 'n', 'd', 'i', 'c', 'a', 'p', 'p', 'e', 'd'],
            Access::Bus => seq!['b', 'u', 's'],
            Access::Truck => seq!['t', 'r', 'u', 'c', 'k'],
            Access::Electric => seq!['e', 'l', 'e', 'c', 't', 'r', 'i', 'c'],
            Access::Residents => seq!['r', 'e', 's', 'i', 'd', 'e', 'n', 't', 's'],
        }
    }

    open spec fn from_token(s: Seq<char>) -> Option<Self> {
        if eq_ignore_case(s, seq!['a', 'l', 'l']) {
            Some(Access::All)
        } else if eq_ignore_case(s, seq!['c', 'a', 'r']) {
            Some(Access::Car)
        } else if eq_ignore_case(s, seq!['w', 'o', 'm', 'e', 'n']) {
            Some(Access::Women)
        } else if eq_ignore_case(s, seq!['h', 'a', 'n', 'd', 'i', 'c', 'a', 'p', 'p', 'e', 'd']) {
            Some(Access::Handicapped)
        } else if eq_ignore_case(s, seq!['b', 'u', 's']) {
            Some(Access::Bus)
        } else if eq_ignore_case(s, seq!['t', 'r', 'u', 'c', 'k']) {
            Some(Access::Truck)
        } else if eq_ignore_case(s, seq!['e', 'l', 'e', 'c', 't', 'r', 'i', 'c']) {
            Some(Access::Electric)
        } else if eq_ignore_case(s, seq!['r', 'e', 's', 'i', 'd', 'e', 'n', 't', 's']) {
            Some(Access::Residents)
        } else {
            None
        }
    }

    fn as_str(&self) -> (r: &'static str) {
        match self {
            Access::All => {
                proof {
                    reveal_strlit("all");
                }
                "all"
            },
            Access::Car => {
                proof {
                    reveal_strlit("car");
                }
                "car"
            },
            Access::Women => {
                proof {
                    reveal_strlit("women");
                }
                "women"
            },
            Access::Handicapped => {
                proof {
                    reveal_strlit("handicapped");
                }
                "handicapped"
            },
            Access::Bus => {
                proof {
                    reveal_strlit("bus");
                }
                "bus"
            },
            Access::Truck => {
                proof {
                    reveal_strlit("truck");
                }
                "truck"
            },
            Access::Electric => {
                proof {
                    reveal_strlit("electric");
                }
                "electric"
            },
            Access::Residents => {
                proof {
                    reveal_strlit("residents");
                }
                "residents"
            },
        }
    }

    fn parse_token(s: &str) -> (r: Option<Self>) {
        proof {
            reveal_strlit("all");
            reveal_strlit("car");
            reveal_strlit("women");
            reveal_strlit("handicapped");
            reveal_strlit("bus");
            reveal_strlit("truck");
            reveal_strlit("electric");
            reveal_strlit("residents");
        }
        if str_eq_ignore_case(s, "all") {
            Some(Access::All)
        } else if str_eq_ignore_case(s, "car") {
            Some(Access::Car)
        } else if str_eq_ignore_case(s, "women") {
            Some(Access::Women)
        } else if str_eq_ignore_case(s, "handicapped") {
            Some(Access::Handicapped)
        } else if str_eq_ignore_case(s, "bus") {
            Some(Access::Bus)
        } else if str_eq_ignore_case(s, "truck") {
            Some(Access::Truck)
        } else if str_eq_ignore_case(s, "electric") {
            Some(Access::Electric)
        } else if str_eq_ignore_case(s, "residents") {
            Some(Access::Residents)
        } else {
            None
        }
    }

    open spec fn kind() -> Seq<char> {
        seq!['A', 'c', 'c', 'e', 's', 's']
    }

    fn kind_name() -> (r: &'static str) {
        proof {
            reveal_strlit("Access");
        }
        "Access"
    }
}

/// Each variant's canonical token reads back as that variant, and a text
/// reads as some variant exactly when it equals one of the tokens up to ASCII case.
pub proof fn lemma_access_tokens(v: Access, s: Seq<char>)
    ensures
        Access::from_token(v.token()) == Some(v),
        Access::from_token(s) is Some <==> exists|w: Access| eq_ignore_case(s, #[trigger] w.token()),
{
    if Access::from_token(s) is Some {
        let w = Access::from_token(s)->0;
        assert(eq_ignore_case(s, w.token()));
    }
}

/// Kind of element that a road link points at.
#[derive(Debug, Clone, Copy, PartialEq, Eq, Structural)]
pub enum ElementType {
    Road,
    Junction,
}

impl Token for ElementType {
    open spec fn token(&self) -> Seq<char> {
        match self {
            ElementType::Road => seq!['r', 'o', 'a', 'd'],
            ElementType::Junction => seq!['j', 'u', 'n', 'c', 't', 'i', 'o', 'n'],
        }
    }

    open spec fn from_token(s: Seq<char>) -> Option<Self> {
        if eq_ignore_case(s, seq!['r', 'o', 'a', 'd']) {
            Some(ElementType::Road)
        } else if eq_ignore_case(s, seq!['j', 'u', 'n', 'c', 't', 'i', 'o', 'n']) {
            Some(ElementType::Junction)
        } else {
            None
        }
    }

    fn as_str(&self) -> (r: &'static str) {
        match self {
            ElementType::Road => {
                proof {
                    reveal_strlit("road");
                }
                "road"
            },
            ElementType::Junction => {
                proof {
                    reveal_strlit("junction");
                }
                "junction"
            },
        }
    }

    fn parse_token(s: &str) -> (r: Option<Self>) {
        proof {
            reveal_strlit("road");
            reveal_strlit("junction");
        }
        if str_eq_ignore_case(s, "road") {
            Some(ElementType::Road)
        } else if str_eq_ignore_case(s, "junction") {
            Some(ElementType::Junction)
        } else {
            None
        }
    }

    open spec fn kind() -> Seq<char> {
        seq!['E', 'l', 'e', 'm', 'e', 'n', 't', 'T', 'y', 'p', 'e']
    }

    fn kind_name() -> (r: &'static str) {
        proof {
            reveal_strlit("ElementType");
        }
        "ElementType"
    }
}

/// Each variant's canonical token reads back as that variant, and a text
/// reads as some variant exactly when it equals one of the tokens up to ASCII case.
pub proof fn lemma_element_type_tokens(v: ElementType, s: Seq<char>)
    ensures
        ElementType::from_token(v.token()) == Some(v),
        ElementType::from_token(s) is Some <==> exists|w: ElementType| eq_ignore_case(s, #[trigger] w.token()),
{
    if ElementType::from_token(s) is Some {
        let w = ElementType::from_token(s)->0;
        assert(eq_ignore_case(s, w.token()));
    }
}

/// Traffic handedness of a road: `RHT` (right-hand traffic) or `LHT` (left-hand traffic).
#[derive(Debug, Clone, Copy, PartialEq, Eq, Structural)]
pub enum Rule {
    RightHandTraffic,
    LeftHandTraffic,
}

impl Token for Rule {
    open spec fn token(&self) -> Seq<char> {
        match self {
            Rule::RightHandTraffic => seq!['R', 'H', 'T'],
            Rule::LeftHandTraffic => seq!['L', 'H', 'T'],
        }
    }

    open spec fn from_token(s: Seq<char>) -> Option<Self> {
        if eq_ignore_case(s, seq!['R', 'H', 'T']) {
            Some(Rule::RightHandTraffic)
        } else if eq_ignore_case(s, seq!['L', 'H', 'T']) {
            Some(Rule::LeftHandTraffic)
        } else {
            None
        }
    }

    fn as_str(&self) -> (r: &'static str) {
        match self {
            Rule::RightHandTraffic => {
                proof {
                    reveal_strlit("RHT");
                }
                "RHT"
            },
            Rule::LeftHandTraffic => {
                proof {
                    reveal_strlit("LHT");
                }
                "LHT"
            },
        }
    }

    fn parse_token(s: &str) -> (r: Option<Self>) {
        proof {
            reveal_strlit("RHT");
            reveal_strlit("LHT");
        }
        if str_eq_ignore_case(s, "RHT") {
            Some(Rule::RightHandTraffic)
        } else if str_eq_ignore_case(s, "LHT") {
            Some(Rule::LeftHandTraffic)
        } else {
            None
        }
    }

    open spec fn kind() -> Seq<char> {
        seq!['R', 'u', 'l', 'e']
    }

    fn kind_name() -> (r: &'static str) {
        proof {
            reveal_strlit("Rule");
        }
        "Rule"
    }
}

/// Each variant's canonical token reads back as that variant, and a text
/// reads as some variant exactly when it equals one of the tokens up to ASCII case.
pub proof fn lemma_rule_tokens(v: Rule, s: Seq<char>)
    ensures
        Rule::from_token(v.token()) == Some(v),
        Rule::from_token(s) is Some <==> exists|w: Rule| eq_ignore_case(s, #[trigger] w.token()),
{
    if Rule::from_token(s) is Some {
        let w = Rule::from_token(s)->0;
        assert(eq_ignore_case(s, w.token()));
    }
}

/// End of the linked element at which a link attaches.
#[derive(Debug, Clone, Copy, PartialEq, Eq, Structural)]
pub enum ContactPoint {
    Start,
    End,
}

impl Token for ContactPoint {
    open spec fn token(&self) -> Seq<char> {
        match self {
            ContactPoint::Start => seq!['s', 't', 'a', 'r', 't'],
            ContactPoint::End => seq!['e', 'n', 'd'],
        }
    }

    open spec fn from_token(s: Seq<char>) -> Option<Self> {
        if eq_ignore_case(s, seq!['s', 't', 'a', 'r', 't']) {
            Some(ContactPoint::Start)
        } else if eq_ignore_case(s, seq!['e', 'n', 'd']) {
            Some(ContactPoint::End)
        } else {
            None
        }
    }

    fn as_str(&self) -> (r: &'static str) {
        match self {
            ContactPoint::Start => {
                proof {
                    reveal_strlit("start");
                }
                "start"
            },
            ContactPoint::End => {
                proof {
                    reveal_strlit("end");
                }
                "end"
            },
        }
    }

    fn parse_token(s: &str) -> (r: Option<Self>) {
        proof {
            reveal_strlit("start");
            reveal_strlit("end");
        }
        if str_eq_ignore_case(s, "start") {
            Some(ContactPoint::Start)
        } else if str_eq_ignore_case(s, "end") {
            Some(ContactPoint::End)
        } else {
            None
        }
    }

    open spec fn kind() -> Seq<char> {
        seq!['C', 'o', 'n', 't', 'a', 'c', 't', 'P', 'o', 'i', 'n', 't']
    }

    fn kind_name() -> (r: &'static str) {
        proof {
            reveal_strlit("ContactPoint");
        }
        "ContactPoint"
    }
}

/// Each variant's canonical token reads back as that variant, and a text
/// reads as some variant exactly when it equals one of the tokens up to ASCII case.
pub proof fn lemma_contact_point_tokens(v: ContactPoint, s: Seq<char>)
    ensures
        ContactPoint::from_token(v.token()) == Some(v),
        ContactPoint::from_token(s) is Some <==> exists|w: ContactPoint| eq_ignore_case(s, #[trigger] w.token()),
{
    if ContactPoint::from_token(s) is Some {
        let w = ContactPoint::from_token(s)->0;
        assert(eq_ignore_case(s, w.token()));
    }
}

/// Direction on the linked road from which a road is entered.
#[derive(Debug, Clone, Copy, PartialEq, Eq, Structural)]
pub enum ElementDir {
    Plus,
    Minus,
}

impl Token for ElementDir {
    open spec fn token(&self) -> Seq<char> {
        match self {
            ElementDir::Plus => seq!['+'],
            ElementDir::Minus => seq!['-'],
        }
    }

    open spec fn from_token(s: Seq<char>) -> Option<Self> {
        if eq_ignore_case(s, seq!['+']) {
            Some(ElementDir::Plus)
        } else if eq_ignore_case(s, seq!['-']) {
            Some(ElementDir::Minus)
        } else {
            None
        }
    }

    fn as_str(&self) -> (r: &'static str) {
        match self {
            ElementDir::Plus => {
                proof {
                    reveal_strlit("+");
                }
                "+"
            },
            ElementDir::Minus => {
                proof {
                    reveal_strlit("-");
                }
                "-"
            },
        }
    }

    fn parse_token(s: &str) -> (r: Option<Self>) {
        proof {
            reveal_strlit("+");
            reveal_strlit("-");
        }
        if str_eq_ignore_case(s, "+") {
            Some(ElementDir::Plus)
        } else if str_eq_ignore_case(s, "-") {
            Some(ElementDir::Minus)
        } else {
            None
        }
    }

    open spec fn kind() -> Seq<char> {
        seq!['E', 'l', 'e', 'm', 'e', 'n', 't', 'D', 'i', 'r']
    }

    fn kind_name() -> (r: &'static str) {
        proof {
            reveal_strlit("ElementDir");
        }
        "ElementDir"
    }
}

/// Each variant's canonical token reads back as that variant, and a text
/// reads as some variant exactly when it equals one of the tokens up to ASCII case.
pub proof fn lemma_element_dir_tokens(v: ElementDir, s: Seq<char>)
    ensures
        ElementDir::from_token(v.token()) == Some(v),
        ElementDir::from_token(s) is Some <==> exists|w: ElementDir| eq_ignore_case(s, #[trigger] w.token()),
{
    assert(seq!['-'][0] == '-' && seq!['+'][0] == '+');
    assert(!eq_ignore_case(seq!['-'], seq!['+']));
    if ElementDir::from_token(s) is Some {
        let w = ElementDir::from_token(s)->0;
        assert(eq_ignore_case(s, w.token()));
    }
}

} // verus!
