//! Identifiers: something named by a string or numbered by an index.

use vstd::prelude::*;
use vstd::string::StringExecFns;

verus! {

/// Uniquely identify something by a name or an index.
#[derive(Debug)]
pub enum Identifier {
    Name(String),
    Index(usize),
}

/// Uniquely identify something by a name or an index value.
#[derive(Debug)]
pub enum IdentifierRef {
    /// Identify by a name
    Name(String),
    /// Identify by an index value
    Index(usize),
}

/// The abstract value of an identifier: a name as a sequence of characters,
/// or an index.
pub enum IdentifierView {
    Name(Seq<char>),
    Index(usize),
}

impl View for Identifier {
    type V = IdentifierView;

    open spec fn view(&self) -> IdentifierView {
        match self {
            Identifier::Name(name) => IdentifierView::Name(name@),
            Identifier::Index(index) => IdentifierView::Index(*index),
        }
    }
}

impl View for IdentifierRef {
    type V = IdentifierView;

    open spec fn view(&self) -> IdentifierView {
        match self {
            IdentifierRef::Name(name) => IdentifierView::Name(name@),
            IdentifierRef::Index(index) => IdentifierView::Index(*index),
        }
    }
}

/// Compare two strings by their characters.
fn strings_equal(a: &String, b: &String) -> (r: bool)
    ensures
        r == (a@ == b@),
{
    a.eq(b)
}

impl IdentifierRef {
    /// Identify by the given name.
    pub fn name_str(name: &str) -> (r: Self)
        ensures
            r@ == IdentifierView::Name(name@),
    {
        IdentifierRef::Name(name.to_owned())
    }

    /// Whether this identifies by a name.
    pub fn is_name(&self) -> (b: bool)
        ensures
            b == (self@ is Name),
    {
        match self {
            IdentifierRef::Name(_) => true,
            IdentifierRef::Index(_) => false,
        }
    }

    /// Whether this identifies by an index.
    pub fn is_index(&self) -> (b: bool)
        ensures
            b == (self@ is Index),
    {
        match self {
            IdentifierRef::Name(_) => false,
            IdentifierRef::Index(_) => true,
        }
    }

    /// An identifier that owns a copy of its name.
    pub fn to_owned(&self) -> (r: IdentifierRef)
        ensures
            r@ == self@,
    {
        match self {
            IdentifierRef::Index(index) => IdentifierRef::Index(*index),
            IdentifierRef::Name(name) => IdentifierRef::Name(name.clone()),
        }
    }

    /// Clone a name to use as an identifier.
    pub fn clone_name(name: &str) -> (r: Self)
        ensures
            r@ == IdentifierView::Name(name@),
    {
        IdentifierRef::Name(name.to_owned())
    }

    /// Use a string literal name as an identifier.
    pub fn literal_name(name: &'static str) -> (r: Self)
        ensures
            r@ == IdentifierView::Name(name@),
    {
        IdentifierRef::Name(name.to_owned())
    }

    /// Use an index as an identifier.
    pub fn index(index: usize) -> (r: Self)
        ensures
            r@ == IdentifierView::Index(index),
    {
        IdentifierRef::Index(index)
    }

    /// The owned identifier with the same name or index.
    pub fn into_identifier(self) -> (r: Identifier)
        ensures
            r@ == self@,
    {
        match self {
            IdentifierRef::Name(name) => Identifier::Name(name),
            IdentifierRef::Index(index) => Identifier::Index(index),
        }
    }
}

impl Identifier {
    /// Identify by the given name.
    pub fn name(name: &str) -> (r: Self)
        ensures
            r@ == IdentifierView::Name(name@),
    {
        Identifier::Name(name.to_owned())
    }

    /// The identifier reference with the same name or index.
    pub fn to_ref(&self) -> (r: IdentifierRef)
        ensures
            r@ == self@,
    {
        match self {
            Identifier::Name(name) => IdentifierRef::Name(name.clone()),
            Identifier::Index(index) => IdentifierRef::Index(*index),
        }
    }

    /// Whether this identifier names or numbers the same thing as `other`.
    pub fn eq_ref(&self, other: &IdentifierRef) -> (b: bool)
        ensures
            b == (self@ == other@),
    {
        match self {
            Identifier::Name(lhs) => match other {
                IdentifierRef::Name(rhs) => strings_equal(lhs, rhs),
                IdentifierRef::Index(_) => false,
            },
            Identifier::Index(lhs) => match other {
                IdentifierRef::Name(_) => false,
                IdentifierRef::Index(rhs) => *lhs == *rhs,
            },
        }
    }
}

impl PartialEq for IdentifierRef {
    fn eq(&self, other: &IdentifierRef) -> (b: bool) {
        match self {
            IdentifierRef::Name(lhs) => match other {
                IdentifierRef::Name(rhs) => strings_equal(lhs, rhs),
                IdentifierRef::Index(_) => false,
            },
            IdentifierRef::Index(lhs) => match other {
                IdentifierRef::Name(_) => false,
                IdentifierRef::Index(rhs) => *lhs == *rhs,
            },
        }
    }
}

impl vstd::std_specs::cmp::PartialEqSpecImpl for IdentifierRef {
    open spec fn obeys_eq_spec() -> bool {
        true
    }

    open spec fn eq_spec(&self, other: &IdentifierRef) -> bool {
        self@ == other@
    }
}

impl PartialEq for Identifier {
    fn eq(&self, other: &Identifier) -> (b: bool) {
        match self {
            Identifier::Name(lhs) => match other {
                Identifier::Name(rhs) => strings_equal(lhs, rhs),
                Identifier::Index(_) => false,
            },
            Identifier::Index(lhs) => match other {
                Identifier::Name(_) => false,
                Identifier::Index(rhs) => *lhs == *rhs,
            },
        }
    }
}

impl vstd::std_specs::cmp::PartialEqSpecImpl for Identifier {
    open spec fn obeys_eq_spec() -> bool {
        true
    }

    open spec fn eq_spec(&self, other: &Identifier) -> bool {
        self@ == other@
    }
}

impl From<usize> for IdentifierRef {
    fn from(value: usize) -> (r: IdentifierRef) {
        IdentifierRef::Index(value)
    }
}

impl vstd::std_specs::convert::FromSpecImpl<usize> for IdentifierRef {
    open spec fn obeys_from_spec() -> bool {
        true
    }

    open spec fn from_spec(value: usize) -> IdentifierRef {
        IdentifierRef::Index(value)
    }
}

impl From<String> for IdentifierRef {
    fn from(value: String) -> (r: IdentifierRef) {
        IdentifierRef::Name(value)
    }
}

impl vstd::std_specs::convert::FromSpecImpl<String> for IdentifierRef {
    open spec fn obeys_from_spec() -> bool {
        true
    }

    open spec fn from_spec(value: String) -> IdentifierRef {
        IdentifierRef::Name(value)
    }
}


/// The decimal digits of `n`.
pub open spec fn decimal(n: nat) -> Seq<char>
    decreases n,
{
    if n < 10 {
        seq![digit_char(n)]
    } else {
        decimal(n / 10).push(digit_char(n % 10))
    }
}

/// The character of decimal digit `d`.
pub open spec fn digit_char(d: nat) -> char {
    if d == 0 { '0' } else if d == 1 { '1' } else if d == 2 { '2' } else if d == 3 { '3' }
    else if d == 4 { '4' } else if d == 5 { '5' } else if d == 6 { '6' } else if d == 7 { '7' }
    else if d == 8 { '8' } else { '9' }
}

/// The text of decimal digit `d`.
fn digit_str(d: usize) -> (s: &'static str)
    requires
        d < 10,
    ensures
        s@ == seq![digit_char(d as nat)],
{
    proof {
        reveal_strlit("0");
        reveal_strlit("1");
        reveal_strlit("2");
        reveal_strlit("3");
        reveal_strlit("4");
        reveal_strlit("5");
        reveal_strlit("6");
        reveal_strlit("7");
        reveal_strlit("8");
        reveal_strlit("9");
    }
    if d == 0 { "0" } else if d == 1 { "1" } else if d == 2 { "2" } else if d == 3 { "3" }
    else if d == 4 { "4" } else if d == 5 { "5" } else if d == 6 { "6" } else if d == 7 { "7" }
    else if d == 8 { "8" } else { "9" }
}

/// Append the decimal digits of `n` to `s`.
fn push_decimal(s: &mut String, n: usize)
    ensures
        final(s)@ == old(s)@ + decimal(n as nat),
    decreases n,
{
    if n >= 10 {
        push_decimal(s, n / 10);
    }
    s.append(digit_str(n % 10));
    proof {
        if n >= 10 {
            assert(old(s)@ + decimal((n / 10) as nat) + seq![digit_char((n % 10) as nat)] =~= old(s)@ + decimal(n as nat));
        } else {
            assert(old(s)@ + seq![digit_char((n % 10) as nat)] =~= old(s)@ + decimal(n as nat));
        }
    }
}

/// The text form of an identifier.
pub open spec fn identifier_text(id: IdentifierView) -> Seq<char> {
    match id {
        IdentifierView::Name(n) => seq!['"'] + n + seq!['"'],
        IdentifierView::Index(i) => seq!['#'] + decimal(i as nat),
    }
}

impl IdentifierRef {
    /// The text form of this identifier: a name in double quotes, or `#` and
    /// an index in decimal.
    pub fn to_text(&self) -> (s: String)
        ensures
            s@ == identifier_text(self@),
    {
        proof {
            reveal_strlit("\"");
            reveal_strlit("#");
        }
        match self {
            IdentifierRef::Name(name) => {
                let mut s = String::from_str("\"");
                s.append(name.as_str());
                s.append("\"");
                s
            },
            IdentifierRef::Index(index) => {
                let mut s = String::from_str("#");
                push_decimal(&mut s, *index);
                s
            },
        }
    }
}

} // verus!
