//! Attributes of functions: `#[deter]` and `#[nondeter]`.
use crate::error::{QccError, QccErrorKind, QccErrorLoc};
use crate::lexer::{Location, LocationView};
use crate::text::{find_byte, latin, lemma_find_byte, position, text_of, trim, trimmed};
use vstd::prelude::*;
use vstd::slice::slice_subrange;
use vstd::string::StringSliceAdditionalSpecFns;
use crate::text::{CLOSE_BRACKET, COMMA, HASH, OPEN_BRACKET};

verus! {

#[derive(Clone, Copy, Debug, PartialEq, Eq, Structural, Hash)]
pub enum Attribute {
    Deter,
    NonDeter,
}

impl Default for Attribute {
    fn default() -> (a: Self)
        ensures
            a == Attribute::NonDeter,
    {
        Attribute::NonDeter
    }
}

impl Attribute {
    /// The attribute a word names, if any.
    pub open spec fn named(word: Seq<char>) -> Option<Attribute> {
        if word == "deter"@ {
            Some(Attribute::Deter)
        } else if word == "nondeter"@ {
            Some(Attribute::NonDeter)
        } else {
            None
        }
    }

    /// The word an attribute is printed as.
    pub open spec fn label(self) -> Seq<char> {
        match self {
            Attribute::Deter => "deter"@,
            Attribute::NonDeter => "nondeter"@,
        }
    }

    /// Reads one attribute name from the bytes it is written with.
    pub fn parse(word: &[u8]) -> (r: Result<Attribute, QccErrorKind>)
        ensures
            r == match Attribute::named(latin(word@)) {
                Some(a) => Ok::<Attribute, QccErrorKind>(a),
                None => Err(QccErrorKind::UnexpectedAttr),
            },
    {
        let text = text_of(word, 0, word.len());
        assert(word@.subrange(0, word@.len() as int) =~= word@);
        Attribute::from_str(text.as_str())
    }

    /// Reads one attribute name.
    pub fn from_str(s: &str) -> (r: Result<Attribute, QccErrorKind>)
        ensures
            r == match Attribute::named(s@) {
                Some(a) => Ok::<Attribute, QccErrorKind>(a),
                None => Err(QccErrorKind::UnexpectedAttr),
            },
    {
        let word = String::from_str(s);
        if word == String::from_str("deter") {
            Ok(Attribute::Deter)
        } else if word == String::from_str("nondeter") {
            Ok(Attribute::NonDeter)
        } else {
            Err(QccErrorKind::UnexpectedAttr)
        }
    }

    pub fn to_string(&self) -> (s: String)
        ensures
            s@ == self.label(),
    {
        match self {
            Attribute::Deter => String::from_str("deter"),
            Attribute::NonDeter => String::from_str("nondeter"),
        }
    }
}

/// The attributes of one function, in the order they were written.
#[derive(Debug)]
pub struct Attributes(pub Vec<Attribute>);

impl View for Attributes {
    type V = Seq<Attribute>;

    open spec fn view(&self) -> Seq<Attribute> {
        self.0@
    }
}

impl Clone for Attributes {
    fn clone(&self) -> (r: Self)
        ensures
            r@ == self@,
    {
        Attributes(self.0.clone())
    }
}

impl Default for Attributes {
    fn default() -> (a: Self)
        ensures
            a@ == Seq::<Attribute>::empty(),
    {
        Attributes(Vec::new())
    }
}

impl PartialEq for Attributes {
    fn eq(&self, other: &Self) -> (r: bool) {
        if self.0.len() != other.0.len() {
            return false;
        }
        let mut i: usize = 0;
        while i < self.0.len()
            invariant
                i <= self.0@.len(),
                self.0@.len() == other.0@.len(),
                forall|j: int| 0 <= j < i ==> self.0@[j] == other.0@[j],
            decreases self.0@.len() - i,
        {
            if self.0[i] != other.0[i] {
                return false;
            }
            i = i + 1;
        }
        assert(self.0@ =~= other.0@);
        true
    }
}

impl vstd::std_specs::cmp::PartialEqSpecImpl for Attributes {
    open spec fn obeys_eq_spec() -> bool {
        true
    }

    open spec fn eq_spec(&self, other: &Self) -> bool {
        self.0@ == other.0@
    }
}

/// The text between `#[` and `]`: one leading `#[` and one trailing `]` are
/// taken off where they stand.
pub open spec fn attr_body(text: Seq<u8>) -> Seq<u8> {
    let lo: int = if text.len() >= 2 && text[0] == HASH && text[1] == OPEN_BRACKET {
        2
    } else {
        0
    };
    let hi: int = if text.len() > lo && text.last() == CLOSE_BRACKET {
        text.len() - 1
    } else {
        text.len() as int
    };
    text.subrange(lo, hi)
}

/// The names of `body` from position `from` on, which are separated by
/// commas and may have whitespace around them. `col` is the column of the
/// name at `from`: each name before it took its own length and two more.
/// The result is the list of attributes, or the column of the first name
/// that is no attribute.
pub open spec fn attr_list(body: Seq<u8>, from: int, col: nat) -> Result<Seq<Attribute>, nat>
    decreases body.len() - from,
{
    if from < 0 || from >= body.len() {
        Ok(Seq::empty())
    } else {
        proof {
            lemma_find_byte(body, COMMA, from);
        }
        let end = find_byte(body, COMMA, from);
        let word = trimmed(body.subrange(from, end));
        match Attribute::named(latin(word)) {
            None => Err(col),
            Some(a) => if end >= body.len() {
                Ok(seq![a])
            } else {
                match attr_list(body, end + 1, col + 2 + word.len()) {
                    Ok(rest) => Ok(seq![a] + rest),
                    Err(c) => Err(c),
                }
            },
        }
    }
}

impl Attributes {
    /// Whether there is no attribute.
    pub fn is_empty(&self) -> (r: bool)
        ensures
            r == (self@.len() == 0),
    {
        self.0.len() == 0
    }

    pub fn push(&mut self, attr: Attribute)
        ensures
            final(self)@ == old(self)@.push(attr),
    {
        self.0.push(attr);
    }

    /// Whether `attr` is among the attributes.
    pub fn contains(&self, attr: Attribute) -> (r: bool)
        ensures
            r == self@.contains(attr),
    {
        let mut i: usize = 0;
        while i < self.0.len()
            invariant
                i <= self.0@.len(),
                forall|j: int| 0 <= j < i ==> self.0@[j] != attr,
            decreases self.0@.len() - i,
        {
            if self.0[i] == attr {
                assert(self@[i as int] == attr);
                return true;
            }
            i = i + 1;
        }
        false
    }

    /// The attributes joined by a comma and a space.
    pub open spec fn label(attrs: Seq<Attribute>) -> Seq<char>
        decreases attrs.len(),
    {
        if attrs.len() == 0 {
            Seq::empty()
        } else if attrs.len() == 1 {
            attrs[0].label()
        } else {
            Attributes::label(attrs.drop_last()) + ", "@ + attrs.last().label()
        }
    }

    pub fn to_string(&self) -> (s: String)
        ensures
            s@ == Attributes::label(self@),
    {
        let mut s = String::new();
        let mut i: usize = 0;
        while i < self.0.len()
            invariant
                i <= self.0@.len(),
                s@ == Attributes::label(self@.subrange(0, i as int)),
            decreases self.0@.len() - i,
        {
            let ghost before = self@.subrange(0, i as int);
            if i > 0 {
                s.append(", ");
            }
            s.append(self.0[i].to_string().as_str());
            i = i + 1;
            proof {
                let now = self@.subrange(0, i as int);
                assert(now.drop_last() =~= before);
                assert(now.last() == self@[i - 1]);
                if i == 1 {
                    assert(s@ =~= now[0].label());
                }
            }
        }
        assert(self@.subrange(0, self@.len() as int) =~= self@);
        s
    }

    /// Reads a list of the form `#[name, name, ...]`. A name that is no
    /// attribute is an error placed at the column of that name.
    pub fn from_str(s: &str) -> (r: Result<Attributes, QccErrorLoc>)
        requires
            s.spec_bytes().len() < usize::MAX / 4,
        ensures
            match attr_list(attr_body(s.spec_bytes()), 0, 2) {
                Ok(attrs) => r is Ok && r->Ok_0@ == attrs,
                Err(col) => r is Err && r->Err_0.0 == QccError(QccErrorKind::UnexpectedAttr)
                    && r->Err_0.1@ == (LocationView { path: ""@, row: 0, col }),
            },
    {
        let text = s.as_bytes();
        let n = text.len();
        let lo: usize = if n >= 2 && text[0] == HASH && text[1] == OPEN_BRACKET {
            2
        } else {
            0
        };
        let hi: usize = if n > lo && text[n - 1] == CLOSE_BRACKET {
            n - 1
        } else {
            n
        };
        let body = slice_subrange(text, lo, hi);
        let mut attrs = Attributes(Vec::new());
        let mut col: usize = 2;
        let mut from: usize = 0;
        let ghost whole = attr_list(body@, 0, 2);
        assert(body@ == attr_body(s.spec_bytes()));
        assert(attrs@ + attr_list(body@, 0, 2)->Ok_0 =~= attr_list(body@, 0, 2)->Ok_0);
        while from < body.len()
            invariant
                whole == attr_list(attr_body(s.spec_bytes()), 0, 2),
                body@.len() < usize::MAX / 4,
                from <= body@.len() + 1,
                col <= 2 + 3 * from,
                whole == match attr_list(body@, from as int, col as nat) {
                    Ok(rest) => Ok::<Seq<Attribute>, nat>(attrs@ + rest),
                    Err(c) => Err(c),
                },
            decreases body@.len() + 1 - from,
        {
            let end = position(body, COMMA, from);
            let piece = slice_subrange(body, from, end);
            let (a, b) = trim(piece);
            let word = slice_subrange(piece, a, b);
            assert(word@ == trimmed(body@.subrange(from as int, end as int)));
            match Attribute::parse(word) {
                Err(kind) => {
                    return Err(QccErrorLoc(QccError(kind), Location::new("", 0, col)));
                },
                Ok(attr) => {
                    let ghost before = attrs@;
                    attrs.0.push(attr);
                    col = col + 2 + word.len();
                    from = end + 1;
                    proof {
                        assert(before + seq![attr] =~= attrs@);
                        assert forall|rest: Seq<Attribute>| before + (seq![attr] + rest) == attrs@ + rest by {
                            assert(before + (seq![attr] + rest) =~= attrs@ + rest);
                        }
                    }
                },
            }
        }
        proof {
            assert(attrs@ + Seq::<Attribute>::empty() =~= attrs@);
        }
        Ok(attrs)
    }
}

} // verus!
