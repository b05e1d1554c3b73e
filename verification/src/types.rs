//! The types of Quale values and the order among them.
use crate::error::QccErrorKind;
use vstd::prelude::*;

verus! {

/// The type of a value. `Bottom` stands for a type that is not known yet.
#[derive(Clone, Copy, Debug, PartialEq, Eq, Structural, Hash)]
pub enum Type {
    Bottom,
    Rad,
    Qbit,
    Bit,
    F64,
}

impl Default for Type {
    fn default() -> (t: Self)
        ensures
            t == Type::Bottom,
    {
        Type::Bottom
    }
}

impl Type {
    /// Position in the order `Bottom < Bit < Qbit < Rad < F64`.
    pub open spec fn rank(self) -> nat {
        match self {
            Type::Bottom => 0,
            Type::Bit => 1,
            Type::Qbit => 2,
            Type::Rad => 3,
            Type::F64 => 4,
        }
    }

    /// The greater of two types.
    pub open spec fn join(a: Type, b: Type) -> Type {
        if a.rank() >= b.rank() {
            a
        } else {
            b
        }
    }

    /// The lesser of two types.
    pub open spec fn meet(a: Type, b: Type) -> Type {
        if a.rank() <= b.rank() {
            a
        } else {
            b
        }
    }

    /// The name a type is printed with.
    pub open spec fn label(self) -> Seq<char> {
        match self {
            Type::Bottom => "<bottom>"@,
            Type::Rad => "radians"@,
            Type::Qbit => "qubit"@,
            Type::Bit => "bit"@,
            Type::F64 => "float64"@,
        }
    }

    /// The type a keyword of the source language names, if any.
    pub open spec fn named(word: Seq<char>) -> Option<Type> {
        if word == "rad"@ {
            Some(Type::Rad)
        } else if word == "qbit"@ {
            Some(Type::Qbit)
        } else if word == "bit"@ {
            Some(Type::Bit)
        } else if word == "f64"@ {
            Some(Type::F64)
        } else {
            None
        }
    }

    fn level(self) -> (r: u8)
        ensures
            r == self.rank(),
    {
        match self {
            Type::Bottom => 0,
            Type::Bit => 1,
            Type::Qbit => 2,
            Type::Rad => 3,
            Type::F64 => 4,
        }
    }

    /// The greater of two types.
    pub fn bigtype(a: Type, b: Type) -> (t: Type)
        ensures
            t == Type::join(a, b),
    {
        if a.level() >= b.level() {
            a
        } else {
            b
        }
    }

    /// The lesser of two types.
    pub fn smalltype(a: Type, b: Type) -> (t: Type)
        ensures
            t == Type::meet(a, b),
    {
        if a.level() <= b.level() {
            a
        } else {
            b
        }
    }

    pub fn to_string(&self) -> (s: String)
        ensures
            s@ == self.label(),
    {
        match self {
            Type::Bottom => String::from_str("<bottom>"),
            Type::Rad => String::from_str("radians"),
            Type::Qbit => String::from_str("qubit"),
            Type::Bit => String::from_str("bit"),
            Type::F64 => String::from_str("float64"),
        }
    }

    /// Reads a type keyword; any other word is an unexpected type.
    pub fn from_str(s: &str) -> (r: Result<Type, QccErrorKind>)
        ensures
            r == match Type::named(s@) {
                Some(t) => Ok::<Type, QccErrorKind>(t),
                None => Err(QccErrorKind::UnexpectedType),
            },
    {
        let word = String::from_str(s);
        if word == String::from_str("rad") {
            Ok(Type::Rad)
        } else if word == String::from_str("qbit") {
            Ok(Type::Qbit)
        } else if word == String::from_str("bit") {
            Ok(Type::Bit)
        } else if word == String::from_str("f64") {
            Ok(Type::F64)
        } else {
            Err(QccErrorKind::UnexpectedType)
        }
    }
}

/// The join of two types does not depend on their order.
pub proof fn lemma_bigtype_commutative(a: Type, b: Type)
    ensures
        Type::join(a, b) == Type::join(b, a),
{
}

/// Joining three types gives the same type however they are grouped.
pub proof fn lemma_bigtype_associative(a: Type, b: Type, c: Type)
    ensures
        Type::join(Type::join(a, b), c) == Type::join(a, Type::join(b, c)),
{
}

/// The meet of two types does not depend on their order.
pub proof fn lemma_smalltype_commutative(a: Type, b: Type)
    ensures
        Type::meet(a, b) == Type::meet(b, a),
{
}

/// Taking the meet of three types gives the same type however they are grouped.
pub proof fn lemma_smalltype_associative(a: Type, b: Type, c: Type)
    ensures
        Type::meet(Type::meet(a, b), c) == Type::meet(a, Type::meet(b, c)),
{
}

} // verus!
