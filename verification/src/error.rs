//! Errors of parsing and evaluation.
use crate::sass::SourcePos;
use vstd::prelude::*;

verus! {

/// Something that is not allowed where it stands.
#[derive(Debug, PartialEq, Eq)]
pub enum Invalid {
    /// An at-rule that may not stand here.
    AtRule,
    /// A mixin declared inside a mixin.
    MixinInMixin,
    /// A mixin declared inside a control directive.
    MixinInControl,
    /// A function declared inside a mixin.
    FunctionInMixin,
    /// A function declared inside a control directive.
    FunctionInControl,
    /// A function with a name that css reserves.
    FunctionName,
    /// `@error` with this message.
    AtError(Vec<u8>),
}

/// Where something that was called is declared: a span of a source
/// file, or a line of a built-in module (its name, the text of the line,
/// and the span of the declaration in it).
#[derive(Debug, PartialEq, Eq)]
pub enum Decl {
    File(SourcePos),
    Builtin(Vec<u8>, Vec<u8>, usize, usize),
}

/// An error.
#[derive(Debug, PartialEq, Eq)]
pub enum Error {
    /// Something invalid, at a position.
    Invalid(Invalid, SourcePos),
    /// A failed call: the message, the position of the call, and where
    /// what was called is declared, if that is known.
    BadCall(Vec<u8>, SourcePos, Option<Decl>),
    /// An error with a message and a position.
    At(Vec<u8>, SourcePos),
    /// An error with a message only.
    S(Vec<u8>),
}

pub enum InvalidV {
    AtRule,
    MixinInMixin,
    MixinInControl,
    FunctionInMixin,
    FunctionInControl,
    FunctionName,
    AtError(Seq<u8>),
}

pub enum DeclV {
    File(SourcePos),
    Builtin(Seq<u8>, Seq<u8>, usize, usize),
}

pub enum ErrorV {
    Invalid(InvalidV, SourcePos),
    BadCall(Seq<u8>, SourcePos, Option<DeclV>),
    At(Seq<u8>, SourcePos),
    S(Seq<u8>),
}

impl Invalid {
    /// This error at a position.
    pub open spec fn at(self, pos: SourcePos) -> Error {
        Error::Invalid(self, pos)
    }

    pub open spec fn view(&self) -> InvalidV {
        match self {
            Invalid::AtRule => InvalidV::AtRule,
            Invalid::MixinInMixin => InvalidV::MixinInMixin,
            Invalid::MixinInControl => InvalidV::MixinInControl,
            Invalid::FunctionInMixin => InvalidV::FunctionInMixin,
            Invalid::FunctionInControl => InvalidV::FunctionInControl,
            Invalid::FunctionName => InvalidV::FunctionName,
            Invalid::AtError(m) => InvalidV::AtError(m@),
        }
    }
}

impl Decl {
    pub open spec fn view(&self) -> DeclV {
        match self {
            Decl::File(p) => DeclV::File(*p),
            Decl::Builtin(m, l, a, b) => DeclV::Builtin(m@, l@, *a, *b),
        }
    }
}

impl Error {
    pub open spec fn view(&self) -> ErrorV {
        match self {
            Error::Invalid(i, p) => ErrorV::Invalid(i.view(), *p),
            Error::BadCall(m, p, d) => ErrorV::BadCall(
                m@,
                *p,
                match d {
                    Some(d) => Some(d.view()),
                    None => None,
                },
            ),
            Error::At(m, p) => ErrorV::At(m@, *p),
            Error::S(m) => ErrorV::S(m@),
        }
    }
}

} // verus!
