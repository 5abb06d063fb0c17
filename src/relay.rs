//! Errors of the relay client that feeds the decoder.
use vstd::prelude::*;

verus! {

/// What went wrong on the client side.
#[derive(PartialEq, Eq, Structural, Copy, Clone, Debug)]
pub enum ErrorKind {
    /// The relay sent something of a type the client does not handle.
    UnknownType,
}

/// The kind of a client error together with its diagnostic text.
#[derive(Debug)]
pub enum ErrorRepr {
    WithDescription(ErrorKind, &'static str),
    WithDescriptionAndDetail(ErrorKind, &'static str, String),
}

/// A client failure. Two errors are equal when they have the same kind and
/// the same shape; the text is for diagnostics only.
#[derive(Debug)]
pub struct WeechatRelayError {
    repr: ErrorRepr,
}

impl WeechatRelayError {
    /// The kind of this error.
    pub closed spec fn spec_kind(&self) -> ErrorKind {
        match self.repr {
            ErrorRepr::WithDescription(kind, _) => kind,
            ErrorRepr::WithDescriptionAndDetail(kind, _, _) => kind,
        }
    }

    /// Whether this error carries detail text.
    pub closed spec fn spec_has_detail(&self) -> bool {
        self.repr is WithDescriptionAndDetail
    }

    pub fn new(kind: ErrorKind, description: &'static str) -> (r: WeechatRelayError)
        ensures
            r.spec_kind() == kind,
            !r.spec_has_detail(),
    {
        WeechatRelayError { repr: ErrorRepr::WithDescription(kind, description) }
    }

    pub fn with_detail(kind: ErrorKind, description: &'static str, detail: String) -> (r:
        WeechatRelayError)
        ensures
            r.spec_kind() == kind,
            r.spec_has_detail(),
    {
        WeechatRelayError { repr: ErrorRepr::WithDescriptionAndDetail(kind, description, detail) }
    }

    pub fn kind(&self) -> (r: ErrorKind)
        ensures
            r == self.spec_kind(),
    {
        match self.repr {
            ErrorRepr::WithDescription(kind, _) => kind,
            ErrorRepr::WithDescriptionAndDetail(kind, _, _) => kind,
        }
    }

    /// The fixed text that describes this error.
    pub fn description(&self) -> &'static str {
        match self.repr {
            ErrorRepr::WithDescription(_, description) => description,
            ErrorRepr::WithDescriptionAndDetail(_, description, _) => description,
        }
    }

    /// The detail text, where there is one.
    pub fn detail(&self) -> (r: Option<&String>)
        ensures
            r is Some <==> self.spec_has_detail(),
    {
        match &self.repr {
            ErrorRepr::WithDescription(_, _) => None,
            ErrorRepr::WithDescriptionAndDetail(_, _, detail) => Some(detail),
        }
    }
}

impl PartialEq for WeechatRelayError {
    fn eq(&self, other: &WeechatRelayError) -> (r: bool) {
        match (&self.repr, &other.repr) {
            (ErrorRepr::WithDescription(kind_a, _), ErrorRepr::WithDescription(kind_b, _)) => {
                *kind_a == *kind_b
            },
            (
                ErrorRepr::WithDescriptionAndDetail(kind_a, _, _),
                ErrorRepr::WithDescriptionAndDetail(kind_b, _, _),
            ) => {
                *kind_a == *kind_b
            },
            _ => false,
        }
    }
}

impl vstd::std_specs::cmp::PartialEqSpecImpl for WeechatRelayError {
    open spec fn obeys_eq_spec() -> bool {
        true
    }

    open spec fn eq_spec(&self, other: &WeechatRelayError) -> bool {
        self.spec_kind() == other.spec_kind() && self.spec_has_detail() == other.spec_has_detail()
    }
}

} // verus!
