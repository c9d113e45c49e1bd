use vstd::prelude::*;

verus! {

/// Why an extraction gave up, or how a collaborator failed.
///
/// Every variant but `Transient` means the page's layout or content diverged
/// from the schema the extractors assume. `Transient` stands for a failure of
/// the external page-acquisition collaborator; the parsers never produce it,
/// it is only representable so callers can tell retryable failures apart
/// from structural ones.
#[derive(Debug, Clone, PartialEq, Eq)]
pub enum ParseError {
    /// An expected selector matched nothing; names the logical field and the
    /// selector path that was attempted.
    NotFound { what: String },
    /// A node lacked an expected attribute.
    MissingAttribute { what: String },
    /// A text value failed its expected numeric, date or boolean conversion.
    UnexpectedFormat { what: String },
    /// An "Account #N" label whose ordinal suffix is not an integer.
    OrdinalParse { label: String },
    /// A failure of the external page-acquisition collaborator.
    Transient { message: String },
}

/// The mathematical value of a [`ParseError`].
#[verifier::ext_equal]
pub enum ParseErrorV {
    NotFound { what: Seq<char> },
    MissingAttribute { what: Seq<char> },
    UnexpectedFormat { what: Seq<char> },
    OrdinalParse { label: Seq<char> },
    Transient { message: Seq<char> },
}

impl DeepView for ParseError {
    type V = ParseErrorV;

    open spec fn deep_view(&self) -> ParseErrorV {
        self.view()
    }
}

impl View for ParseError {
    type V = ParseErrorV;

    open spec fn view(&self) -> ParseErrorV {
        match self {
            ParseError::NotFound { what } => ParseErrorV::NotFound { what: what@ },
            ParseError::MissingAttribute { what } => ParseErrorV::MissingAttribute {
                what: what@,
            },
            ParseError::UnexpectedFormat { what } => ParseErrorV::UnexpectedFormat {
                what: what@,
            },
            ParseError::OrdinalParse { label } => ParseErrorV::OrdinalParse { label: label@ },
            ParseError::Transient { message } => ParseErrorV::Transient { message: message@ },
        }
    }
}

impl ParseError {
    /// The text carried by the error, whichever variant holds it.
    pub fn detail(&self) -> (r: String)
        ensures
            r@ == self.spec_detail(),
    {
        match self {
            ParseError::NotFound { what } => what.clone(),
            ParseError::MissingAttribute { what } => what.clone(),
            ParseError::UnexpectedFormat { what } => what.clone(),
            ParseError::OrdinalParse { label } => label.clone(),
            ParseError::Transient { message } => message.clone(),
        }
    }

    pub open spec fn spec_detail(&self) -> Seq<char> {
        match self {
            ParseError::NotFound { what } => what@,
            ParseError::MissingAttribute { what } => what@,
            ParseError::UnexpectedFormat { what } => what@,
            ParseError::OrdinalParse { label } => label@,
            ParseError::Transient { message } => message@,
        }
    }
}

/// An `Option` seen through the view of its payload.
pub open spec fn opt_v<T: View>(o: Option<T>) -> Option<T::V> {
    match o {
        Some(t) => Some(t@),
        None => None,
    }
}

/// A `Result` seen through the deep views of both of its sides.
pub open spec fn rdv<T: DeepView, E: DeepView>(r: Result<T, E>) -> Result<T::V, E::V> {
    match r {
        Ok(t) => Ok(t.deep_view()),
        Err(e) => Err(e.deep_view()),
    }
}

} // verus!
