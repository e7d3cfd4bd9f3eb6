//! Shared domain errors.
use vstd::prelude::*;
use crate::text::{push_str, string_of_str};

verus! {

/// Errors raised by the model layer.
#[derive(Debug, Clone, PartialEq, Eq)]
pub enum NerveError {
    /// A vocabulary string was not a member of its closed vocabulary.
    UnknownVocabularyValue {
        /// The vocabulary that was being parsed.
        vocabulary: &'static str,
        /// The offending value.
        value: String,
    },
    /// An identity function was called with a kind it does not serve.
    InvalidIdentityKind {
        /// Kind that was supplied.
        kind: &'static str,
        /// Constructor that rejected it.
        constructor: &'static str,
    },
    /// An extractor emitted an evidence source type it did not declare.
    UndeclaredEvidenceSourceType {
        /// Offending extractor.
        extractor_id: &'static str,
        /// The source type it tried to emit.
        source_type: &'static str,
        /// Comma-separated declared set.
        declared: String,
    },
}

impl NerveError {
    /// An [`NerveError::UnknownVocabularyValue`] naming `vocabulary` and carrying `value`.
    pub fn unknown(vocabulary: &'static str, value: &str) -> (err: NerveError)
        ensures
            err matches NerveError::UnknownVocabularyValue { vocabulary: v, value: x }
                && v == vocabulary && x@ == value@,
    {
        NerveError::UnknownVocabularyValue { vocabulary, value: string_of_str(value) }
    }

    /// The message this error reads as.
    pub fn message(&self) -> (text: String)
        ensures
            self matches NerveError::UnknownVocabularyValue { vocabulary, value }
                ==> text@ == "unknown "@ + vocabulary@ + " value: "@ + value@,
            self matches NerveError::InvalidIdentityKind { kind, constructor }
                ==> text@ == "entity kind "@ + kind@ + " is not valid for identity constructor "@
                    + constructor@,
            self matches NerveError::UndeclaredEvidenceSourceType {
                extractor_id,
                source_type,
                declared,
            } ==> text@ == "extractor "@ + extractor_id@ + " emitted undeclared evidence source type "@
                + source_type@ + "; declared: "@ + declared@,
    {
        let mut text = String::new();
        match self {
            NerveError::UnknownVocabularyValue { vocabulary, value } => {
                push_str(&mut text, "unknown ");
                push_str(&mut text, vocabulary);
                push_str(&mut text, " value: ");
                push_str(&mut text, value.as_str());
            },
            NerveError::InvalidIdentityKind { kind, constructor } => {
                push_str(&mut text, "entity kind ");
                push_str(&mut text, kind);
                push_str(&mut text, " is not valid for identity constructor ");
                push_str(&mut text, constructor);
            },
            NerveError::UndeclaredEvidenceSourceType { extractor_id, source_type, declared } => {
                push_str(&mut text, "extractor ");
                push_str(&mut text, extractor_id);
                push_str(&mut text, " emitted undeclared evidence source type ");
                push_str(&mut text, source_type);
                push_str(&mut text, "; declared: ");
                push_str(&mut text, declared.as_str());
            },
        }
        text
    }
}

} // verus!
