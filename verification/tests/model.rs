use nerve::model::{verify_declared_source_types, Span};
use nerve::vocab::EvidenceSourceType;

#[test]
fn undeclared_source_type_is_a_hard_error() {
    let err = verify_declared_source_types(
        &[EvidenceSourceType::LlmDerived],
        "t",
        &[EvidenceSourceType::AstDirect],
    )
    .unwrap_err();
    assert!(err.message().contains("LLM_DERIVED"));
}

#[test]
fn declared_source_type_passes() {
    assert!(verify_declared_source_types(
        &[EvidenceSourceType::AstDirect],
        "t",
        &[EvidenceSourceType::AstDirect]
    )
    .is_ok());
}

#[test]
fn the_first_undeclared_type_is_reported_with_the_declared_set() {
    let err = verify_declared_source_types(
        &[EvidenceSourceType::AstDirect, EvidenceSourceType::TestCoverage],
        "coverage",
        &[EvidenceSourceType::AstDirect, EvidenceSourceType::AstResolved],
    )
    .unwrap_err();
    assert_eq!(
        err.message(),
        "extractor coverage emitted undeclared evidence source type TEST_COVERAGE; declared: AST_DIRECT, AST_RESOLVED"
    );
}

#[test]
fn the_structural_span_is_all_zero() {
    assert_eq!(Span::none(), Span::default());
}
