use imperator_save::{ImperatorError, ImperatorErrorKind};

#[test]
fn size_of_error_test() {
    assert_eq!(std::mem::size_of::<ImperatorError>(), 8);
}

#[test]
fn error_keeps_its_kind() {
    let error = ImperatorError::new(ImperatorErrorKind::UnknownToken { token_id: 0x2d82 });
    assert!(matches!(
        error.kind(),
        ImperatorErrorKind::UnknownToken { token_id: 0x2d82 }
    ));
    let error = ImperatorError::new(ImperatorErrorKind::InvalidHeader);
    assert!(matches!(error.kind(), ImperatorErrorKind::InvalidHeader));
}
