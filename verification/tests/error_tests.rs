use signature_extractor::AppError;

#[test]
fn an_io_error_becomes_the_io_variant() {
    let error = std::io::Error::new(std::io::ErrorKind::NotFound, "pasta ausente");
    match AppError::from(error) {
        AppError::Io(inner) => {
            assert_eq!(inner.kind(), std::io::ErrorKind::NotFound);
            assert_eq!(inner.to_string(), "pasta ausente");
        }
        other => panic!("{:?}", other),
    }
}

#[test]
fn a_json_error_becomes_the_json_variant() {
    let error = serde_json::from_str::<serde_json::Value>("{").expect_err("not JSON");
    let line = error.line();
    match AppError::from(error) {
        AppError::JsonSerialization(inner) => assert_eq!(inner.line(), line),
        other => panic!("{:?}", other),
    }
}

#[test]
fn the_question_mark_converts_an_io_error() {
    fn fails() -> Result<(), AppError> {
        Err(std::io::Error::new(std::io::ErrorKind::PermissionDenied, "negado"))?;
        Ok(())
    }
    assert!(matches!(fails(), Err(AppError::Io(_))));
}
