use simple_virtual_assembler::assembler::parsing_err::{
    ParsingError, ParsingErrorData, ParsingErrorKind,
};

#[test]
fn test_parsing_error_new() {
    let parsing_error = ParsingError::new(
        ParsingErrorKind::TooManyOperands,
        123,
        "message".to_owned(),
    );

    assert_eq!(
        parsing_error,
        ParsingError::TooManyOperands(ParsingErrorData::new(123, "message".to_owned()))
    );
}

#[test]
fn parsing_error_reports_its_data() {
    let parsing_error = ParsingError::new(ParsingErrorKind::Empty, 7, "place".to_owned());
    assert_eq!(parsing_error.get_message(), "place".to_owned());
    assert_eq!(
        parsing_error.get_data(),
        ParsingErrorData::new(7, "place".to_owned())
    );
}
