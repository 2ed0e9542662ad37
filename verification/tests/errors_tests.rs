use bsshlib::errors::BsshError;

#[test]
fn errors_carry_their_diagnostic_lines() {
    assert_eq!(
        BsshError::BufferCapacityExceeded.message(),
        "Buffer capacity exceeded."
    );
    assert_eq!(
        BsshError::ConnectionEndedUnexpectedly.message(),
        "Connection ended unexpectedly."
    );
    assert_eq!(BsshError::MalformedNameList.message(), "Malformed name list.");
    assert_eq!(
        BsshError::ExpectedHeaderString.message(),
        "Error while parsing initial message: expected SSH-2.0-... string."
    );
}
