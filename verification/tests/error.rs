use service_binding::{AddressError, Error, NumberError};

#[test]
fn test_display() {
    assert_eq!(Error::UnsupportedScheme.to_string(), "UnsupportedScheme");
}

#[test]
fn error_text_follows_debug() {
    let errors = vec![
        Error::BadAddress(AddressError::MissingPort),
        Error::BadAddress(AddressError::InvalidPort),
        Error::BadAddress(AddressError::Unresolved),
        Error::BadDescriptor(NumberError::Empty),
        Error::BadDescriptor(NumberError::InvalidDigit),
        Error::BadDescriptor(NumberError::PosOverflow),
        Error::BadDescriptor(NumberError::NegOverflow),
        Error::DescriptorOutOfRange(0),
        Error::DescriptorOutOfRange(3),
        Error::DescriptorOutOfRange(-17),
        Error::DescriptorOutOfRange(i32::MAX),
        Error::DescriptorOutOfRange(i32::MIN),
        Error::DescriptorsMissing,
        Error::UnsupportedScheme,
    ];
    for error in errors {
        assert_eq!(error.to_string(), format!("{:?}", error));
    }
}

#[test]
fn error_from_number_error() {
    assert_eq!(
        Error::from(NumberError::InvalidDigit),
        Error::BadDescriptor(NumberError::InvalidDigit)
    );
}
