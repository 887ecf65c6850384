use service_binding::{Endpoint, Error};

#[test]
fn parse_http() {
    let endpoint: Endpoint = "http://localhost".parse().unwrap();
    assert_eq!(endpoint, Endpoint::Http("http://localhost".into()));
}

#[test]
fn parse_https() {
    let endpoint: Endpoint = "https://localhost".parse().unwrap();
    assert_eq!(endpoint, Endpoint::Http("https://localhost".into()));
}

#[test]
fn endpoint_parse_unix() {
    let endpoint: Endpoint = "unix:///tmp/socket".parse().unwrap();
    assert_eq!(endpoint, Endpoint::Unix("/tmp/socket".into(), None));
}

#[test]
fn endpoint_parse_unknown() {
    assert_eq!(Endpoint::from_str("ftp://localhost"), Err(Error::UnsupportedScheme));
    assert_eq!(Endpoint::from_str(""), Err(Error::UnsupportedScheme));
    assert_eq!(Endpoint::from_str("http:/"), Err(Error::UnsupportedScheme));
}

#[test]
fn endpoint_parse_empty_rest() {
    assert_eq!(Endpoint::from_str("http://"), Ok(Endpoint::Http("http://".into())));
    assert_eq!(Endpoint::from_str("unix://"), Ok(Endpoint::Unix("".into(), None)));
}
