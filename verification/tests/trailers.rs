use jrpxy::body::error::TrailerError;
use jrpxy::body::parse_trailers::{parse_trailers, Status};

#[test]
fn one_trailer() {
    let buf = b"\
        hello:world\r\n\
        \r\n\
        rest";
    let buf = &buf[..];

    let parsed = parse_trailers(buf).expect("failed to parse");
    assert_eq!(Status::Complete(15), parsed);
}

#[test]
fn several_trailer() {
    let buf = b"\
        hello: world\r\n\
        look: there\r\n\
        \r\n\
        rest";
    let buf = &buf[..];

    let parsed = parse_trailers(buf).expect("failed to parse");
    assert_eq!(Status::Complete(29), parsed);
}

#[test]
fn partial_trailer() {
    // stops part way through field-name
    let buf = b"\
        hello: world\r\n\
        loo\
        ";
    let buf = &buf[..];

    let parsed = parse_trailers(buf).expect("failed to parse");
    assert_eq!(Status::Partial, parsed);

    // stops part way through a field-value
    let buf = b"\
        hello: world\r\n\
        look: the";
    let buf = &buf[..];

    let parsed = parse_trailers(buf).expect("failed to parse");
    assert_eq!(Status::Partial, parsed);

    // missing final \n
    let buf = b"\
        hello: world\r\n\
        look: there\r\n\
        \r\
        ";
    let buf = &buf[..];

    let parsed = parse_trailers(buf).expect("failed to parse");
    assert_eq!(Status::Partial, parsed);
}

#[test]
fn invalid_trailer() {
    // illegal name byte (DEL)
    let buf = b"\
        he/llo: world\r\n\
        \r\n\
        rest";
    let buf = &buf[..];
    assert!(matches!(
        parse_trailers(buf).unwrap_err(),
        TrailerError::InvalidFieldName
    ));

    // trailer line with space before ':'
    let buf = b"\
        hello : world\r\n\
        \r\n\
        rest";
    let buf = &buf[..];
    assert!(matches!(
        parse_trailers(buf).unwrap_err(),
        TrailerError::InvalidFieldName
    ));

    // value with trailing space
    let buf = b"\
        hello: world \r\n\
        \r\n\
        rest";
    let buf = &buf[..];
    assert!(matches!(
        parse_trailers(buf).unwrap_err(),
        TrailerError::InvalidFieldValue
    ));

    // value with illegal byte (DEL)
    let buf = b"\
        hello: wor\x7Fld\r\n\
        \r\n\
        rest";
    let buf = &buf[..];
    assert!(matches!(
        parse_trailers(buf).unwrap_err(),
        TrailerError::InvalidFieldValue
    ));
}

#[test]
fn trailer_section_edges() {
    assert_eq!(parse_trailers(b"").unwrap(), Status::Partial);
    assert_eq!(parse_trailers(b"\r\n").unwrap(), Status::Complete(2));
    assert_eq!(
        parse_trailers(b"\rx").unwrap_err(),
        TrailerError::InvalidTrailerFooter
    );
    // no value
    assert_eq!(
        parse_trailers(b"a:\r\n\r\n").unwrap_err(),
        TrailerError::InvalidFieldValue
    );
    // a line end without its line feed
    assert_eq!(
        parse_trailers(b"a:b\rc").unwrap_err(),
        TrailerError::InvalidFieldValue
    );
    assert_eq!(
        parse_trailers(b":b\r\n").unwrap_err(),
        TrailerError::InvalidFieldName
    );
    // blanks inside a value
    assert_eq!(
        parse_trailers(b"a: \tb  c\t d\r\n\r\nx").unwrap(),
        Status::Complete(15)
    );
}
