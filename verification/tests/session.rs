use jrpxy::body::body_reader::BodyReadMode;
use jrpxy::frontend::error::FrontendError;
use jrpxy::http_message::framing::WriteFraming;
use jrpxy::http_message::head::write_response_to;
use jrpxy::http_message::message::{BuildError, Request, RequestBuilder};
use jrpxy::http_message::version::HttpVersion;
use jrpxy::pool::{BackendProxyProvider, OneshotBackend, OneshotConnector, PoolError};
use jrpxy::session::{
    answer, ends_quietly, examine, expects_body, forward_framing, reply, Admission, Reply,
};
use jrpxy::transport::Poll;

fn request(host: bool) -> Request {
    let mut b = RequestBuilder::new(2);
    b.with_method("GET")
        .with_path("/")
        .with_version(HttpVersion::Http10);
    if host {
        b.with_header("HOST", b"example");
    }
    b.build().unwrap()
}

#[test]
fn a_request_needs_a_host() {
    assert!(matches!(examine(&request(true)), Admission::Forward));
    match examine(&request(false)) {
        Admission::Refuse {
            code,
            reason,
            message,
        } => {
            assert_eq!(code, 400);
            assert_eq!(reason, "Bad Request");
            assert_eq!(message, "missing host header");
        }
        Admission::Forward => panic!("forwarded without a host"),
    }
}

#[test]
fn an_answer_of_the_proxy() {
    let (res, len) = answer(&request(false), 400, "Bad Request", "missing host header").unwrap();
    assert_eq!(len, 19);
    assert_eq!(res.version(), HttpVersion::Http10);
    assert_eq!(
        write_response_to(&res, WriteFraming::Length(len)),
        b"HTTP/1.1 400 Bad Request\r\ncontent-type: text-plain\r\ncontent-length: 19\r\n\r\n"
    );
    assert!(matches!(
        answer(&request(false), 400, "Bad\nRequest", ""),
        Err(BuildError::InvalidReason(_))
    ));
}

#[test]
fn a_body_is_forwarded_as_it_came() {
    assert_eq!(
        forward_framing(BodyReadMode::ContentLength(8)),
        WriteFraming::Length(8)
    );
    assert_eq!(forward_framing(BodyReadMode::Chunk), WriteFraming::Chunked);
}

#[test]
fn some_requests_are_answered_without_a_body() {
    for (method, expected) in [("GET", true), ("HEAD", false), ("CONNECT", false), ("HEADS", true)] {
        let req = RequestBuilder::new(0)
            .with_method(method)
            .with_path("/")
            .with_version(HttpVersion::Http11)
            .build()
            .unwrap();
        assert_eq!(expects_body(&req), expected, "{method}");
    }
}

#[test]
fn replies_suit_the_client() {
    let v10 = HttpVersion::Http10;
    let v11 = HttpVersion::Http11;
    assert_eq!(reply(v11, 204, BodyReadMode::Bodyless), Reply::NoContent);
    assert_eq!(reply(v11, 304, BodyReadMode::Bodyless), Reply::Bodyless);
    assert_eq!(
        reply(v10, 200, BodyReadMode::ContentLength(3)),
        Reply::ContentLength(3)
    );
    assert_eq!(reply(v11, 200, BodyReadMode::Chunk), Reply::Chunked);
    assert_eq!(reply(v11, 200, BodyReadMode::Eof), Reply::Chunked);
    assert_eq!(reply(v10, 200, BodyReadMode::Chunk), Reply::UntilClose);
    assert_eq!(reply(v10, 200, BodyReadMode::Eof), Reply::UntilClose);
}

#[test]
fn only_an_idle_end_is_quiet() {
    assert!(ends_quietly(&FrontendError::FirstReadEOF));
    assert!(!ends_quietly(&FrontendError::UnexpectedEOF));
}

#[test]
fn a_oneshot_gives_its_connection_once() {
    let mut pool = OneshotBackend::new(1, 2);
    let (reader, writer) = pool.get_connection().unwrap();
    assert!(matches!(
        pool.get_connection(),
        Err(PoolError::NoBackendConnection)
    ));
    pool.give_connection(reader, writer);
    let (reader, writer) = pool.get_connection().unwrap();
    assert_eq!(reader.into_parts().into_parts(), (1, Vec::new()));
    assert_eq!(writer.into_inner(), 2);

    let mut connector = OneshotConnector::new(Some((1, 2)));
    assert!(matches!(connector.poll(), Poll::Ready(Ok((1, 2)))));
    assert!(matches!(
        connector.poll(),
        Poll::Ready(Err(PoolError::NoBackendConnection))
    ));
}
