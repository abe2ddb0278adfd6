use jrpxy::http_message::span::{BufBuilder, Span};

#[test]
fn span_from_slices() {
    let outer = &[0u8, 1, 2, 3, 4, 5, 6, 7, 8, 9];
    assert!(Span::new(outer, &outer[1..4]).is_some());
    assert!(Span::new(&[], outer).is_none());
    assert!(Span::new(&outer[2..], &outer[1..]).is_none());
}

#[test]
fn span_finds_its_slice() {
    let outer = &[0u8, 1, 2, 3, 4, 5, 6, 7, 8, 9];
    let span = Span::new(outer, &outer[3..7]).unwrap();
    assert_eq!(span.range(), 3..7);
    assert_eq!(span.slice(outer), &[3, 4, 5, 6]);
    assert_eq!(span.try_slice(outer), Some(&outer[3..7]));
    assert_eq!(span.try_slice(&outer[..6]), None);
    assert_eq!(Span::empty().range(), 0..0);
    assert_eq!(Span::default().slice(outer), &[] as &[u8]);
}

#[test]
fn span_of_addresses() {
    assert_eq!(Span::of_addresses(100, 10, 104, 6).unwrap().range(), 4..10);
    assert!(Span::of_addresses(100, 10, 99, 2).is_none());
    assert!(Span::of_addresses(100, 10, 104, 7).is_none());
    assert_eq!(Span::of_addresses(100, 0, 100, 0).unwrap().range(), 0..0);
}

#[test]
fn pushed_slices_are_found_again() {
    let mut b = BufBuilder::with_capacity(4);
    let get = b.push(b"GET");
    let space = b.push_space();
    let path = b.push(b"/path");
    let sep = b.push_field_sep();
    let end = b.push_crlf();
    let buf = b.finish();
    assert_eq!(&buf[..], b"GET /path: \r\n");
    assert_eq!(get.slice(&buf), b"GET");
    assert_eq!(space.slice(&buf), b" ");
    assert_eq!(path.slice(&buf), b"/path");
    assert_eq!(sep.slice(&buf), b": ");
    assert_eq!(end.slice(&buf), b"\r\n");
}
