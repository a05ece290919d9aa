use ata_disk::dns::{
    local_port, reply_to, resolve_step, Message, QueryClass, QueryType, ResolveAction, ResolveState,
    ResponseCode,
};
use ata_disk::find::{number_width, PrintingState};
use ata_disk::url::URL;

#[test]
fn query_wire_format() {
    let m = Message::query(0xBEEF, "example.com", QueryType::A, QueryClass::IN);
    let mut expected = vec![0xBE, 0xEF, 0x01, 0x00, 0x00, 0x01, 0, 0, 0, 0, 0, 0, 7];
    expected.extend_from_slice(b"example");
    expected.push(3);
    expected.extend_from_slice(b"com");
    expected.extend_from_slice(&[0, 0, 1, 0, 1]);
    assert_eq!(m.datagram, expected);
    assert_eq!(m.id(), 0xBEEF);
    assert_eq!(m.header(), 0x0100);
    assert!(!m.is_response());
}

#[test]
fn query_with_empty_labels() {
    let m = Message::query(1, "a..b.", QueryType::A, QueryClass::IN);
    assert_eq!(&m.datagram[12..], &[1, b'a', 0, 1, b'b', 0, 0, 0, 1, 0, 1]);
    let m = Message::query(1, "", QueryType::A, QueryClass::IN);
    assert_eq!(&m.datagram[12..], &[0, 0, 0, 1, 0, 1]);
}

#[test]
fn message_fields() {
    let m = Message::from(&[0x12, 0x34, 0x81, 0x80, 9]);
    assert_eq!(m.datagram, vec![0x12, 0x34, 0x81, 0x80, 9]);
    assert_eq!(m.id(), 0x1234);
    assert_eq!(m.header(), 0x8180);
    assert!(m.is_response());
    assert_eq!(m.rcode(), ResponseCode::NoError);
    assert_eq!(Message::from(&[0, 0, 0x88, 0]).rcode(), ResponseCode::FormatError);
    assert_eq!(Message::from(&[0, 0, 0x90, 0]).rcode(), ResponseCode::ServerFailure);
    assert_eq!(Message::from(&[0, 0, 0x98, 0]).rcode(), ResponseCode::NameError);
    assert_eq!(Message::from(&[0, 0, 0xA0, 0]).rcode(), ResponseCode::NotImplemented);
    assert_eq!(Message::from(&[0, 0, 0xA8, 0]).rcode(), ResponseCode::Refused);
    assert_eq!(Message::from(&[0, 0, 0xF8, 0]).rcode(), ResponseCode::UnknownError);
}

#[test]
fn reply_matching() {
    let q = Message::query(0x1234, "a.b", QueryType::A, QueryClass::IN);
    let ok = Message::from(&[0x12, 0x34, 0x81, 0x80, 1, 2, 93, 184, 216, 34]);
    assert_eq!(reply_to(&q, &ok), Some(Ok([93, 184, 216, 34])));
    let other = Message::from(&[0x12, 0x35, 0x81, 0x80, 1, 2, 3, 4]);
    assert_eq!(reply_to(&q, &other), None);
    let not_reply = Message::from(&[0x12, 0x34, 0x01, 0x00, 1, 2, 3, 4]);
    assert_eq!(reply_to(&q, &not_reply), None);
    let refused = Message::from(&[0x12, 0x34, 0xA8, 0x00]);
    assert_eq!(reply_to(&q, &refused), Some(Err(ResponseCode::Refused)));
}

#[test]
fn url_with_port_and_path() {
    let u = URL::parse("http://example.com:8080/articles/index.html").unwrap();
    assert_eq!(u.host, "example.com");
    assert_eq!(u.port, 8080);
    assert_eq!(u.path, "/articles/index.html");
}

#[test]
fn url_defaults() {
    let u = URL::parse("http://example.com").unwrap();
    assert_eq!((u.host.as_str(), u.port, u.path.as_str()), ("example.com", 80, "/"));
    let u = URL::parse("http://h:x/p").unwrap();
    assert_eq!((u.host.as_str(), u.port, u.path.as_str()), ("h", 80, "/p"));
    let u = URL::parse("http://h:+81/").unwrap();
    assert_eq!(u.port, 81);
    let u = URL::parse("http://h:70000/").unwrap();
    assert_eq!(u.port, 80);
    let u = URL::parse("http://").unwrap();
    assert_eq!((u.host.as_str(), u.port, u.path.as_str()), ("", 80, "/"));
}

#[test]
fn url_other_scheme() {
    assert!(URL::parse("https://example.com/").is_none());
    assert!(URL::parse("http:/").is_none());
    assert!(URL::parse("").is_none());
}

#[test]
fn printing_state_headers() {
    let mut s = PrintingState::new();
    assert_eq!(s.file_header(), (false, false));
    s.enter_directory();
    assert_eq!(s.file_header(), (false, true));
    assert_eq!(s.file_header(), (true, true));
}

#[test]
fn line_number_width() {
    assert_eq!(number_width(0), 1);
    assert_eq!(number_width(9), 1);
    assert_eq!(number_width(10), 2);
    assert_eq!(number_width(12345), 5);
    assert_eq!(number_width(usize::MAX), 20);
}

#[test]
fn resolver_rounds() {
    assert_eq!(resolve_step(ResolveState::Bind, false, false, false, false), (ResolveAction::Bind, ResolveState::Query));
    assert_eq!(resolve_step(ResolveState::Bind, false, true, true, true), (ResolveAction::Wait, ResolveState::Bind));
    assert_eq!(resolve_step(ResolveState::Query, false, true, true, false), (ResolveAction::Send, ResolveState::Response));
    assert_eq!(resolve_step(ResolveState::Query, false, true, false, true), (ResolveAction::Wait, ResolveState::Query));
    assert_eq!(resolve_step(ResolveState::Response, false, true, true, true), (ResolveAction::Receive, ResolveState::Response));
    assert_eq!(resolve_step(ResolveState::Response, false, true, true, false), (ResolveAction::Wait, ResolveState::Response));
    assert_eq!(resolve_step(ResolveState::Query, true, true, true, true), (ResolveAction::GiveUp, ResolveState::Query));
}

#[test]
fn ephemeral_ports() {
    assert_eq!(local_port(0), 49152);
    assert_eq!(local_port(16383), 65535);
    assert_eq!(local_port(16384), 49152);
    assert_eq!(local_port(65535), 65535);
    assert_eq!(local_port(20000), 49152 + 3616);
}
