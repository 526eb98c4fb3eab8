use canton::net::{
    gmcp_request, line_data, normalize_string, LineBuffer, Received, TelnetCmd, TelnetEvent,
    TelnetIn, TelnetOpt,
};

#[test]
fn bare_line_feeds_become_crlf() {
    assert_eq!(normalize_string("a\nb"), b"a\r\nb".to_vec());
    assert_eq!(normalize_string("a\r\nb"), b"a\r\nb".to_vec());
    assert_eq!(normalize_string("\n\n"), b"\r\n\r\n".to_vec());
    assert_eq!(normalize_string("x\r"), b"x\r".to_vec());
    assert_eq!(normalize_string(""), Vec::<u8>::new());
}

#[test]
fn lines_end_with_crlf() {
    assert_eq!(line_data("hi"), b"hi\r\n".to_vec());
    assert_eq!(line_data("hi\n"), b"hi\r\n".to_vec());
    assert_eq!(line_data("hi\r\n"), b"hi\r\n".to_vec());
    assert_eq!(line_data(""), b"\r\n".to_vec());
    assert_eq!(line_data("é\nü"), "é\r\nü\r\n".as_bytes().to_vec());
}

#[test]
fn incoming_data_is_cut_into_lines() {
    let mut buf = LineBuffer::new();
    assert!(buf.push_data(b"hel").is_empty());
    assert_eq!(buf.push_data(b"lo\r\nwor"), vec![b"hello".to_vec()]);
    assert_eq!(buf.push_data(b"ld\n\r\n"), vec![b"world".to_vec(), Vec::new()]);
    assert!(buf.push_data(b"").is_empty());
}

#[test]
fn pieces_give_the_same_lines_as_the_whole() {
    let data = b"look\r\nsay hi\n\nquit\r\npartial";
    let mut whole = LineBuffer::new();
    let all = whole.push_data(data);
    for cut in 0..data.len() {
        let mut pieces = LineBuffer::new();
        let mut lines = pieces.push_data(&data[..cut]);
        lines.extend(pieces.push_data(&data[cut..]));
        assert_eq!(lines, all);
    }
    assert_eq!(all, vec![b"look".to_vec(), b"say hi".to_vec(), Vec::new(), b"quit".to_vec()]);
}

#[test]
fn telnet_input_holds_one_event() {
    let mut input = TelnetIn::new();
    assert!(input.wants_event());
    assert!(input.next_line().is_none());
    input.update(Received::Event(TelnetEvent::Cmd(TelnetCmd::GoAhead)));
    assert!(!input.wants_event());
    assert!(input.next_line().is_none());
    assert!(matches!(input.next_telnet(), Some(TelnetEvent::Cmd(TelnetCmd::GoAhead))));
    input.update(Received::Event(TelnetEvent::Data(b"hi \xff".to_vec())));
    assert!(input.next_telnet().is_none());
    assert_eq!(input.next_line().as_deref(), Some("hi \u{fffd}"));
    assert!(!input.closed());
    input.update(Received::Empty);
    assert!(!input.closed());
    input.update(Received::Disconnected);
    assert!(input.closed());
}

#[test]
fn gmcp_requests() {
    assert_eq!(gmcp_request(&TelnetEvent::Negotiation(TelnetCmd::Do, TelnetOpt::Gmcp)), Some(true));
    assert_eq!(gmcp_request(&TelnetEvent::Negotiation(TelnetCmd::Dont, TelnetOpt::Gmcp)), Some(false));
    assert_eq!(gmcp_request(&TelnetEvent::Negotiation(TelnetCmd::Do, TelnetOpt::Echo)), None);
    assert_eq!(gmcp_request(&TelnetEvent::Data(Vec::new())), None);
}

#[test]
fn rewriting_line_ends_twice_changes_nothing() {
    let once = normalize_string("a\nb\r\nc\n\n");
    assert_eq!(once, b"a\r\nb\r\nc\r\n\r\n".to_vec());
    assert_eq!(once.len(), "a\nb\r\nc\n\n".len() + 3);
    let twice = normalize_string(std::str::from_utf8(&once).unwrap());
    assert_eq!(twice, once);
}

#[test]
fn a_refused_event_is_offered_again() {
    let mut input = TelnetIn::new();
    assert_eq!(input.next(|_| Ok::<u8, TelnetEvent>(1)), None);
    input.update(Received::Event(TelnetEvent::Data(b"x".to_vec())));
    let r: Option<u8> = input.next(|e| Err(e));
    assert_eq!(r, None);
    assert!(!input.closed());
    assert!(!input.wants_event());
    let r = input.next(|e| match e {
        TelnetEvent::Data(d) => Ok(d),
        other => Err(other),
    });
    assert_eq!(r, Some(b"x".to_vec()));
    assert!(input.wants_event());
}
