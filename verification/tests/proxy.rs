use ylong_http_client::proxy::{
    judge, other_io_error, tunnel, CreateTunnelErr, Event, IoError, Step, Verdict, HEAD_LIMIT,
};
use ylong_http_client::text::{contains, find_at, put_decimal, put_str, starts_with};

type Outcome = Result<(), IoError<&'static str>>;

/// Opens a tunnel over a connection on which each read finds the next of
/// `replies`, as far as there is room for it. After the last one the connection is
/// closed.
fn open(replies: &[&[u8]]) -> (Vec<u8>, Outcome) {
    let auth = Some(String::from("base64 bytes"));
    let (mut state, request) = tunnel("ylong_http.com", 443, auth);
    let mut event: Event<&'static str> = Event::Written;
    let mut next = 0;
    loop {
        match state.advance(event) {
            Step::Read { tunnel, max } => {
                assert!(max > 0);
                state = tunnel;
                let data = if next < replies.len() { replies[next] } else { b"" };
                next += 1;
                assert!(data.len() <= max);
                event = Event::Received(data.to_vec());
            }
            Step::Done(outcome) => return (request, outcome),
        }
    }
}

fn refused(outcome: &Outcome, err: CreateTunnelErr) -> bool {
    match outcome {
        Err(IoError::Other(e)) => e.fmt() == err.fmt(),
        _ => false,
    }
}

#[test]
fn ut_tunnel_error_debug_assert() {
    assert_eq!(
        CreateTunnelErr::ProxyHeadersTooLong.fmt(),
        "Proxy headers too long for tunnel"
    );
    assert_eq!(
        CreateTunnelErr::ProxyAuthenticationRequired.fmt(),
        "Proxy authentication required"
    );
    assert_eq!(CreateTunnelErr::Unsuccessful.fmt(), "Unsuccessful tunnel");
    assert_eq!(
        format!("{}", CreateTunnelErr::ProxyHeadersTooLong.fmt()),
        "Proxy headers too long for tunnel"
    );
    assert_eq!(
        format!("{}", CreateTunnelErr::ProxyAuthenticationRequired.fmt()),
        "Proxy authentication required"
    );
    assert_eq!(
        format!("{}", CreateTunnelErr::Unsuccessful.fmt()),
        "Unsuccessful tunnel"
    );
}

#[test]
fn ut_ssl_tunnel_error() {
    let (_, outcome) = open(&[]);
    assert!(refused(&outcome, CreateTunnelErr::Unsuccessful));

    let (_, outcome) = open(&[
        b"HTTP/1.1 407 Proxy Authentication Required\r\nContent-Length: 11\r\n\r\nMETHOD GET!",
    ]);
    assert!(refused(&outcome, CreateTunnelErr::ProxyAuthenticationRequired));

    let (_, outcome) = open(&[
        b"HTTP/1.1 402 Payment Required\r\nContent-Length: 11\r\n\r\nMETHOD GET!",
    ]);
    assert!(refused(&outcome, CreateTunnelErr::Unsuccessful));
}

#[test]
fn ut_ssl_tunnel_connect() {
    let (_, outcome) = open(&[b"HTTP/1.1 200 OK\r\n\r\n"]);
    assert!(outcome.is_ok());
}

#[test]
fn ut_ssl_tunnel_resp_beyond_size() {
    let mut response = b"HTTP/1.1 200 ".to_vec();
    response.resize(8192, b'b');
    let (_, outcome) = open(&[&response]);
    assert!(refused(&outcome, CreateTunnelErr::ProxyHeadersTooLong));
}

#[test]
fn request_with_credentials() {
    let (request, _) = open(&[]);
    let expected: &[u8] = b"CONNECT ylong_http.com:443 HTTP/1.1\r\nHost: ylong_http.com:443\r\n\
        Proxy-Authorization: Basic base64 bytes\r\n\r\n";
    assert_eq!(request, expected);
}

#[test]
fn request_without_credentials() {
    let (_, request) = tunnel("foobar.com", 8443, None);
    let expected: &[u8] = b"CONNECT foobar.com:8443 HTTP/1.1\r\nHost: foobar.com:8443\r\n\r\n";
    assert_eq!(request, expected);
}

#[test]
fn credentials_add_a_line_before_the_end() {
    let (_, plain) = tunnel("foobar.com", 80, None);
    let (_, with) = tunnel("foobar.com", 80, Some(String::from("dXNlcjpwYXNz")));
    let head = &plain[..plain.len() - 2];
    let mut expected = head.to_vec();
    expected.extend_from_slice(b"Proxy-Authorization: Basic dXNlcjpwYXNz\r\n\r\n");
    assert_eq!(with, expected);
}

#[test]
fn request_holds_one_blank_line() {
    let (_, request) = tunnel("b\u{fc}cher.example", 1, Some(String::from("a")));
    let at: Vec<usize> = (0..request.len())
        .filter(|i| find_at(b"\r\n\r\n", &request, *i))
        .collect();
    assert_eq!(at, vec![request.len() - 4]);
    assert!(starts_with(&request, "CONNECT b\u{fc}cher.example:1 HTTP/1.1\r\n".as_bytes()));
}

#[test]
fn single_line_breaks_make_no_blank_line() {
    let (_, request) = tunnel("a\r\nb\n", 1, Some(String::from("c\r\nd\n")));
    let at: Vec<usize> = (0..request.len())
        .filter(|i| find_at(b"\r\n\r\n", &request, *i))
        .collect();
    assert_eq!(at, vec![request.len() - 4]);
}

#[test]
fn the_longest_run_takes_a_read_for_each_byte() {
    let mut stream = b"HTTP/1.1 2".to_vec();
    stream.resize(8192, b'b');
    let (mut state, _) = tunnel("h", 1, None);
    let mut events = 1;
    let mut step: Step<()> = state.advance(Event::Written);
    let mut pos = 0;
    while let Step::Read { tunnel, max: _ } = step {
        state = tunnel;
        let end = if pos == 0 { 10 } else { pos + 1 };
        step = state.advance(Event::Received(stream[pos..end].to_vec()));
        pos = end;
        events += 1;
    }
    assert_eq!(events, HEAD_LIMIT - 8);
}

#[test]
fn ports_are_written_in_decimal() {
    for port in [0u16, 7, 10, 99, 100, 443, 8080, 10000, 65535] {
        let mut out: Vec<u8> = vec![b'x'];
        put_decimal(&mut out, port);
        assert_eq!(out, format!("x{}", port).into_bytes());
    }
}

#[test]
fn text_is_written_as_utf8() {
    let mut out: Vec<u8> = vec![1];
    put_str(&mut out, "\u{e9}a");
    assert_eq!(out, vec![1, 0xc3, 0xa9, b'a']);
}

#[test]
fn bytes_are_found() {
    assert!(contains(b"abc", b"bc"));
    assert!(!contains(b"abc", b"cb"));
    assert!(contains(b"", b""));
    assert!(contains(b"a", b""));
    assert!(!contains(b"a", b"ab"));
    assert!(starts_with(b"abc", b"ab"));
    assert!(!starts_with(b"abc", b"bc"));
    assert!(!starts_with(b"a", b"ab"));
    assert!(find_at(b"c", b"abc", 2));
    assert!(!find_at(b"c", b"abc", 3));
    assert!(!find_at(b"c", b"abc", usize::MAX));
}

#[test]
fn replies_of_http_1_0_are_accepted() {
    let (_, outcome) = open(&[b"HTTP/1.0 200 Connection established\r\n\r\n"]);
    assert!(outcome.is_ok());
    let (_, outcome) = open(&[b"HTTP/1.1 299 Odd\r\n\r\n"]);
    assert!(outcome.is_ok());
}

#[test]
fn credentials_are_demanded_by_http_1_1_alone() {
    let (_, outcome) = open(&[b"HTTP/1.0 407 Proxy Authentication Required\r\n\r\n"]);
    assert!(refused(&outcome, CreateTunnelErr::Unsuccessful));
    let (_, outcome) = open(&[b"HTTP/1.1 407", b" more"]);
    assert!(refused(&outcome, CreateTunnelErr::ProxyAuthenticationRequired));
}

#[test]
fn chunks_do_not_matter() {
    let reply: &[u8] = b"HTTP/1.1 200 OK\r\nVia: p\r\n\r\n";
    for cut in 10..reply.len() {
        let (_, outcome) = open(&[&reply[..cut], &reply[cut..]]);
        assert!(outcome.is_ok());
    }
    let bytes: Vec<&[u8]> = reply[10..].chunks(1).collect();
    let mut reads: Vec<&[u8]> = vec![&reply[..10]];
    reads.extend(bytes);
    let (_, outcome) = open(&reads);
    assert!(outcome.is_ok());
}

#[test]
fn chunks_of_a_long_stream_do_not_matter() {
    let mut stream = b"HTTP/1.1 200 OK\r\n\r\n".to_vec();
    stream.resize(10000, b'b');
    for cut in [10, 18, 19, 20, 8192] {
        let (_, outcome) = open(&[&stream[..cut], &stream[cut..8192], &stream[8192..]]);
        assert!(outcome.is_ok());
    }

    let mut stream = b"HTTP/1.1 200 ".to_vec();
    stream.resize(8190, b'b');
    stream.extend_from_slice(b"\r\n\r\n and more");
    for cut in [10, 4096, 8191] {
        let (_, outcome) = open(&[&stream[..cut], &stream[cut..8192], &stream[8192..]]);
        assert!(refused(&outcome, CreateTunnelErr::ProxyHeadersTooLong));
    }
}

#[test]
fn a_first_read_without_the_status_is_refused() {
    let (_, outcome) = open(&[b"HTTP/1.1 ", b"200 OK\r\n\r\n"]);
    assert!(refused(&outcome, CreateTunnelErr::Unsuccessful));
}

#[test]
fn a_head_that_is_cut_short_is_refused() {
    let (_, outcome) = open(&[b"HTTP/1.1 200 OK\r\n", b"Via: p\r\n"]);
    assert!(refused(&outcome, CreateTunnelErr::Unsuccessful));
}

#[test]
fn a_head_may_fill_the_limit() {
    let mut response = b"HTTP/1.1 200 ".to_vec();
    response.resize(HEAD_LIMIT - 4, b'b');
    response.extend_from_slice(b"\r\n\r\n");
    assert_eq!(response.len(), 8192);
    let (_, outcome) = open(&[&response[..100], &response[100..8191], &response[8191..]]);
    assert!(outcome.is_ok());
}

#[test]
fn a_read_is_for_what_is_left_of_the_limit() {
    let (state, _) = tunnel("h", 1, None);
    let step: Step<()> = state.advance(Event::Written);
    let Step::Read { tunnel, max } = step else {
        panic!("the request is sent, so the reply is read");
    };
    assert_eq!(max, 8192);
    let step: Step<()> = tunnel.advance(Event::Received(b"HTTP/1.1 200 OK\r\n".to_vec()));
    let Step::Read { tunnel: _, max } = step else {
        panic!("the head is not complete");
    };
    assert_eq!(max, 8192 - 17);
}

#[test]
fn failures_are_passed_on() {
    let (state, _) = tunnel("h", 1, None);
    match state.advance(Event::Failed("broken pipe")) {
        Step::Done(Err(IoError::Transport(err))) => assert_eq!(err, "broken pipe"),
        _ => panic!("a failed write ends the tunnel"),
    }

    let (state, _) = tunnel("h", 1, None);
    let step: Step<&'static str> = state.advance(Event::Written);
    let Step::Read { tunnel, max: _ } = step else {
        panic!("the request is sent, so the reply is read");
    };
    match tunnel.advance(Event::Failed("reset")) {
        Step::Done(Err(IoError::Transport(err))) => assert_eq!(err, "reset"),
        _ => panic!("a failed read ends the tunnel"),
    }
}

#[test]
fn replies_are_judged() {
    assert!(matches!(judge(b"HTTP/1.1 200 OK\r\n\r\n"), Verdict::Established));
    assert!(matches!(judge(b"HTTP/1.1 2"), Verdict::Incomplete));
    assert!(matches!(
        judge(b"HTTP/1.1 407"),
        Verdict::Refused(CreateTunnelErr::ProxyAuthenticationRequired)
    ));
    assert!(matches!(judge(b"HTTP/1.1 40"), Verdict::Refused(CreateTunnelErr::Unsuccessful)));
    assert!(matches!(judge(b""), Verdict::Refused(CreateTunnelErr::Unsuccessful)));
    assert!(matches!(
        judge(b"HTTP/2 200\r\n\r\n"),
        Verdict::Refused(CreateTunnelErr::Unsuccessful)
    ));
}

#[test]
fn refusals_become_io_errors() {
    let io: IoError<()> = other_io_error(CreateTunnelErr::ProxyHeadersTooLong);
    assert!(matches!(io, IoError::Other(CreateTunnelErr::ProxyHeadersTooLong)));
}
