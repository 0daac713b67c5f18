use bytes::BytesMut;
use flate2::read::GzDecoder;
use http_core::buffer::BUFFER_LIMIT;
use http_core::cc::{
    file_path, handle_echo, handle_files, handle_post_files, route, Config, Route,
};
use http_core::connection::{
    accepts_gzip, adjust, frame, Action, CloseReason, Connection, Event, Frame, Phase,
};
use http_core::h1::{Content, DecodeHttpError, Encoding, Method, Request, Response};
use std::io::Read;

fn received(conn: &mut Connection, bytes: &[u8]) -> Action {
    conn.step(Event::Received(bytes.to_vec()))
}

fn dispatched(action: Action) -> Request {
    match action {
        Action::Dispatch(request) => request,
        other => panic!("not dispatched: {:?}", other),
    }
}

fn written(action: Action) -> Vec<u8> {
    match action {
        Action::Write(bytes) => bytes,
        other => panic!("not written: {:?}", other),
    }
}

fn text(body: &str) -> Response {
    Response::new(200, Content::Text(body.to_string()))
}

#[test]
fn a_new_connection_reads() {
    let conn = Connection::new();
    assert_eq!(conn.phase(), Phase::Reading);
    assert_eq!(conn.buffered(), 0);
}

#[test]
fn echo_from_end_to_end() {
    let mut conn = Connection::new();
    let request = dispatched(received(&mut conn, b"GET /echo/abc HTTP/1.1\r\nHost: x\r\n\r\n"));
    assert_eq!(conn.phase(), Phase::Dispatching);
    assert_eq!(conn.buffered(), 0);
    assert_eq!(request.method, Method::Get);
    assert_eq!(request.uri, "/echo/abc");
    let response = handle_echo(request);
    let wire = written(conn.step(Event::Handled(response)));
    assert_eq!(conn.phase(), Phase::Writing);
    assert!(wire.starts_with(b"HTTP/1.1 200 OK\r\n"));
    assert_eq!(
        wire,
        b"HTTP/1.1 200 OK\r\nContent-Type: text/plain\r\nContent-Length: 3\r\n\r\nabc".to_vec()
    );
    assert!(matches!(conn.step(Event::Written(true)), Action::Read));
    assert_eq!(conn.phase(), Phase::Reading);
}

#[test]
fn an_unknown_path_is_not_found_and_has_no_body() {
    let mut conn = Connection::new();
    let request = dispatched(received(&mut conn, b"GET /nope HTTP/1.1\r\n\r\n"));
    assert_eq!(request.uri, "/nope");
    let wire = written(conn.step(Event::Handled(Response::new(404, Content::Empty))));
    assert_eq!(wire, b"HTTP/1.1 404 Not Found\r\n\r\n".to_vec());
}

#[test]
fn a_post_carries_its_body() {
    let mut conn = Connection::new();
    let request = dispatched(received(
        &mut conn,
        b"POST /files/test.txt HTTP/1.1\r\nContent-Length: 5\r\n\r\nhello",
    ));
    assert_eq!(request.method, Method::Post);
    assert_eq!(request.uri, "/files/test.txt");
    assert_eq!(request.body, Some(b"hello".to_vec()));
    assert_eq!(conn.buffered(), 0);
    let wire = written(conn.step(Event::Handled(Response::new(201, Content::Empty))));
    assert_eq!(wire, b"HTTP/1.1 201 Created\r\n\r\n".to_vec());
}

#[test]
fn a_request_without_length_has_no_body() {
    let mut conn = Connection::new();
    let request = dispatched(received(&mut conn, b"POST /files/a HTTP/1.1\r\n\r\nhello"));
    assert_eq!(request.body, None);
    assert_eq!(conn.buffered(), 5);
}

#[test]
fn a_length_of_nothing_is_an_empty_body() {
    let mut conn = Connection::new();
    let request =
        dispatched(received(&mut conn, b"POST /files/a HTTP/1.1\r\nContent-Length: 0\r\n\r\n"));
    assert_eq!(request.body, Some(Vec::new()));
}

#[test]
fn a_header_block_in_pieces_is_waited_for() {
    let mut conn = Connection::new();
    assert!(matches!(received(&mut conn, b"GET /echo/ab"), Action::Read));
    assert_eq!(conn.phase(), Phase::Reading);
    assert_eq!(conn.buffered(), 12);
    assert!(matches!(received(&mut conn, b"c HTTP/1.1\r\nHost: x\r\n\r"), Action::Read));
    assert_eq!(conn.buffered(), 34);
    let request = dispatched(received(&mut conn, b"\n"));
    assert_eq!(request.uri, "/echo/abc");
    assert_eq!(request.headers.get("Host"), Some("x"));
    assert_eq!(conn.buffered(), 0);
}

#[test]
fn a_body_in_pieces_is_waited_for() {
    let mut conn = Connection::new();
    let head = b"POST /files/a HTTP/1.1\r\nContent-Length: 10\r\n\r\n";
    assert!(matches!(received(&mut conn, head), Action::Read));
    assert!(matches!(received(&mut conn, b"01234"), Action::Read));
    assert_eq!(conn.buffered(), head.len() + 5);
    let request = dispatched(received(&mut conn, b"56789GET"));
    assert_eq!(request.body, Some(b"0123456789".to_vec()));
    assert_eq!(conn.buffered(), 3);
}

#[test]
fn end_of_input_closes() {
    let mut conn = Connection::new();
    assert!(matches!(received(&mut conn, b""), Action::Close(CloseReason::EndOfInput)));
    assert_eq!(conn.phase(), Phase::Closed);
    let mut conn = Connection::new();
    assert!(matches!(received(&mut conn, b"GET / HT"), Action::Read));
    assert!(matches!(received(&mut conn, b""), Action::Close(CloseReason::EndOfInput)));
    assert_eq!(conn.phase(), Phase::Closed);
}

#[test]
fn a_request_that_cannot_be_served_closes() {
    let mut conn = Connection::new();
    let action = received(&mut conn, b"PUT /x HTTP/1.1\r\n\r\n");
    match action {
        Action::Close(CloseReason::Rejected(DecodeHttpError::UnsupportedMethod(token))) => {
            assert_eq!(token, "PUT")
        }
        other => panic!("{:?}", other),
    }
    assert_eq!(conn.phase(), Phase::Closed);
    let mut conn = Connection::new();
    assert!(matches!(
        received(&mut conn, b"GET /x\r\n\r\n"),
        Action::Close(CloseReason::Rejected(DecodeHttpError::MalformedHeaderLine))
    ));
    assert_eq!(conn.phase(), Phase::Closed);
}

#[test]
fn a_length_that_is_no_number_closes() {
    for value in ["five", "-1", "+5", "5 5", "", "99999999999999999999999999"] {
        let mut conn = Connection::new();
        let input = format!("POST /files/a HTTP/1.1\r\nContent-Length: {}\r\n\r\nhello", value);
        assert!(
            matches!(
                received(&mut conn, input.as_bytes()),
                Action::Close(CloseReason::Rejected(DecodeHttpError::MalformedHeaderLine))
            ),
            "{:?}",
            value
        );
        assert_eq!(conn.phase(), Phase::Closed);
    }
}

#[test]
fn a_length_beyond_the_buffer_closes() {
    assert_eq!(BUFFER_LIMIT, 64 * 1024 * 1024);
    let head = |length: usize| format!("POST /files/a HTTP/1.1\r\nContent-Length: {}\r\n\r\n", length);
    let mut conn = Connection::new();
    assert!(matches!(
        received(&mut conn, head(BUFFER_LIMIT).as_bytes()),
        Action::Close(CloseReason::TooLarge)
    ));
    assert_eq!(conn.phase(), Phase::Closed);
    let fits = BUFFER_LIMIT - head(BUFFER_LIMIT).len();
    assert_eq!(head(fits).len() + fits, BUFFER_LIMIT);
    let mut conn = Connection::new();
    assert!(matches!(
        received(&mut conn, head(fits + 1).as_bytes()),
        Action::Close(CloseReason::TooLarge)
    ));
    let mut conn = Connection::new();
    assert!(matches!(received(&mut conn, head(fits).as_bytes()), Action::Read));
    assert_eq!(conn.phase(), Phase::Reading);
}

#[test]
fn bytes_beyond_the_buffer_close() {
    let mut conn = Connection::new();
    assert!(matches!(received(&mut conn, &vec![b'a'; BUFFER_LIMIT]), Action::Read));
    assert_eq!(conn.buffered(), BUFFER_LIMIT);
    assert!(matches!(received(&mut conn, b"a"), Action::Close(CloseReason::TooLarge)));
    assert_eq!(conn.phase(), Phase::Closed);
    assert_eq!(conn.buffered(), BUFFER_LIMIT);
    let mut conn = Connection::new();
    assert!(matches!(
        received(&mut conn, &vec![b'a'; BUFFER_LIMIT + 1]),
        Action::Close(CloseReason::TooLarge)
    ));
    assert_eq!(conn.buffered(), 0);
}

#[test]
fn a_body_up_to_the_limit_is_taken() {
    let head = "POST /files/a HTTP/1.1\r\nContent-Length: 5000000\r\n\r\n";
    let mut conn = Connection::new();
    assert!(matches!(received(&mut conn, head.as_bytes()), Action::Read));
    assert!(matches!(received(&mut conn, &vec![7u8; 4_999_999]), Action::Read));
    let request = dispatched(received(&mut conn, &[7u8, b'G']));
    assert_eq!(request.body, Some(vec![7u8; 5_000_000]));
    assert_eq!(conn.buffered(), 1);
}

#[test]
fn connection_close_is_answered_and_obeyed() {
    let mut conn = Connection::new();
    let request =
        dispatched(received(&mut conn, b"GET /echo/abc HTTP/1.1\r\nConnection: close\r\n\r\n"));
    assert_eq!(request.headers.get("Connection"), Some("close"));
    let wire = written(conn.step(Event::Handled(text("abc"))));
    assert_eq!(
        wire,
        b"HTTP/1.1 200 OK\r\nConnection: close\r\nContent-Type: text/plain\r\nContent-Length: 3\r\n\r\nabc"
            .to_vec()
    );
    assert!(matches!(conn.step(Event::Written(true)), Action::Close(CloseReason::Finished)));
    assert_eq!(conn.phase(), Phase::Closed);
}

#[test]
fn connection_close_is_matched_letter_for_letter() {
    for value in ["Close", "CLOSE", "close, x", "keep-alive", ""] {
        let mut conn = Connection::new();
        let input = format!("GET / HTTP/1.1\r\nConnection: {}\r\n\r\n", value);
        dispatched(received(&mut conn, input.as_bytes()));
        let wire = written(conn.step(Event::Handled(Response::new(200, Content::Empty))));
        assert_eq!(wire, b"HTTP/1.1 200 OK\r\n\r\n".to_vec(), "{:?}", value);
        assert!(matches!(conn.step(Event::Written(true)), Action::Read));
        assert_eq!(conn.phase(), Phase::Reading);
    }
    let mut conn = Connection::new();
    dispatched(received(&mut conn, b"GET / HTTP/1.1\r\nconnection: close\r\n\r\n"));
    written(conn.step(Event::Handled(Response::new(200, Content::Empty))));
    assert!(matches!(conn.step(Event::Written(true)), Action::Read));
}

#[test]
fn connection_close_with_spaces_is_close() {
    let mut conn = Connection::new();
    dispatched(received(&mut conn, b"GET / HTTP/1.1\r\nConnection:   close  \r\n\r\n"));
    let wire = written(conn.step(Event::Handled(Response::new(200, Content::Empty))));
    assert_eq!(wire, b"HTTP/1.1 200 OK\r\nConnection: close\r\n\r\n".to_vec());
    assert!(matches!(conn.step(Event::Written(true)), Action::Close(CloseReason::Finished)));
}

#[test]
fn gzip_is_negotiated() {
    let mut conn = Connection::new();
    dispatched(received(
        &mut conn,
        b"GET /echo/abc HTTP/1.1\r\nAccept-Encoding: gzip, deflate\r\n\r\n",
    ));
    let wire = written(conn.step(Event::Handled(text("abc"))));
    let at = wire.windows(4).position(|w| w == b"\r\n\r\n").unwrap();
    let head = String::from_utf8(wire[..at + 2].to_vec()).unwrap();
    let body = &wire[at + 4..];
    assert_eq!(
        head,
        format!(
            "HTTP/1.1 200 OK\r\nContent-Encoding: gzip\r\nContent-Type: text/plain\r\nContent-Length: {}\r\n",
            body.len()
        )
    );
    let mut plain = Vec::new();
    GzDecoder::new(body).read_to_end(&mut plain).unwrap();
    assert_eq!(plain, b"abc");
    assert!(matches!(conn.step(Event::Written(true)), Action::Read));
}

#[test]
fn gzip_is_not_used_where_it_is_not_accepted() {
    for value in ["deflate", "br, deflate", "GZIP", "gzip;q=1.0", "x-gzip", ""] {
        let mut conn = Connection::new();
        let input = format!("GET / HTTP/1.1\r\nAccept-Encoding: {}\r\n\r\n", value);
        dispatched(received(&mut conn, input.as_bytes()));
        let wire = written(conn.step(Event::Handled(text("abc"))));
        assert_eq!(
            wire,
            b"HTTP/1.1 200 OK\r\nContent-Type: text/plain\r\nContent-Length: 3\r\n\r\nabc".to_vec(),
            "{:?}",
            value
        );
    }
}

#[test]
fn accepts_gzip_looks_at_each_field() {
    assert!(accepts_gzip("gzip"));
    assert!(accepts_gzip("gzip, deflate"));
    assert!(accepts_gzip("deflate,gzip"));
    assert!(accepts_gzip("br ,\tgzip , deflate"));
    assert!(accepts_gzip(",gzip,"));
    assert!(!accepts_gzip(""));
    assert!(!accepts_gzip("deflate"));
    assert!(!accepts_gzip("gzip deflate"));
    assert!(!accepts_gzip("Gzip"));
    assert!(!accepts_gzip("gzip;q=0.5"));
    assert!(!accepts_gzip("g zip"));
}

#[test]
fn adjust_writes_close_and_marks_gzip() {
    let response = adjust(text("abc"), false, false);
    assert_eq!(response.headers.len(), 0);
    assert_eq!(response.encoding, Encoding::Identity);
    let response = adjust(text("abc"), true, false);
    assert_eq!(response.headers.get("Connection"), Some("close"));
    assert_eq!(response.headers.len(), 1);
    assert_eq!(response.encoding, Encoding::Identity);
    let response = adjust(text("abc"), false, true);
    assert_eq!(response.headers.len(), 0);
    assert_eq!(response.encoding, Encoding::Gzip);
    let mut own = text("abc");
    own.headers.insert("Connection".to_string(), "keep-alive".to_string());
    own.encoding = Encoding::Gzip;
    let response = adjust(own, true, false);
    assert_eq!(response.headers.get("Connection"), Some("close"));
    assert_eq!(response.headers.len(), 1);
    assert_eq!(response.encoding, Encoding::Gzip);
    assert_eq!(response.status, 200);
    assert!(matches!(&response.content, Content::Text(body) if body == "abc"));
}

#[test]
fn a_failed_write_closes() {
    let mut conn = Connection::new();
    dispatched(received(&mut conn, b"GET / HTTP/1.1\r\n\r\n"));
    written(conn.step(Event::Handled(Response::new(200, Content::Empty))));
    assert!(matches!(conn.step(Event::Written(false)), Action::Close(CloseReason::WriteFailed)));
    assert_eq!(conn.phase(), Phase::Closed);
}

#[test]
fn a_connection_serves_one_request_after_the_other() {
    let mut conn = Connection::new();
    for name in ["one", "two", "three"] {
        let input = format!("GET /echo/{} HTTP/1.1\r\n\r\n", name);
        let request = dispatched(received(&mut conn, input.as_bytes()));
        let wire = written(conn.step(Event::Handled(handle_echo(request))));
        assert!(wire.ends_with(name.as_bytes()));
        assert!(matches!(conn.step(Event::Written(true)), Action::Read));
        assert_eq!(conn.buffered(), 0);
    }
}

#[test]
fn a_request_that_is_already_held_is_served_next() {
    let mut conn = Connection::new();
    let first =
        dispatched(received(&mut conn, b"GET /echo/a HTTP/1.1\r\n\r\nGET /echo/b HTTP/1.1\r\n\r\nGET /ec"));
    assert_eq!(first.uri, "/echo/a");
    written(conn.step(Event::Handled(handle_echo(first))));
    let second = dispatched(conn.step(Event::Written(true)));
    assert_eq!(second.uri, "/echo/b");
    assert_eq!(conn.phase(), Phase::Dispatching);
    written(conn.step(Event::Handled(handle_echo(second))));
    assert!(matches!(conn.step(Event::Written(true)), Action::Read));
    assert_eq!(conn.buffered(), 7);
}

#[test]
fn close_and_gzip_are_taken_from_each_request_anew() {
    let mut conn = Connection::new();
    dispatched(received(&mut conn, b"GET / HTTP/1.1\r\nAccept-Encoding: gzip\r\n\r\n"));
    let wire = written(conn.step(Event::Handled(text("abc"))));
    assert!(wire.windows(22).any(|w| w == b"Content-Encoding: gzip"));
    assert!(matches!(conn.step(Event::Written(true)), Action::Read));
    dispatched(received(&mut conn, b"GET / HTTP/1.1\r\n\r\n"));
    let wire = written(conn.step(Event::Handled(text("abc"))));
    assert_eq!(
        wire,
        b"HTTP/1.1 200 OK\r\nContent-Type: text/plain\r\nContent-Length: 3\r\n\r\nabc".to_vec()
    );
}

#[test]
fn events_out_of_turn_close() {
    let mut conn = Connection::new();
    assert!(matches!(conn.step(Event::Written(true)), Action::Close(CloseReason::OutOfTurn)));
    assert_eq!(conn.phase(), Phase::Closed);
    assert!(matches!(received(&mut conn, b"GET / HTTP/1.1\r\n\r\n"), Action::Close(CloseReason::OutOfTurn)));
    let mut conn = Connection::new();
    assert!(matches!(
        conn.step(Event::Handled(Response::new(200, Content::Empty))),
        Action::Close(CloseReason::OutOfTurn)
    ));
    let mut conn = Connection::new();
    dispatched(received(&mut conn, b"GET / HTTP/1.1\r\n\r\n"));
    assert!(matches!(received(&mut conn, b"more"), Action::Close(CloseReason::OutOfTurn)));
    assert_eq!(conn.phase(), Phase::Closed);
}

#[test]
fn a_missing_terminator_leaves_the_buffer_as_it_is() {
    let mut held = BytesMut::from(&b"GET /echo/abc HTTP/1.1\r\nHost: x\r\n"[..]);
    assert!(matches!(frame(&held), Frame::Incomplete));
    assert_eq!(&held[..], b"GET /echo/abc HTTP/1.1\r\nHost: x\r\n");
    held.extend_from_slice(b"\r\n");
    match frame(&held) {
        Frame::Complete(request, used) => {
            assert_eq!(request.uri, "/echo/abc");
            assert_eq!(used, held.len());
        }
        _ => panic!("not complete"),
    }
}

#[test]
fn frame_tells_what_the_buffer_holds() {
    let held = BytesMut::from(&b"POST /a HTTP/1.1\r\nContent-Length: 3\r\n\r\nab"[..]);
    assert!(matches!(frame(&held), Frame::Incomplete));
    let held = BytesMut::from(&b"POST /a HTTP/1.1\r\nContent-Length: 3\r\n\r\nabcd"[..]);
    match frame(&held) {
        Frame::Complete(request, used) => {
            assert_eq!(request.body, Some(b"abc".to_vec()));
            assert_eq!(used, held.len() - 1);
        }
        _ => panic!("not complete"),
    }
    let held = BytesMut::from(&b"POST /a HTTP/1.1\r\nContent-Length: x\r\n\r\n"[..]);
    assert!(matches!(
        frame(&held),
        Frame::Broken(CloseReason::Rejected(DecodeHttpError::MalformedHeaderLine))
    ));
}

#[test]
fn a_posted_file_is_answered_and_can_be_asked_for() {
    let config = Config { directory: Some("/tmp/".to_string()) };
    let mut conn = Connection::new();
    let request = dispatched(received(
        &mut conn,
        b"POST /files/test.txt HTTP/1.1\r\nContent-Length: 5\r\n\r\nhello",
    ));
    assert_eq!(route(&request), Route::StoreFile);
    assert_eq!(file_path(&config, &request).unwrap(), "/tmp/test.txt");
    let kept = request.body.clone().unwrap();
    assert_eq!(kept, b"hello");
    let wire = written(conn.step(Event::Handled(handle_post_files(&config, request, true))));
    assert_eq!(wire, b"HTTP/1.1 201 Created\r\n\r\n".to_vec());
    assert!(matches!(conn.step(Event::Written(true)), Action::Read));

    let request = dispatched(received(&mut conn, b"GET /files/test.txt HTTP/1.1\r\n\r\n"));
    assert_eq!(route(&request), Route::ReadFile);
    assert_eq!(file_path(&config, &request).unwrap(), "/tmp/test.txt");
    let wire = written(conn.step(Event::Handled(handle_files(&config, request, Some(kept)))));
    assert_eq!(wire, b"HTTP/1.1 200 OK\r\nContent-Length: 5\r\n\r\nhello".to_vec());
    assert!(matches!(conn.step(Event::Written(true)), Action::Read));

    let request = dispatched(received(&mut conn, b"GET /files/missing.txt HTTP/1.1\r\n\r\n"));
    let wire = written(conn.step(Event::Handled(handle_files(&config, request, None))));
    assert!(wire.starts_with(b"HTTP/1.1 404 Not Found\r\n"));
    assert_eq!(
        wire,
        b"HTTP/1.1 404 Not Found\r\nContent-Type: text/plain\r\nContent-Length: 14\r\n\r\nFile not found"
            .to_vec()
    );
}
