//! The envelope: what goes out, what comes back in whatever sizes a pipe hands over, and what ends
//! a stream.

use moon_lsp::framing::{self, Frames, FramingError, MAX_BODY_BYTES, MAX_HEADER_BYTES};

/// The next message of a stream that is not broken.
fn next(frames: &mut Frames) -> Option<String> {
    frames.next_message().expect("expected a readable stream")
}

#[test]
fn a_message_goes_out_with_its_length_in_bytes_ahead_of_it() {
    assert_eq!(
        String::from_utf8(framing::frame(r#"{"id":1}"#)).expect("expected a text frame"),
        "Content-Length: 8\r\n\r\n{\"id\":1}"
    );
}

#[test]
fn a_frame_length_counts_bytes_rather_than_characters() {
    let framed = String::from_utf8(framing::frame(r#"{"a":"é"}"#)).expect("expected a text frame");
    assert!(
        framed.starts_with("Content-Length: 10\r\n"),
        "expected the two bytes of é to count twice, got {framed}"
    );
}

#[test]
fn a_message_split_across_reads_is_read_out_once_all_of_it_has_arrived() {
    let framed = framing::frame(r#"{"id":7,"result":null}"#);
    let (front, back) = framed.split_at(12);

    let mut frames = Frames::default();
    frames.push(front);
    assert!(
        next(&mut frames).is_none(),
        "half a message is not a message"
    );
    frames.push(back);
    assert_eq!(
        next(&mut frames).expect("expected the whole message"),
        r#"{"id":7,"result":null}"#
    );
    assert!(
        next(&mut frames).is_none(),
        "there was only one message"
    );
}

#[test]
fn two_messages_arriving_together_are_read_out_in_order() {
    let mut arrived = framing::frame(r#"{"id":1}"#);
    arrived.extend_from_slice(&framing::frame(r#"{"id":2}"#));

    let mut frames = Frames::default();
    frames.push(&arrived);
    assert_eq!(next(&mut frames).as_deref(), Some(r#"{"id":1}"#));
    assert_eq!(next(&mut frames).as_deref(), Some(r#"{"id":2}"#));
    assert_eq!(next(&mut frames), None);
}

#[test]
fn a_header_with_a_content_type_beside_the_length_is_still_read() {
    let mut frames = Frames::default();
    frames.push(b"Content-Type: application/vscode-jsonrpc\r\nContent-Length: 8\r\n\r\n{\"id\":1}");
    assert_eq!(next(&mut frames).as_deref(), Some(r#"{"id":1}"#));
}

/// Fed one byte at a time, a message is read out with its last byte and not before.
#[test]
fn a_message_arriving_byte_by_byte_is_read_out_with_its_last_byte() {
    let framed = framing::frame("{}");
    let mut frames = Frames::default();
    for byte in &framed[..framed.len() - 1] {
        frames.push(&[*byte]);
        assert_eq!(next(&mut frames), None);
    }
    frames.push(&framed[framed.len() - 1..]);
    assert_eq!(next(&mut frames).as_deref(), Some("{}"));
}

#[test]
fn an_empty_message_is_a_message() {
    let mut frames = Frames::default();
    frames.push(&framing::frame(""));
    assert_eq!(next(&mut frames).as_deref(), Some(""));
    assert_eq!(next(&mut frames), None);
}

#[test]
fn the_name_of_the_length_is_read_whatever_its_case_and_the_white_space_around_it() {
    assert_eq!(framing::content_length("CONTENT-length :  42  "), Some(42));
    assert_eq!(framing::content_length("Content-Length: +7"), Some(7));
    assert_eq!(framing::content_length("Content-Length: "), None);
    assert_eq!(framing::content_length("Content-Length: -1"), None);
    assert_eq!(framing::content_length("Content-Length: 99999999999999999999999"), None);
    assert_eq!(framing::content_length("Content-Type: text\r\nContent-Length: 3"), Some(3));
    // The first line of the name is the one that counts, readable or not.
    assert_eq!(framing::content_length("Content-Length: x\r\nContent-Length: 3"), None);
    assert_eq!(framing::content_length("no colon at all"), None);
}

/// A body that is no UTF-8 is read with what is not text of it replaced.
#[test]
fn a_body_that_is_not_text_is_read_with_what_is_not_text_replaced() {
    let mut frames = Frames::default();
    frames.push(b"Content-Length: 3\r\n\r\na\xffb");
    assert_eq!(next(&mut frames).as_deref(), Some("a\u{fffd}b"));
}

#[test]
fn a_header_that_never_ends_breaks_the_stream() {
    let mut frames = Frames::default();
    frames.push(&vec![b'a'; MAX_HEADER_BYTES]);
    assert_eq!(next(&mut frames), None);
    frames.push(b"a");
    let broken = frames.next_message().expect_err("expected the stream to be broken");
    assert_eq!(broken, FramingError::HeaderTooLong);
    assert_eq!(
        broken.to_string(),
        "the server sent 8192 bytes without ending a message header"
    );
    // And it stays broken, whatever arrives behind it.
    frames.push(&framing::frame("{}"));
    assert_eq!(frames.next_message(), Err(FramingError::HeaderTooLong));
}

#[test]
fn a_header_with_no_length_breaks_the_stream() {
    let mut frames = Frames::default();
    frames.push(b"Content-Type: \"x\"\r\n\r\n{}");
    let broken = frames.next_message().expect_err("expected the stream to be broken");
    assert_eq!(
        broken,
        FramingError::NoContentLength { header: "Content-Type: \"x\"".to_string() }
    );
    assert_eq!(
        broken.to_string(),
        "the server sent a header with no Content-Length: \"Content-Type: \\\"x\\\"\""
    );
}

#[test]
fn a_message_past_the_limit_is_refused_before_any_of_it_is_waited_for() {
    let mut frames = Frames::default();
    frames.push(format!("Content-Length: {}\r\n\r\n", MAX_BODY_BYTES).as_bytes());
    assert_eq!(next(&mut frames), None);

    let mut frames = Frames::default();
    frames.push(format!("Content-Length: {}\r\n\r\n", MAX_BODY_BYTES + 1).as_bytes());
    let broken = frames.next_message().expect_err("expected the stream to be broken");
    assert_eq!(broken, FramingError::BodyTooLarge { declared: 67108865 });
    assert_eq!(
        broken.to_string(),
        "the server declared a 67108865-byte message, past the 67108864-byte limit"
    );
}

#[test]
fn a_broken_stream_is_answered_the_same_way_whatever_arrives_behind_it() {
    // A header a byte too long, and the byte that would have ended it.
    let mut header = b"Content-Length: 0\r\n".to_vec();
    header.resize(MAX_HEADER_BYTES + 1 - 3, b'a');
    header.extend_from_slice(b"\r\n\r");
    let mut frames = Frames::default();
    frames.push(&header);
    assert_eq!(frames.next_message(), Err(FramingError::HeaderTooLong));
    frames.push(b"\n");
    assert_eq!(frames.next_message(), Err(FramingError::HeaderTooLong));
    frames.push(&framing::frame("{}"));
    assert_eq!(frames.next_message(), Err(FramingError::HeaderTooLong));
    assert_eq!(frames.next_message(), Err(FramingError::HeaderTooLong));

    let mut frames = Frames::default();
    frames.push(&framing::frame("{}"));
    frames.push(b"Content-Type: x\r\n\r\n");
    assert_eq!(next(&mut frames).as_deref(), Some("{}"));
    let broken = || {
        Err(FramingError::NoContentLength {
            header: "Content-Type: x".to_string(),
        })
    };
    assert_eq!(frames.next_message(), broken());
    frames.push(&framing::frame("{}"));
    assert_eq!(frames.next_message(), broken());

    let mut frames = Frames::default();
    frames.push(format!("Content-Length: {}\r\n\r\n", MAX_BODY_BYTES + 1).as_bytes());
    let broken = Err(FramingError::BodyTooLarge {
        declared: MAX_BODY_BYTES + 1,
    });
    assert_eq!(frames.next_message(), broken);
    frames.push(&framing::frame("{}"));
    assert_eq!(frames.next_message(), broken);
}

#[test]
fn what_only_might_break_a_stream_does_not_break_it() {
    // Asked a byte early, the same header is one that is still on its way.
    let mut header = b"Content-Length: 2\r\n".to_vec();
    header.resize(MAX_HEADER_BYTES, b'a');
    let mut frames = Frames::default();
    frames.push(&header);
    assert_eq!(next(&mut frames), None);
    frames.push(b"\r\n\r\n{}");
    assert_eq!(next(&mut frames).as_deref(), Some("{}"));
}
