//! The envelope every language server message travels in: a `Content-Length` header, a
//! blank line, and that many bytes of JSON.
//!
//! Bytes arrive from a pipe in whatever sizes the kernel hands over - half a header, three
//! messages at once - so decoding is a buffer that is fed reads and asked for whole
//! messages, rather than anything that reads from the pipe itself. That is also what makes
//! it something that can be proved about: a buffer in, and a message or a reason out.

use vstd::prelude::*;
use vstd::string::*;

use crate::text;

verus! {

broadcast use vstd::string::group_string_axioms;

/// How long a header block may run before it is not a header. A real one is a
/// `Content-Length` line and perhaps a `Content-Type` beside it: well under a hundred bytes.
pub const MAX_HEADER_BYTES: usize = 8 * 1024;

/// The largest message a server may send. Far past anything a real one sends - a whole
/// workspace's symbols, a large file's semantic tokens - and far short of what would hurt to
/// hold, since the body is buffered whole before it is read.
pub const MAX_BODY_BYTES: usize = 64 * 1024 * 1024;

/// Why the stream from a server can be read no further. Each ends it: past a broken frame
/// there is no telling where the next one starts, so the reader closes the server rather than
/// guessing its way back in.
#[derive(Debug, PartialEq, Eq)]
pub enum FramingError {
    /// No blank line ending the header within [`MAX_HEADER_BYTES`].
    HeaderTooLong,
    /// A header block with no `Content-Length` that reads as a length.
    NoContentLength {
        /// The header block as it arrived.
        header: String,
    },
    /// A declared body past [`MAX_BODY_BYTES`].
    BodyTooLarge {
        /// The length the header gave.
        declared: usize,
    },
}

/// A [`FramingError`] as a contract speaks of it.
pub enum Break {
    /// See [`FramingError::HeaderTooLong`].
    HeaderTooLong,
    /// See [`FramingError::NoContentLength`].
    NoContentLength { header: Seq<char> },
    /// See [`FramingError::BodyTooLarge`].
    BodyTooLarge { declared: usize },
}

impl View for FramingError {
    type V = Break;

    open spec fn view(&self) -> Break {
        match self {
            FramingError::HeaderTooLong => Break::HeaderTooLong,
            FramingError::NoContentLength { header } => Break::NoContentLength {
                header: header@,
            },
            FramingError::BodyTooLarge { declared } => Break::BodyTooLarge { declared: *declared },
        }
    }
}

impl Clone for FramingError {
    fn clone(&self) -> (copy: Self)
        ensures
            copy@ == self@,
    {
        match self {
            FramingError::HeaderTooLong => FramingError::HeaderTooLong,
            FramingError::NoContentLength { header } => FramingError::NoContentLength {
                header: header.clone(),
            },
            FramingError::BodyTooLarge { declared } => FramingError::BodyTooLarge {
                declared: *declared,
            },
        }
    }
}

impl FramingError {
    /// What the error is told as.
    pub open spec fn said(&self) -> Seq<char> {
        match self {
            FramingError::HeaderTooLong => "the server sent "@ + text::decimal(
                MAX_HEADER_BYTES as nat,
            ) + " bytes without ending a message header"@,
            FramingError::NoContentLength { header } =>
                "the server sent a header with no Content-Length: "@ + text::quoted(header@),
            FramingError::BodyTooLarge { declared } => "the server declared a "@ + text::decimal(
                *declared as nat,
            ) + "-byte message, past the "@ + text::decimal(MAX_BODY_BYTES as nat)
                + "-byte limit"@,
        }
    }

    /// What the error is told as.
    pub fn to_string(&self) -> (text: String)
        ensures
            text@ == self.said(),
    {
        match self {
            FramingError::HeaderTooLong => {
                let mut text = "the server sent ".to_owned();
                text::push_decimal(&mut text, MAX_HEADER_BYTES as u128);
                text.append(" bytes without ending a message header");
                text
            },
            FramingError::NoContentLength { header } => {
                let mut text = "the server sent a header with no Content-Length: ".to_owned();
                text.append(text::quoted_text(header.as_str()).as_str());
                text
            },
            FramingError::BodyTooLarge { declared } => {
                let mut text = "the server declared a ".to_owned();
                text::push_decimal(&mut text, *declared as u128);
                text.append("-byte message, past the ");
                text::push_decimal(&mut text, MAX_BODY_BYTES as u128);
                text.append("-byte limit");
                text
            },
        }
    }
}

// ---------------------------------------------------------------------------------------------
// What a frame is
// ---------------------------------------------------------------------------------------------

/// The blank line a header block ends with.
pub open spec fn header_mark() -> Seq<u8> {
    seq![13u8, 10u8, 13u8, 10u8]
}

/// What stands ahead of a message of this many bytes.
pub open spec fn header_text(length: nat) -> Seq<char> {
    "Content-Length: "@ + text::decimal(length) + "\r\n\r\n"@
}

/// One message as it goes over the wire: its length in bytes, a blank line, and itself.
pub open spec fn framed(body: Seq<u8>) -> Seq<u8> {
    vstd::utf8::encode_utf8(header_text(body.len())) + body
}

/// What a header line gives the length as, where it is the line that gives one: what stands
/// behind the first colon of a line named `Content-Length`, in whatever case.
pub open spec fn length_value(line: Seq<char>) -> Option<Seq<char>> {
    let colon = text::next_at(line, ':', 0);
    if colon < line.len() && text::ascii_small(text::trimmed(line.take(colon)))
        == "content-length"@ {
        Some(line.skip(colon + 1))
    } else {
        None
    }
}

/// The length the rest of a header block gives, from the line that starts at `from` on: what the
/// first line to name one reads as.
pub open spec fn length_from(header: Seq<char>, from: int) -> Option<usize>
    decreases header.len() - from,
{
    let end = text::next_at(header, '\n', from);
    match length_value(header.subrange(from, end)) {
        Some(value) => text::read_length(text::trimmed(value)),
        None => if from <= end < header.len() {
            length_from(header, end + 1)
        } else {
            None
        },
    }
}

/// What is at the front of a stream.
pub enum Frame {
    /// A message whose last byte is just ahead of `end`.
    Whole { body: Seq<char>, end: int },
    /// The start of a message, or nothing.
    Partial,
    /// What no message starts with.
    Broken(Break),
}

/// What the header that ends at `end` makes of the stream it is at the front of.
pub open spec fn frame_behind(buffer: Seq<u8>, end: int) -> Frame {
    let header = text::read_text(buffer.take(end));
    match length_from(header, 0) {
        None => Frame::Broken(Break::NoContentLength { header }),
        Some(length) => if length > MAX_BODY_BYTES {
            Frame::Broken(Break::BodyTooLarge { declared: length })
        } else if buffer.len() < end + 4 + length {
            Frame::Partial
        } else {
            Frame::Whole {
                body: text::read_text(buffer.subrange(end + 4, end + 4 + length)),
                end: end + 4 + length,
            }
        },
    }
}

/// What is at the front of a stream that has arrived this far.
pub open spec fn front_of(buffer: Seq<u8>) -> Frame {
    if text::contains(buffer, header_mark()) {
        let end = choose|end: int| text::first_at(buffer, header_mark(), end);
        if end > MAX_HEADER_BYTES {
            Frame::Broken(Break::HeaderTooLong)
        } else {
            frame_behind(buffer, end)
        }
    } else if buffer.len() > MAX_HEADER_BYTES {
        Frame::Broken(Break::HeaderTooLong)
    } else {
        Frame::Partial
    }
}

/// A [`Frames`] as a contract speaks of it.
pub struct Stream {
    /// What has arrived and not yet been read out.
    pub arrived: Seq<u8>,
    /// Why nothing more is read from it, once it has been found broken.
    pub broken: Option<Break>,
}

/// One thing that is done with a stream.
pub enum Step {
    /// Something arrives on it.
    Push(Seq<u8>),
    /// It is asked for its next message.
    Read,
}

impl Stream {
    /// A stream nothing has arrived on yet.
    pub open spec fn fresh() -> Stream {
        Stream { arrived: Seq::empty(), broken: None }
    }

    /// The stream once more has arrived, which is nothing to a broken one.
    pub open spec fn pushed(self, bytes: Seq<u8>) -> Stream {
        if self.broken is Some {
            self
        } else {
            Stream { arrived: self.arrived + bytes, ..self }
        }
    }

    /// What is at the front of the stream: why it broke, once it has been found broken.
    pub open spec fn front(self) -> Frame {
        match self.broken {
            Some(why) => Frame::Broken(why),
            None => front_of(self.arrived),
        }
    }

    /// What the stream is answered with when it is asked for its next message.
    pub open spec fn answer(self) -> Result<Option<Seq<char>>, Break> {
        match self.front() {
            Frame::Whole { body, .. } => Ok(Some(body)),
            Frame::Partial => Ok(None),
            Frame::Broken(why) => Err(why),
        }
    }

    /// The stream once it has been asked for its next message: without the message, or broken from
    /// then on.
    pub open spec fn read(self) -> Stream {
        match self.front() {
            Frame::Whole { end, .. } => Stream { arrived: self.arrived.skip(end), ..self },
            Frame::Partial => self,
            Frame::Broken(why) => Stream { broken: Some(why), ..self },
        }
    }

    /// The stream once several things have been done with it.
    pub open spec fn taken(self, steps: Seq<Step>) -> Stream
        decreases steps.len(),
    {
        if steps.len() == 0 {
            self
        } else {
            let before = self.taken(steps.drop_last());
            match steps.last() {
                Step::Push(bytes) => before.pushed(bytes),
                Step::Read => before.read(),
            }
        }
    }
}

/// What a stream was answered with, as a contract speaks of it.
pub open spec fn answered(message: Result<Option<String>, FramingError>) -> Result<
    Option<Seq<char>>,
    Break,
> {
    match message {
        Ok(message) => Ok(text::maybe(message)),
        Err(error) => Err(error@),
    }
}

// ---------------------------------------------------------------------------------------------
// Writing and reading frames
// ---------------------------------------------------------------------------------------------

/// One message, wrapped for the wire.
pub fn frame(body: &str) -> (bytes: Vec<u8>)
    ensures
        bytes@ == framed(body.spec_bytes()),
{
    let mut head = "Content-Length: ".to_owned();
    text::push_decimal(&mut head, body.as_bytes().len() as u128);
    head.append("\r\n\r\n");
    assert(head@ =~= header_text(body.spec_bytes().len()));
    let mut bytes: Vec<u8> = Vec::new();
    bytes.extend_from_slice(head.as_str().as_bytes());
    bytes.extend_from_slice(body.as_bytes());
    assert(bytes@ =~= framed(body.spec_bytes()));
    bytes
}

/// What has arrived from the server and not yet been read out as messages.
pub struct Frames {
    buffer: Vec<u8>,
    /// Why nothing more is read, once the stream has been found broken.
    broken: Option<FramingError>,
}

impl View for Frames {
    type V = Stream;

    closed spec fn view(&self) -> Stream {
        Stream {
            arrived: self.buffer@,
            broken: match self.broken {
                Some(error) => Some(error@),
                None => None,
            },
        }
    }
}

impl Default for Frames {
    /// A stream nothing has arrived on yet.
    fn default() -> (frames: Self)
        ensures
            frames@ == Stream::fresh(),
    {
        Frames { buffer: Vec::new(), broken: None }
    }
}

impl Frames {
    /// Take what one read off the pipe gave. A broken stream takes nothing more.
    pub fn push(&mut self, bytes: &[u8])
        ensures
            final(self)@ == old(self)@.pushed(bytes@),
    {
        if self.broken.is_none() {
            self.buffer.extend_from_slice(bytes);
            assert(self.buffer@ =~= old(self).buffer@ + bytes@);
        }
    }

    /// The next whole message, if a whole one has arrived. `Ok(None)` means the rest of it is
    /// still on its way. An error means the stream is broken for good - see [`FramingError`] -
    /// and nothing more is read from it: it is the answer from then on, whatever arrives.
    ///
    /// Every limit is checked before the buffer is allowed to grow past it: a header is given
    /// up on at [`MAX_HEADER_BYTES`], and a body is refused on its declared length, before any
    /// of it is waited for.
    pub fn next_message(&mut self) -> (message: Result<Option<String>, FramingError>)
        ensures
            answered(message) == old(self)@.answer(),
            final(self)@ == old(self)@.read(),
            message matches Err(error) ==> final(self)@.broken == Some(error@),
            old(self)@.broken matches Some(why) ==> (message matches Err(error) && error@ == why),
    {
        if let Some(error) = &self.broken {
            return Err(error.clone());
        }
        match self.front_message() {
            Ok(message) => Ok(message),
            Err(error) => {
                self.broken = Some(error.clone());
                Err(error)
            },
        }
    }

    /// The message at the front of a stream that is not broken, taken off it.
    fn front_message(&mut self) -> (message: Result<Option<String>, FramingError>)
        requires
            old(self)@.broken is None,
        ensures
            answered(message) == old(self)@.answer(),
            message is Ok ==> final(self)@ == old(self)@.read(),
            message is Err ==> final(self)@ == old(self)@,
    {
        let mark: Vec<u8> = vec![13, 10, 13, 10];
        assert(mark@ =~= header_mark());
        let header_end: usize = match text::find(self.buffer.as_slice(), mark.as_slice()) {
            Some(at) => at,
            None => {
                if self.buffer.len() > MAX_HEADER_BYTES {
                    return Err(FramingError::HeaderTooLong);
                }
                return Ok(None);
            },
        };
        proof {
            lemma_front_is(self.buffer@, header_end as int);
        }
        if header_end > MAX_HEADER_BYTES {
            return Err(FramingError::HeaderTooLong);
        }
        let header = text::text_of_any_bytes(&self.buffer.as_slice()[0..header_end]);
        assert(self.buffer@.subrange(0, header_end as int) =~= self.buffer@.take(
            header_end as int,
        ));
        let length: usize = match content_length(header.as_str()) {
            Some(length) => length,
            None => {
                return Err(FramingError::NoContentLength { header });
            },
        };
        if length > MAX_BODY_BYTES {
            return Err(FramingError::BodyTooLarge { declared: length });
        }
        // Both terms are bounded above, so neither sum can overflow.
        let body_start: usize = header_end + 4;
        let message_end: usize = body_start + length;
        if self.buffer.len() < message_end {
            return Ok(None);
        }
        let body = text::text_of_any_bytes(&self.buffer.as_slice()[body_start..message_end]);
        let rest = self.buffer.split_off(message_end);
        self.buffer = rest;
        assert(self.buffer@ =~= old(self).buffer@.skip(message_end as int));
        Ok(Some(body))
    }
}

/// The front of a stream goes by the one first place its header ends.
proof fn lemma_front_is(buffer: Seq<u8>, end: int)
    requires
        text::first_at(buffer, header_mark(), end),
    ensures
        front_of(buffer) == (if end > MAX_HEADER_BYTES {
            Frame::Broken(Break::HeaderTooLong)
        } else {
            frame_behind(buffer, end)
        }),
{
    let chosen = choose|at: int| text::first_at(buffer, header_mark(), at);
    assert(text::first_at(buffer, header_mark(), chosen));
    if chosen < end {
        assert(text::occurs_at(buffer, header_mark(), chosen));
    } else if end < chosen {
        assert(text::occurs_at(buffer, header_mark(), end));
    }
    assert(chosen == end);
}

/// The length off a header block. Header names are case-insensitive, and a server may send
/// a `Content-Type` line beside the length.
pub fn content_length(header: &str) -> (length: Option<usize>)
    ensures
        length == length_from(header@, 0),
{
    let chars = text::chars_of(header);
    let name = text::chars_of("content-length");
    let mut from: usize = 0;
    loop
        invariant
            from <= chars@.len(),
            chars@ == header@,
            name@ == "content-length"@,
            length_from(header@, 0) == length_from(header@, from as int),
        decreases chars@.len() - from,
    {
        let end: usize = text::next_char(chars.as_slice(), '\n', from);
        let ghost line = chars@.subrange(from as int, end as int);
        let colon: usize = next_in(chars.as_slice(), ':', from, end);
        if colon < end {
            assert(line.take(colon - from) =~= chars@.subrange(from as int, colon as int));
            assert(line.skip(colon - from + 1) =~= chars@.subrange(colon + 1, end as int));
            let (start, stop) = text::trim(chars.as_slice(), from, colon);
            if reads_as_name(chars.as_slice(), start, stop, name.as_slice()) {
                let (start, stop) = text::trim(chars.as_slice(), colon + 1, end);
                return text::parse_length(chars.as_slice(), start, stop);
            }
        }
        if end == chars.len() {
            return None;
        }
        from = end + 1;
    }
}

/// Where the next `mark` is in a stretch of characters, or the end of the stretch.
fn next_in(chars: &[char], mark: char, from: usize, to: usize) -> (at: usize)
    requires
        from <= to <= chars@.len(),
    ensures
        from <= at <= to,
        at - from == text::next_at(chars@.subrange(from as int, to as int), mark, 0),
{
    let ghost stretch = chars@.subrange(from as int, to as int);
    let mut at: usize = from;
    while at < to && chars[at] != mark
        invariant
            from <= at <= to <= chars@.len(),
            stretch == chars@.subrange(from as int, to as int),
            text::next_at(stretch, mark, 0) == text::next_at(stretch, mark, at - from),
        decreases to - at,
    {
        assert(stretch[at - from] == chars@[at as int]);
        at += 1;
    }
    proof {
        if at < to {
            assert(stretch[at - from] == chars@[at as int]);
        }
    }
    at
}

/// Whether a stretch of characters is this name, its capitals aside.
fn reads_as_name(chars: &[char], from: usize, to: usize, name: &[char]) -> (same: bool)
    requires
        from <= to <= chars@.len(),
    ensures
        same == (text::ascii_small(chars@.subrange(from as int, to as int)) == name@),
{
    let ghost small = text::ascii_small(chars@.subrange(from as int, to as int));
    if to - from != name.len() {
        return false;
    }
    let mut at: usize = 0;
    while at < name.len()
        invariant
            from <= to <= chars@.len(),
            to - from == name@.len(),
            small == text::ascii_small(chars@.subrange(from as int, to as int)),
            at <= name@.len(),
            forall|i: int| 0 <= i < at ==> small[i] == name@[i],
        decreases name@.len() - at,
    {
        assert(small[at as int] == text::small(chars@[from + at]));
        if text::small_letter(chars[from + at]) != name[at] {
            return false;
        }
        at += 1;
    }
    assert(small =~= name@);
    true
}

// ---------------------------------------------------------------------------------------------
// What framing promises
// ---------------------------------------------------------------------------------------------

/// The line that gives a message's length.
spec fn length_line(length: nat) -> Seq<char> {
    "Content-Length: "@ + text::decimal(length)
}

/// Whether a character is ASCII and no control character.
spec fn is_plain(c: char) -> bool {
    ' ' <= c <= '~'
}

/// The line that gives a length is plain ASCII with no line break in it, and gives that length.
proof fn lemma_length_line(length: nat)
    requires
        length <= MAX_BODY_BYTES,
    ensures
        length_line(length).len() <= 24,
        forall|i: int|
            0 <= i < length_line(length).len() ==> is_plain(#[trigger] length_line(length)[i]),
        length_from(length_line(length), 0) == Some(length as usize),
{
    reveal_strlit("Content-Length: ");
    reveal_strlit("content-length");
    let line = length_line(length);
    let digits = text::decimal(length);
    text::lemma_decimal_is_short(length);
    text::lemma_decimal_reads_back(length);
    assert forall|i: int| 0 <= i < line.len() implies is_plain(#[trigger] line[i]) by {
        if i >= 16 {
            assert(line[i] == digits[i - 16]);
            assert(text::is_digit(digits[i - 16]));
        }
    }
    text::lemma_next_at_is(line, '\n', 0, line.len() as int);
    assert(line.subrange(0, line.len() as int) =~= line);
    text::lemma_next_at_is(line, ':', 0, 14);
    let name = line.take(14);
    assert(text::trim_start(name) == name);
    assert(text::trim_end(name) == name);
    assert(text::ascii_small(name) =~= "content-length"@);
    let value = line.skip(15);
    assert(value[0] == ' ');
    assert(value.drop_first() =~= digits);
    assert(text::is_digit(digits[0]));
    assert(text::is_digit(digits.last()));
    reveal_with_fuel(text::trim_start, 3);
    assert(text::trim_start(value) == digits);
    assert(text::trim_end(digits) == digits);
}

/// What a stream that starts with the whole header of a message starts with.
proof fn lemma_header_of_a_frame(length: nat, buffer: Seq<u8>)
    requires
        length <= MAX_BODY_BYTES,
        buffer.len() >= vstd::utf8::encode_utf8(header_text(length)).len(),
        buffer.take(vstd::utf8::encode_utf8(header_text(length)).len() as int)
            == vstd::utf8::encode_utf8(header_text(length)),
    ensures
        vstd::utf8::encode_utf8(header_text(length)).len() == length_line(length).len() + 4,
        front_of(buffer) == frame_behind(buffer, length_line(length).len() as int),
        text::read_text(buffer.take(length_line(length).len() as int)) == length_line(length),
{
    lemma_length_line(length);
    lemma_header_bytes(length);
    let line = length_line(length);
    let head = vstd::utf8::encode_utf8(header_text(length));
    let end = line.len() as int;
    assert(forall|i: int| 0 <= i < head.len() ==> buffer[i] == head[i]) by {
        assert(forall|i: int| 0 <= i < head.len() ==> buffer.take(head.len() as int)[i] == buffer[i]);
    }
    assert(buffer.subrange(end, end + 4) =~= header_mark());
    assert forall|earlier: int| 0 <= earlier < end implies !#[trigger] text::occurs_at(
        buffer,
        header_mark(),
        earlier,
    ) by {
        if text::occurs_at(buffer, header_mark(), earlier) {
            assert(buffer.subrange(earlier, earlier + 4)[0] == 13u8);
        }
    }
    lemma_front_is(buffer, end);
    assert(buffer.take(end) =~= vstd::utf8::encode_utf8(line));
    vstd::utf8::encode_utf8_valid_utf8(line);
    vstd::utf8::encode_utf8_decode_utf8(line);
}

/// The header of a message is its length line and a blank line, byte for byte.
proof fn lemma_header_bytes(length: nat)
    requires
        length <= MAX_BODY_BYTES,
    ensures
        vstd::utf8::encode_utf8(header_text(length)) == vstd::utf8::encode_utf8(length_line(length))
            + header_mark(),
        vstd::utf8::encode_utf8(length_line(length)).len() == length_line(length).len(),
        forall|i: int|
            0 <= i < length_line(length).len() ==> #[trigger] vstd::utf8::encode_utf8(
                length_line(length),
            )[i] == length_line(length)[i] as u8,
{
    reveal_strlit("\r\n\r\n");
    lemma_length_line(length);
    let line = length_line(length);
    let whole = header_text(length);
    assert(whole =~= line + "\r\n\r\n"@);
    assert(vstd::utf8::is_ascii_chars(line));
    assert(vstd::utf8::is_ascii_chars(whole));
    vstd::utf8::is_ascii_chars_encode_utf8(line);
    vstd::utf8::is_ascii_chars_encode_utf8(whole);
    assert(vstd::utf8::encode_utf8(whole) =~= vstd::utf8::encode_utf8(line) + header_mark());
}

/// A message that was framed is what is read back, whatever comes behind it, and exactly the
/// bytes of its frame are taken off the stream.
pub proof fn law_a_frame_reads_back(body: Seq<char>, rest: Seq<u8>)
    requires
        vstd::utf8::encode_utf8(body).len() <= MAX_BODY_BYTES,
    ensures
        front_of(framed(vstd::utf8::encode_utf8(body)) + rest) == (Frame::Whole {
            body,
            end: framed(vstd::utf8::encode_utf8(body)).len() as int,
        }),
        (framed(vstd::utf8::encode_utf8(body)) + rest).skip(
            framed(vstd::utf8::encode_utf8(body)).len() as int,
        ) == rest,
{
    let bytes = vstd::utf8::encode_utf8(body);
    let length = bytes.len();
    let head = vstd::utf8::encode_utf8(header_text(length));
    let buffer = framed(bytes) + rest;
    assert(buffer.take(head.len() as int) =~= head);
    lemma_header_of_a_frame(length, buffer);
    lemma_length_line(length);
    let end = length_line(length).len() as int;
    assert(buffer.subrange(end + 4, end + 4 + length) =~= bytes);
    vstd::utf8::encode_utf8_valid_utf8(body);
    vstd::utf8::encode_utf8_decode_utf8(body);
    assert(buffer.skip(framed(bytes).len() as int) =~= rest);
}

/// Part of a framed message is no message yet, and no broken one either: the rest of it is
/// waited for.
pub proof fn law_part_of_a_frame_is_waited_for(body: Seq<u8>, arrived: int)
    requires
        body.len() <= MAX_BODY_BYTES,
        0 <= arrived < framed(body).len(),
    ensures
        front_of(framed(body).take(arrived)) == Frame::Partial,
{
    let length = body.len();
    let head = vstd::utf8::encode_utf8(header_text(length));
    let buffer = framed(body).take(arrived);
    lemma_header_bytes(length);
    lemma_length_line(length);
    if arrived >= head.len() {
        assert(buffer.take(head.len() as int) =~= head);
        lemma_header_of_a_frame(length, buffer);
    } else {
        assert forall|at: int| !#[trigger] text::occurs_at(buffer, header_mark(), at) by {
            if text::occurs_at(buffer, header_mark(), at) {
                assert(buffer.subrange(at, at + 4)[0] == 13u8);
                assert(buffer[at] == head[at]);
            }
        }
    }
}

/// Every message of several, one framed behind another.
pub open spec fn all_framed(bodies: Seq<Seq<char>>) -> Seq<u8>
    decreases bodies.len(),
{
    if bodies.len() == 0 {
        Seq::empty()
    } else {
        framed(vstd::utf8::encode_utf8(bodies[0])) + all_framed(bodies.drop_first())
    }
}

/// Messages that arrive together are read out one at a time, in the order they were framed in.
pub proof fn law_messages_read_out_in_order(bodies: Seq<Seq<char>>, rest: Seq<u8>)
    requires
        bodies.len() > 0,
        vstd::utf8::encode_utf8(bodies[0]).len() <= MAX_BODY_BYTES,
    ensures
        front_of(all_framed(bodies) + rest) matches Frame::Whole { body, end } && body
            == bodies[0] && (all_framed(bodies) + rest).skip(end) == all_framed(
            bodies.drop_first(),
        ) + rest,
{
    let behind = all_framed(bodies.drop_first()) + rest;
    law_a_frame_reads_back(bodies[0], behind);
    assert(all_framed(bodies) + rest =~= framed(vstd::utf8::encode_utf8(bodies[0])) + behind);
}

/// Where a header ends does not move as more arrives.
proof fn lemma_header_end_stays(buffer: Seq<u8>, more: Seq<u8>, end: int)
    requires
        text::first_at(buffer, header_mark(), end),
    ensures
        text::first_at(buffer + more, header_mark(), end),
        (buffer + more).take(end) == buffer.take(end),
{
    let longer = buffer + more;
    assert(longer.subrange(end, end + 4) =~= buffer.subrange(end, end + 4));
    assert forall|earlier: int| 0 <= earlier < end implies !#[trigger] text::occurs_at(
        longer,
        header_mark(),
        earlier,
    ) by {
        assert(longer.subrange(earlier, earlier + 4) =~= buffer.subrange(earlier, earlier + 4));
        assert(!text::occurs_at(buffer, header_mark(), earlier));
    }
    assert(longer.take(end) =~= buffer.take(end));
}

/// The one place a header ends at first, where one ends at all.
proof fn lemma_header_ends(buffer: Seq<u8>) -> (end: int)
    requires
        text::contains(buffer, header_mark()),
    ensures
        text::first_at(buffer, header_mark(), end),
{
    let some = choose|at: int| #[trigger] text::occurs_at(buffer, header_mark(), at);
    lemma_first_up_to(buffer, some)
}

proof fn lemma_first_up_to(buffer: Seq<u8>, at: int) -> (end: int)
    requires
        text::occurs_at(buffer, header_mark(), at),
    ensures
        text::first_at(buffer, header_mark(), end),
    decreases at,
{
    if exists|earlier: int|
        0 <= earlier < at && #[trigger] text::occurs_at(buffer, header_mark(), earlier) {
        let earlier = choose|earlier: int|
            0 <= earlier < at && #[trigger] text::occurs_at(buffer, header_mark(), earlier);
        lemma_first_up_to(buffer, earlier)
    } else {
        at
    }
}

/// A message that has arrived whole is the same message however much more arrives behind it.
pub proof fn law_a_whole_message_is_not_changed_by_what_follows(buffer: Seq<u8>, more: Seq<u8>)
    requires
        front_of(buffer) is Whole,
    ensures
        front_of(buffer + more) == front_of(buffer),
{
    let end = lemma_header_ends(buffer);
    lemma_front_is(buffer, end);
    lemma_header_end_stays(buffer, more, end);
    lemma_front_is(buffer + more, end);
    if let Frame::Whole { body, end: message_end } = front_of(buffer) {
        assert((buffer + more).subrange(end + 4, message_end) =~= buffer.subrange(
            end + 4,
            message_end,
        ));
    }
}

/// A broken stream stays broken for good: once it has been answered with an error it is answered
/// with the same error ever after, whatever arrives on it and however often it is asked, and
/// nothing is read out of it again.
pub proof fn law_a_broken_stream_stays_broken(stream: Stream, steps: Seq<Step>)
    requires
        stream.answer() is Err,
    ensures
        stream.read().taken(steps) == stream.read(),
        stream.read().taken(steps).answer() == stream.answer(),
    decreases steps.len(),
{
    if steps.len() > 0 {
        law_a_broken_stream_stays_broken(stream, steps.drop_last());
    }
}

proof fn lemma_length_behind(first: Seq<char>, second: Seq<char>, from: int)
    requires
        0 <= from <= second.len(),
    ensures
        length_from(first + seq!['\n'] + second, first.len() + 1 + from) == length_from(
            second,
            from,
        ),
    decreases second.len() - from,
{
    let both = first + seq!['\n'] + second;
    let behind = first.len() + 1;
    text::lemma_next_at(second, '\n', from);
    text::lemma_next_at_in_the_second(first, '\n', second, from);
    let end = text::next_at(second, '\n', from);
    assert(both.subrange(behind + from, behind + end) =~= second.subrange(from, end));
    if end < second.len() {
        lemma_length_behind(first, second, end + 1);
    }
}

/// The length of a message is the number behind the colon of the first line of its header that is
/// called `content-length`, in capitals or not and with white space round either. Every line ahead of
/// that one makes no difference.
pub proof fn law_a_header_declares_its_length_once(
    name: Seq<char>,
    value: Seq<char>,
    line: Seq<char>,
    rest: Seq<char>,
)
    requires
        !name.contains(':'),
        !name.contains('\n'),
        !value.contains('\n'),
        !line.contains('\n'),
    ensures
        text::ascii_small(text::trimmed(name)) == "content-length"@ ==> {
            &&& length_from(name + seq![':'] + value, 0) == text::read_length(text::trimmed(value))
            &&& length_from(name + seq![':'] + value + seq!['\n'] + rest, 0) == text::read_length(
                text::trimmed(value),
            )
        },
        text::ascii_small(text::trimmed(name)) != "content-length"@ ==> length_from(
            name + seq![':'] + value + seq!['\n'] + rest,
            0,
        ) == length_from(rest, 0),
        !line.contains(':') ==> length_from(line + seq!['\n'] + rest, 0) == length_from(rest, 0),
        !line.contains(':') ==> length_from(line, 0) is None,
{
    let field = name + seq![':'] + value;
    assert(!field.contains('\n')) by {
        if field.contains('\n') {
            let at = choose|at: int| 0 <= at < field.len() && field[at] == '\n';
            if at < name.len() {
                assert(name[at] == '\n');
            } else if at > name.len() {
                assert(value[at - name.len() - 1] == '\n');
            }
        }
    }
    lemma_one_line(field, rest);
    lemma_one_line(line, rest);
    assert forall|i: int| 0 <= i < name.len() implies field[i] != ':' by {
        assert(name.contains(name[i]));
        assert(field[i] == name[i]);
    }
    text::lemma_next_at_is(field, ':', 0, name.len() as int);
    assert(field.take(name.len() as int) =~= name);
    assert(field.skip(name.len() as int + 1) =~= value);
    if !line.contains(':') {
        assert forall|i: int| 0 <= i < line.len() implies line[i] != ':' by {
            assert(line.contains(line[i]));
        }
        text::lemma_next_at_is(line, ':', 0, line.len() as int);
    }
}

proof fn lemma_one_line(line: Seq<char>, rest: Seq<char>)
    requires
        !line.contains('\n'),
    ensures
        length_from(line, 0) == (match length_value(line) {
            Some(value) => text::read_length(text::trimmed(value)),
            None => None,
        }),
        length_from(line + seq!['\n'] + rest, 0) == (match length_value(line) {
            Some(value) => text::read_length(text::trimmed(value)),
            None => length_from(rest, 0),
        }),
{
    assert forall|i: int| 0 <= i < line.len() implies line[i] != '\n' by {
        assert(line.contains(line[i]));
    }
    text::lemma_next_at_is(line, '\n', 0, line.len() as int);
    text::lemma_next_at_in_the_first(line, '\n', rest, 0);
    assert(line.subrange(0, line.len() as int) =~= line);
    let both = line + seq!['\n'] + rest;
    assert(both.subrange(0, line.len() as int) =~= line);
    lemma_length_behind(line, rest, 0);
}

/// What has arrived is a whole message exactly where the first blank line of it ends a header of at
/// most 8192 bytes that declares a length of at most 67108864 bytes, and that many bytes have arrived
/// behind the blank line. Those bytes are the message, and what is behind them is left.
pub proof fn law_a_message_is_as_long_as_it_says(buffer: Seq<u8>, end: int, length: usize)
    requires
        0 <= end && end + 4 <= buffer.len(),
        buffer.subrange(end, end + 4) == seq![13u8, 10u8, 13u8, 10u8],
        forall|at: int|
            0 <= at < end ==> !seq![13u8, 10u8, 13u8, 10u8].is_prefix_of(
                #[trigger] buffer.skip(at),
            ),
        length_from(text::read_text(buffer.take(end)), 0) == Some(length),
    ensures
        end > 8192 ==> front_of(buffer) == Frame::Broken(Break::HeaderTooLong),
        end <= 8192 && length > 67108864 ==> front_of(buffer) == Frame::Broken(
            Break::BodyTooLarge { declared: length },
        ),
        end <= 8192 && length <= 67108864 && buffer.len() < end + 4 + length ==> front_of(buffer)
            == Frame::Partial,
        end <= 8192 && length <= 67108864 && buffer.len() >= end + 4 + length ==> front_of(buffer)
            == (Frame::Whole {
            body: text::read_text(buffer.subrange(end + 4, end + 4 + length)),
            end: end + 4 + length,
        }),
{
    lemma_first_blank_line(buffer, end);
}

proof fn lemma_first_blank_line(buffer: Seq<u8>, end: int)
    requires
        0 <= end && end + 4 <= buffer.len(),
        buffer.subrange(end, end + 4) == seq![13u8, 10u8, 13u8, 10u8],
        forall|at: int|
            0 <= at < end ==> !seq![13u8, 10u8, 13u8, 10u8].is_prefix_of(
                #[trigger] buffer.skip(at),
            ),
    ensures
        text::contains(buffer, header_mark()),
        (choose|at: int| text::first_at(buffer, header_mark(), at)) == end,
{
    assert(text::occurs_at(buffer, header_mark(), end));
    assert forall|earlier: int| 0 <= earlier < end implies !#[trigger] text::occurs_at(
        buffer,
        header_mark(),
        earlier,
    ) by {
        if text::occurs_at(buffer, header_mark(), earlier) {
            assert(buffer.skip(earlier).subrange(0, 4) =~= buffer.subrange(earlier, earlier + 4));
            assert(seq![13u8, 10u8, 13u8, 10u8].is_prefix_of(buffer.skip(earlier)));
        }
    }
    assert(text::first_at(buffer, header_mark(), end));
    let chosen = choose|at: int| text::first_at(buffer, header_mark(), at);
    assert(text::first_at(buffer, header_mark(), chosen));
    if chosen < end {
        assert(!text::occurs_at(buffer, header_mark(), chosen));
    } else if end < chosen {
        assert(!text::occurs_at(buffer, header_mark(), end));
    }
}

/// A header that ends and declares no length is refused for that, as it reads; and what has arrived
/// with no blank line in it is waited on up to 8192 bytes and refused past them.
pub proof fn law_a_header_that_says_nothing_is_refused(buffer: Seq<u8>, end: int)
    ensures
        (0 <= end <= 8192 && end + 4 <= buffer.len() && buffer.subrange(end, end + 4) == seq![
            13u8,
            10u8,
            13u8,
            10u8,
        ] && (forall|at: int|
            0 <= at < end ==> !seq![13u8, 10u8, 13u8, 10u8].is_prefix_of(
                #[trigger] buffer.skip(at),
            )) && length_from(text::read_text(buffer.take(end)), 0) is None) ==> front_of(buffer)
            == Frame::Broken(
            Break::NoContentLength { header: text::read_text(buffer.take(end)) },
        ),
        (forall|at: int|
            0 <= at <= buffer.len() ==> !seq![13u8, 10u8, 13u8, 10u8].is_prefix_of(
                #[trigger] buffer.skip(at),
            )) ==> front_of(buffer) == if buffer.len() > 8192 {
            Frame::Broken(Break::HeaderTooLong)
        } else {
            Frame::Partial
        },
{
    if 0 <= end <= 8192 && end + 4 <= buffer.len() && buffer.subrange(end, end + 4) == seq![
        13u8,
        10u8,
        13u8,
        10u8,
    ] && (forall|at: int|
        0 <= at < end ==> !seq![13u8, 10u8, 13u8, 10u8].is_prefix_of(#[trigger] buffer.skip(at))) {
        lemma_first_blank_line(buffer, end);
    }
    if forall|at: int|
        0 <= at <= buffer.len() ==> !seq![13u8, 10u8, 13u8, 10u8].is_prefix_of(
            #[trigger] buffer.skip(at),
        ) {
        if text::contains(buffer, header_mark()) {
            let at = choose|at: int| #[trigger] text::occurs_at(buffer, header_mark(), at);
            assert(buffer.skip(at).subrange(0, 4) =~= buffer.subrange(at, at + 4));
            assert(seq![13u8, 10u8, 13u8, 10u8].is_prefix_of(buffer.skip(at)));
        }
    }
}

/// A stream that holds whole messages is read message by message, in order, and what is behind them is
/// left for the next reading.
pub proof fn law_a_stream_is_read_message_by_message(
    stream: Stream,
    bodies: Seq<Seq<char>>,
    rest: Seq<u8>,
)
    requires
        stream.broken is None,
        stream.arrived == all_framed(bodies) + rest,
        bodies.len() > 0,
        vstd::utf8::encode_utf8(bodies[0]).len() <= MAX_BODY_BYTES,
    ensures
        stream.answer() == Ok::<Option<Seq<char>>, Break>(Some(bodies[0])),
        stream.read().arrived == all_framed(bodies.drop_first()) + rest,
        stream.read().broken is None,
{
    law_messages_read_out_in_order(bodies, rest);
}

/// What arrives in pieces reads as what arrives at once, in order; and a reading that finds no whole
/// message takes nothing away.
pub proof fn law_a_stream_keeps_what_arrives(stream: Stream, first: Seq<u8>, second: Seq<u8>)
    requires
        stream.broken is None,
    ensures
        stream.pushed(first).pushed(second) == stream.pushed(first + second),
        stream.pushed(first).arrived == stream.arrived + first,
        Stream::fresh().pushed(first).arrived == first,
        Stream::fresh().broken is None,
        stream.answer() == Ok::<Option<Seq<char>>, Break>(None) ==> stream.read() == stream,
{
    assert(stream.arrived + first + second =~= stream.arrived + (first + second));
    assert(Stream::fresh().arrived + first =~= first);
}

/// Why a stream is broken is told with the numbers it is broken for and the header as it arrived.
pub proof fn law_a_break_is_told_with_its_numbers(error: FramingError)
    ensures
        match error {
            FramingError::HeaderTooLong => text::contains(error.said(), text::decimal(8192)),
            FramingError::NoContentLength { header } => text::contains(
                error.said(),
                text::quoted(header@),
            ),
            FramingError::BodyTooLarge { declared } => text::contains(
                error.said(),
                text::decimal(declared as nat),
            ) && text::contains(error.said(), text::decimal(67108864)),
        },
{
    match error {
        FramingError::HeaderTooLong => {
            text::lemma_is_held(
                "the server sent "@,
                text::decimal(8192),
                " bytes without ending a message header"@,
            );
        },
        FramingError::NoContentLength { header } => {
            let none = Seq::<char>::empty();
            let front = "the server sent a header with no Content-Length: "@;
            text::lemma_is_held(front, text::quoted(header@), none);
            assert(front + text::quoted(header@) + none =~= error.said());
        },
        FramingError::BodyTooLarge { declared } => {
            let size = text::decimal(declared as nat);
            let most = text::decimal(67108864);
            text::lemma_is_held(
                "the server declared a "@,
                size,
                "-byte message, past the "@ + most + "-byte limit"@,
            );
            assert("the server declared a "@ + size + ("-byte message, past the "@ + most
                + "-byte limit"@) =~= error.said());
            text::lemma_is_held(
                "the server declared a "@ + size + "-byte message, past the "@,
                most,
                "-byte limit"@,
            );
        },
    }
}

/// A message is framed by the one header the protocol asks for: its length in bytes, and a blank line.
pub proof fn law_a_frame_is_its_length_and_its_body(body: Seq<u8>)
    ensures
        exists|header: Seq<u8>|
            {
                &&& framed(body) == #[trigger] (header + body)
                &&& text::read_text(header) == "Content-Length: "@ + text::decimal(body.len())
                    + "\r\n\r\n"@
            },
{
    let header = vstd::utf8::encode_utf8(header_text(body.len()));
    vstd::utf8::encode_utf8_valid_utf8(header_text(body.len()));
    vstd::utf8::encode_utf8_decode_utf8(header_text(body.len()));
    assert(framed(body) == header + body);
}

} // verus!
