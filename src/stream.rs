//! Decoding a streamed chat-completion response: server-sent event lines
//! arrive in chunks, each `data: ` line carries one JSON payload, and
//! `data: [DONE]` ends the stream.
use vstd::prelude::*;
use crate::json::{texts, JsonValue};
use crate::text::{char_vec, find_char, first_index_of};

verus! {

/// Whether `c` is white space in the sense of `char::is_whitespace`: the
/// characters with the Unicode `White_Space` property.
pub open spec fn is_ws(c: char) -> bool {
    ('\u{9}' <= c && c <= '\u{d}') || c == ' ' || c == '\u{85}' || c == '\u{a0}' || c
        == '\u{1680}' || ('\u{2000}' <= c && c <= '\u{200a}') || c == '\u{2028}' || c
        == '\u{2029}' || c == '\u{202f}' || c == '\u{205f}' || c == '\u{3000}'
}

/// Whether `c` is white space.
pub fn char_is_ws(c: char) -> (r: bool)
    ensures
        r == is_ws(c),
{
    ('\u{9}' <= c && c <= '\u{d}') || c == ' ' || c == '\u{85}' || c == '\u{a0}' || c
        == '\u{1680}' || ('\u{2000}' <= c && c <= '\u{200a}') || c == '\u{2028}' || c
        == '\u{2029}' || c == '\u{202f}' || c == '\u{205f}' || c == '\u{3000}'
}

/// `s` without its leading white space.
pub open spec fn trim_front(s: Seq<char>) -> Seq<char>
    decreases s.len(),
{
    if s.len() > 0 && is_ws(s[0]) {
        trim_front(s.drop_first())
    } else {
        s
    }
}

/// `s` without its trailing white space.
pub open spec fn trim_back(s: Seq<char>) -> Seq<char>
    decreases s.len(),
{
    if s.len() > 0 && is_ws(s.last()) {
        trim_back(s.drop_last())
    } else {
        s
    }
}

/// `s` without white space at either end, as `str::trim` gives it.
pub open spec fn trim(s: Seq<char>) -> Seq<char> {
    trim_back(trim_front(s))
}

/// The payload of one line: what follows `data: ` on the trimmed line.
pub open spec fn payload_of(line: Seq<char>) -> Option<Seq<char>> {
    let t = trim(line);
    if t.len() >= 6 && t.subrange(0, 6) == "data: "@ {
        Some(t.skip(6))
    } else {
        None
    }
}

/// The text that marks the end of the stream.
pub open spec fn done_marker() -> Seq<char> {
    "[DONE]"@
}

/// Splits buffered text into complete lines: the payloads of those lines,
/// in order, up to an end marker; the text left over (an unfinished line,
/// or whatever follows the marker); and whether the marker was seen.
pub open spec fn frame(text: Seq<char>) -> (Seq<Seq<char>>, Seq<char>, bool)
    decreases text.len(),
{
    match first_index_of(text, '\n') {
        Some(i) if 0 <= i < text.len() => {
            let line = text.subrange(0, i);
            let after = text.skip(i + 1);
            match payload_of(line) {
                Some(p) => if p == done_marker() {
                    (Seq::empty(), after, true)
                } else {
                    let (ps, rest, done) = frame(after);
                    (seq![p] + ps, rest, done)
                },
                None => frame(after),
            }
        },
        _ => (Seq::empty(), text, false),
    }
}

/// Bounds of the trimmed text of `c[from..to]`.
fn trim_bounds(c: &Vec<char>, from: usize, to: usize) -> (r: (usize, usize))
    requires
        from <= to <= c@.len(),
    ensures
        from <= r.0 <= r.1 <= to,
        c@.subrange(r.0 as int, r.1 as int) == trim(c@.subrange(from as int, to as int)),
{
    let mut a: usize = from;
    while a < to && char_is_ws(c[a])
        invariant
            from <= a <= to,
            to <= c@.len(),
            trim_front(c@.subrange(from as int, to as int)) == trim_front(c@.subrange(a as int, to as int)),
        decreases to - a,
    {
        assert(c@.subrange(a as int, to as int).drop_first() =~= c@.subrange(a + 1, to as int));
        a = a + 1;
    }
    let mut b: usize = to;
    while b > a && char_is_ws(c[b - 1])
        invariant
            a <= b <= to,
            to <= c@.len(),
            trim_back(c@.subrange(a as int, to as int)) == trim_back(c@.subrange(a as int, b as int)),
        decreases b - a,
    {
        assert(c@.subrange(a as int, b as int).drop_last() =~= c@.subrange(a as int, b - 1));
        b = b - 1;
    }
    (a, b)
}

/// The payload of the line `c[from..to]` of `text`, whose characters
/// are `c`.
fn line_payload(text: &str, c: &Vec<char>, from: usize, to: usize) -> (r: Option<String>)
    requires
        c@ == text@,
        from <= to <= c@.len(),
    ensures
        match r {
            Some(p) => payload_of(c@.subrange(from as int, to as int)) == Some(p@),
            None => payload_of(c@.subrange(from as int, to as int)) is None,
        },
{
    let (a, b) = trim_bounds(c, from, to);
    proof {
        reveal_strlit("data: ");
    }
    if b - a >= 6 && c[a] == 'd' && c[a + 1] == 'a' && c[a + 2] == 't' && c[a + 3] == 'a' && c[a
        + 4] == ':' && c[a + 5] == ' ' {
        let t = Ghost(c@.subrange(a as int, b as int));
        assert(t@.subrange(0, 6) =~= "data: "@);
        assert(t@.skip(6) =~= c@.subrange(a + 6, b as int));
        Some(text.substring_char(a + 6, b).to_owned())
    } else {
        proof {
            let t = c@.subrange(a as int, b as int);
            if t.len() >= 6 && t.subrange(0, 6) == "data: "@ {
                assert(t.subrange(0, 6)[0] == c@[a as int]);
                assert(t.subrange(0, 6)[1] == c@[a + 1]);
                assert(t.subrange(0, 6)[2] == c@[a + 2]);
                assert(t.subrange(0, 6)[3] == c@[a + 3]);
                assert(t.subrange(0, 6)[4] == c@[a + 4]);
                assert(t.subrange(0, 6)[5] == c@[a + 5]);
            }
        }
        None
    }
}

/// Whether a payload is the end marker.
fn is_done_marker(p: &str) -> (r: bool)
    ensures
        r == (p@ == done_marker()),
{
    proof {
        reveal_strlit("[DONE]");
    }
    let c = char_vec(p);
    let r = c.len() == 6 && c[0] == '[' && c[1] == 'D' && c[2] == 'O' && c[3] == 'N' && c[4] == 'E'
        && c[5] == ']';
    proof {
        if r {
            assert(p@ =~= "[DONE]"@);
        } else if p@ == "[DONE]"@ {
            assert(c@[0] == '[' && c@[1] == 'D' && c@[2] == 'O' && c@[3] == 'N' && c@[4] == 'E'
                && c@[5] == ']');
        }
    }
    r
}

/// The state of a response being decoded: the text of an unfinished
/// line, the content gathered so far, and whether the end marker came.
#[derive(Debug)]
pub struct StreamDecoder {
    pub buffer: String,
    pub content: String,
    pub finished: bool,
}

/// One event to hand on while a response streams.
#[derive(Debug)]
pub enum StreamEvent {
    /// A piece of content, as it arrived.
    Delta(String),
    /// The end of the response, with all of its content.
    Done(String),
}

/// The content piece of a streamed payload:
/// `choices[0].delta.content`, when that is a string.
pub open spec fn delta_of(v: JsonValue) -> Option<Seq<char>> {
    match v.member("choices"@) {
        Some(JsonValue::Array(a)) => if a@.len() > 0 {
            match a@[0].member("delta"@) {
                Some(d) => match d.member("content"@) {
                    Some(JsonValue::Str(s)) => Some(s@),
                    _ => None,
                },
                None => None,
            }
        } else {
            None
        },
        _ => None,
    }
}

/// The content of a complete response: `choices[0].message.content`,
/// when that is a string.
pub open spec fn message_of(v: JsonValue) -> Option<Seq<char>> {
    match v.member("choices"@) {
        Some(JsonValue::Array(a)) => if a@.len() > 0 {
            match a@[0].member("message"@) {
                Some(d) => match d.member("content"@) {
                    Some(JsonValue::Str(s)) => Some(s@),
                    _ => None,
                },
                None => None,
            }
        } else {
            None
        },
        _ => None,
    }
}

/// The content piece of a streamed payload.
pub fn delta_content(v: &JsonValue) -> (r: Option<String>)
    ensures
        match r {
            Some(s) => delta_of(*v) == Some(s@),
            None => delta_of(*v) is None,
        },
{
    match v.get("choices") {
        Some(JsonValue::Array(a)) => if a.len() > 0 {
            match a[0].get("delta") {
                Some(d) => match d.get("content") {
                    Some(JsonValue::Str(s)) => Some(s.clone()),
                    _ => None,
                },
                None => None,
            }
        } else {
            None
        },
        _ => None,
    }
}

/// The content of a complete response, or an error when it has none.
pub fn message_content(v: &JsonValue) -> (r: Result<String, String>)
    ensures
        match r {
            Ok(s) => message_of(*v) == Some(s@),
            Err(_) => message_of(*v) is None,
        },
{
    match v.get("choices") {
        Some(JsonValue::Array(a)) => if a.len() > 0 {
            match a[0].get("message") {
                Some(d) => match d.get("content") {
                    Some(JsonValue::Str(s)) => Ok(s.clone()),
                    _ => Err("the AI service returned no content".to_owned()),
                },
                None => Err("the AI service returned no content".to_owned()),
            }
        } else {
            Err("the AI service returned no content".to_owned())
        },
        _ => Err("the AI service returned no content".to_owned()),
    }
}

impl StreamEvent {
    /// The event as the JSON object `{"type": ..., "content": ...}` that
    /// listeners receive, with type `delta` or `done`.
    pub fn to_json(self) -> (r: JsonValue)
        ensures
            r.member("type"@) matches Some(JsonValue::Str(t)) && t@ == (match self {
                StreamEvent::Delta(_) => "delta"@,
                StreamEvent::Done(_) => "done"@,
            }),
            r.member("content"@) matches Some(JsonValue::Str(c)) && c@ == (match self {
                StreamEvent::Delta(s) => s@,
                StreamEvent::Done(s) => s@,
            }),
    {
        let (kind, content) = match self {
            StreamEvent::Delta(s) => ("delta".to_owned(), s),
            StreamEvent::Done(s) => ("done".to_owned(), s),
        };
        let mut r = JsonValue::Object(Vec::new());
        r.insert("type", JsonValue::Str(kind));
        r.insert("content", JsonValue::Str(content));
        proof {
            reveal_strlit("type");
            reveal_strlit("content");
            assert("type"@.len() != "content"@.len());
        }
        r
    }
}

impl StreamDecoder {
    /// A decoder before any text has arrived.
    pub fn new() -> (r: StreamDecoder)
        ensures
            r.buffer@.len() == 0,
            r.content@.len() == 0,
            !r.finished,
    {
        StreamDecoder { buffer: String::new(), content: String::new(), finished: false }
    }

    /// Takes in one chunk of response text and returns the payloads of the
    /// lines that it completes, in order. Lines that carry no payload are
    /// passed over; the end marker finishes the stream, and no text is taken
    /// in after it.
    pub fn feed(&mut self, chunk: &str) -> (payloads: Vec<String>)
        ensures
            old(self).finished ==> payloads@.len() == 0 && final(self).buffer@ == old(self).buffer@
                && final(self).finished,
            !old(self).finished ==> texts(payloads@) == frame(old(self).buffer@ + chunk@).0
                && final(self).buffer@ == frame(old(self).buffer@ + chunk@).1
                && final(self).finished == frame(old(self).buffer@ + chunk@).2,
            final(self).content@ == old(self).content@,
    {
        let mut out: Vec<String> = Vec::new();
        if self.finished {
            return out;
        }
        self.buffer.append(chunk);
        let c = char_vec(self.buffer.as_str());
        let ghost full = c@;
        let mut start: usize = 0;
        let mut done = false;
        assert(full.skip(0) =~= full);
        assert(texts(out@) =~= Seq::<Seq<char>>::empty());
        assert(frame(full).0 =~= texts(out@) + frame(full.skip(0)).0);
        loop
            invariant_except_break
                !done,
                frame(full).0 == texts(out@) + frame(full.skip(start as int)).0,
                frame(full).1 == frame(full.skip(start as int)).1,
                frame(full).2 == frame(full.skip(start as int)).2,
            invariant
                c@ == full,
                full == self.buffer@,
                start <= c@.len(),
            ensures
                done ==> frame(full) == (texts(out@), full.skip(start as int), true),
                !done ==> frame(full) == (texts(out@), full.skip(start as int), false),
            decreases c@.len() - start,
        {
            let ghost rest = full.skip(start as int);
            match find_char(&c, start, '\n') {
                None => {
                    assert(frame(rest) == (Seq::<Seq<char>>::empty(), rest, false));
                    assert(texts(out@) + Seq::<Seq<char>>::empty() =~= texts(out@));
                    break;
                },
                Some(i) => {
                    let ghost line = full.subrange(start as int, i as int);
                    assert(rest.subrange(0, i - start) =~= line);
                    assert(rest.skip(i - start + 1) =~= full.skip(i + 1));
                    let p = line_payload(self.buffer.as_str(), &c, start, i);
                    assert(i < c.len());
                    start = i + 1;
                    match p {
                        Some(p) => {
                            if is_done_marker(p.as_str()) {
                                assert(texts(out@) + Seq::<Seq<char>>::empty() =~= texts(out@));
                                done = true;
                                break;
                            }
                            let ghost out0 = texts(out@);
                            out.push(p);
                            assert(texts(out@) =~= out0 + seq![p@]);
                            assert(out0 + (seq![p@] + frame(full.skip(start as int)).0) =~= texts(
                                out@,
                            ) + frame(full.skip(start as int)).0);
                        },
                        None => {},
                    }
                },
            }
        }
        let rest = self.buffer.as_str().substring_char(start, c.len()).to_owned();
        self.buffer = rest;
        self.finished = done;
        out
    }

    /// Takes in one payload, `None` when it was not JSON. Its content
    /// piece, if it has one, is added to the content and returned as an
    /// event to hand on.
    pub fn accept(&mut self, payload: Option<JsonValue>) -> (r: Option<StreamEvent>)
        ensures
            final(self).buffer == old(self).buffer,
            final(self).finished == old(self).finished,
            match payload {
                Some(v) => match delta_of(v) {
                    Some(d) => final(self).content@ == old(self).content@ + d && (r matches Some(StreamEvent::Delta(s)) && s@ == d),
                    None => final(self).content@ == old(self).content@ && r is None,
                },
                None => final(self).content@ == old(self).content@ && r is None,
            },
    {
        match payload {
            Some(v) => match delta_content(&v) {
                Some(d) => {
                    self.content.append(d.as_str());
                    Some(StreamEvent::Delta(d))
                },
                None => None,
            },
            None => None,
        }
    }

    /// The closing event, with all the content gathered.
    pub fn finish(&self) -> (r: StreamEvent)
        ensures
            r matches StreamEvent::Done(s) && s@ == self.content@,
    {
        StreamEvent::Done(self.content.clone())
    }
}

} // verus!
