//! Incremental parser of server-sent events: byte chunks in, complete frames
//! out. A chunk may end anywhere. A frame ends on a blank line; one that is not
//! ended is never given out.
use vstd::prelude::*;
use crate::json::{field_of, parse_strict, strict_json, text_in, json_view, Json, JsonView};
use crate::message::Text;
use crate::text::{chars_of, joined, owned, same_text, text_of};
use crate::wire::ErrorEnvelope;

verus! {

/// The text of bytes, with what is no UTF-8 replaced.
pub uninterp spec fn utf8_lossy(bytes: Seq<u8>) -> Seq<char>;

/// `String::from_utf8_lossy`: the text of the bytes. Bytes that are UTF-8 are
/// decoded; the contract gives a name to the result, in which other bytes are
/// replaced.
#[verifier::external_body]
fn lossy_text(bytes: &Vec<u8>) -> (r: String)
    ensures
        r@ == utf8_lossy(bytes@),
        vstd::utf8::valid_utf8(bytes@) ==> r@ == vstd::utf8::decode_utf8(bytes@),
{
    String::from_utf8_lossy(bytes).into_owned()
}

/// A complete frame.
#[derive(Debug, PartialEq, Eq)]
pub struct SseFrame {
    /// The `event:` field, where there was one.
    pub event: Option<String>,
    /// The `data:` lines, joined.
    pub data: String,
}

#[verifier::ext_equal]
pub struct FrameView {
    pub event: Option<Text>,
    pub data: Text,
}

impl DeepView for SseFrame {
    type V = FrameView;

    open spec fn deep_view(&self) -> FrameView {
        FrameView { event: self.event.deep_view(), data: self.data@ }
    }
}

/// The state of the parser: the bytes of the line that has not ended, and the
/// frame that has not ended.
#[verifier::ext_equal]
pub struct SseView {
    pub buffer: Seq<u8>,
    pub event: Option<Text>,
    pub data: Seq<Text>,
    pub started: bool,
}

/// The position of the first line feed, or the number of bytes.
pub open spec fn line_feed(b: Seq<u8>) -> int
    decreases b.len(),
{
    if b.len() == 0 {
        0
    } else if b[0] == 10 {
        0
    } else {
        1 + line_feed(b.subrange(1, b.len() as int))
    }
}

/// A line without the line feeds and carriage returns at its end.
pub open spec fn without_line_end(s: Text) -> Text
    decreases s.len(),
{
    if s.len() > 0 && (s.last() == '\n' || s.last() == '\r') {
        without_line_end(s.drop_last())
    } else {
        s
    }
}

/// The position of the first colon, or the length.
pub open spec fn colon(s: Text) -> int
    decreases s.len(),
{
    if s.len() == 0 {
        0
    } else if s[0] == ':' {
        0
    } else {
        1 + colon(s.subrange(1, s.len() as int))
    }
}

/// The name of a line's field.
pub open spec fn field_name(line: Text) -> Text {
    line.subrange(0, colon(line))
}

/// The value of a line's field, without one space in front.
pub open spec fn field_value(line: Text) -> Text {
    let c = colon(line);
    if c >= line.len() {
        Seq::empty()
    } else if c + 1 < line.len() && line[c + 1] == ' ' {
        line.subrange(c + 2, line.len() as int)
    } else {
        line.subrange(c + 1, line.len() as int)
    }
}

/// Lines joined with line feeds.
pub open spec fn joined_lines(lines: Seq<Text>) -> Text
    decreases lines.len(),
{
    if lines.len() == 0 {
        Seq::empty()
    } else if lines.len() == 1 {
        lines[0]
    } else {
        joined_lines(lines.drop_last()) + seq!['\n'] + lines.last()
    }
}

/// A field line comes: `event` and `data` count, others do not.
pub open spec fn after_field(st: SseView, line: Text) -> SseView {
    if field_name(line) == "event"@ {
        SseView { event: Some(field_value(line)), started: true, ..st }
    } else if field_name(line) == "data"@ {
        SseView { data: st.data.push(field_value(line)), started: true, ..st }
    } else {
        st
    }
}

/// A blank line comes: the frame ends, where one had begun.
pub open spec fn after_blank(st: SseView) -> (SseView, Seq<FrameView>) {
    if st.started {
        (
            SseView { event: None, data: Seq::empty(), started: false, ..st },
            seq![FrameView { event: st.event, data: joined_lines(st.data) }],
        )
    } else {
        (st, Seq::empty())
    }
}

/// The text of a line's bytes: what they encode, where they are UTF-8.
pub open spec fn line_text(raw: Seq<u8>) -> Seq<char> {
    if vstd::utf8::valid_utf8(raw) {
        vstd::utf8::decode_utf8(raw)
    } else {
        utf8_lossy(raw)
    }
}

/// A line comes.
pub open spec fn after_line(st: SseView, raw: Seq<u8>) -> (SseView, Seq<FrameView>) {
    let line = without_line_end(line_text(raw));
    if line.len() == 0 {
        after_blank(st)
    } else {
        (after_field(st, line), Seq::empty())
    }
}

/// Every whole line of the buffer is taken in.
pub open spec fn drained(st: SseView) -> (SseView, Seq<FrameView>)
    decreases st.buffer.len(),
    via drained_decreases
{
    let p = line_feed(st.buffer);
    if p >= st.buffer.len() {
        (st, Seq::empty())
    } else {
        let rest = SseView { buffer: st.buffer.subrange(p + 1, st.buffer.len() as int), ..st };
        let (now, frames) = after_line(rest, st.buffer.subrange(0, p + 1));
        let (last, more) = drained(now);
        (last, frames + more)
    }
}

#[via_fn]
proof fn drained_decreases(st: SseView) {
    lemma_line_feed(st.buffer);
}

proof fn lemma_line_feed(b: Seq<u8>)
    ensures
        0 <= line_feed(b) <= b.len(),
        line_feed(b) < b.len() ==> b[line_feed(b)] == 10,
        forall|i: int| 0 <= i < line_feed(b) ==> b[i] != 10,
    decreases b.len(),
{
    if b.len() > 0 && b[0] != 10 {
        let t = b.subrange(1, b.len() as int);
        lemma_line_feed(t);
        assert forall|i: int| 0 <= i < line_feed(b) implies b[i] != 10 by {
            if i > 0 {
                assert(t[i - 1] == b[i]);
            }
        }
    }
}

proof fn lemma_line_feed_is(b: Seq<u8>, p: int)
    requires
        0 <= p <= b.len(),
        p < b.len() ==> b[p] == 10,
        forall|i: int| 0 <= i < p ==> b[i] != 10,
    ensures
        line_feed(b) == p,
{
    lemma_line_feed(b);
    let q = line_feed(b);
    if q < p {
        assert(b[q] != 10);
    } else if p < q {
        assert(b[p] != 10);
    }
}

proof fn lemma_colon(s: Text)
    ensures
        0 <= colon(s) <= s.len(),
        colon(s) < s.len() ==> s[colon(s)] == ':',
        forall|i: int| 0 <= i < colon(s) ==> s[i] != ':',
    decreases s.len(),
{
    if s.len() > 0 && s[0] != ':' {
        let t = s.subrange(1, s.len() as int);
        lemma_colon(t);
        assert forall|i: int| 0 <= i < colon(s) implies s[i] != ':' by {
            if i > 0 {
                assert(t[i - 1] == s[i]);
            }
        }
    }
}

/// A chunk comes.
pub open spec fn after_chunk(st: SseView, chunk: Seq<u8>) -> (SseView, Seq<FrameView>) {
    drained(SseView { buffer: st.buffer + chunk, ..st })
}

pub open spec fn fresh() -> SseView {
    SseView { buffer: Seq::empty(), event: None, data: Seq::empty(), started: false }
}

/// The incremental parser.
#[derive(Debug)]
pub struct SseParser {
    buffer: Vec<u8>,
    event: Option<String>,
    data: Vec<String>,
    started: bool,
}

impl View for SseParser {
    type V = SseView;

    closed spec fn view(&self) -> SseView {
        SseView {
            buffer: self.buffer@,
            event: self.event.deep_view(),
            data: self.data.deep_view(),
            started: self.started,
        }
    }
}

impl SseParser {
    pub fn new() -> (r: Self)
        ensures
            r@ == fresh(),
    {
        let r = SseParser { buffer: Vec::new(), event: None, data: Vec::new(), started: false };
        assert(r@ =~= fresh());
        r
    }

    /// Takes in a chunk and gives every frame that it completes.
    pub fn push(&mut self, chunk: &[u8]) -> (r: Vec<SseFrame>)
        ensures
            (final(self)@, r.deep_view()) == after_chunk(old(self)@, chunk@),
    {
        let ghost start = self@;
        let ghost full = SseView { buffer: start.buffer + chunk@, ..start };
        let mut i: usize = 0;
        while i < chunk.len()
            invariant
                i <= chunk.len(),
                self@ == (SseView { buffer: start.buffer + chunk@.take(i as int), ..start }),
            decreases chunk.len() - i,
        {
            self.buffer.push(chunk[i]);
            assert(self.buffer@ =~= start.buffer + chunk@.take(i + 1));
            i = i + 1;
        }
        assert(chunk@.take(chunk.len() as int) =~= chunk@);
        let mut frames: Vec<SseFrame> = Vec::new();
        proof {
            assert(frames.deep_view() =~= Seq::empty());
            assert(frames.deep_view() + drained(self@).1 =~= drained(self@).1);
        }
        loop
            invariant
                drained(full) == (drained(self@).0, frames.deep_view() + drained(self@).1),
            ensures
                drained(full) == (self@, frames.deep_view()),
            decreases self.buffer.len(),
        {
            let ghost here = self@;
            let p = self.find_line_feed();
            if p >= self.buffer.len() {
                assert(frames.deep_view() + Seq::<FrameView>::empty() =~= frames.deep_view());
                break;
            }
            let raw = self.take_line(p);
            let ghost rest = self@;
            let ghost so_far = frames.deep_view();
            let text = lossy_text(&raw);
            let line = strip_line_end(text.as_str());
            if line.as_str().is_empty() {
                if let Some(frame) = self.take_frame() {
                    let ghost view = frame.deep_view();
                    frames.push(frame);
                    assert(frames.deep_view() =~= so_far + seq![view]);
                } else {
                    assert(so_far + Seq::<FrameView>::empty() =~= so_far);
                }
            } else {
                self.consume_field(line.as_str());
                assert(so_far + Seq::<FrameView>::empty() =~= so_far);
            }
            proof {
                let (now, given) = after_line(rest, raw@);
                assert(self@ == now);
                assert(frames.deep_view() == so_far + given);
                let more = drained(now).1;
                assert(so_far + (given + more) =~= (so_far + given) + more);
            }
        }
        frames
    }

    fn find_line_feed(&self) -> (p: usize)
        ensures
            p == line_feed(self@.buffer),
    {
        let mut i: usize = 0;
        while i < self.buffer.len()
            invariant
                i <= self.buffer.len(),
                forall|k: int| 0 <= k < i ==> self.buffer@[k] != 10,
            decreases self.buffer.len() - i,
        {
            if self.buffer[i] == 10 {
                proof {
                    lemma_line_feed_is(self.buffer@, i as int);
                }
                return i;
            }
            i = i + 1;
        }
        proof {
            lemma_line_feed_is(self.buffer@, i as int);
        }
        i
    }

    /// Takes the line that ends at `p` out of the buffer.
    fn take_line(&mut self, p: usize) -> (r: Vec<u8>)
        requires
            p < old(self)@.buffer.len(),
        ensures
            r@ == old(self)@.buffer.subrange(0, p + 1),
            final(self)@ == (SseView {
                buffer: old(self)@.buffer.subrange(p + 1, old(self)@.buffer.len() as int),
                ..old(self)@
            }),
    {
        assert(p < self.buffer.len());
        let mut rest = self.buffer.split_off(p + 1);
        core::mem::swap(&mut self.buffer, &mut rest);
        rest
    }

    fn consume_field(&mut self, line: &str)
        ensures
            final(self)@ == after_field(old(self)@, line@),
    {
        let ghost before = self@;
        let v = chars_of(line);
        let mut c: usize = 0;
        while c < v.len() && v[c] != ':'
            invariant
                v@ == line@,
                c <= v.len(),
                forall|k: int| 0 <= k < c ==> line@[k] != ':',
            decreases v.len() - c,
        {
            c = c + 1;
        }
        proof {
            lemma_colon(line@);
            let q = colon(line@);
            if q < c {
                assert(line@[q] != ':');
            } else if c < q {
                assert(line@[c as int] != ':');
            }
        }
        let field = text_of(&v, 0, c);
        let value = if c >= v.len() {
            String::new()
        } else if v.len() - c > 1 && v[c + 1] == ' ' {
            text_of(&v, c + 2, v.len())
        } else {
            text_of(&v, c + 1, v.len())
        };
        if same_text(field.as_str(), "event") {
            self.started = true;
            self.event = Some(value);
        } else if same_text(field.as_str(), "data") {
            self.started = true;
            let ghost view = value@;
            self.data.push(value);
            assert(self.data.deep_view() =~= before.data.push(view));
        }
    }

    fn take_frame(&mut self) -> (r: Option<SseFrame>)
        ensures
            match r {
                Some(f) => (final(self)@, seq![f.deep_view()]) == after_blank(old(self)@),
                None => (final(self)@, Seq::<FrameView>::empty()) == after_blank(old(self)@),
            },
    {
        if !self.started {
            return None;
        }
        let data = join_lines(&self.data);
        let frame = SseFrame { event: self.event.take(), data };
        self.data.clear();
        self.started = false;
        assert(self.data.deep_view() =~= Seq::empty());
        Some(frame)
    }
}

/// A line without the line feeds and carriage returns at its end.
fn strip_line_end(s: &str) -> (r: String)
    ensures
        r@ == without_line_end(s@),
{
    let v = chars_of(s);
    let mut to: usize = v.len();
    assert(v@.take(to as int) =~= v@);
    while to > 0 && (v[to - 1] == '\n' || v[to - 1] == '\r')
        invariant
            v@ == s@,
            to <= v.len(),
            without_line_end(s@) == without_line_end(s@.take(to as int)),
        decreases to,
    {
        assert(s@.take(to as int).drop_last() =~= s@.take(to - 1));
        to = to - 1;
    }
    assert(s@.take(to as int) =~= s@.subrange(0, to as int));
    text_of(&v, 0, to)
}

fn join_lines(lines: &Vec<String>) -> (r: String)
    ensures
        r@ == joined_lines(lines.deep_view()),
{
    let ghost all = lines.deep_view();
    let mut out = String::new();
    let mut i: usize = 0;
    assert(all.take(0) =~= Seq::empty());
    while i < lines.len()
        invariant
            all == lines.deep_view(),
            i <= lines.len(),
            out@ == joined_lines(all.take(i as int)),
        decreases lines.len() - i,
    {
        assert(all.take(i + 1).drop_last() =~= all.take(i as int));
        assert(all.take(i + 1).last() == lines@[i as int]@);
        if i > 0 {
            let ghost before = out@;
            out.push('\n');
            assert(out@ =~= before + seq!['\n']);
            out = joined(out.as_str(), lines[i].as_str());
        } else {
            out = lines[i].clone();
        }
        i = i + 1;
    }
    assert(all.take(lines.len() as int) =~= all);
    out
}

proof fn lemma_drained_append(st: SseView, more: Seq<u8>)
    ensures
        ({
            let (s1, f1) = drained(st);
            let (s2, f2) = drained(SseView { buffer: s1.buffer + more, ..s1 });
            drained(SseView { buffer: st.buffer + more, ..st }) == (s2, f1 + f2)
        }),
    decreases st.buffer.len(),
{
    let b = st.buffer;
    let p = line_feed(b);
    lemma_line_feed(b);
    let longer = SseView { buffer: b + more, ..st };
    let (s1, f1) = drained(st);
    let (s2, f2) = drained(SseView { buffer: s1.buffer + more, ..s1 });
    if p >= b.len() {
        assert(f1 + f2 =~= f2);
    } else {
        assert forall|i: int| 0 <= i < p implies (b + more)[i] != 10 by {
            assert((b + more)[i] == b[i]);
        }
        lemma_line_feed_is(b + more, p);
        let raw = b.subrange(0, p + 1);
        assert((b + more).subrange(0, p + 1) =~= raw);
        let tail = b.subrange(p + 1, b.len() as int);
        assert((b + more).subrange(p + 1, (b + more).len() as int) =~= tail + more);
        let rest = SseView { buffer: tail, ..st };
        let (now, frames) = after_line(rest, raw);
        let rest_longer = SseView { buffer: tail + more, ..st };
        let (now_longer, frames_longer) = after_line(rest_longer, raw);
        assert(frames_longer == frames);
        assert(now_longer == SseView { buffer: now.buffer + more, ..now });
        assert(now.buffer == tail);
        lemma_drained_append(now, more);
        let given = drained(now).1;
        assert((frames + given) + f2 =~= frames + (given + f2));
    }
}

/// How a stream is cut into chunks makes no difference: two chunks give the
/// frames, and leave the state, that the one made of both does.
pub proof fn law_chunking_is_immaterial(st: SseView, a: Seq<u8>, b: Seq<u8>)
    ensures
        ({
            let (s1, f1) = after_chunk(st, a);
            let (s2, f2) = after_chunk(s1, b);
            after_chunk(st, a + b) == (s2, f1 + f2)
        }),
{
    lemma_drained_append(SseView { buffer: st.buffer + a, ..st }, b);
    assert((st.buffer + a) + b =~= st.buffer + (a + b));
}

/// A chunk without a line feed completes no frame.
pub proof fn law_unended_line_gives_nothing(st: SseView, chunk: Seq<u8>)
    requires
        !st.buffer.contains(10),
        !chunk.contains(10),
    ensures
        after_chunk(st, chunk) == (SseView { buffer: st.buffer + chunk, ..st }, Seq::<FrameView>::empty()),
{
    let b = st.buffer + chunk;
    assert forall|i: int| 0 <= i < b.len() implies b[i] != 10 by {
        if i < st.buffer.len() {
            assert(b[i] == st.buffer[i]);
        } else {
            assert(b[i] == chunk[i - st.buffer.len()]);
        }
    }
    lemma_line_feed_is(b, b.len() as int);
}

// ---- what a frame says -------------------------------------------------------

/// The types of frames that carry a part of a message.
pub open spec fn is_message_event(t: Text) -> bool {
    ||| t == "message_start"@
    ||| t == "message_delta"@
    ||| t == "message_stop"@
    ||| t == "content_block_start"@
    ||| t == "content_block_delta"@
    ||| t == "content_block_stop"@
}

/// The payload of a frame that carries a part of a message: its data, where that
/// is JSON of one of the types.
pub open spec fn message_payload(data: Text) -> Option<JsonView> {
    match strict_json(data) {
        Some(v) => match text_in(field_of(v, "type"@)) {
            Some(t) => if is_message_event(t) {
                Some(v)
            } else {
                None
            },
            None => None,
        },
        None => None,
    }
}

/// The payload of a frame that carries a part of a message. A ping, a frame of
/// another type and one that is no JSON have none.
pub fn parse_message_event(frame: &SseFrame) -> (r: Option<Json>)
    ensures
        r.deep_view() == message_payload(frame.data@),
{
    match parse_strict(frame.data.as_str()) {
        Some(v) => {
            let carries = message_event_type(&v);
            if carries {
                Some(v)
            } else {
                None
            }
        },
        None => None,
    }
}

/// Whether the type that a payload names is that of a part of a message.
pub fn message_event_type(value: &Json) -> (r: bool)
    ensures
        r == match text_in(field_of(json_view(*value), "type"@)) {
            Some(t) => is_message_event(t),
            None => false,
        },
{
    match value.get("type") {
        Some(Json::String(t)) => {
            let t = t.as_str();
            same_text(t, "message_start") || same_text(t, "message_delta") || same_text(t, "message_stop")
                || same_text(t, "content_block_start") || same_text(t, "content_block_delta") || same_text(
                t,
                "content_block_stop",
            )
        },
        _ => false,
    }
}

/// What an error frame says: its envelope's message, where it has one, else its
/// data.
pub open spec fn stream_error_text(data: Text, envelope: Option<ErrorEnvelope>) -> Text {
    match envelope {
        Some(e) => if e.error.message@.len() == 0 {
            data
        } else if e.error.error_type@.len() == 0 {
            "Anthropic stream error: "@ + e.error.message@
        } else {
            "Anthropic stream error ("@ + e.error.error_type@ + "): "@ + e.error.message@
        },
        None => data,
    }
}

/// What an error frame says, given the envelope that its data decodes to.
pub fn stream_error_message(data: &str, envelope: &Option<ErrorEnvelope>) -> (r: String)
    ensures
        r@ == stream_error_text(data@, *envelope),
{
    match envelope {
        Some(e) => {
            if e.error.message.as_str().is_empty() {
                owned(data)
            } else if e.error.error_type.as_str().is_empty() {
                joined("Anthropic stream error: ", e.error.message.as_str())
            } else {
                let a = joined("Anthropic stream error (", e.error.error_type.as_str());
                let b = joined(a.as_str(), "): ");
                joined(b.as_str(), e.error.message.as_str())
            }
        },
        None => owned(data),
    }
}

/// A comment, and a field other than `event` and `data`, changes nothing.
pub proof fn law_other_fields_are_ignored(st: SseView, line: Text)
    requires
        field_name(line) != "event"@,
        field_name(line) != "data"@,
    ensures
        after_field(st, line) == st,
{
}

/// A blank line ends a frame only where a field began one.
pub proof fn law_frames_hold_a_field(st: SseView)
    ensures
        after_blank(st).1.len() == (if st.started {
            1nat
        } else {
            0
        }),
        !after_blank(st).0.started,
{
}

// ---- what a stream says --------------------------------------------------------------------------

/// A whole line of the buffer is taken in before what stands behind it.
pub proof fn law_lines_are_taken_in_order(st: SseView, line: Seq<u8>, rest: Seq<u8>)
    requires
        line.len() > 0,
        line.last() == 10,
        forall|i: int| 0 <= i < line.len() - 1 ==> line[i] != 10,
        st.buffer == line + rest,
    ensures
        ({
            let (now, frames) = after_line((SseView { buffer: rest, ..st }), line);
            let (last, more) = drained(now);
            drained(st) == (last, frames + more)
        }),
{
    let b = st.buffer;
    lemma_line_feed(b);
    let p = line.len() - 1;
    assert(b[p] == 10);
    assert(line_feed(b) == p) by {
        if line_feed(b) < p {
            assert(b[line_feed(b)] == line[line_feed(b)]);
        } else if p < line_feed(b) {
            assert(b[p] != 10);
        }
    }
    assert(b.subrange(0, p + 1) =~= line);
    assert(b.subrange(p + 1, b.len() as int) =~= rest);
}

/// A line of text, with either line end, is the field that it writes; an empty line
/// ends the frame.
pub proof fn law_line_is_its_text(st: SseView, t: Text)
    requires
        t.len() > 0 ==> t.last() != '\n' && t.last() != '\r',
    ensures
        t.len() > 0 ==> after_line(st, vstd::utf8::encode_utf8(t.push('\n'))) == (
            after_field(st, t),
            Seq::<FrameView>::empty(),
        ),
        t.len() > 0 ==> after_line(st, vstd::utf8::encode_utf8(t.push('\r').push('\n'))) == (
            after_field(st, t),
            Seq::<FrameView>::empty(),
        ),
        t.len() == 0 ==> after_line(st, vstd::utf8::encode_utf8(t.push('\n'))) == after_blank(st),
{
    let a = t.push('\n');
    let b = t.push('\r').push('\n');
    vstd::utf8::encode_utf8_valid_utf8(a);
    vstd::utf8::encode_utf8_decode_utf8(a);
    vstd::utf8::encode_utf8_valid_utf8(b);
    vstd::utf8::encode_utf8_decode_utf8(b);
    assert(a.drop_last() =~= t);
    assert(b.drop_last() =~= t.push('\r'));
    assert(t.push('\r').drop_last() =~= t);
    reveal_with_fuel(without_line_end, 4);
}

proof fn lemma_colon_is(s: Text, p: int)
    requires
        0 <= p < s.len(),
        s[p] == ':',
        forall|i: int| 0 <= i < p ==> s[i] != ':',
    ensures
        colon(s) == p,
    decreases s.len(),
{
    if p > 0 {
        assert(s[0] != ':');
        let t = s.subrange(1, s.len() as int);
        assert forall|i: int| 0 <= i < p - 1 implies t[i] != ':' by {
            assert(t[i] == s[i + 1]);
        }
        lemma_colon_is(t, p - 1);
    }
}

/// The event of a frame is named by its field, its data come line by line, and a line
/// that begins with a colon says nothing. One space behind the colon is no part of the
/// value.
pub proof fn law_fields_say_what_they_say(st: SseView, v: Text)
    ensures
        after_field(st, "event: "@ + v) == (SseView { event: Some(v), started: true, ..st }),
        after_field(st, "data: "@ + v) == (SseView { data: st.data.push(v), started: true, ..st }),
        v.len() > 0 && v[0] != ' ' ==> after_field(st, "data:"@ + v) == (SseView {
            data: st.data.push(v),
            started: true,
            ..st
        }),
        after_field(st, ":"@ + v) == st,
{
    reveal_strlit("event: ");
    reveal_strlit("data: ");
    reveal_strlit("data:");
    reveal_strlit(":");
    reveal_strlit("event");
    reveal_strlit("data");
    let e = "event: "@ + v;
    assert(e[5] == ':' && e[6] == ' ');
    lemma_colon_is(e, 5);
    assert(e.subrange(0, 5) =~= "event"@);
    assert(e.subrange(7, e.len() as int) =~= v);
    let d = "data: "@ + v;
    assert(d[4] == ':' && d[5] == ' ');
    lemma_colon_is(d, 4);
    assert(d.subrange(0, 4) =~= "data"@);
    assert(d.subrange(6, d.len() as int) =~= v);
    assert("data"@.len() == 4 && "event"@.len() == 5);
    if v.len() > 0 && v[0] != ' ' {
        let s = "data:"@ + v;
        assert(s[4] == ':' && s[5] == v[0]);
        lemma_colon_is(s, 4);
        assert(s.subrange(0, 4) =~= "data"@);
        assert(s.subrange(5, s.len() as int) =~= v);
    }
    let c = ":"@ + v;
    assert(c[0] == ':');
    lemma_colon_is(c, 0);
    assert(c.subrange(0, 0).len() == 0);
}

/// The end of a frame gives its event and all its data, with a line feed between the
/// lines, and the next frame begins with nothing.
pub proof fn law_frame_holds_all_its_data(st: SseView, line: Text)
    requires
        st.started,
    ensures
        after_blank(st).1 == seq![FrameView { event: st.event, data: joined_lines(st.data) }],
        after_blank(st).0 == (SseView { buffer: st.buffer, event: None, data: Seq::empty(), started: false }),
        st.data.len() == 0 ==> joined_lines(st.data.push(line)) == line,
        st.data.len() > 0 ==> joined_lines(st.data.push(line)) == joined_lines(st.data) + seq!['\n'] + line,
{
    assert(st.data.push(line).drop_last() =~= st.data);
}

/// The payload of a frame is its JSON, where its type is one that a message has.
pub proof fn law_payload_is_the_data(data: Text)
    ensures
        ({
            let v = strict_json(data);
            let t = text_in(field_of(v->0, "type"@));
            let known = v is Some && (t == Some("message_start"@) || t == Some("message_delta"@) || t == Some(
                "message_stop"@,
            ) || t == Some("content_block_start"@) || t == Some("content_block_delta"@) || t == Some(
                "content_block_stop"@,
            ));
            &&& known ==> message_payload(data) == v
            &&& !known ==> message_payload(data) is None
        }),
{
}

/// An error frame is told by the message and type that its envelope holds, else by its
/// data.
pub proof fn law_stream_error_is_told(data: Text, e: ErrorEnvelope)
    ensures
        stream_error_text(data, None) == data,
        e.error.message@.len() == 0 ==> stream_error_text(data, Some(e)) == data,
        e.error.message@.len() > 0 && e.error.error_type@.len() == 0 ==> stream_error_text(data, Some(e))
            == "Anthropic stream error: "@ + e.error.message@,
        e.error.message@.len() > 0 && e.error.error_type@.len() > 0 ==> stream_error_text(data, Some(e))
            == "Anthropic stream error ("@ + e.error.error_type@ + "): "@ + e.error.message@,
{
}

} // verus!
