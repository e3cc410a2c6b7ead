//! Replies of the server: events of a stream, and what they come to.
use crate::candidates::capped_sum;
use crate::json;
use crate::json::{json_content, json_parsed, pointed, JsonView};
use crate::profile::{ProbeSummary, ProbeView};
use crate::text;
use vstd::prelude::*;

verus! {

// ---------------------------------------------------------------------------
// Events

/// What an event line carries; nothing for another line.
pub open spec fn event_of(line: Seq<char>) -> Option<Seq<char>> {
    let t = text::trim(line);
    if text::starts_with(t, "data:"@) {
        Some(text::trim(t.skip("data:"@.len() as int)))
    } else {
        None
    }
}

/// What the event lines among several lines carry.
pub open spec fn events_of(lines: Seq<Seq<char>>) -> Seq<Seq<char>>
    decreases lines.len(),
{
    if lines.len() == 0 {
        seq![]
    } else {
        let before = events_of(lines.drop_last());
        match event_of(lines.last()) {
            Some(data) => before.push(data),
            None => before,
        }
    }
}

/// The events in the complete lines of a buffer.
pub open spec fn drained(buffer: Seq<char>) -> Seq<Seq<char>> {
    events_of(text::split(buffer, '\n').drop_last())
}

/// What is left of a buffer: its last line, which is not complete.
pub open spec fn remainder(buffer: Seq<char>) -> Seq<char> {
    text::split(buffer, '\n').last()
}

proof fn split_len(s: Seq<char>, c: char)
    ensures
        text::split(s, c).len() > 0,
    decreases s.len(),
{
    text::run_before_bound(s, c);
}

/// Takes the events in the complete lines out of a buffer.
pub fn drain_sse_events(buffer: &mut String) -> (r: Vec<String>)
    ensures
        text::texts(r@) == drained(old(buffer)@),
        final(buffer)@ == remainder(old(buffer)@),
{
    let lines = text::split_at_char(buffer.as_str(), '\n');
    let ghost all = text::split(buffer@, '\n');
    proof {
        split_len(buffer@, '\n');
        assert(text::texts(lines@).len() == lines@.len());
        assert(all.drop_last().take(0) =~= seq![]);
    }
    let count: usize = lines.len() - 1;
    let ghost complete = all.drop_last();
    let mut events: Vec<String> = Vec::new();
    proof {
        assert(text::texts(events@) =~= events_of(complete.take(0)));
    }
    for i in 0..count
        invariant
            all == text::texts(lines@),
            complete == all.drop_last(),
            count == complete.len(),
            count + 1 == lines@.len(),
            text::texts(events@) == events_of(complete.take(i as int)),
    {
        let ghost before = text::texts(events@);
        proof {
            assert(complete.take(i + 1).drop_last() =~= complete.take(i as int));
            assert(complete.take(i + 1).last() == lines@[i as int]@);
        }
        let line = text::trimmed(lines[i].as_str());
        if let Some(data) = text::strip_prefix(line.as_str(), "data:") {
            let event = text::trimmed(data.as_str());
            events.push(event);
            proof {
                assert(text::texts(events@) =~= before.push(event@));
            }
        }
    }
    proof {
        assert(complete.take(count as int) =~= complete);
        assert(all.last() == lines@[count as int]@);
    }
    *buffer = lines[count].clone();
    events
}

proof fn events_concat(a: Seq<Seq<char>>, b: Seq<Seq<char>>)
    ensures
        events_of(a + b) == events_of(a) + events_of(b),
    decreases b.len(),
{
    if b.len() == 0 {
        assert(a + b =~= a);
        assert(events_of(a) + events_of(b) =~= events_of(a));
    } else {
        events_concat(a, b.drop_last());
        assert((a + b).drop_last() =~= a + b.drop_last());
        assert((a + b).last() == b.last());
        match event_of(b.last()) {
            Some(data) => {
                assert((events_of(a) + events_of(b.drop_last())).push(data) =~= events_of(a) + (
                events_of(b.drop_last()).push(data)));
            },
            None => {},
        }
    }
}

proof fn run_before_skips(s: Seq<char>, c: char, n: int)
    requires
        0 <= n <= s.len(),
        forall|i: int| 0 <= i < n ==> s[i] != c,
    ensures
        text::run_before(s, c) == n + text::run_before(s.skip(n), c),
    decreases n,
{
    if n > 0 {
        let rest = s.drop_first();
        assert forall|i: int| 0 <= i < n - 1 implies rest[i] != c by {
            assert(rest[i] == s[i + 1]);
        }
        run_before_skips(rest, c, n - 1);
        assert(rest.skip(n - 1) =~= s.skip(n));
        assert(s[0] != c);
    } else {
        assert(s.skip(0) =~= s);
    }
}

proof fn split_concat(a: Seq<char>, b: Seq<char>, c: char)
    ensures
        text::split(a + b, c) == text::split(a, c).drop_last() + text::split(
            text::split(a, c).last() + b,
            c,
        ),
    decreases a.len(),
{
    text::run_before_bound(a, c);
    let n = text::run_before(a, c) as int;
    if n >= a.len() {
        assert(text::split(a, c).drop_last() =~= seq![]);
        assert(text::split(a + b, c) =~= text::split(a, c).drop_last() + text::split(a + b, c));
    } else {
        let rest = a.skip(n + 1);
        split_concat(rest, b, c);
        split_len(rest, c);
        let whole = a + b;
        assert forall|i: int| 0 <= i < n implies whole[i] != c by {
            assert(whole[i] == a[i]);
        }
        run_before_skips(whole, c, n);
        assert(whole.skip(n)[0] == a[n]);
        assert(text::run_before(whole.skip(n), c) == 0);
        assert(text::run_before(whole, c) == n);
        assert(whole.take(n) =~= a.take(n));
        assert(whole.skip(n + 1) =~= rest + b);
        let tail = text::split(rest, c);
        assert(text::split(a, c) == seq![a.take(n)] + tail);
        assert(text::split(a, c).drop_last() =~= seq![a.take(n)] + tail.drop_last());
        assert(text::split(a, c).last() == tail.last());
        assert(seq![a.take(n)] + (tail.drop_last() + text::split(tail.last() + b, c)) =~= (seq![
            a.take(n),
        ] + tail.drop_last()) + text::split(tail.last() + b, c));
    }
}

/// It does not matter how a stream is cut into chunks: the events of two
/// chunks that arrive one after the other are those of the two at once.
pub proof fn chunks_do_not_matter(a: Seq<char>, b: Seq<char>)
    ensures
        drained(a + b) == drained(a) + drained(remainder(a) + b),
        remainder(a + b) == remainder(remainder(a) + b),
{
    let head = text::split(a, '\n').drop_last();
    let tail = text::split(remainder(a) + b, '\n');
    split_concat(a, b, '\n');
    split_len(remainder(a) + b, '\n');
    assert((head + tail).drop_last() =~= head + tail.drop_last());
    assert((head + tail).last() == tail.last());
    events_concat(head, tail.drop_last());
}

// ---------------------------------------------------------------------------
// Chat completions

/// The text in what an event of a chat completion stands for: the change of a
/// streamed reply, or else the whole message.
pub open spec fn content_of(v: serde_json::Value) -> Seq<char> {
    let found = match pointed(v, "/choices/0/delta/content"@) {
        Some(x) => Some(x),
        None => pointed(v, "/choices/0/message/content"@),
    };
    match found {
        Some(x) => match json_content(x) {
            JsonView::Text(s) => s,
            _ => seq![],
        },
        None => seq![],
    }
}

/// The text in what an event of a chat completion stands for.
pub fn event_content(v: &serde_json::Value) -> (r: String)
    ensures
        r@ == content_of(*v),
{
    proof {
        reveal_strlit("/choices/0/delta/content");
        reveal_strlit("/choices/0/message/content");
    }
    let found = match json::lookup(v, "/choices/0/delta/content") {
        Some(x) => Some(x),
        None => json::lookup(v, "/choices/0/message/content"),
    };
    match found {
        Some(x) => match json::as_text(&x) {
            Some(s) => s,
            None => String::new(),
        },
        None => String::new(),
    }
}

/// What came of a stream so far: the text, the number of events that carried
/// any, and when the first of them came.
#[verifier::ext_equal]
pub struct ReplyView {
    pub text: Seq<char>,
    pub events: nat,
    pub first_ms: Option<u64>,
}

/// What came of a stream after a text was received.
pub open spec fn with_content(s: ReplyView, content: Seq<char>, elapsed_ms: u64) -> ReplyView {
    if content.len() == 0 {
        s
    } else {
        ReplyView {
            text: s.text + content,
            events: capped_sum(s.events, 1),
            first_ms: match s.first_ms {
                Some(t) => Some(t),
                None => Some(elapsed_ms),
            },
        }
    }
}

/// The text that an event carries: none for the end of the stream and for what
/// is no JSON.
pub open spec fn event_text(event: Seq<char>) -> Seq<char> {
    if event == "[DONE]"@ {
        seq![]
    } else {
        match json_parsed(event) {
            Some(v) => content_of(v),
            None => seq![],
        }
    }
}

/// What came of a stream after several events.
pub open spec fn with_events(s: ReplyView, events: Seq<Seq<char>>, elapsed_ms: u64) -> ReplyView
    decreases events.len(),
{
    if events.len() == 0 {
        s
    } else {
        with_content(
            with_events(s, events.drop_last(), elapsed_ms),
            event_text(events.last()),
            elapsed_ms,
        )
    }
}

/// The text of bytes that may not be UTF-8.
pub uninterp spec fn lossy_text(bytes: Seq<u8>) -> Seq<char>;

/// `String::from_utf8_lossy`: the text of bytes, by name of that result alone;
/// where they are UTF-8 it is the text that they encode.
#[verifier::external_body]
fn decode_lossy(bytes: &Vec<u8>) -> (r: String)
    ensures
        r@ == lossy_text(bytes@),
        vstd::utf8::valid_utf8(bytes@) ==> r@ == vstd::utf8::decode_utf8(bytes@),
{
    std::string::String::from_utf8_lossy(bytes).into_owned()
}

/// The reply to a chat request, as it arrives.
#[derive(Debug)]
pub struct ChatReply {
    /// What arrived and is not a complete line yet.
    pub buffer: String,
    /// Everything that arrived.
    pub raw: String,
    pub text: String,
    pub completion_events: u64,
    pub first_token_ms: Option<u64>,
}

impl View for ChatReply {
    type V = ReplyView;

    open spec fn view(&self) -> ReplyView {
        ReplyView {
            text: self.text@,
            events: self.completion_events as nat,
            first_ms: self.first_token_ms,
        }
    }
}

/// The first characters of a text.
pub open spec fn first_chars(s: Seq<char>, n: int) -> Seq<char> {
    if s.len() > n {
        s.take(n)
    } else {
        s
    }
}

/// The first characters of a text.
fn first_part(s: &str, n: usize) -> (r: String)
    ensures
        r@ == first_chars(s@, n as int),
{
    let chars = text::to_chars(s);
    if chars.len() > n {
        proof {
            assert(chars@.subrange(0, n as int) =~= chars@.take(n as int));
        }
        text::slice_text(&chars, 0, n)
    } else {
        s.to_string()
    }
}

/// An estimate of the tokens of a text: one for four characters.
pub open spec fn token_estimate(s: Seq<char>) -> nat {
    if s.len() < 8 {
        1
    } else {
        s.len() / 4
    }
}

/// An estimate of the tokens of a text.
pub fn estimate_tokens(text: &str) -> (r: u64)
    ensures
        r == token_estimate(text@),
{
    let n: u64 = text::to_chars(text).len() as u64;
    if n < 8 {
        1
    } else {
        n / 4
    }
}

/// What a request came to.
pub open spec fn summary_of(s: ReplyView, prompt: Seq<char>, max_tokens: u64, wall_ms: u64) -> ProbeView {
    let least: nat = if max_tokens > 1 {
        1
    } else {
        max_tokens as nat
    };
    ProbeView {
        prompt_tokens: Some(token_estimate(prompt) as u64),
        completion_tokens: Some(
            if s.events < least {
                least as u64
            } else {
                s.events as u64
            },
        ),
        ttft_ms: s.first_ms,
        wall_ms: Some(wall_ms),
        response_excerpt: if s.text.len() == 0 {
            None
        } else {
            Some(first_chars(s.text, 500))
        },
    }
}

impl ChatReply {
    /// A reply of which nothing arrived.
    pub fn new() -> (r: ChatReply)
        ensures
            r.buffer@.len() == 0,
            r.raw@.len() == 0,
            r@ == (ReplyView { text: seq![], events: 0, first_ms: None }),
    {
        ChatReply {
            buffer: String::new(),
            raw: String::new(),
            text: String::new(),
            completion_events: 0,
            first_token_ms: None,
        }
    }

    /// Takes a text that an event carried.
    pub fn take_content(&mut self, content: &str, elapsed_ms: u64)
        ensures
            final(self)@ == with_content(old(self)@, content@, elapsed_ms),
            final(self).buffer@ == old(self).buffer@,
            final(self).raw@ == old(self).raw@,
    {
        if content.is_empty() {
            return;
        }
        if self.first_token_ms.is_none() {
            self.first_token_ms = Some(elapsed_ms);
        }
        self.completion_events = self.completion_events.saturating_add(1);
        self.text.append(content);
    }

    fn take_event(&mut self, event: &str, elapsed_ms: u64)
        ensures
            final(self)@ == with_content(old(self)@, event_text(event@), elapsed_ms),
            final(self).buffer@ == old(self).buffer@,
            final(self).raw@ == old(self).raw@,
    {
        if text::same_text(event, "[DONE]") {
            return;
        }
        if let Ok(v) = json::parse(event) {
            let content = event_content(&v);
            self.take_content(content.as_str(), elapsed_ms);
        }
    }

    /// Takes a part of the stream.
    pub fn take_text(&mut self, chunk: &str, elapsed_ms: u64)
        ensures
            final(self).raw@ == old(self).raw@ + chunk@,
            final(self).buffer@ == remainder(old(self).buffer@ + chunk@),
            final(self)@ == with_events(
                old(self)@,
                drained(old(self).buffer@ + chunk@),
                elapsed_ms,
            ),
    {
        self.raw.append(chunk);
        let mut buffer = self.buffer.clone();
        buffer.append(chunk);
        let events = drain_sse_events(&mut buffer);
        self.buffer = buffer;
        let ghost start = self@;
        let ghost all = text::texts(events@);
        let ghost rest = self.buffer@;
        let ghost everything = self.raw@;
        proof {
            assert(all.take(0) =~= seq![]);
        }
        for i in 0..events.len()
            invariant
                all == text::texts(events@),
                self.buffer@ == rest,
                self.raw@ == everything,
                self@ == with_events(start, all.take(i as int), elapsed_ms),
        {
            proof {
                assert(all.take(i + 1).drop_last() =~= all.take(i as int));
                assert(all.take(i + 1).last() == events@[i as int]@);
            }
            self.take_event(events[i].as_str(), elapsed_ms);
        }
        proof {
            assert(all.take(all.len() as int) =~= all);
        }
    }

    /// Takes a part of the stream, as bytes.
    pub fn take_chunk(&mut self, bytes: &Vec<u8>, elapsed_ms: u64)
        ensures
            final(self).raw@ == old(self).raw@ + lossy_text(bytes@),
            final(self).buffer@ == remainder(old(self).buffer@ + lossy_text(bytes@)),
            final(self)@ == with_events(
                old(self)@,
                drained(old(self).buffer@ + lossy_text(bytes@)),
                elapsed_ms,
            ),
    {
        let chunk = decode_lossy(bytes);
        self.take_text(chunk.as_str(), elapsed_ms);
    }

    /// What the request came to.
    pub fn summary(&self, prompt: &str, max_tokens: u64, wall_ms: u64) -> (r: ProbeSummary)
        ensures
            r@ == summary_of(self@, prompt@, max_tokens, wall_ms),
    {
        let least: u64 = if max_tokens > 1 {
            1
        } else {
            max_tokens
        };
        let excerpt = if self.text.as_str().is_empty() {
            None
        } else {
            Some(first_part(self.text.as_str(), 500))
        };
        ProbeSummary {
            prompt_tokens: Some(estimate_tokens(prompt)),
            completion_tokens: Some(
                if self.completion_events < least {
                    least
                } else {
                    self.completion_events
                },
            ),
            ttft_ms: self.first_token_ms,
            wall_ms: Some(wall_ms),
            response_excerpt: excerpt,
        }
    }

    /// The start of the text, to keep as evidence.
    pub fn text_excerpt(&self) -> (r: String)
        ensures
            r@ == first_chars(self.text@, 1000),
    {
        first_part(self.text.as_str(), 1000)
    }

    /// The start of the stream, to keep as evidence.
    pub fn raw_excerpt(&self) -> (r: String)
        ensures
            r@ == first_chars(self.raw@, 4000),
    {
        first_part(self.raw.as_str(), 4000)
    }
}

/// The estimate of a text's tokens: one for four characters, and at least one.
pub proof fn estimates_are_a_quarter(s: Seq<char>)
    ensures
        token_estimate(s) >= 1,
        s.len() >= 8 ==> 4 * token_estimate(s) <= s.len() && s.len() < 4 * token_estimate(s) + 4,
        s.len() < 8 ==> token_estimate(s) == 1,
{
}

/// What a text adds to a reply: it stands at the end, counts as one event, and
/// the first of all sets the time of the first token; an empty one adds nothing.
pub proof fn texts_add_up(s: ReplyView, content: Seq<char>, elapsed_ms: u64)
    requires
        s.events < u64::MAX,
    ensures
        ({
            let t = with_content(s, content, elapsed_ms);
            &&& t.text == s.text + content
            &&& content.len() == 0 ==> t.events == s.events && t.first_ms == s.first_ms
            &&& content.len() > 0 ==> t.events == s.events + 1
            &&& s.first_ms is Some ==> t.first_ms == s.first_ms
            &&& s.first_ms is None && content.len() > 0 ==> t.first_ms == Some(elapsed_ms)
        }),
{
    assert(s.text + seq![] =~= s.text);
    if content.len() == 0 {
        assert(s.text + content =~= s.text);
    }
}

/// A reply is summed up by the tokens of its prompt, by its events, at least one
/// where any were asked for, by its times, and by at most 500 characters of its
/// text.
pub proof fn summaries_tell_the_reply(
    s: ReplyView,
    prompt: Seq<char>,
    max_tokens: u64,
    wall_ms: u64,
)
    requires
        s.events <= u64::MAX,
        prompt.len() <= u64::MAX,
    ensures
        ({
            let p = summary_of(s, prompt, max_tokens, wall_ms);
            &&& p.ttft_ms == s.first_ms
            &&& p.wall_ms == Some(wall_ms)
            &&& p.prompt_tokens is Some && p.completion_tokens is Some
            &&& prompt.len() >= 8 ==> p.prompt_tokens->0 == prompt.len() / 4
            &&& prompt.len() < 8 ==> p.prompt_tokens->0 == 1
            &&& s.events >= 1 ==> p.completion_tokens->0 == s.events
            &&& s.events == 0 && max_tokens >= 1 ==> p.completion_tokens->0 == 1
            &&& s.events == 0 && max_tokens == 0 ==> p.completion_tokens->0 == 0
            &&& s.text.len() == 0 ==> p.response_excerpt is None
            &&& 0 < s.text.len() <= 500 ==> p.response_excerpt == Some(s.text)
            &&& s.text.len() > 500 ==> p.response_excerpt == Some(s.text.take(500))
        }),
{
}

} // verus!
