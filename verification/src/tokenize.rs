//! Segmentation of the key stream into text tokens. Two rules split the
//! stream: a pause longer than the gap threshold, and the space bar.

use vstd::prelude::*;

use crate::capture::{KeyEvent, KeyType, SpecialKey};
use crate::text::{chars_of, contains_chars, is_substring, views_of};

verus! {

/// The two settings of the tokenizer.
#[derive(Debug, Clone, Copy, PartialEq, Eq, Structural)]
pub struct TokenizerConfig {
    /// The longest pause, in milliseconds, that does not split a token.
    pub gap_threshold_ms: u64,
    /// The fewest buffered key-downs that make a token.
    pub min_token_length: usize,
}

impl Default for TokenizerConfig {
    fn default() -> (config: TokenizerConfig)
        ensures
            config == (TokenizerConfig { gap_threshold_ms: 500, min_token_length: 2 }),
    {
        TokenizerConfig { gap_threshold_ms: 500, min_token_length: 2 }
    }
}

/// A run of key-downs read as text. Times count milliseconds since the Unix
/// epoch, UTC.
#[derive(Debug, Clone)]
pub struct Token {
    pub content: String,
    pub started_at: i64,
    pub ended_at: i64,
    pub key_count: usize,
}

/// What a token holds, as plain values.
pub struct TokenView {
    pub content: Seq<char>,
    pub started_at: i64,
    pub ended_at: i64,
    pub key_count: nat,
}

impl View for Token {
    type V = TokenView;

    open spec fn view(&self) -> TokenView {
        TokenView {
            content: self.content@,
            started_at: self.started_at,
            ended_at: self.ended_at,
            key_count: self.key_count as nat,
        }
    }
}

/// The view of a token that may be absent.
pub open spec fn token_view(token: Option<Token>) -> Option<TokenView> {
    match token {
        Some(t) => Some(t@),
        None => None,
    }
}

/// The text typed by a run of key-downs: the characters of the character
/// keys, in order. Every other key adds nothing.
pub open spec fn content_of(buffer: Seq<KeyEvent>) -> Seq<char>
    decreases buffer.len(),
{
    if buffer.len() == 0 {
        Seq::empty()
    } else {
        match buffer.last().key_type {
            KeyType::Character(c) => content_of(buffer.drop_last()).push(c),
            _ => content_of(buffer.drop_last()),
        }
    }
}

/// The flush rule: a buffer shorter than the minimum, or one without any
/// character, gives nothing; any other gives one token over the whole buffer.
pub open spec fn flushed(config: TokenizerConfig, buffer: Seq<KeyEvent>) -> Option<TokenView> {
    if buffer.len() < config.min_token_length || content_of(buffer).len() == 0 {
        None
    } else {
        Some(
            TokenView {
                content: content_of(buffer),
                started_at: buffer.first().timestamp,
                ended_at: buffer.last().timestamp,
                key_count: buffer.len(),
            },
        )
    }
}

/// The word-boundary key: the space bar.
pub open spec fn is_boundary(event: KeyEvent) -> bool {
    event.key_type == KeyType::Special(SpecialKey::Space)
}

/// Whether more time than the threshold lies between the previous key-down
/// and this one. The first key-down of a stream has no predecessor and no gap.
pub open spec fn gap_exceeded(config: TokenizerConfig, last: Option<i64>, event: KeyEvent) -> bool {
    match last {
        Some(previous) => event.timestamp - previous > config.gap_threshold_ms,
        None => false,
    }
}

/// The tokenizer's state: `Idle` is the empty buffer, `Accumulating` any
/// other.
pub struct TokenizerState {
    pub config: TokenizerConfig,
    pub buffer: Seq<KeyEvent>,
    pub last_timestamp: Option<i64>,
}

/// One transition: the next state and what is emitted.
///
/// A gap flushes the buffer and then keeps the event, whatever key it is. A
/// boundary key without a gap flushes the buffer and is dropped. Any other
/// event is appended.
pub open spec fn step(state: TokenizerState, event: KeyEvent) -> (TokenizerState, Option<TokenView>) {
    if gap_exceeded(state.config, state.last_timestamp, event) {
        (
            TokenizerState {
                config: state.config,
                buffer: seq![event],
                last_timestamp: Some(event.timestamp),
            },
            flushed(state.config, state.buffer),
        )
    } else if is_boundary(event) {
        (
            TokenizerState {
                config: state.config,
                buffer: Seq::empty(),
                last_timestamp: Some(event.timestamp),
            },
            flushed(state.config, state.buffer),
        )
    } else {
        (
            TokenizerState {
                config: state.config,
                buffer: state.buffer.push(event),
                last_timestamp: Some(event.timestamp),
            },
            None,
        )
    }
}

/// The tokenizer: its settings, the buffered key-downs and the time of the
/// latest one.
pub struct Tokenizer {
    config: TokenizerConfig,
    buffer: Vec<KeyEvent>,
    last_timestamp: Option<i64>,
}

impl View for Tokenizer {
    type V = TokenizerState;

    closed spec fn view(&self) -> TokenizerState {
        TokenizerState {
            config: self.config,
            buffer: self.buffer@,
            last_timestamp: self.last_timestamp,
        }
    }
}

impl Tokenizer {
    /// An idle tokenizer that has seen no key-down.
    pub fn new(config: TokenizerConfig) -> (tokenizer: Tokenizer)
        ensures
            tokenizer@ == (TokenizerState {
                config,
                buffer: Seq::empty(),
                last_timestamp: None,
            }),
    {
        Tokenizer { config, buffer: Vec::new(), last_timestamp: None }
    }

    /// Feeds one key-down and returns the token it completes, if any.
    pub fn process(&mut self, event: KeyEvent) -> (token: Option<Token>)
        ensures
            final(self)@ == step(old(self)@, event).0,
            token_view(token) == step(old(self)@, event).1,
    {
        let gap: bool = match self.last_timestamp {
            Some(previous) => {
                event.timestamp as i128 - previous as i128 > self.config.gap_threshold_ms as i128
            },
            None => false,
        };
        if gap {
            let token = self.flush();
            self.buffer.push(event);
            self.last_timestamp = Some(event.timestamp);
            assert(self.buffer@ == seq![event]);
            return token;
        }
        let boundary: bool = match event.key_type {
            KeyType::Special(SpecialKey::Space) => true,
            _ => false,
        };
        if boundary {
            let token = self.flush();
            self.last_timestamp = Some(event.timestamp);
            return token;
        }
        self.buffer.push(event);
        self.last_timestamp = Some(event.timestamp);
        None
    }

    /// Drains the buffer, at the end of a stream or between two tokens. The
    /// buffer is empty afterwards whatever is returned, so a second flush
    /// returns nothing.
    pub fn flush(&mut self) -> (token: Option<Token>)
        ensures
            final(self)@ == (TokenizerState { buffer: Seq::empty(), ..old(self)@ }),
            token_view(token) == flushed(old(self)@.config, old(self)@.buffer),
    {
        let count: usize = self.buffer.len();
        if count < self.config.min_token_length {
            self.buffer.clear();
            return None;
        }
        let mut content = String::new();
        let mut i: usize = 0;
        while i < count
            invariant
                i <= count,
                count == self.buffer.len(),
                self.buffer@ == old(self).buffer@,
                self.config == old(self).config,
                self.last_timestamp == old(self).last_timestamp,
                content@ == content_of(self.buffer@.take(i as int)),
            decreases count - i,
        {
            proof {
                assert(self.buffer@.take(i + 1).drop_last() == self.buffer@.take(i as int));
            }
            match self.buffer[i].key_type {
                KeyType::Character(c) => {
                    content.push(c);
                },
                _ => {},
            }
            i += 1;
        }
        assert(self.buffer@.take(count as int) == self.buffer@);
        if content.as_str().is_empty() {
            self.buffer.clear();
            return None;
        }
        let token = Token {
            content,
            started_at: self.buffer[0].timestamp,
            ended_at: self.buffer[count - 1].timestamp,
            key_count: count,
        };
        self.buffer.clear();
        Some(token)
    }
}

/// The marks that make a token look like program text.
pub open spec fn code_indicators() -> Seq<Seq<char>> {
    seq![
        "fn "@,
        "let "@,
        "if "@,
        "for "@,
        "while "@,
        "def "@,
        "class "@,
        "import "@,
        "function"@,
        "const "@,
        "var "@,
        "->"@,
        "=>"@,
        "::"@,
        "||"@,
        "&&"@,
        "()"@,
        "[]"@,
        "{}"@,
    ]
}

fn code_indicator_list() -> (list: Vec<&'static str>)
    ensures
        views_of(list@) == code_indicators(),
{
    let list: Vec<&'static str> = vec![
        "fn ",
        "let ",
        "if ",
        "for ",
        "while ",
        "def ",
        "class ",
        "import ",
        "function",
        "const ",
        "var ",
        "->",
        "=>",
        "::",
        "||",
        "&&",
        "()",
        "[]",
        "{}",
    ];
    assert(views_of(list@) =~= code_indicators());
    list
}

impl Token {
    /// Whether one of the indicators stands somewhere in the content.
    pub open spec fn likely_code(self) -> bool {
        exists|i: int|
            0 <= i < code_indicators().len() && is_substring(
                #[trigger] code_indicators()[i],
                self.content@,
            )
    }

    /// Whether the token looks like program text.
    pub fn is_likely_code(&self) -> (code: bool)
        ensures
            code == self.likely_code(),
    {
        let hay = chars_of(self.content.as_str());
        let indicators = code_indicator_list();
        let mut i: usize = 0;
        while i < indicators.len()
            invariant
                i <= indicators.len(),
                hay@ == self.content@,
                views_of(indicators@) == code_indicators(),
                forall|j: int| 0 <= j < i ==> !is_substring(#[trigger] code_indicators()[j], hay@),
            decreases indicators.len() - i,
        {
            let needle = chars_of(indicators[i]);
            assert(needle@ == views_of(indicators@)[i as int]);
            if contains_chars(&hay, &needle) {
                return true;
            }
            i += 1;
        }
        false
    }
}

/// The state after a whole stream.
pub open spec fn run(state: TokenizerState, events: Seq<KeyEvent>) -> TokenizerState
    decreases events.len(),
{
    if events.len() == 0 {
        state
    } else {
        step(run(state, events.drop_last()), events.last()).0
    }
}

/// What a stream emits, one entry per event.
pub open spec fn emitted(state: TokenizerState, events: Seq<KeyEvent>) -> Seq<Option<TokenView>>
    decreases events.len(),
{
    if events.len() == 0 {
        Seq::empty()
    } else {
        emitted(state, events.drop_last()).push(
            step(run(state, events.drop_last()), events.last()).1,
        )
    }
}

/// The time of the key-down before `events[i]`, where the stream continues
/// from `state`.
pub open spec fn previous_time(state: TokenizerState, events: Seq<KeyEvent>, i: int) -> Option<i64> {
    if i == 0 {
        state.last_timestamp
    } else {
        Some(events[i - 1].timestamp)
    }
}

/// A stream without a split: no pause exceeds the threshold and no event is
/// the boundary key.
pub open spec fn quiet(state: TokenizerState, events: Seq<KeyEvent>) -> bool {
    forall|i: int|
        0 <= i < events.len() ==> !is_boundary(#[trigger] events[i]) && !gap_exceeded(
            state.config,
            previous_time(state, events, i),
            events[i],
        )
}

/// A stream without a split emits nothing and is buffered whole. If the
/// buffer then still holds fewer events than the minimum token length, the
/// final flush gives nothing either.
pub proof fn lemma_quiet_stream_emits_nothing(state: TokenizerState, events: Seq<KeyEvent>)
    requires
        quiet(state, events),
    ensures
        run(state, events).config == state.config,
        run(state, events).buffer == state.buffer + events,
        run(state, events).last_timestamp == previous_time(state, events, events.len() as int),
        emitted(state, events).len() == events.len(),
        forall|i: int| 0 <= i < events.len() ==> emitted(state, events)[i] is None,
        state.buffer.len() + events.len() < state.config.min_token_length ==> flushed(
            state.config,
            run(state, events).buffer,
        ) is None,
    decreases events.len(),
{
    if events.len() > 0 {
        let front = events.drop_last();
        assert forall|i: int| 0 <= i < front.len() implies !is_boundary(#[trigger] front[i])
            && !gap_exceeded(state.config, previous_time(state, front, i), front[i]) by {
            assert(front[i] == events[i]);
            assert(previous_time(state, front, i) == previous_time(state, events, i));
        }
        lemma_quiet_stream_emits_nothing(state, front);
        let i = events.len() - 1;
        assert(events[i] == events.last());
        assert(previous_time(state, events, i) == run(state, front).last_timestamp);
        assert(state.buffer + events == (state.buffer + front).push(events.last()));
    } else {
        assert(state.buffer + events == state.buffer);
    }
}

/// Flushing an empty buffer gives nothing and leaves it empty: a flush
/// straight after a flush changes nothing.
pub proof fn lemma_flush_of_empty_is_nothing(config: TokenizerConfig)
    ensures
        flushed(config, Seq::empty()) is None,
{
}

/// A buffer with fewer events than the minimum gives no token, whatever it
/// holds.
pub proof fn lemma_short_buffer_gives_no_token(config: TokenizerConfig, buffer: Seq<KeyEvent>)
    requires
        buffer.len() < config.min_token_length,
    ensures
        flushed(config, buffer) is None,
{
}

/// A pause longer than the threshold flushes the buffer as it stood before
/// the event: the token, if there is one, is made of the earlier events
/// alone, and the event opens the next buffer, whatever key it is.
pub proof fn lemma_gap_flushes_prior_buffer(state: TokenizerState, event: KeyEvent)
    requires
        gap_exceeded(state.config, state.last_timestamp, event),
    ensures
        step(state, event).1 == flushed(state.config, state.buffer),
        step(state, event).0.buffer == seq![event],
        step(state, event).0.last_timestamp == Some(event.timestamp),
        step(state, event).1 matches Some(token) ==> {
            &&& token.key_count == state.buffer.len()
            &&& token.content == content_of(state.buffer)
            &&& token.ended_at == state.buffer.last().timestamp
        },
{
}

/// A key that is not a character key adds nothing to the content. The
/// boundary key is such a key.
pub proof fn lemma_boundary_key_adds_no_content(buffer: Seq<KeyEvent>, event: KeyEvent)
    requires
        !(event.key_type is Character),
    ensures
        content_of(buffer.push(event)) == content_of(buffer),
        is_boundary(event) ==> !(event.key_type is Character),
{
    assert(buffer.push(event).drop_last() == buffer);
}

/// Every character of the content was typed by a character key of the
/// buffer.
pub proof fn lemma_content_comes_from_character_keys(buffer: Seq<KeyEvent>, k: int)
    requires
        0 <= k < content_of(buffer).len(),
    ensures
        exists|i: int|
            0 <= i < buffer.len() && (#[trigger] buffer[i]).key_type == KeyType::Character(
                content_of(buffer)[k],
            ),
    decreases buffer.len(),
{
    let front = buffer.drop_last();
    match buffer.last().key_type {
        KeyType::Character(c) => {
            if k < content_of(front).len() {
                lemma_content_comes_from_character_keys(front, k);
                let i = choose|i: int|
                    0 <= i < front.len() && (#[trigger] front[i]).key_type == KeyType::Character(
                        content_of(front)[k],
                    );
                assert(buffer[i] == front[i]);
            } else {
                assert(buffer[buffer.len() - 1] == buffer.last());
            }
        },
        _ => {
            lemma_content_comes_from_character_keys(front, k);
            let i = choose|i: int|
                0 <= i < front.len() && (#[trigger] front[i]).key_type == KeyType::Character(
                    content_of(front)[k],
                );
            assert(buffer[i] == front[i]);
        },
    }
}

/// The boundary key never shows in a token: whatever is emitted holds the
/// content of the buffer as it stood before the event, in which the space
/// bar, like every key that is no character key, left nothing; and where
/// the buffered events carry the categories of the key table, no character
/// of the content is a blank.
pub proof fn lemma_token_content_excludes_boundary(state: TokenizerState, event: KeyEvent)
    ensures
        step(state, event).1 matches Some(token) ==> {
            &&& token.content == content_of(state.buffer)
            &&& token.key_count == state.buffer.len()
            &&& (forall|i: int| 0 <= i < state.buffer.len() ==> (#[trigger] state.buffer[i]).normalized())
                ==> !token.content.contains(' ')
        },
{
    if step(state, event).1 is Some && (forall|i: int|
        0 <= i < state.buffer.len() ==> (#[trigger] state.buffer[i]).normalized()) {
        let content = content_of(state.buffer);
        if content.contains(' ') {
            let k = choose|k: int| 0 <= k < content.len() && content[k] == ' ';
            lemma_content_comes_from_character_keys(state.buffer, k);
            let i = choose|i: int|
                0 <= i < state.buffer.len() && (#[trigger] state.buffer[i]).key_type
                    == KeyType::Character(content[k]);
            assert(state.buffer[i].normalized());
            crate::capture::keymap::lemma_no_code_prints_space(state.buffer[i].keycode);
        }
    }
}

} // verus!
