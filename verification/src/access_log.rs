//! The access log that the client prints while it proxies: one line per HTTP
//! exchange, the request line first and then the time it took and the status.
use vstd::prelude::*;
use vstd::slice::slice_subrange;
use vstd::utf8::{decode_utf8, valid_utf8};
use std::time::Instant;
use crate::text::{
    lemma_pad_right_keeps_text,
    first_line, contains_seq, remove_all, trim, split_once_space, parse_i32, i32_decimal,
    pad_right, str_from_utf8, string_from_chars, chars_of, first_line_of, contains,
    remove_all_of, trimmed, find_char, parse_i32_of, decimal_of, padded, lemma_trim_idempotent,
    lemma_decimal_parses_back, lemma_first_index, lemma_first_line_before_line_feed,
};

verus! {

/// The protocol marker whose presence makes a first line an HTTP start line.
pub open spec fn http_marker() -> Seq<char> {
    seq!['H', 'T', 'T', 'P', '/', '1', '.', '1']
}

/// The log text of a chunk of traffic: when the chunk's first line holds the
/// marker, that line with every marker taken out and white space trimmed.
pub open spec fn log_text(chunk: Seq<char>) -> Option<Seq<char>> {
    let line = first_line(chunk);
    if contains_seq(line, http_marker()) {
        Some(trim(remove_all(line, http_marker())))
    } else {
        None
    }
}

/// The log text of the bytes read in one go, when they are UTF-8.
pub open spec fn chunk_log(bytes: Seq<u8>) -> Option<Seq<char>> {
    if valid_utf8(bytes) {
        log_text(decode_utf8(bytes))
    } else {
        None
    }
}

/// `text` in the terminal colour whose foreground code is `3` followed by `code`,
/// then reset: `ESC[3<code>m`, the text, `ESC[0m`.
pub open spec fn ansi_painted(code: char, text: Seq<char>) -> Seq<char> {
    seq!['\u{1b}', '[', '3', code, 'm'] + text + seq!['\u{1b}', '[', '0', 'm']
}

/// How a status code is shown.
pub enum StatusClass {
    /// 404, in yellow.
    NotFound,
    /// Any other code from 400 up, in red.
    Failure,
    /// A code from 200 to 399, in green.
    Success,
    /// A code below 200, as its bare number.
    Other,
}

/// The class of a status code.
pub open spec fn status_class(code: i32) -> StatusClass {
    if code == 404 {
        StatusClass::NotFound
    } else if code >= 400 {
        StatusClass::Failure
    } else if code >= 200 {
        StatusClass::Success
    } else {
        StatusClass::Other
    }
}

/// The status code of a response whose log text is `log`: the text before the
/// first space, read as an `i32`.
pub open spec fn status_code(log: Seq<char>) -> Option<i32> {
    match split_once_space(log) {
        None => None,
        Some((code_text, _)) => parse_i32(code_text),
    }
}

/// What the log shows for a response whose log text is `log`, when its status
/// code reads: a coloured code shows the whole log text in its colour, an
/// uncoloured one shows the bare number.
pub open spec fn status_display(log: Seq<char>) -> Option<Seq<char>> {
    match status_code(log) {
        None => None,
        Some(code) => Some(
            match status_class(code) {
                StatusClass::NotFound => ansi_painted('3', log),
                StatusClass::Failure => ansi_painted('1', log),
                StatusClass::Success => ansi_painted('2', log),
                StatusClass::Other => i32_decimal(code),
            },
        ),
    }
}

/// What the log shows for a request whose log text is `log`: the trimmed text
/// padded to twenty characters, then a space, awaiting the response's part.
pub open spec fn request_entry(log: Seq<char>) -> Seq<char> {
    pad_right(trim(log), 20) + seq![' ']
}

/// Calls `ansi_term::Colour::Yellow.paint(text).to_string()`. ansi_term writes the
/// style's prefix `ESC[33m`, the text, then the reset `ESC[0m`.
#[verifier::external_body]
fn paint_yellow(text: &str) -> (s: String)
    ensures
        s@ == ansi_painted('3', text@),
{
    ansi_term::Colour::Yellow.paint(text).to_string()
}

/// Calls `ansi_term::Colour::Red.paint(text).to_string()`. ansi_term writes the
/// style's prefix `ESC[31m`, the text, then the reset `ESC[0m`.
#[verifier::external_body]
fn paint_red(text: &str) -> (s: String)
    ensures
        s@ == ansi_painted('1', text@),
{
    ansi_term::Colour::Red.paint(text).to_string()
}

/// Calls `ansi_term::Colour::Green.paint(text).to_string()`. ansi_term writes the
/// style's prefix `ESC[32m`, the text, then the reset `ESC[0m`.
#[verifier::external_body]
fn paint_green(text: &str) -> (s: String)
    ensures
        s@ == ansi_painted('2', text@),
{
    ansi_term::Colour::Green.paint(text).to_string()
}

#[verifier::external_type_specification]
#[verifier::external_body]
pub struct ExInstant(std::time::Instant);

/// Calls `Instant::now()`. The result is the current time; nothing more is stated.
#[verifier::external_body]
fn now() -> Instant {
    Instant::now()
}

/// The log text of a chunk of traffic, if its first line is an HTTP start line.
pub fn log_text_of(chunk: &[char]) -> (r: Option<Vec<char>>)
    ensures
        r is Some <==> log_text(chunk@) is Some,
        r matches Some(t) ==> log_text(chunk@) == Some(t@),
{
    let marker: Vec<char> = vec!['H', 'T', 'T', 'P', '/', '1', '.', '1'];
    assert(marker@ =~= http_marker());
    let line = first_line_of(chunk);
    if contains(line.as_slice(), marker.as_slice()) {
        let stripped = remove_all_of(line.as_slice(), marker.as_slice());
        Some(trimmed(stripped.as_slice()))
    } else {
        None
    }
}

/// What the log shows for a response whose log text is `log`, if its status
/// code reads.
pub fn status_display_of(log: &[char]) -> (r: Option<String>)
    ensures
        r is Some <==> status_display(log@) is Some,
        r matches Some(s) ==> status_display(log@) == Some(s@),
{
    let k = find_char(log, ' ');
    if k == log.len() {
        return None;
    }
    let code_text = slice_subrange(log, 0, k);
    assert(code_text@ =~= log@.take(k as int));
    let code = match parse_i32_of(code_text) {
        Some(c) => c,
        None => return None,
    };
    if code == 404 {
        let text = string_from_chars(log);
        Some(paint_yellow(text.as_str()))
    } else if code >= 400 {
        let text = string_from_chars(log);
        Some(paint_red(text.as_str()))
    } else if code >= 200 {
        let text = string_from_chars(log);
        Some(paint_green(text.as_str()))
    } else {
        let digits = decimal_of(code);
        Some(string_from_chars(digits.as_slice()))
    }
}

/// What the log shows for a request whose log text is `log`.
pub fn request_entry_of(log: &[char]) -> (s: String)
    ensures
        s@ == request_entry(log@),
{
    let t = trimmed(log);
    let mut line = padded(t.as_slice(), 20);
    line.push(' ');
    string_from_chars(line.as_slice())
}

/// What one read of proxied traffic adds to the access log.
pub enum LogEvent {
    /// Nothing to show.
    Quiet,
    /// A request started: this text opens its log line.
    Request(String),
    /// The awaited response came: the time since `since`, the instant noted when
    /// its request was seen, then this status text, close the log line.
    Response { since: Instant, status: String },
}

/// The access log's memory between reads: when the last request was seen, while
/// its response is awaited.
pub struct LoggerState {
    timestamp: Option<Instant>,
}

impl LoggerState {
    /// The instant noted when the last request was seen, while its response is
    /// awaited; `None` when no response is awaited.
    pub closed spec fn started(&self) -> Option<Instant> {
        self.timestamp
    }

    /// A request was logged and its response has not been seen yet.
    pub open spec fn awaiting(&self) -> bool {
        self.started() is Some
    }

    /// A log that awaits no response.
    pub fn new() -> (s: Self)
        ensures
            s.started() is None,
    {
        LoggerState { timestamp: None }
    }

    /// Whether a request was logged and its response is awaited.
    pub fn awaits_response(&self) -> (r: bool)
        ensures
            r == self.awaiting(),
    {
        self.timestamp.is_some()
    }

    /// Takes in the bytes of one read of proxied traffic, in either direction.
    /// A chunk whose first line is no HTTP start line changes nothing. While no
    /// response is awaited, a start line is a request: its entry opens a log line
    /// and the current instant is noted. While one is awaited, a start line is the
    /// response: the wait ends, and when the status code reads, the noted instant
    /// and the status are handed back to close the log line.
    pub fn observe(&mut self, filled: &[u8]) -> (e: LogEvent)
        ensures
            chunk_log(filled@) is None ==> e is Quiet && *final(self) == *old(self),
            final(self).awaiting() == awaiting_step(old(self).awaiting(), filled@),
            chunk_log(filled@) is Some && !old(self).awaiting() ==> (e matches LogEvent::Request(
                line,
            ) && line@ == request_entry(chunk_log(filled@)->0)),
            chunk_log(filled@) is Some && old(self).awaiting() ==> final(self).started() is None
                && match status_display(chunk_log(filled@)->0) {
                Some(st) => (e matches LogEvent::Response { since, status } && status@ == st
                    && old(self).started() == Some(since)),
                None => e is Quiet,
            },
    {
        let text = match str_from_utf8(filled) {
            Some(t) => t,
            None => return LogEvent::Quiet,
        };
        let chars = chars_of(text);
        let log = match log_text_of(chars.as_slice()) {
            Some(l) => l,
            None => return LogEvent::Quiet,
        };
        match self.timestamp.take() {
            Some(since) => {
                match status_display_of(log.as_slice()) {
                    Some(status) => LogEvent::Response { since, status },
                    None => LogEvent::Quiet,
                }
            },
            None => {
                let entry = request_entry_of(log.as_slice());
                self.timestamp = Some(now());
                LogEvent::Request(entry)
            },
        }
    }
}

/// Whether a response is awaited after a chunk, given whether one was before:
/// every HTTP start line flips it, anything else keeps it.
pub open spec fn awaiting_step(before: bool, chunk: Seq<u8>) -> bool {
    if chunk_log(chunk) is Some {
        !before
    } else {
        before
    }
}

/// Whether a response is awaited after the chunks, in order, starting from a new log.
pub open spec fn awaiting_after(chunks: Seq<Seq<u8>>) -> bool
    decreases chunks.len(),
{
    if chunks.len() == 0 {
        false
    } else {
        awaiting_step(awaiting_after(chunks.drop_last()), chunks.last())
    }
}

/// How many of the chunks carry an HTTP start line.
pub open spec fn start_lines(chunks: Seq<Seq<u8>>) -> nat
    decreases chunks.len(),
{
    if chunks.len() == 0 {
        0
    } else {
        start_lines(chunks.drop_last()) + if chunk_log(chunks.last()) is Some {
            1nat
        } else {
            0nat
        }
    }
}

/// Requests and responses alternate: starting from a new log, a response is
/// awaited exactly when an odd number of start lines have been seen, so the
/// first, third, fifth start line is logged as a request and the second, fourth,
/// sixth ends the wait.
pub proof fn lemma_log_alternates(chunks: Seq<Seq<u8>>)
    ensures
        awaiting_after(chunks) == (start_lines(chunks) % 2 == 1),
    decreases chunks.len(),
{
    if chunks.len() > 0 {
        lemma_log_alternates(chunks.drop_last());
    }
}

/// The log text of a chunk is already trimmed, so trimming it again when a
/// request's entry is written changes nothing.
pub proof fn lemma_log_text_trimmed(chunk: Seq<char>)
    requires
        log_text(chunk) is Some,
    ensures
        trim(log_text(chunk)->0) == log_text(chunk)->0,
        request_entry(log_text(chunk)->0) == pad_right(log_text(chunk)->0, 20) + seq![' '],
{
    lemma_trim_idempotent(remove_all(first_line(chunk), http_marker()));
}

/// A status code below 200 is shown as its number, which reads back as the code.
pub proof fn lemma_plain_status_reads_back(log: Seq<char>)
    requires
        status_code(log) matches Some(code) && code < 200,
    ensures
        parse_i32(status_display(log)->0) == status_code(log),
{
    lemma_decimal_parses_back(status_code(log)->0);
}

/// The marker, written out: a first line is a start line exactly when it holds
/// the eight characters `HTTP/1.1` somewhere, whatever its length; the log text
/// is then that first line with every marker removed, trimmed.
pub proof fn lemma_start_line_is_logged(t: Seq<char>, k: int)
    requires
        0 <= k <= t.len(),
        forall|j: int| 0 <= j < k ==> t[j] != '\n',
        k < t.len() ==> t[k] == '\n',
    ensures
        log_text(t) is Some <==> contains_seq(t.take(k), seq!['H', 'T', 'T', 'P', '/', '1', '.', '1']),
        log_text(t) is Some ==> log_text(t)->0 == trim(
            remove_all(t.take(k), seq!['H', 'T', 'T', 'P', '/', '1', '.', '1']),
        ),
{
    lemma_first_line_before_line_feed(t, k);
    assert(http_marker() =~= seq!['H', 'T', 'T', 'P', '/', '1', '.', '1']);
}

/// Every chunk of valid UTF-8 is examined, whatever characters it holds: its
/// log is the log text of the characters it encodes; other bytes give none.
pub proof fn lemma_every_utf8_chunk_examined(b: Seq<u8>)
    ensures
        valid_utf8(b) ==> chunk_log(b) == log_text(decode_utf8(b)),
        !valid_utf8(b) ==> chunk_log(b) is None,
{
}

/// The status code is the text before the first space, read as an `i32`: with
/// `k` the index of the first space, it is `parse_i32` of the first `k`
/// characters, and there is none when the log text holds no space.
pub proof fn lemma_status_code_is_first_word(log: Seq<char>, k: int)
    requires
        0 <= k <= log.len(),
        forall|j: int| 0 <= j < k ==> log[j] != ' ',
        k < log.len() ==> log[k] == ' ',
    ensures
        k < log.len() ==> status_code(log) == parse_i32(log.take(k)),
        k == log.len() ==> status_code(log) is None,
{
    lemma_first_index(log, ' ', k);
}

/// How each status code is shown, with the escape codes written out: 404 in
/// yellow (`ESC[33m`), every other code from 400 up in red (`ESC[31m`), every
/// code from 200 to 399 in green (`ESC[32m`), each followed by the reset
/// `ESC[0m`; a code below 200 as its bare number. The coloured forms show the
/// whole log text.
pub proof fn lemma_status_colours(log: Seq<char>, code: i32)
    requires
        status_code(log) == Some(code),
    ensures
        code == 404 ==> status_display(log) == Some(
            seq!['\u{1b}', '[', '3', '3', 'm'] + log + seq!['\u{1b}', '[', '0', 'm'],
        ),
        code >= 400 && code != 404 ==> status_display(log) == Some(
            seq!['\u{1b}', '[', '3', '1', 'm'] + log + seq!['\u{1b}', '[', '0', 'm'],
        ),
        200 <= code <= 399 ==> status_display(log) == Some(
            seq!['\u{1b}', '[', '3', '2', 'm'] + log + seq!['\u{1b}', '[', '0', 'm'],
        ),
        code < 200 ==> status_display(log) == Some(i32_decimal(code)),
{
}

/// A request's entry starts with its whole trimmed log text, never cut, padded
/// with spaces to at least twenty characters, and ends with one more space.
pub proof fn lemma_request_entry_keeps_text(log: Seq<char>)
    ensures
        request_entry(log).take(trim(log).len() as int) == trim(log),
        request_entry(log).len() == (if trim(log).len() >= 20 {
            trim(log).len()
        } else {
            20
        }) + 1,
        forall|i: int| trim(log).len() <= i < request_entry(log).len() ==> request_entry(log)[i] == ' ',
{
    let t = trim(log);
    lemma_pad_right_keeps_text(t, 20);
    let p = pad_right(t, 20);
    assert(request_entry(log).take(t.len() as int) =~= p.take(t.len() as int));
    assert forall|i: int| t.len() <= i < request_entry(log).len() implies request_entry(log)[i] == ' ' by {
        if i < p.len() {
            assert(request_entry(log)[i] == p[i]);
        }
    }
}

} // verus!
