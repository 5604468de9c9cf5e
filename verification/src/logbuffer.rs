//! A bounded buffer of log lines, and the writer that fills it.

use crate::clock::now;
use crate::seqs::{first_index, lemma_first_index, lemma_first_index_props};
use crate::text::{find_char, has_prefix, is_char, starts_with, trim, trim_start, trimmed, utf8_text};
use std::collections::VecDeque;
use vstd::prelude::*;
use vstd::string::*;
use vstd::utf8::*;

verus! {

/// Log entry for the in-TUI log buffer
pub struct LogEntry {
    pub level: String,
    pub message: String,
    pub timestamp: i64,
}

/// A stored line.
pub struct LogLine {
    pub level: Seq<char>,
    pub message: Seq<char>,
    pub timestamp: i64,
}

impl View for LogEntry {
    type V = LogLine;

    open spec fn view(&self) -> LogLine {
        LogLine { level: self.level@, message: self.message@, timestamp: self.timestamp }
    }
}

/// Circular buffer for log messages
pub struct LogBuffer {
    lines: VecDeque<LogEntry>,
    max_lines: usize,
}

/// The last `n` items of `s`, or all of them if there are fewer.
pub open spec fn last_items<A>(s: Seq<A>, n: int) -> Seq<A> {
    if s.len() <= n {
        s
    } else {
        s.skip(s.len() - n)
    }
}

/// Keeping the last items in between makes no difference to the last items in the end.
proof fn lemma_last_items<A>(a: Seq<A>, b: Seq<A>, n: int)
    requires
        0 <= n,
    ensures
        last_items(last_items(a, n) + b, n) == last_items(a + b, n),
{
    assert(last_items(last_items(a, n) + b, n) =~= last_items(a + b, n));
}

impl View for LogBuffer {
    type V = Seq<LogLine>;

    closed spec fn view(&self) -> Seq<LogLine> {
        Seq::new(self.lines@.len(), |i: int| self.lines@[i]@)
    }
}

impl LogBuffer {
    /// The most lines that are kept.
    pub closed spec fn limit(&self) -> int {
        self.max_lines as int
    }

    /// No more lines are there than are to be kept.
    pub open spec fn wf(&self) -> bool {
        self@.len() <= self.limit()
    }

    pub fn new(max_lines: usize) -> (r: Self)
        ensures
            r.wf(),
            r.limit() == max_lines,
            r@ == Seq::<LogLine>::empty(),
    {
        let r = LogBuffer { lines: VecDeque::new(), max_lines };
        assert(r@ =~= Seq::<LogLine>::empty());
        r
    }

    /// Adds a line with the current time; the oldest lines go when there are too many.
    pub fn append(&mut self, level: &str, message: String)
        ensures
            final(self).wf(),
            final(self).limit() == old(self).limit(),
            exists|t: i64|
                0 <= t && final(self)@ == last_items(
                    old(self)@.push(LogLine { level: level@, message: message@, timestamp: t }),
                    old(self).limit(),
                ),
    {
        let t: i64 = now();
        self.append_at(level, message, t);
    }

    /// Adds a line with the time `timestamp`; the oldest lines go when there are too many.
    pub fn append_at(&mut self, level: &str, message: String, timestamp: i64)
        ensures
            final(self).wf(),
            final(self).limit() == old(self).limit(),
            final(self)@ == last_items(
                old(self)@.push(LogLine { level: level@, message: message@, timestamp }),
                old(self).limit(),
            ),
    {
        let ghost all = self@.push(LogLine { level: level@, message: message@, timestamp });
        self.lines.push_back(LogEntry { level: level.to_owned(), message, timestamp });
        assert(self@ =~= all);
        assert(all.skip(0) =~= all);
        while self.lines.len() > self.max_lines
            invariant
                self.limit() == old(self).limit(),
                self@.len() <= all.len(),
                self@ == all.skip(all.len() - self@.len()),
                self@.len() >= self.limit() || self@ == all,
            decreases self.lines@.len(),
        {
            let ghost before = self@;
            let _ = self.lines.pop_front();
            assert(self@ =~= before.skip(1));
        }
    }

    /// The last `n` lines, oldest first: level, time and message of each.
    pub fn get_last_n(&self, n: usize) -> (r: Vec<(String, i64, String)>)
        ensures
            r@.len() == last_items(self@, n as int).len(),
            forall|i: int|
                0 <= i < r@.len() ==> {
                    let line = last_items(self@, n as int)[i];
                    &&& (#[trigger] r@[i]).0@ == line.level
                    &&& r@[i].1 == line.timestamp
                    &&& r@[i].2@ == line.message
                },
    {
        let total: usize = self.lines.len();
        let start: usize = total.saturating_sub(n);
        let mut r: Vec<(String, i64, String)> = Vec::new();
        let mut i: usize = start;
        while i < total
            invariant
                start <= i <= total,
                total == self.lines@.len(),
                r@.len() == i - start,
                forall|j: int|
                    0 <= j < r@.len() ==> {
                        let line = self@[start + j];
                        &&& (#[trigger] r@[j]).0@ == line.level
                        &&& r@[j].1 == line.timestamp
                        &&& r@[j].2@ == line.message
                    },
            decreases total - i,
        {
            let entry = &self.lines[i];
            r.push((entry.level.clone(), entry.timestamp, entry.message.clone()));
            i += 1;
        }
        r
    }
}

/// The level and the message of a line.
pub struct LevelledLine {
    pub level: Seq<char>,
    pub message: Seq<char>,
}

/// What follows the level word `word` and the one character after it.
pub open spec fn after_level(line: Seq<char>, word: Seq<char>) -> Seq<char> {
    trimmed(line.skip(word.len() as int + 1))
}

/// Level and message of a line: "LEVEL: message", or a message of level `INFO` when the line
/// begins with no level.
pub open spec fn parsed_line(line: Seq<char>) -> LevelledLine {
    if has_prefix(line, "DEBUG"@) {
        LevelledLine { level: "DEBUG"@, message: after_level(line, "DEBUG"@) }
    } else if has_prefix(line, "INFO"@) {
        LevelledLine { level: "INFO"@, message: after_level(line, "INFO"@) }
    } else if has_prefix(line, "WARN"@) {
        LevelledLine { level: "WARN"@, message: after_level(line, "WARN"@) }
    } else if has_prefix(line, "ERROR"@) {
        LevelledLine { level: "ERROR"@, message: after_level(line, "ERROR"@) }
    } else {
        LevelledLine { level: "INFO"@, message: line }
    }
}

/// Whether the level word `word`, if `line` begins with it, is followed by an ASCII character.
pub open spec fn separated(line: Seq<char>, word: Seq<char>) -> bool {
    has_prefix(line, word) ==> line.len() > word.len() && line[word.len() as int] <= '\u{7f}'
}

/// Whether a line can be taken apart: an ASCII character follows its level.
pub open spec fn storable(line: Seq<char>) -> bool {
    &&& separated(line, "DEBUG"@)
    &&& separated(line, "INFO"@)
    &&& separated(line, "WARN"@)
    &&& separated(line, "ERROR"@)
}

/// Whether the level word `word`, if `line` begins with it, is followed by an ASCII character.
fn is_separated(line: &str, word: &str) -> (r: bool)
    ensures
        r == separated(line@, word@),
{
    if starts_with(line, word) {
        let n: usize = word.unicode_len();
        line.unicode_len() > n && line.get_char(n) <= '\u{7f}'
    } else {
        true
    }
}

/// Whether a line can be taken apart.
pub fn is_storable(line: &str) -> (r: bool)
    ensures
        r == storable(line@),
{
    is_separated(line, "DEBUG") && is_separated(line, "INFO") && is_separated(line, "WARN")
        && is_separated(line, "ERROR")
}

/// What follows the level word `word` and the one character after it.
fn message_after<'a>(line: &'a str, word: &str) -> (r: &'a str)
    requires
        has_prefix(line@, word@),
        separated(line@, word@),
    ensures
        r@ == after_level(line@, word@),
{
    let n: usize = word.unicode_len();
    let end: usize = line.unicode_len();
    assert(line@.subrange(n + 1, end as int) =~= line@.skip(n + 1));
    trim(line.substring_char(n + 1, end))
}

/// Level and message of a line.
pub fn parse_line(line: &str) -> (r: (&'static str, &str))
    requires
        storable(line@),
    ensures
        r.0@ == parsed_line(line@).level,
        r.1@ == parsed_line(line@).message,
{
    if starts_with(line, "DEBUG") {
        ("DEBUG", message_after(line, "DEBUG"))
    } else if starts_with(line, "INFO") {
        ("INFO", message_after(line, "INFO"))
    } else if starts_with(line, "WARN") {
        ("WARN", message_after(line, "WARN"))
    } else if starts_with(line, "ERROR") {
        ("ERROR", message_after(line, "ERROR"))
    } else {
        ("INFO", line)
    }
}

/// The lines of `text` that have ended, without the white space around them.
pub open spec fn ended_lines(text: Seq<char>) -> Seq<Seq<char>>
    decreases text.len(),
{
    let k = first_index(text, is_char('\n'));
    if 0 <= k < text.len() {
        seq![trimmed(text.take(k))] + ended_lines(text.skip(k + 1))
    } else {
        Seq::empty()
    }
}

/// What follows the last line of `text` that has ended.
pub open spec fn unended(text: Seq<char>) -> Seq<char>
    decreases text.len(),
{
    let k = first_index(text, is_char('\n'));
    if 0 <= k < text.len() {
        unended(text.skip(k + 1))
    } else {
        text
    }
}

/// Not being empty.
pub open spec fn is_filled() -> spec_fn(Seq<char>) -> bool {
    |line: Seq<char>| line.len() > 0
}

/// The lines among `lines` that are stored: those that are not empty.
pub open spec fn lines_kept(lines: Seq<Seq<char>>) -> Seq<Seq<char>> {
    lines.filter(is_filled())
}

/// `lines`, taken apart, each with its time.
pub open spec fn stamped(lines: Seq<Seq<char>>, times: Seq<i64>) -> Seq<LogLine> {
    Seq::new(
        lines.len(),
        |i: int|
            LogLine {
                level: parsed_line(lines[i]).level,
                message: parsed_line(lines[i]).message,
                timestamp: times[i],
            },
    )
}

/// Whether no time lies before the Unix epoch.
pub open spec fn since_epoch(times: Seq<i64>) -> bool {
    forall|i: int| 0 <= i < times.len() ==> 0 <= #[trigger] times[i]
}

/// Whether `after` is `before` with `lines` stored, at whatever times since the Unix epoch.
pub open spec fn stored(before: LogBuffer, after: LogBuffer, lines: Seq<Seq<char>>) -> bool {
    &&& after.limit() == before.limit()
    &&& exists|times: Seq<i64>|
        times.len() == lines.len() && since_epoch(times) && after@ == last_items(
            before@ + #[trigger] stamped(lines, times),
            before.limit(),
        )
}

/// Storing nothing changes nothing.
proof fn lemma_stored_nothing(b: LogBuffer)
    requires
        b.wf(),
    ensures
        stored(b, b, Seq::empty()),
{
    let none = stamped(Seq::empty(), Seq::empty());
    assert(b@ + none =~= b@);
}

/// One line after others.
proof fn lemma_stored_more(
    a: LogBuffer,
    b: LogBuffer,
    c: LogBuffer,
    lines: Seq<Seq<char>>,
    line: Seq<char>,
)
    requires
        a.limit() >= 0,
        stored(a, b, lines),
        stored(b, c, seq![line]),
    ensures
        stored(a, c, lines.push(line)),
{
    let times = choose|times: Seq<i64>|
        times.len() == lines.len() && since_epoch(times) && b@ == last_items(
            a@ + #[trigger] stamped(lines, times),
            a.limit(),
        );
    let time = choose|time: Seq<i64>|
        time.len() == 1 && since_epoch(time) && c@ == last_items(b@ + #[trigger] stamped(seq![line], time), b.limit());
    let all = times.push(time[0]);
    lemma_last_items(a@ + stamped(lines, times), stamped(seq![line], time), a.limit());
    assert(a@ + stamped(lines, times) + stamped(seq![line], time) =~= a@ + stamped(
        lines.push(line),
        all,
    ));
}

/// Writer that captures log output into a LogBuffer
pub struct LogBufferWriter {
    pub buffer: LogBuffer,
    pub current_line: String,
}

/// Whether all lines that `text` ends can be stored.
pub open spec fn all_storable(lines: Seq<Seq<char>>) -> bool {
    forall|i: int| 0 <= i < lines.len() ==> storable(#[trigger] lines[i])
}

/// What has been written of the current line when `bytes` arrive: invalid UTF-8 is passed over.
pub open spec fn text_with(current: Seq<char>, bytes: Seq<u8>) -> Seq<char> {
    if valid_utf8(bytes) {
        current + decode_utf8(bytes)
    } else {
        current
    }
}

impl LogBufferWriter {
    pub fn new(buffer: LogBuffer) -> (r: Self)
        ensures
            r.buffer == buffer,
            r.current_line@ == Seq::<char>::empty(),
    {
        let r = LogBufferWriter { buffer, current_line: String::new() };
        assert(r.current_line@ =~= Seq::<char>::empty());
        r
    }

    /// Stores one line.
    pub fn parse_and_store(&mut self, line: &str)
        requires
            storable(line@),
        ensures
            final(self).buffer.wf(),
            stored(old(self).buffer, final(self).buffer, seq![line@]),
            final(self).current_line == old(self).current_line,
    {
        let (level, message) = parse_line(line);
        let ghost before = self.buffer@;
        self.buffer.append(level, message.to_owned());
        proof {
            let entry = |t: i64| LogLine { level: level@, message: message@, timestamp: t };
            let t = choose|t: i64|
                0 <= t && self.buffer@ == last_items(
                    before.push(LogLine { level: level@, message: message@, timestamp: t }),
                    old(self).buffer.limit(),
                );
            assert(before.push(entry(t)) =~= before + stamped(seq![line@], seq![t]));
        }
    }

    /// Whether `bytes` can be written: all lines that they end can be taken apart.
    pub open spec fn can_take(&self, bytes: Seq<u8>) -> bool {
        all_storable(ended_lines(text_with(self.current_line@, bytes)))
    }

    /// Whether `bytes` can be written.
    pub fn accepts(&self, bytes: &[u8]) -> (r: bool)
        ensures
            r == self.can_take(bytes@),
    {
        let mut text = self.current_line.clone();
        if let Some(more) = utf8_text(bytes) {
            proof {
                encode_utf8_decode_utf8(more@);
            }
            text.append(more);
        }
        let ghost whole = text@;
        assert(whole == text_with(self.current_line@, bytes@));
        let mut ok = true;
        let mut more = true;
        while more
            invariant
                ok && all_storable(ended_lines(text@)) <==> all_storable(ended_lines(whole)),
                !more ==> ended_lines(text@).len() == 0,
            decreases text@.len() + if more { 1int } else { 0 },
        {
            let k: usize = find_char(text.as_str(), '\n');
            let end: usize = text.as_str().unicode_len();
            let ghost now_text = text@;
            if k < end {
                let line = trim(text.as_str().substring_char(0, k));
                let fits = is_storable(line);
                let rest = text.as_str().substring_char(k + 1, end).to_owned();
                proof {
                    assert(now_text.subrange(0, k as int) =~= now_text.take(k as int));
                    assert(now_text.subrange(k + 1, end as int) =~= now_text.skip(k + 1));
                    let later = ended_lines(now_text.skip(k + 1));
                    let lines = ended_lines(now_text);
                    assert(lines == seq![line@] + later);
                    assert(lines[0] == line@);
                    assert(all_storable(lines) <==> storable(line@) && all_storable(later)) by {
                        if all_storable(lines) {
                            assert forall|i: int| 0 <= i < later.len() implies storable(
                                #[trigger] later[i],
                            ) by {
                                assert(lines[i + 1] == later[i]);
                            }
                        }
                    }
                }
                ok = ok && fits;
                text = rest;
            } else {
                more = false;
            }
        }
        ok
    }

    /// Takes in written bytes and stores every line that they end. Returns the number of bytes.
    pub fn write(&mut self, bytes: &[u8]) -> (n: usize)
        requires
            old(self).buffer.wf(),
            old(self).can_take(bytes@),
        ensures
            final(self).buffer.wf(),
            stored(
                old(self).buffer,
                final(self).buffer,
                lines_kept(ended_lines(text_with(old(self).current_line@, bytes@))),
            ),
            final(self).current_line@ == unended(text_with(old(self).current_line@, bytes@)),
            n == bytes@.len(),
    {
        if let Some(more) = utf8_text(bytes) {
            proof {
                encode_utf8_decode_utf8(more@);
            }
            self.current_line.append(more);
        }
        let ghost whole = self.current_line@;
        let ghost all = ended_lines(whole);
        let ghost mut done = Seq::<Seq<char>>::empty();
        let mut more = true;
        proof {
            reveal(Seq::filter);
            lemma_stored_nothing(self.buffer);
            assert(lines_kept(done) =~= Seq::<Seq<char>>::empty());
            assert(done + ended_lines(self.current_line@) =~= all);
        }
        while more
            invariant
                self.buffer.wf(),
                old(self).buffer.limit() >= 0,
                all == ended_lines(whole),
                all_storable(all),
                all == done + ended_lines(self.current_line@),
                unended(whole) == unended(self.current_line@),
                stored(old(self).buffer, self.buffer, lines_kept(done)),
                !more ==> ended_lines(self.current_line@).len() == 0 && unended(self.current_line@)
                    == self.current_line@,
            decreases self.current_line@.len() + if more { 1int } else { 0 },
        {
            let k: usize = find_char(self.current_line.as_str(), '\n');
            let end: usize = self.current_line.as_str().unicode_len();
            let ghost text = self.current_line@;
            if k < end {
                let line = trim(self.current_line.as_str().substring_char(0, k)).to_owned();
                let rest = self.current_line.as_str().substring_char(k + 1, end).to_owned();
                let ghost before = self.buffer;
                proof {
                    assert(text.subrange(0, k as int) =~= text.take(k as int));
                    assert(text.subrange(k + 1, end as int) =~= text.skip(k + 1));
                    assert(ended_lines(text) == seq![line@] + ended_lines(text.skip(k + 1)));
                    assert(all[done.len() as int] == line@);
                    reveal(Seq::filter);
                    assert(done.push(line@).drop_last() =~= done);
                    assert(done.push(line@) + ended_lines(text.skip(k + 1)) =~= all);
                }
                if line.as_str().unicode_len() > 0 {
                    self.parse_and_store(line.as_str());
                    proof {
                        lemma_stored_more(
                            old(self).buffer,
                            before,
                            self.buffer,
                            lines_kept(done),
                            line@,
                        );
                    }
                }
                self.current_line = rest;
                proof {
                    done = done.push(line@);
                }
            } else {
                more = false;
            }
        }
        proof {
            assert(done =~= all);
        }
        bytes.len()
    }

    /// Whether what is left of the current line can be stored.
    pub open spec fn can_flush(&self) -> bool {
        storable(trimmed(self.current_line@))
    }

    /// Stores what is left of the current line.
    pub fn flush(&mut self)
        requires
            old(self).buffer.wf(),
            old(self).can_flush(),
        ensures
            final(self).buffer.wf(),
            stored(
                old(self).buffer,
                final(self).buffer,
                lines_kept(seq![trimmed(old(self).current_line@)]),
            ),
            final(self).current_line@ == Seq::<char>::empty(),
    {
        let line = trim(self.current_line.as_str()).to_owned();
        proof {
            reveal(Seq::filter);
            let one = seq![line@];
            assert(one.drop_last() =~= Seq::<Seq<char>>::empty());
            assert(one.drop_last().filter(is_filled()) =~= Seq::<Seq<char>>::empty());
            lemma_stored_nothing(self.buffer);
            assert(Seq::<Seq<char>>::empty().push(line@) =~= one);
        }
        if line.as_str().unicode_len() > 0 {
            self.parse_and_store(line.as_str());
        }
        self.current_line = String::new();
        assert(self.current_line@ =~= Seq::<char>::empty());
    }

    /// Whether what is left of the current line can be stored.
    pub fn accepts_flush(&self) -> (r: bool)
        ensures
            r == self.can_flush(),
    {
        is_storable(trim(self.current_line.as_str()))
    }
}

/// Storing some lines and then more is storing all of them: the buffer keeps the last ones.
pub proof fn law_stored_in_pieces(
    a: LogBuffer,
    b: LogBuffer,
    c: LogBuffer,
    first: Seq<Seq<char>>,
    more: Seq<Seq<char>>,
)
    requires
        stored(a, b, first),
        stored(b, c, more),
    ensures
        stored(a, c, first + more),
        c.wf(),
{
    let t1 = choose|times: Seq<i64>|
        times.len() == first.len() && since_epoch(times) && b@ == last_items(
            a@ + #[trigger] stamped(first, times),
            a.limit(),
        );
    let t2 = choose|times: Seq<i64>|
        times.len() == more.len() && since_epoch(times) && c@ == last_items(
            b@ + #[trigger] stamped(more, times),
            b.limit(),
        );
    lemma_last_items(a@ + stamped(first, t1), stamped(more, t2), a.limit());
    assert(a@ + stamped(first, t1) + stamped(more, t2) =~= a@ + stamped(first + more, t1 + t2));
}

/// It makes no difference to the lines in how many pieces a text is written: what follows may come
/// before or after the lines that have ended were taken off.
pub proof fn law_lines_in_pieces(a: Seq<char>, b: Seq<char>)
    ensures
        ended_lines(a + b) == ended_lines(a) + ended_lines(unended(a) + b),
        unended(a + b) == unended(unended(a) + b),
    decreases a.len(),
{
    let p = is_char('\n');
    let k = first_index(a, p);
    lemma_first_index_props(a, p);
    if k < a.len() {
        assert forall|j: int| 0 <= j < k implies !p(#[trigger] (a + b)[j]) by {
            assert(!p(a[j]));
        }
        assert((a + b)[k] == a[k]);
        lemma_first_index(a + b, p, k);
        assert((a + b).take(k) =~= a.take(k));
        assert((a + b).skip(k + 1) =~= a.skip(k + 1) + b);
        law_lines_in_pieces(a.skip(k + 1), b);
        assert(ended_lines(a + b) =~= ended_lines(a) + ended_lines(unended(a) + b));
    } else {
        assert(ended_lines(a + b) =~= ended_lines(a) + ended_lines(unended(a) + b));
    }
}

/// No line break is left over.
pub proof fn law_unended_has_no_break(text: Seq<char>)
    ensures
        !unended(text).contains('\n'),
    decreases text.len(),
{
    let p = is_char('\n');
    lemma_first_index_props(text, p);
    let k = first_index(text, p);
    if k < text.len() {
        law_unended_has_no_break(text.skip(k + 1));
    } else if text.contains('\n') {
        let j = text.index_of('\n');
        assert(p(text[j]));
    }
}

/// A level that the writer knows.
pub open spec fn is_level(level: Seq<char>) -> bool {
    level == "DEBUG"@ || level == "INFO"@ || level == "WARN"@ || level == "ERROR"@
}

/// A line "LEVEL: message" can be stored, and its level and its message come out again, the message
/// without the white space around it.
pub proof fn law_formatted_line_parses(level: Seq<char>, message: Seq<char>)
    requires
        is_level(level),
    ensures
        storable(level + ": "@ + message),
        parsed_line(level + ": "@ + message) == (LevelledLine { level, message: trimmed(message) }),
{
    reveal_strlit("DEBUG");
    reveal_strlit("INFO");
    reveal_strlit("WARN");
    reveal_strlit("ERROR");
    reveal_strlit(": ");
    let line = level + ": "@ + message;
    let n = level.len() as int;
    assert(line[0] == level[0]);
    assert(line[n] == ':');
    assert(line.take(n) =~= level);
    assert(line.skip(n + 1) =~= seq![' '] + message);
    let rest = seq![' '] + message;
    assert(rest.drop_first() =~= message);
    assert(trim_start(rest) == trim_start(message));
    assert(has_prefix(line, level));
    assert forall|word: Seq<char>| #[trigger] is_level(word) && has_prefix(line, word) implies word
        == level by {
        assert(line.take(word.len() as int)[0] == line[0]);
        assert(word[0] == level[0]);
    }
    assert(is_level("DEBUG"@) && is_level("INFO"@) && is_level("WARN"@) && is_level("ERROR"@));
}

} // verus!
