//! The log buffer and the writer that fills it.

use crate::laws::basics::{lemma_trim_end, lemma_trim_start};
use crate::logbuffer::{
    ended_lines, is_filled, is_storable, last_items, lines_kept, parse_line, parsed_line, stamped,
    storable, stored, unended, LogBuffer, LogBufferWriter, LogLine,
};
use crate::seqs::{lemma_filter_push, lemma_first_index};
use crate::text::{has_prefix, is_char, is_white_space, trim_end, trim_start, trimmed};
use vstd::prelude::*;
use vstd::utf8::{encode_utf8, encode_utf8_decode_utf8, encode_utf8_valid_utf8, valid_utf8};

verus! {

/// A line is added at the end, and the oldest go as far as there are too many.
pub proof fn law_append_at(
    b: &mut LogBuffer,
    level: &str,
    message: String,
    timestamp: i64,
    i: int,
)
    requires
        call_ensures(LogBuffer::append_at, (b, level, message, timestamp), ()),
    ensures
        is_appended(old(b)@, final(b)@, old(b).limit(), level@, message@, timestamp, i),
        final(b).limit() == old(b).limit(),
{
}

/// Whether a line was added, and the oldest dropped beyond `limit`; for the line at `i`.
pub open spec fn is_appended(
    before: Seq<LogLine>,
    after: Seq<LogLine>,
    limit: int,
    level: Seq<char>,
    message: Seq<char>,
    timestamp: i64,
    i: int,
) -> bool {
    let dropped = before.len() + 1 - after.len();
    &&& before.len() < limit ==> after.len() == before.len() + 1
    &&& before.len() >= limit >= 0 ==> after.len() == limit
    &&& 0 <= i < after.len() - 1 ==> after[i] == before[dropped + i]
    &&& after.len() > 0 ==> {
        &&& after.last().level == level
        &&& after.last().message == message
        &&& after.last().timestamp == timestamp
    }
}

/// The same with the current time.
pub proof fn law_append(b: &mut LogBuffer, level: &str, message: String, i: int)
    requires
        call_ensures(LogBuffer::append, (b, level, message), ()),
    ensures
        exists|t: i64|
            0 <= t && #[trigger] is_appended(
                old(b)@,
                final(b)@,
                old(b).limit(),
                level@,
                message@,
                t,
                i,
            ),
        final(b).limit() == old(b).limit(),
{
    let t = choose|t: i64|
        0 <= t && final(b)@ == last_items(
            old(b)@.push(LogLine { level: level@, message: message@, timestamp: t }),
            old(b).limit(),
        );
    assert(is_appended(old(b)@, final(b)@, old(b).limit(), level@, message@, t, i));
}

/// A new buffer is empty and keeps as many lines as it was made for.
pub proof fn law_new_buffer(max_lines: usize, b: LogBuffer, n: usize, r: Vec<(String, i64, String)>)
    requires
        call_ensures(LogBuffer::new, (max_lines,), b),
        call_ensures(LogBuffer::get_last_n, (&b, n), r),
    ensures
        r@.len() == 0,
        b.limit() == max_lines,
{
}

/// The last lines are handed out, oldest first: `n` of them, or all if there are fewer.
pub proof fn law_get_last_n(b: &LogBuffer, n: usize, r: Vec<(String, i64, String)>, i: int)
    requires
        call_ensures(LogBuffer::get_last_n, (b, n), r),
    ensures
        b@.len() <= n ==> r@.len() == b@.len(),
        b@.len() > n ==> r@.len() == n,
        0 <= i < r@.len() ==> {
            let line = b@[b@.len() - r@.len() + i];
            r@[i].0@ == line.level && r@[i].1 == line.timestamp && r@[i].2@ == line.message
        },
{
}

/// The line that was added last is handed out last, with its level, time and message.
pub proof fn law_append_then_get_last(
    b: &mut LogBuffer,
    level: &str,
    message: String,
    timestamp: i64,
    n: usize,
    r: Vec<(String, i64, String)>,
)
    requires
        old(b).limit() > 0,
        n > 0,
        call_ensures(LogBuffer::append_at, (b, level, message, timestamp), ()),
        call_ensures(LogBuffer::get_last_n, (&*final(b), n), r),
    ensures
        r@.len() > 0,
        r@.last().0@ == level@,
        r@.last().1 == timestamp,
        r@.last().2@ == message@,
{
}

/// Whether `s` is white space throughout.
pub open spec fn is_blank(s: Seq<char>) -> bool {
    forall|i: int| 0 <= i < s.len() ==> is_white_space(#[trigger] s[i])
}

/// Whether `t` is `s` without the white space `a` before it and `b` behind it.
pub open spec fn is_inside(s: Seq<char>, a: Seq<char>, t: Seq<char>, b: Seq<char>) -> bool {
    &&& s == a + t + b
    &&& is_blank(a)
    &&& is_blank(b)
    &&& t.len() > 0 ==> !is_white_space(t[0]) && !is_white_space(t.last())
}

/// Whether `t` is `s` without the white space around it.
pub open spec fn is_trimmed(s: Seq<char>, t: Seq<char>) -> bool {
    exists|a: Seq<char>, b: Seq<char>| is_inside(s, a, t, b)
}

proof fn lemma_start(s: Seq<char>) -> (a: Seq<char>)
    ensures
        s == a + trim_start(s),
        is_blank(a),
        trim_start(s).len() > 0 ==> !is_white_space(trim_start(s)[0]),
    decreases s.len(),
{
    if s.len() > 0 && is_white_space(s[0]) {
        let rest = lemma_start(s.drop_first());
        let a = seq![s[0]] + rest;
        assert(s =~= seq![s[0]] + s.drop_first());
        assert(a + trim_start(s) =~= seq![s[0]] + (rest + trim_start(s)));
        a
    } else {
        assert(s =~= Seq::<char>::empty() + s);
        Seq::empty()
    }
}

proof fn lemma_end(s: Seq<char>) -> (b: Seq<char>)
    ensures
        s == trim_end(s) + b,
        is_blank(b),
        trim_end(s).len() > 0 ==> !is_white_space(trim_end(s).last()),
    decreases s.len(),
{
    if s.len() > 0 && is_white_space(s.last()) {
        let rest = lemma_end(s.drop_last());
        let b = rest.push(s.last());
        assert(s =~= s.drop_last().push(s.last()));
        assert(trim_end(s) + b =~= (trim_end(s) + rest).push(s.last()));
        b
    } else {
        assert(s =~= s + Seq::<char>::empty());
        Seq::empty()
    }
}

/// Trimming leaves what lies inside the white space.
proof fn lemma_is_trimmed(s: Seq<char>)
    ensures
        is_trimmed(s, trimmed(s)),
        is_blank(s) <==> trimmed(s).len() == 0,
{
    let a = lemma_start(s);
    let u = trim_start(s);
    let b = lemma_end(u);
    let t = trimmed(s);
    assert(s =~= a + t + b);
    if t.len() > 0 {
        assert(t[0] == u[0]);
        assert(s[a.len() as int] == t[0]);
    }
    assert(is_inside(s, a, t, b));
    if t.len() == 0 {
        assert forall|i: int| 0 <= i < s.len() implies is_white_space(#[trigger] s[i]) by {
            if i < a.len() {
                assert(s[i] == a[i]);
            } else {
                assert(s[i] == b[i - a.len()]);
            }
        }
    }
}

/// There is one way to trim.
proof fn lemma_one_trim(s: Seq<char>, t: Seq<char>)
    requires
        is_trimmed(s, t),
    ensures
        t == trimmed(s),
{
    let (a, b) = choose|a: Seq<char>, b: Seq<char>| is_inside(s, a, t, b);
    if t.len() > 0 {
        assert(s =~= a + (t + b));
        assert((t + b)[0] == t[0]);
        lemma_trim_start(a, t + b);
        lemma_trim_end(t, b);
    } else {
        assert forall|i: int| 0 <= i < s.len() implies is_white_space(#[trigger] s[i]) by {
            if i < a.len() {
                assert(s[i] == a[i]);
            } else {
                assert(s[i] == b[i - a.len()]);
            }
        }
        lemma_is_trimmed(s);
        assert(t =~= trimmed(s));
    }
}

/// Trimming takes exactly the white space at the two ends, also where there is nothing else.
pub proof fn law_trim_all(s: &str, r: &str)
    requires
        call_ensures(crate::text::trim, (s,), r),
    ensures
        is_trimmed(s@, r@),
{
    lemma_is_trimmed(s@);
}

/// The words that name a level.
pub open spec fn is_word(word: Seq<char>) -> bool {
    word == "DEBUG"@ || word == "INFO"@ || word == "WARN"@ || word == "ERROR"@
}

/// Whether `line` is `word`, then `c`, then `rest`.
pub open spec fn is_split(line: Seq<char>, word: Seq<char>, c: char, rest: Seq<char>) -> bool {
    is_word(word) && line == word + seq![c] + rest
}

/// Whether `line` can be taken apart: if it begins with a level, an ASCII character follows.
pub open spec fn is_fit(line: Seq<char>) -> bool {
    &&& !is_word(line)
    &&& forall|word: Seq<char>, c: char, rest: Seq<char>| #[trigger]
        is_split(line, word, c, rest) ==> c <= '\u{7f}'
}

/// Whether `level` and `message` are those of `line`: the word that it begins with and what lies one
/// character behind it, without the white space around that, or `INFO` and the whole line.
pub open spec fn is_levelled(line: Seq<char>, level: Seq<char>, message: Seq<char>) -> bool {
    ||| exists|c: char, rest: Seq<char>|
        is_trimmed(rest, message) && #[trigger] is_split(line, level, c, rest)
    ||| {
        &&& forall|word: Seq<char>, c: char, rest: Seq<char>| !#[trigger]
            is_split(line, word, c, rest)
        &&& level == "INFO"@
        &&& message == line
    }
}

proof fn lemma_words()
    ensures
        "DEBUG"@ =~= seq!['D', 'E', 'B', 'U', 'G'],
        "INFO"@ =~= seq!['I', 'N', 'F', 'O'],
        "WARN"@ =~= seq!['W', 'A', 'R', 'N'],
        "ERROR"@ =~= seq!['E', 'R', 'R', 'O', 'R'],
{
    reveal_strlit("DEBUG");
    reveal_strlit("INFO");
    reveal_strlit("WARN");
    reveal_strlit("ERROR");
}

proof fn lemma_split(line: Seq<char>, word: Seq<char>)
    requires
        is_word(word),
    ensures
        has_prefix(line, word) && line.len() > word.len() ==> is_split(
            line,
            word,
            line[word.len() as int],
            line.skip(word.len() as int + 1),
        ),
        has_prefix(line, word) && line.len() <= word.len() ==> line == word,
        line == word ==> has_prefix(line, word),
        forall|c: char, rest: Seq<char>| #[trigger]
            is_split(line, word, c, rest) ==> has_prefix(line, word) && line.len() > word.len()
                && line[word.len() as int] == c && line.skip(word.len() as int + 1) == rest,
{
    let n = word.len() as int;
    if has_prefix(line, word) {
        if line.len() > n {
            assert(line =~= line.take(n) + seq![line[n]] + line.skip(n + 1));
        } else {
            assert(line.take(n) =~= line);
        }
    }
    if line == word {
        assert(line.take(n) =~= line);
    }
    assert forall|c: char, rest: Seq<char>| #[trigger] is_split(line, word, c, rest) implies
        has_prefix(line, word) && line.len() > n && line[n] == c && line.skip(n + 1) == rest by {
        assert(line.take(n) =~= word);
        assert(line.skip(n + 1) =~= rest);
    }
}

proof fn lemma_is_fit(line: Seq<char>)
    ensures
        storable(line) <==> is_fit(line),
{
    lemma_words();
    lemma_split(line, "DEBUG"@);
    lemma_split(line, "INFO"@);
    lemma_split(line, "WARN"@);
    lemma_split(line, "ERROR"@);
    assert(is_word("DEBUG"@) && is_word("INFO"@) && is_word("WARN"@) && is_word("ERROR"@));
    if storable(line) {
        assert forall|word: Seq<char>, c: char, rest: Seq<char>| #[trigger]
            is_split(line, word, c, rest) implies c <= '\u{7f}' by {
            lemma_split(line, word);
        }
    }
}

proof fn lemma_is_levelled(line: Seq<char>)
    requires
        storable(line),
    ensures
        is_levelled(line, parsed_line(line).level, parsed_line(line).message),
{
    lemma_words();
    lemma_split(line, "DEBUG"@);
    lemma_split(line, "INFO"@);
    lemma_split(line, "WARN"@);
    lemma_split(line, "ERROR"@);
    let level = parsed_line(line).level;
    assert(is_word(level));
    if has_prefix(line, level) {
        let n = level.len() as int;
        lemma_is_trimmed(line.skip(n + 1));
        lemma_split(line, level);
        assert(is_split(line, level, line[n], line.skip(n + 1)));
    } else {
        assert forall|word: Seq<char>, c: char, rest: Seq<char>| !#[trigger]
            is_split(line, word, c, rest) by {
            if is_split(line, word, c, rest) {
                lemma_split(line, word);
            }
        }
    }
}

/// A line is taken apart into its level and its message.
pub proof fn law_parse_line(line: &str, r: (&'static str, &str))
    requires
        call_ensures(parse_line, (line,), r),
        is_fit(line@),
    ensures
        is_levelled(line@, r.0@, r.1@),
{
    lemma_is_fit(line@);
    lemma_is_levelled(line@);
}

/// Which lines can be taken apart.
pub proof fn law_is_storable(line: &str, r: bool)
    requires
        call_ensures(is_storable, (line,), r),
    ensures
        r <==> is_fit(line@),
{
    lemma_is_fit(line@);
}

/// Whether `s` holds no line break.
pub open spec fn is_one_line(s: Seq<char>) -> bool {
    forall|i: int| 0 <= i < s.len() ==> #[trigger] s[i] != '\n'
}

/// `lines`, each with a line break behind it, and `rest` at the end.
pub open spec fn lines_then(lines: Seq<Seq<char>>, rest: Seq<char>) -> Seq<char>
    decreases lines.len(),
{
    if lines.len() == 0 {
        rest
    } else {
        lines[0] + seq!['\n'] + lines_then(lines.drop_first(), rest)
    }
}

/// `lines`, each without the white space around it.
spec fn all_trimmed(lines: Seq<Seq<char>>) -> Seq<Seq<char>> {
    Seq::new(lines.len(), |i: int| trimmed(lines[i]))
}

proof fn lemma_lines(lines: Seq<Seq<char>>, rest: Seq<char>)
    requires
        forall|i: int| 0 <= i < lines.len() ==> is_one_line(#[trigger] lines[i]),
        is_one_line(rest),
    ensures
        ended_lines(lines_then(lines, rest)) == all_trimmed(lines),
        unended(lines_then(lines, rest)) == rest,
    decreases lines.len(),
{
    let text = lines_then(lines, rest);
    let p = is_char('\n');
    if lines.len() == 0 {
        assert forall|j: int| 0 <= j < text.len() implies !p(#[trigger] text[j]) by {}
        lemma_first_index(text, p, text.len() as int);
        assert(ended_lines(text) =~= all_trimmed(lines));
    } else {
        let more = lines.drop_first();
        assert forall|i: int| 0 <= i < more.len() implies is_one_line(#[trigger] more[i]) by {
            assert(more[i] == lines[i + 1]);
        }
        lemma_lines(more, rest);
        let k = lines[0].len() as int;
        assert forall|j: int| 0 <= j < k implies !p(#[trigger] text[j]) by {
            assert(is_one_line(lines[0]));
            assert(text[j] == lines[0][j]);
        }
        assert(p(text[k]));
        lemma_first_index(text, p, k);
        assert(text.take(k) =~= lines[0]);
        assert(text.skip(k + 1) =~= lines_then(more, rest));
        assert(ended_lines(text) =~= all_trimmed(lines));
    }
}

/// How many of the first `n` lines are not blank.
pub open spec fn filled_before(lines: Seq<Seq<char>>, n: int) -> int
    decreases n,
{
    if n <= 0 {
        0
    } else if is_blank(lines[n - 1]) {
        filled_before(lines, n - 1)
    } else {
        filled_before(lines, n - 1) + 1
    }
}

/// Whether `entry` is that of `line`, without the white space around it.
pub open spec fn is_entry(entry: LogLine, line: Seq<char>) -> bool {
    &&& 0 <= entry.timestamp
    &&& exists|t: Seq<char>| #[trigger]
        is_trimmed(line, t) && (is_fit(t) ==> is_levelled(t, entry.level, entry.message))
}

/// Whether the lines that are not blank were added, in order, and the oldest dropped beyond the
/// limit; for the line at `i` that was there and the line at `j` that is new.
pub open spec fn is_noted(
    before: LogBuffer,
    after: LogBuffer,
    lines: Seq<Seq<char>>,
    i: int,
    j: int,
) -> bool {
    let all = before@.len() + filled_before(lines, lines.len() as int);
    let dropped = all - after@.len();
    let place = before@.len() + filled_before(lines, j) - dropped;
    &&& after.limit() == before.limit()
    &&& all <= before.limit() ==> after@.len() == all
    &&& all > before.limit() ==> after@.len() == before.limit()
    &&& 0 <= i < before@.len() && dropped <= i ==> after@[i - dropped] == before@[i]
    &&& 0 <= j < lines.len() && !is_blank(lines[j]) && 0 <= place ==> is_entry(
        after@[place],
        lines[j],
    )
}

proof fn lemma_kept(lines: Seq<Seq<char>>, n: int, j: int)
    requires
        0 <= n <= lines.len(),
    ensures
        ({
            let kept = lines_kept(all_trimmed(lines).take(n));
            &&& kept.len() == filled_before(lines, n)
            &&& 0 <= j < n && !is_blank(lines[j]) ==> 0 <= filled_before(lines, j) < kept.len()
                && kept[filled_before(lines, j)] == trimmed(lines[j])
        }),
    decreases n,
{
    reveal(Seq::filter);
    if n > 0 {
        lemma_kept(lines, n - 1, j);
        lemma_filter_push(all_trimmed(lines), is_filled(), n - 1);
        lemma_is_trimmed(lines[n - 1]);
    }
}

proof fn lemma_noted(before: LogBuffer, after: LogBuffer, lines: Seq<Seq<char>>, i: int, j: int)
    requires
        before.limit() >= 0,
        stored(before, after, lines_kept(all_trimmed(lines))),
    ensures
        is_noted(before, after, lines, i, j),
{
    let n = lines.len() as int;
    lemma_kept(lines, n, j);
    assert(all_trimmed(lines).take(n) =~= all_trimmed(lines));
    let kept = lines_kept(all_trimmed(lines));
    let times = choose|times: Seq<i64>|
        times.len() == kept.len() && crate::logbuffer::since_epoch(times) && after@ == last_items(
            before@ + #[trigger] stamped(kept, times),
            before.limit(),
        );
    if 0 <= j < n && !is_blank(lines[j]) {
        let k = filled_before(lines, j);
        let t = trimmed(lines[j]);
        assert(0 <= times[k]);
        assert((before@ + stamped(kept, times))[before@.len() + k] == stamped(kept, times)[k]);
        lemma_is_trimmed(lines[j]);
        lemma_is_fit(t);
        if is_fit(t) {
            lemma_is_levelled(t);
        }
        assert(is_trimmed(lines[j], t));
    }
}

/// Writing notes every line that has ended, blank ones aside, and keeps the rest for later.
pub proof fn law_write(
    w: &mut LogBufferWriter,
    bytes: &[u8],
    n: usize,
    more: Seq<char>,
    lines: Seq<Seq<char>>,
    rest: Seq<char>,
    i: int,
    j: int,
)
    requires
        call_ensures(LogBufferWriter::write, (w, bytes), n),
        old(w).buffer.wf(),
        bytes@ == encode_utf8(more),
        old(w).current_line@ + more == lines_then(lines, rest),
        forall|k: int| 0 <= k < lines.len() ==> is_one_line(#[trigger] lines[k]),
        is_one_line(rest),
    ensures
        n == bytes@.len(),
        final(w).current_line@ == rest,
        is_noted(old(w).buffer, final(w).buffer, lines, i, j),
{
    encode_utf8_valid_utf8(more);
    encode_utf8_decode_utf8(more);
    lemma_lines(lines, rest);
    lemma_noted(old(w).buffer, final(w).buffer, lines, i, j);
}

/// Text can be written if all lines that it ends can be taken apart.
pub proof fn law_accepts(
    w: &LogBufferWriter,
    bytes: &[u8],
    r: bool,
    more: Seq<char>,
    lines: Seq<Seq<char>>,
    rest: Seq<char>,
)
    requires
        call_ensures(LogBufferWriter::accepts, (w, bytes), r),
        bytes@ == encode_utf8(more),
        w.current_line@ + more == lines_then(lines, rest),
        forall|k: int| 0 <= k < lines.len() ==> is_one_line(#[trigger] lines[k]),
        is_one_line(rest),
    ensures
        r <==> forall|k: int, t: Seq<char>|
            0 <= k < lines.len() && #[trigger] is_trimmed(lines[k], t) ==> is_fit(t),
{
    encode_utf8_valid_utf8(more);
    encode_utf8_decode_utf8(more);
    lemma_lines(lines, rest);
    let ended = all_trimmed(lines);
    if r {
        assert forall|k: int, t: Seq<char>|
            0 <= k < lines.len() && #[trigger] is_trimmed(lines[k], t) implies is_fit(t) by {
            lemma_one_trim(lines[k], t);
            assert(storable(ended[k]));
            lemma_is_fit(t);
        }
    }
    if forall|k: int, t: Seq<char>|
        0 <= k < lines.len() && #[trigger] is_trimmed(lines[k], t) ==> is_fit(t) {
        assert forall|k: int| 0 <= k < ended.len() implies storable(#[trigger] ended[k]) by {
            lemma_is_trimmed(lines[k]);
            assert(is_trimmed(lines[k], ended[k]));
            lemma_is_fit(ended[k]);
        }
    }
}

/// What is left can be flushed if it can be taken apart.
pub proof fn law_accepts_flush(w: &LogBufferWriter, r: bool, t: Seq<char>)
    requires
        call_ensures(LogBufferWriter::accepts_flush, (w,), r),
        is_trimmed(w.current_line@, t),
    ensures
        r <==> is_fit(t),
{
    lemma_one_trim(w.current_line@, t);
    lemma_is_fit(t);
}

/// A line is stored as it is, without looking for white space around it.
pub proof fn law_parse_and_store(w: &mut LogBufferWriter, line: &str, i: int)
    requires
        call_ensures(LogBufferWriter::parse_and_store, (w, line), ()),
        old(w).buffer.wf(),
        is_fit(line@),
    ensures
        final(w).current_line == old(w).current_line,
        exists|level: Seq<char>, message: Seq<char>, t: i64|
            0 <= t && is_levelled(line@, level, message) && #[trigger] is_appended(
                old(w).buffer@,
                final(w).buffer@,
                old(w).buffer.limit(),
                level,
                message,
                t,
                i,
            ),
{
    lemma_is_fit(line@);
    lemma_is_levelled(line@);
    let one = seq![line@];
    let before = old(w).buffer@;
    let times = choose|times: Seq<i64>|
        times.len() == 1 && crate::logbuffer::since_epoch(times) && final(w).buffer@ == last_items(
            before + #[trigger] stamped(one, times),
            old(w).buffer.limit(),
        );
    let t = times[0];
    let p = parsed_line(line@);
    assert(0 <= t);
    assert(before + stamped(one, times) =~= before.push(stamped(one, times)[0]));
    assert(is_appended(
        before,
        final(w).buffer@,
        old(w).buffer.limit(),
        p.level,
        p.message,
        t,
        i,
    ));
}

/// Bytes that are no UTF-8 are passed over.
pub proof fn law_write_invalid(
    w: &mut LogBufferWriter,
    bytes: &[u8],
    n: usize,
    i: int,
)
    requires
        call_ensures(LogBufferWriter::write, (w, bytes), n),
        old(w).buffer.wf(),
        !valid_utf8(bytes@),
        is_one_line(old(w).current_line@),
    ensures
        n == bytes@.len(),
        final(w).current_line@ == old(w).current_line@,
        is_noted(old(w).buffer, final(w).buffer, Seq::empty(), i, 0),
{
    let none = Seq::<Seq<char>>::empty();
    lemma_lines(none, old(w).current_line@);
    lemma_noted(old(w).buffer, final(w).buffer, none, i, 0);
}

/// A flush notes what is left as a line of its own.
pub proof fn law_flush(w: &mut LogBufferWriter, i: int)
    requires
        call_ensures(LogBufferWriter::flush, (w,), ()),
        old(w).buffer.wf(),
    ensures
        final(w).current_line@.len() == 0,
        is_noted(old(w).buffer, final(w).buffer, seq![old(w).current_line@], i, 0),
{
    let lines = seq![old(w).current_line@];
    assert(all_trimmed(lines) =~= seq![trimmed(old(w).current_line@)]);
    lemma_noted(old(w).buffer, final(w).buffer, lines, i, 0);
}

/// A new writer has nothing left to write.
pub proof fn law_new_writer(buffer: LogBuffer, w: LogBufferWriter)
    requires
        call_ensures(LogBufferWriter::new, (buffer,), w),
    ensures
        w.buffer == buffer,
        w.current_line@.len() == 0,
{
}

} // verus!
