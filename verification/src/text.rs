//! Text primitives over `str`, specified on sequences of characters.

use crate::seqs::{
    first_index, lemma_first_index, lemma_first_index_props, lemma_insert_ordered, ordered_by,
};
use vstd::prelude::*;
use vstd::string::*;
use vstd::utf8::*;

verus! {

/// The texts of a sequence of owned strings.
pub open spec fn texts(v: Seq<String>) -> Seq<Seq<char>> {
    Seq::new(v.len(), |i: int| v[i]@)
}

/// The text of an optional string.
pub open spec fn opt_text(o: Option<String>) -> Option<Seq<char>> {
    match o {
        Some(s) => Some(s@),
        None => None,
    }
}

/// The text of an optional string slice.
pub open spec fn opt_str(o: Option<&str>) -> Option<Seq<char>> {
    match o {
        Some(s) => Some(s@),
        None => None,
    }
}

/// Equal UTF-8 encodings come from equal texts.
pub proof fn lemma_utf8_injective(a: Seq<char>, b: Seq<char>)
    requires
        encode_utf8(a) == encode_utf8(b),
    ensures
        a == b,
{
    encode_utf8_decode_utf8(a);
    encode_utf8_decode_utf8(b);
}

/// The characters of `s`, in order.
pub fn chars_of(s: &str) -> (v: Vec<char>)
    ensures
        v@ == s@,
{
    let mut v: Vec<char> = Vec::new();
    for c in it: s.chars()
        invariant
            v@ == it.seq().take(it.index() as int),
            it.seq() == s@,
    {
        v.push(c);
    }
    v
}

/// Whether two texts are the same.
pub fn str_eq(a: &str, b: &str) -> (r: bool)
    ensures
        r == (a@ == b@),
{
    let x = a.as_bytes();
    let y = b.as_bytes();
    if x.len() != y.len() {
        return false;
    }
    let mut i: usize = 0;
    while i < x.len()
        invariant
            x@.len() == y@.len(),
            i <= x@.len(),
            x@ == encode_utf8(a@),
            y@ == encode_utf8(b@),
            forall|j: int| 0 <= j < i ==> x@[j] == y@[j],
        decreases x@.len() - i,
    {
        if x[i] != y[i] {
            return false;
        }
        i += 1;
    }
    proof {
        assert(x@ =~= y@);
        lemma_utf8_injective(a@, b@);
    }
    true
}

/// Whether `s` begins with `prefix`.
pub open spec fn has_prefix(s: Seq<char>, prefix: Seq<char>) -> bool {
    prefix.len() <= s.len() && s.take(prefix.len() as int) == prefix
}

/// Whether `s` begins with `prefix`.
pub fn starts_with(s: &str, prefix: &str) -> (r: bool)
    ensures
        r == has_prefix(s@, prefix@),
{
    let n: usize = prefix.unicode_len();
    if s.unicode_len() < n {
        return false;
    }
    str_eq(s.substring_char(0, n), prefix)
}

/// Whether `part` occurs in `s`.
pub open spec fn has_part(s: Seq<char>, part: Seq<char>) -> bool {
    exists|i: int| 0 <= i <= s.len() && has_prefix(#[trigger] s.skip(i), part)
}

/// Whether `part` occurs in `s`.
pub fn contains_text(s: &str, part: &str) -> (r: bool)
    ensures
        r == has_part(s@, part@),
{
    let n: usize = s.unicode_len();
    let mut i: usize = 0;
    loop
        invariant
            i <= n == s@.len(),
            forall|j: int| 0 <= j < i ==> !has_prefix(#[trigger] s@.skip(j), part@),
        decreases n - i,
    {
        assert(s@.subrange(i as int, n as int) =~= s@.skip(i as int));
        if starts_with(s.substring_char(i, n), part) {
            return true;
        }
        if i == n {
            return false;
        }
        i += 1;
    }
}

/// `s` with every occurrence of `part` taken out, from the left.
pub open spec fn without(s: Seq<char>, part: Seq<char>) -> Seq<char>
    decreases s.len(),
{
    if s.len() == 0 || part.len() == 0 {
        s
    } else if has_prefix(s, part) {
        without(s.skip(part.len() as int), part)
    } else {
        seq![s[0]] + without(s.drop_first(), part)
    }
}

/// `s` with every occurrence of `part` taken out, from the left.
pub fn remove_all(s: &str, part: &str) -> (r: String)
    requires
        part@.len() > 0,
    ensures
        r@ == without(s@, part@),
{
    let n: usize = s.unicode_len();
    let m: usize = part.unicode_len();
    let mut r = String::new();
    let mut i: usize = 0;
    assert(s@.subrange(0, n as int) =~= s@);
    assert(r@ + without(s@, part@) =~= without(s@, part@));
    while i < n
        invariant
            i <= n,
            n == s@.len(),
            m == part@.len(),
            m > 0,
            r@ + without(s@.subrange(i as int, n as int), part@) == without(s@, part@),
        decreases n - i,
    {
        let rest = s.substring_char(i, n);
        if starts_with(rest, part) {
            assert(rest@.skip(m as int) =~= s@.subrange(i + m, n as int));
            i += m;
        } else {
            let ghost before = r@;
            r.append(s.substring_char(i, i + 1));
            proof {
                assert(s@.subrange(i as int, i + 1) =~= seq![rest@[0]]);
                assert(rest@.drop_first() =~= s@.subrange(i + 1, n as int));
                let tail = without(s@.subrange(i + 1, n as int), part@);
                assert(r@ + tail =~= before + (seq![rest@[0]] + tail));
            }
            i += 1;
        }
    }
    assert(r@ + without(s@.subrange(i as int, n as int), part@) =~= r@);
    r
}

/// Being the character `c`.
pub open spec fn is_char(c: char) -> spec_fn(char) -> bool {
    |x: char| x == c
}

/// The part of `s` before the first `c`; all of `s` when `c` does not occur.
pub open spec fn before_char(s: Seq<char>, c: char) -> Seq<char> {
    s.take(first_index(s, is_char(c)))
}

/// The index of the first `c` in `s`, or the number of characters when there is none.
pub fn find_char(s: &str, c: char) -> (k: usize)
    ensures
        k == first_index(s@, is_char(c)),
        k <= s@.len(),
{
    let v = chars_of(s);
    let mut k: usize = 0;
    while k < v.len() && v[k] != c
        invariant
            k <= v@.len(),
            forall|j: int| 0 <= j < k ==> v@[j] != c,
        decreases v@.len() - k,
    {
        k += 1;
    }
    proof {
        lemma_first_index(s@, is_char(c), k as int);
    }
    k
}

/// The part of `s` before the first `c`; all of `s` when `c` does not occur.
pub fn split_first<'a>(s: &'a str, c: char) -> (r: &'a str)
    ensures
        r@ == before_char(s@, c),
{
    let k: usize = find_char(s, c);
    assert(s@.subrange(0, k as int) =~= s@.take(k as int));
    s.substring_char(0, k)
}

/// Whether `c` occurs in `s`.
pub fn contains_char(s: &str, c: char) -> (r: bool)
    ensures
        r == s@.contains(c),
{
    let k: usize = find_char(s, c);
    proof {
        lemma_first_index_props(s@, is_char(c));
    }
    k < s.unicode_len()
}

/// The Unicode `White_Space` characters.
pub open spec fn is_white_space(c: char) -> bool {
    let u = c as u32;
    ||| 0x9 <= u <= 0xD
    ||| u == 0x20
    ||| u == 0x85
    ||| u == 0xA0
    ||| u == 0x1680
    ||| 0x2000 <= u <= 0x200A
    ||| u == 0x2028
    ||| u == 0x2029
    ||| u == 0x202F
    ||| u == 0x205F
    ||| u == 0x3000
}

/// Whether `c` is a Unicode `White_Space` character.
pub fn white_space(c: char) -> (r: bool)
    ensures
        r == is_white_space(c),
{
    let u: u32 = c as u32;
    (0x9 <= u && u <= 0xD) || u == 0x20 || u == 0x85 || u == 0xA0 || u == 0x1680 || (0x2000 <= u
        && u <= 0x200A) || u == 0x2028 || u == 0x2029 || u == 0x202F || u == 0x205F || u == 0x3000
}

/// `s` without its leading white space.
pub open spec fn trim_start(s: Seq<char>) -> Seq<char>
    decreases s.len(),
{
    if s.len() > 0 && is_white_space(s[0]) {
        trim_start(s.drop_first())
    } else {
        s
    }
}

/// `s` without its trailing white space.
pub open spec fn trim_end(s: Seq<char>) -> Seq<char>
    decreases s.len(),
{
    if s.len() > 0 && is_white_space(s.last()) {
        trim_end(s.drop_last())
    } else {
        s
    }
}

/// `s` without the white space at its two ends.
pub open spec fn trimmed(s: Seq<char>) -> Seq<char> {
    trim_end(trim_start(s))
}

/// `s` without the white space at its two ends.
pub fn trim(s: &str) -> (r: &str)
    ensures
        r@ == trimmed(s@),
{
    let v = chars_of(s);
    let mut a: usize = 0;
    assert(s@.subrange(0, s@.len() as int) =~= s@);
    while a < v.len() && white_space(v[a])
        invariant
            a <= v@.len(),
            v@ == s@,
            trim_start(s@) == trim_start(s@.subrange(a as int, s@.len() as int)),
        decreases v@.len() - a,
    {
        assert(s@.subrange(a as int, s@.len() as int).drop_first() =~= s@.subrange(
            a + 1,
            s@.len() as int,
        ));
        a += 1;
    }
    let mut b: usize = v.len();
    while a < b && white_space(v[b - 1])
        invariant
            a <= b <= v@.len(),
            v@ == s@,
            trimmed(s@) == trim_end(s@.subrange(a as int, b as int)),
        decreases b,
    {
        assert(s@.subrange(a as int, b as int).drop_last() =~= s@.subrange(a as int, b - 1));
        b -= 1;
    }
    s.substring_char(a, b)
}

/// The decimal digit of `d`.
pub open spec fn digit(d: nat) -> char {
    "0123456789"@[d as int]
}

/// `n` in decimal, without leading zeros.
pub open spec fn decimal(n: nat) -> Seq<char>
    decreases n,
{
    if n < 10 {
        seq![digit(n)]
    } else {
        decimal(n / 10).push(digit(n % 10))
    }
}

/// One decimal digit as text.
fn digit_text(d: u64) -> (r: &'static str)
    requires
        d < 10,
    ensures
        r@ == seq![digit(d as nat)],
{
    proof {
        reveal_strlit("0123456789");
    }
    let r = "0123456789".substring_char(d as usize, d as usize + 1);
    assert(r@ =~= seq![digit(d as nat)]);
    r
}

/// `n` in decimal, without leading zeros.
pub fn decimal_text(n: u64) -> (r: String)
    ensures
        r@ == decimal(n as nat),
    decreases n,
{
    if n < 10 {
        digit_text(n).to_owned()
    } else {
        let mut r = decimal_text(n / 10);
        r.append(digit_text(n % 10));
        assert(r@ =~= decimal((n / 10) as nat).push(digit((n % 10) as nat)));
        r
    }
}

/// `a` comes before `b`, character by character, by code point.
pub open spec fn text_before(a: Seq<char>, b: Seq<char>) -> bool
    decreases a.len(),
{
    if b.len() == 0 {
        false
    } else if a.len() == 0 {
        true
    } else if a[0] != b[0] {
        (a[0] as u32) < (b[0] as u32)
    } else {
        text_before(a.drop_first(), b.drop_first())
    }
}

/// The order of texts is strict, transitive and total.
pub proof fn lemma_text_before_order(a: Seq<char>, b: Seq<char>, c: Seq<char>)
    ensures
        !text_before(a, a),
        text_before(a, b) && text_before(b, c) ==> text_before(a, c),
        a != b ==> text_before(a, b) || text_before(b, a),
        !(text_before(a, b) && text_before(b, a)),
    decreases a.len(),
{
    if a.len() > 0 {
        lemma_text_before_order(a.drop_first(), b.drop_first(), c.drop_first());
        if b.len() > 0 {
            if a[0] == b[0] {
                if a.drop_first() == b.drop_first() {
                    assert(a =~= seq![a[0]] + a.drop_first());
                    assert(b =~= seq![b[0]] + b.drop_first());
                }
            } else {
                char_u32_cast(a[0], a[0] as u32);
                char_u32_cast(b[0], b[0] as u32);
            }
        }
    } else {
        if b.len() == 0 {
            assert(a =~= b);
        }
    }
}

/// Whether `a` comes before `b` by code point.
pub fn str_before(a: &str, b: &str) -> (r: bool)
    ensures
        r == text_before(a@, b@),
{
    let x = chars_of(a);
    let y = chars_of(b);
    let mut i: usize = 0;
    assert(x@.subrange(0, x@.len() as int) =~= x@);
    assert(y@.subrange(0, y@.len() as int) =~= y@);
    while i < x.len() && i < y.len() && x[i] == y[i]
        invariant
            i <= x@.len(),
            i <= y@.len(),
            x@ == a@,
            y@ == b@,
            text_before(a@, b@) == text_before(
                x@.subrange(i as int, x@.len() as int),
                y@.subrange(i as int, y@.len() as int),
            ),
        decreases x@.len() - i,
    {
        assert(x@.subrange(i as int, x@.len() as int).drop_first() =~= x@.subrange(
            i + 1,
            x@.len() as int,
        ));
        assert(y@.subrange(i as int, y@.len() as int).drop_first() =~= y@.subrange(
            i + 1,
            y@.len() as int,
        ));
        i += 1;
    }
    if i < y.len() {
        if i < x.len() {
            (x[i] as u32) < (y[i] as u32)
        } else {
            true
        }
    } else {
        false
    }
}

/// `a` followed by `b`.
pub fn joined(a: &str, b: &str) -> (r: String)
    ensures
        r@ == a@ + b@,
{
    let mut r = a.to_owned();
    r.append(b);
    r
}

/// `a`, `b` and `c` in a row.
pub fn joined3(a: &str, b: &str, c: &str) -> (r: String)
    ensures
        r@ == a@ + b@ + c@,
{
    let mut r = a.to_owned();
    r.append(b);
    r.append(c);
    r
}

/// Whether `list` holds the text `s`.
pub fn list_contains(list: &Vec<String>, s: &str) -> (r: bool)
    ensures
        r == texts(list@).contains(s@),
{
    let mut i: usize = 0;
    while i < list.len()
        invariant
            i <= list@.len(),
            forall|j: int| 0 <= j < i ==> texts(list@)[j] != s@,
        decreases list@.len() - i,
    {
        if str_eq(list[i].as_str(), s) {
            assert(texts(list@)[i as int] == s@);
            return true;
        }
        i += 1;
    }
    false
}

/// ASCII upper-case letters become lower-case; everything else stays.
pub open spec fn ascii_lower(c: char) -> char {
    if 'A' <= c && c <= 'Z' {
        ((c as u32 + 32) as u32) as char
    } else {
        c
    }
}

/// Every character in its ASCII lower-case form.
pub open spec fn ascii_lowered(s: Seq<char>) -> Seq<char> {
    Seq::new(s.len(), |i: int| ascii_lower(s[i]))
}

/// The Unicode lower-case form that `str::to_lowercase` gives a text.
pub uninterp spec fn unicode_lowered(s: Seq<char>) -> Seq<char>;

/// Calls `str::to_lowercase`. Its result is a function of the text alone; on a text of ASCII
/// characters it turns `A` to `Z` into `a` to `z` and leaves the rest. What it makes of other
/// characters (the Unicode mapping) is not stated.
#[verifier::external_body]
pub(crate) fn lowercase(s: &str) -> (r: String)
    ensures
        r@ == unicode_lowered(s@),
        is_ascii_chars(s@) ==> r@ == ascii_lowered(s@),
{
    s.to_lowercase()
}

/// Calls `std::str::from_utf8`: succeeds exactly on valid UTF-8, with the text that those bytes
/// encode.
#[verifier::external_body]
pub(crate) fn utf8_text(bytes: &[u8]) -> (r: Option<&str>)
    ensures
        r is Some <==> valid_utf8(bytes@),
        r is Some ==> encode_utf8(r->0@) == bytes@,
{
    std::str::from_utf8(bytes).ok()
}

/// Coming before by code point.
pub open spec fn text_order() -> spec_fn(Seq<char>, Seq<char>) -> bool {
    |a: Seq<char>, b: Seq<char>| text_before(a, b)
}

/// Each text comes before all the texts after it.
pub open spec fn increasing(s: Seq<Seq<char>>) -> bool {
    ordered_by(s, text_order())
}

/// Puts `t` in its place in an increasing list, if it is not there yet.
pub fn insert_in_order(list: &mut Vec<String>, t: String)
    requires
        increasing(texts(old(list)@)),
    ensures
        increasing(texts(final(list)@)),
        texts(final(list)@).to_set() == texts(old(list)@).to_set().insert(t@),
{
    let mut i: usize = 0;
    while i < list.len() && str_before(list[i].as_str(), t.as_str())
        invariant
            i <= list@.len(),
            forall|j: int| 0 <= j < i ==> text_before(#[trigger] texts(list@)[j], t@),
        decreases list@.len() - i,
    {
        i += 1;
    }
    let ghost before = texts(list@);
    if i < list.len() && str_eq(list[i].as_str(), t.as_str()) {
        assert(before[i as int] == t@);
        assert(before.to_set() =~= before.to_set().insert(t@));
    } else {
        let ghost item = t@;
        let ghost lt = text_order();
        list.insert(i, t);
        proof {
            assert(texts(list@) =~= before.insert(i as int, item));
            assert forall|q: int| i <= q < before.len() implies lt(item, #[trigger] before[q]) by {
                let x = before[i as int];
                lemma_text_before_order(x, item, item);
                if q > i {
                    assert(lt(x, before[q]));
                    lemma_text_before_order(item, x, before[q]);
                }
            }
            lemma_insert_ordered(before, i as int, item, lt);
        }
    }
}

} // verus!
