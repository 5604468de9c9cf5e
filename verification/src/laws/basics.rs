//! Texts, names and numbers.

use crate::backend::{base_name, base_of, covers, BackendStatus};
use crate::delivery::format_duration_short;
use crate::digest::hex_text;
use crate::dispatcher::{normalize_model_tag, route, tagged};
use crate::laws::{
    has_base, is_called, is_unknown, lists_alias, same_model, stands_for, with_tag,
};
use crate::models::{
    default_keep_alive, default_max_concurrent_requests, has_alias, has_name, known_as,
    lacks_backends, resolved, served_by, ConfigError, ModelConfig, ParsedModel,
};
use crate::seqs::{first_index, lemma_first_index, lemma_first_index_props};
use crate::text::{
    contains_char, contains_text, decimal, decimal_text, digit, find_char, has_prefix,
    insert_in_order, is_char, is_white_space, list_contains, remove_all, split_first, starts_with,
    str_before, text_before, texts, trim, trim_end, trim_start, white_space, without,
};
use vstd::prelude::*;
use vstd::string::*;

verus! {

/// A text begins with another exactly when it is that other text and something behind it.
pub proof fn law_starts_with(s: &str, prefix: &str, r: bool)
    requires
        call_ensures(starts_with, (s, prefix), r),
    ensures
        r <==> exists|rest: Seq<char>| s@ == #[trigger] (prefix@ + rest),
{
    if r {
        assert(s@ =~= prefix@ + s@.skip(prefix@.len() as int));
    }
    if exists|rest: Seq<char>| s@ == #[trigger] (prefix@ + rest) {
        let rest = choose|rest: Seq<char>| s@ == #[trigger] (prefix@ + rest);
        assert(s@.take(prefix@.len() as int) =~= prefix@);
    }
}

/// A text contains another exactly when it has that other text between two parts.
pub proof fn law_contains_text(s: &str, part: &str, r: bool)
    requires
        call_ensures(contains_text, (s, part), r),
    ensures
        r <==> exists|a: Seq<char>, b: Seq<char>| s@ == #[trigger] (a + part@ + b),
{
    if r {
        let i = choose|i: int| 0 <= i <= s@.len() && has_prefix(#[trigger] s@.skip(i), part@);
        let a = s@.take(i);
        let b = s@.skip(i).skip(part@.len() as int);
        assert(s@.skip(i) =~= part@ + b);
        assert(s@ =~= a + part@ + b);
    }
    if exists|a: Seq<char>, b: Seq<char>| s@ == #[trigger] (a + part@ + b) {
        let (a, b) = choose|a: Seq<char>, b: Seq<char>| s@ == #[trigger] (a + part@ + b);
        let i = a.len() as int;
        assert(s@.skip(i) =~= part@ + b);
        assert((part@ + b).take(part@.len() as int) =~= part@);
        assert(has_prefix(s@.skip(i), part@));
    }
}

/// A text is split before the first `c`, and not at all without one.
pub proof fn law_split_first(s: &str, c: char, r: &str, a: Seq<char>, b: Seq<char>)
    requires
        call_ensures(split_first, (s, c), r),
        !a.contains(c),
        s@ == a || s@ == a + seq![c] + b,
    ensures
        r@ == a,
{
    let n = a.len() as int;
    assert forall|j: int| 0 <= j < n implies !is_char(c)(#[trigger] s@[j]) by {
        assert(s@[j] == a[j]);
    }
    if s@ != a {
        assert(s@[n] == c);
    }
    lemma_first_index(s@, is_char(c), n);
    assert(s@.take(n) =~= a);
}

/// The white space characters are these and no others.
pub proof fn law_white_space(c: char, r: bool)
    requires
        call_ensures(white_space, (c,), r),
    ensures
        r <==> seq![
            9u32, 10, 11, 12, 13, 32, 133, 160, 5760, 8192, 8193, 8194, 8195, 8196, 8197, 8198, 8199,
            8200, 8201, 8202, 8232, 8233, 8239, 8287, 12288,
        ].contains(c as u32),
{
    let all = seq![
        9u32, 10, 11, 12, 13, 32, 133, 160, 5760, 8192, 8193, 8194, 8195, 8196, 8197, 8198, 8199,
        8200, 8201, 8202, 8232, 8233, 8239, 8287, 12288,
    ];
    let u = c as u32;
    if r {
        if u <= 13 {
            assert(all[u - 9] == u);
        } else if u == 32 {
            assert(all[5] == u);
        } else if u == 133 {
            assert(all[6] == u);
        } else if u == 160 {
            assert(all[7] == u);
        } else if u == 5760 {
            assert(all[8] == u);
        } else if u <= 8202 {
            assert(all[u - 8192 + 9] == u);
        } else if u == 8232 {
            assert(all[20] == u);
        } else if u == 8233 {
            assert(all[21] == u);
        } else if u == 8239 {
            assert(all[22] == u);
        } else if u == 8287 {
            assert(all[23] == u);
        } else {
            assert(all[24] == u);
        }
    }
}

pub proof fn lemma_trim_start(w: Seq<char>, t: Seq<char>)
    requires
        forall|i: int| 0 <= i < w.len() ==> is_white_space(#[trigger] w[i]),
        t.len() > 0 ==> !is_white_space(t[0]),
    ensures
        trim_start(w + t) == t,
    decreases w.len(),
{
    if w.len() > 0 {
        assert((w + t)[0] == w[0]);
        assert((w + t).drop_first() =~= w.drop_first() + t);
        lemma_trim_start(w.drop_first(), t);
    } else {
        assert(w + t =~= t);
    }
}

pub proof fn lemma_trim_end(t: Seq<char>, w: Seq<char>)
    requires
        forall|i: int| 0 <= i < w.len() ==> is_white_space(#[trigger] w[i]),
        t.len() > 0 ==> !is_white_space(t.last()),
    ensures
        trim_end(t + w) == t,
    decreases w.len(),
{
    if w.len() > 0 {
        assert((t + w).last() == w.last());
        assert((t + w).drop_last() =~= t + w.drop_last());
        lemma_trim_end(t, w.drop_last());
    } else {
        assert(t + w =~= t);
    }
}

/// Trimming takes exactly the white space at the two ends.
pub proof fn law_trim(s: &str, r: &str, a: Seq<char>, t: Seq<char>, b: Seq<char>)
    requires
        call_ensures(trim, (s,), r),
        s@ == a + t + b,
        forall|i: int| 0 <= i < a.len() ==> is_white_space(#[trigger] a[i]),
        forall|i: int| 0 <= i < b.len() ==> is_white_space(#[trigger] b[i]),
        t.len() > 0,
        !is_white_space(t[0]),
        !is_white_space(t.last()),
    ensures
        r@ == t,
{
    assert(s@ =~= a + (t + b));
    assert((t + b)[0] == t[0]);
    lemma_trim_start(a, t + b);
    lemma_trim_end(t, b);
}

/// A text comes before another at the first place where they differ, by code point, or when it is
/// the beginning of it.
pub proof fn law_str_before(a: &str, b: &str, r: bool, k: int)
    requires
        call_ensures(str_before, (a, b), r),
        0 <= k <= a@.len(),
        k <= b@.len(),
        a@.take(k) == b@.take(k),
        k < a@.len() && k < b@.len() ==> a@[k] != b@[k],
    ensures
        k < a@.len() && k < b@.len() ==> (r <==> (a@[k] as u32) < (b@[k] as u32)),
        k == a@.len() || k == b@.len() ==> (r <==> a@.len() < b@.len()),
{
    lemma_before_at(a@, b@, k);
}

/// What decides between two texts with `k` characters in common.
pub proof fn lemma_before_at(a: Seq<char>, b: Seq<char>, k: int)
    requires
        0 <= k <= a.len(),
        k <= b.len(),
        a.take(k) == b.take(k),
        k < a.len() && k < b.len() ==> a[k] != b[k],
    ensures
        k < a.len() && k < b.len() ==> (text_before(a, b) <==> (a[k] as u32) < (b[k] as u32)),
        k == a.len() || k == b.len() ==> (text_before(a, b) <==> a.len() < b.len()),
    decreases k,
{
    if k > 0 {
        assert(a.take(k)[0] == a[0]);
        assert(b.take(k)[0] == b[0]);
        assert(a.drop_first().take(k - 1) =~= a.take(k).drop_first());
        assert(b.drop_first().take(k - 1) =~= b.take(k).drop_first());
        lemma_before_at(a.drop_first(), b.drop_first(), k - 1);
    }
}

/// The number that decimal digits stand for.
pub open spec fn value_of(digits: Seq<char>) -> int
    decreases digits.len(),
{
    if digits.len() == 0 {
        0
    } else {
        10 * value_of(digits.drop_last()) + (digits.last() as u32 - '0' as u32)
    }
}

/// Whether `digits` is a number in decimal without leading zeros.
pub open spec fn is_decimal(digits: Seq<char>) -> bool {
    &&& digits.len() > 0
    &&& forall|i: int| 0 <= i < digits.len() ==> '0' <= #[trigger] digits[i] && digits[i] <= '9'
    &&& digits.len() > 1 ==> digits[0] != '0'
}

proof fn lemma_decimal(n: nat)
    ensures
        is_decimal(decimal(n)),
        value_of(decimal(n)) == n,
        n > 0 ==> decimal(n)[0] != '0',
    decreases n,
{
    reveal_strlit("0123456789");
    let d = digit(n % 10);
    assert('0' <= d && d <= '9' && d as u32 - '0' as u32 == n % 10);
    if n < 10 {
        let s = decimal(n);
        assert(s =~= seq![d]);
        assert(s.drop_last() =~= Seq::<char>::empty());
        assert(value_of(s.drop_last()) == 0);
    } else {
        lemma_decimal(n / 10);
        let s = decimal(n / 10);
        assert(s.push(d).drop_last() =~= s);
    }
}

/// A number is written in decimal, so that its digits stand for it.
pub proof fn law_decimal_text(n: u64, r: String)
    requires
        call_ensures(decimal_text, (n,), r),
    ensures
        is_decimal(r@),
        value_of(r@) == n,
{
    lemma_decimal(n as nat);
}

/// A duration is written as the seconds below a minute, else as minutes and the seconds left over.
pub proof fn law_format_duration_short(secs: u64, r: String)
    requires
        call_ensures(format_duration_short, (secs,), r),
    ensures
        secs < 60 ==> exists|s: Seq<char>|
            is_decimal(s) && value_of(s) == secs && r@ == #[trigger] (s + "s"@),
        secs >= 60 ==> exists|m: Seq<char>, s: Seq<char>|
            is_decimal(m) && is_decimal(s) && value_of(s) < 60 && 60 * value_of(m) + value_of(s)
                == secs && r@ == #[trigger] (m + "m "@ + s + "s"@),
{
    lemma_decimal(secs as nat);
    lemma_decimal((secs / 60) as nat);
    lemma_decimal((secs % 60) as nat);
    if secs < 60 {
        assert(r@ == decimal(secs as nat) + "s"@);
    } else {
        assert(r@ == decimal((secs / 60) as nat) + "m "@ + decimal((secs % 60) as nat) + "s"@);
    }
}

/// The number that a hexadecimal digit stands for.
pub open spec fn hex_value(c: char) -> int {
    if '0' <= c && c <= '9' {
        c as u32 - '0' as u32
    } else if 'a' <= c && c <= 'f' {
        c as u32 - 'a' as u32 + 10
    } else {
        -1
    }
}

/// Each byte is written as two lower-case hexadecimal digits, the high one first.
pub proof fn law_hex_text(bytes: &[u8], r: String, i: int)
    requires
        call_ensures(hex_text, (bytes,), r),
        0 <= i < bytes@.len(),
    ensures
        r@.len() == 2 * bytes@.len(),
        0 <= hex_value(r@[2 * i]) < 16,
        0 <= hex_value(r@[2 * i + 1]) < 16,
        16 * hex_value(r@[2 * i]) + hex_value(r@[2 * i + 1]) == bytes@[i],
{
    reveal_strlit("0123456789abcdef");
    assert((2 * i) / 2 == i && (2 * i + 1) / 2 == i);
    let b = bytes@[i] as int;
    assert(r@[2 * i] == "0123456789abcdef"@[b / 16]);
    assert(r@[2 * i + 1] == "0123456789abcdef"@[b % 16]);
}

/// Taking a text out of one in which it does not occur changes nothing; its first occurrence goes
/// and the same is done to what follows.
pub proof fn law_remove_all(s: &str, part: &str, r: String, a: Seq<char>, b: Seq<char>)
    requires
        call_ensures(remove_all, (s, part), r),
        part@.len() > 0,
        s@ == a + part@ + b,
        forall|i: int| 0 <= i < a.len() ==> !has_prefix(#[trigger] s@.skip(i), part@),
    ensures
        r@ == a + without(b, part@),
{
    lemma_without(s@, part@, a, b);
}

pub proof fn lemma_without(s: Seq<char>, part: Seq<char>, a: Seq<char>, b: Seq<char>)
    requires
        part.len() > 0,
        s == a + part + b,
        forall|i: int| 0 <= i < a.len() ==> !has_prefix(#[trigger] s.skip(i), part),
    ensures
        without(s, part) == a + without(b, part),
    decreases a.len(),
{
    if a.len() == 0 {
        assert(s.take(part.len() as int) =~= part);
        assert(s.skip(part.len() as int) =~= b);
        assert(a + without(b, part) =~= without(b, part));
    } else {
        assert(s.skip(0) =~= s);
        let t = s.drop_first();
        assert(t =~= a.drop_first() + part + b);
        assert forall|i: int| 0 <= i < a.drop_first().len() implies !has_prefix(
            #[trigger] t.skip(i),
            part,
        ) by {
            assert(t.skip(i) =~= s.skip(i + 1));
        }
        lemma_without(t, part, a.drop_first(), b);
        assert(seq![s[0]] + (a.drop_first() + without(b, part)) =~= a + without(b, part));
    }
}

/// A text without the part is left as it is.
pub proof fn law_remove_all_absent(s: &str, part: &str, r: String)
    requires
        call_ensures(remove_all, (s, part), r),
        part@.len() > 0,
        forall|i: int| 0 <= i < s@.len() ==> !has_prefix(#[trigger] s@.skip(i), part@),
    ensures
        r@ == s@,
{
    lemma_without_absent(s@, part@);
}

pub proof fn lemma_without_absent(s: Seq<char>, part: Seq<char>)
    requires
        part.len() > 0,
        forall|i: int| 0 <= i < s.len() ==> !has_prefix(#[trigger] s.skip(i), part),
    ensures
        without(s, part) == s,
    decreases s.len(),
{
    if s.len() > 0 {
        assert(s.skip(0) =~= s);
        let t = s.drop_first();
        assert forall|i: int| 0 <= i < t.len() implies !has_prefix(#[trigger] t.skip(i), part) by {
            assert(t.skip(i) =~= s.skip(i + 1));
        }
        lemma_without_absent(t, part);
        assert(seq![s[0]] + t =~= s);
    }
}

/// A name gets the tag `:latest` exactly when it has none.
pub proof fn law_normalize_model_tag(name: &str, r: String)
    requires
        call_ensures(normalize_model_tag, (name,), r),
    ensures
        r@ == with_tag(name@),
{
    lemma_with_tag(name@);
}

pub proof fn lemma_with_tag(name: Seq<char>)
    ensures
        tagged(name) == with_tag(name),
{
    if name.contains(':') {
        let i = name.index_of(':');
        assert(name[i] == ':');
    }
    if exists|i: int| 0 <= i < name.len() && #[trigger] name[i] == ':' {
        let i = choose|i: int| 0 <= i < name.len() && #[trigger] name[i] == ':';
        assert(name.contains(name[i]));
    }
}

pub proof fn lemma_base(name: Seq<char>, base: Seq<char>)
    requires
        has_base(name, base),
    ensures
        base_name(name) == base,
{
    let n = base.len() as int;
    let c = ':';
    if name != base {
        let tag = choose|tag: Seq<char>| name == #[trigger] (base + seq![':'] + tag);
        assert(name == base + seq![':'] + tag);
        assert(name[n] == ':');
    }
    assert forall|j: int| 0 <= j < n implies !is_char(c)(#[trigger] name[j]) by {
        assert(name[j] == base[j]);
        assert(base.contains(base[j]));
    }
    lemma_first_index(name, is_char(c), n);
    assert(name.take(n) =~= base);
}

pub proof fn lemma_has_base(name: Seq<char>)
    ensures
        has_base(name, base_name(name)),
{
    let p = is_char(':');
    lemma_first_index_props(name, p);
    let k = first_index(name, p);
    let base = name.take(k);
    assert(base == base_name(name));
    if base.contains(':') {
        let j = base.index_of(':');
        assert(!p(name[j]));
    }
    if k < name.len() {
        assert(p(name[k]));
        assert(name =~= base + seq![':'] + name.skip(k + 1));
    } else {
        assert(name =~= base);
    }
}

pub proof fn lemma_same_model(a: Seq<char>, b: Seq<char>)
    ensures
        same_model(a, b) <==> base_name(a) == base_name(b),
{
    lemma_has_base(a);
    lemma_has_base(b);
    if same_model(a, b) {
        let base = choose|base: Seq<char>| has_base(a, base) && has_base(b, base);
        lemma_base(a, base);
        lemma_base(b, base);
    }
    if base_name(a) == base_name(b) {
        assert(has_base(a, base_name(a)) && has_base(b, base_name(a)));
    }
}

/// The base of a name is what stands before its first colon, or all of it.
pub proof fn law_base_of(name: &str, r: &str)
    requires
        call_ensures(base_of, (name,), r),
    ensures
        has_base(name@, r@),
{
    lemma_has_base(name@);
}

/// Whether some configured model of a backend differs from `model` at most in the tag.
pub open spec fn is_configured(b: BackendStatus, model: Seq<char>) -> bool {
    exists|i: int|
        0 <= i < b.configured_models@.len() && same_model(
            (#[trigger] b.configured_models@[i])@,
            model,
        )
}

pub proof fn lemma_covers(names: Seq<Seq<char>>, model: Seq<char>)
    ensures
        covers(names, model) <==> exists|i: int|
            0 <= i < names.len() && same_model(#[trigger] names[i], model),
{
    assert forall|i: int| 0 <= i < names.len() implies (base_name(#[trigger] names[i]) == base_name(
        model,
    ) <==> same_model(names[i], model)) by {
        lemma_same_model(names[i], model);
    }
    if covers(names, model) {
        let i = choose|i: int|
            0 <= i < names.len() && base_name(#[trigger] names[i]) == base_name(model);
        assert(same_model(names[i], model));
    }
}

pub proof fn lemma_is_configured(b: BackendStatus, model: Seq<char>)
    ensures
        covers(texts(b.configured_models@), model) <==> is_configured(b, model),
{
    let names = texts(b.configured_models@);
    lemma_covers(names, model);
    if is_configured(b, model) {
        let i = choose|i: int|
            0 <= i < b.configured_models@.len() && same_model(
                (#[trigger] b.configured_models@[i])@,
                model,
            );
        assert(same_model(names[i], model));
    }
    if exists|i: int| 0 <= i < names.len() && same_model(#[trigger] names[i], model) {
        let i = choose|i: int| 0 <= i < names.len() && same_model(#[trigger] names[i], model);
        assert(same_model(b.configured_models@[i]@, model));
    }
}

/// A backend that is not configured for a model, whatever the tag, cannot serve it. One that is can,
/// unless a status says no: that of the model itself, or without one that of the model under other
/// tags, as far as those agree.
pub proof fn law_can_serve_model(b: &BackendStatus, model: &str, r: bool)
    requires
        call_ensures(BackendStatus::can_serve_model, (b, model), r),
        b.model_status.wf(),
    ensures
        !is_configured(*b, model@) ==> !r,
        is_configured(*b, model@) && b.model_status@.dom().contains(model@) ==> r
            == b.model_status@[model@],
        is_configured(*b, model@) && !b.model_status@.dom().contains(model@) ==> {
            &&& (forall|k: Seq<char>| #[trigger]
                b.model_status@.dom().contains(k) && same_model(k, model@)
                    ==> b.model_status@[k]) ==> r
            &&& (exists|k: Seq<char>| #[trigger]
                b.model_status@.dom().contains(k) && same_model(k, model@)) && (forall|
                k: Seq<char>,
            | #[trigger]
                b.model_status@.dom().contains(k) && same_model(k, model@)
                    ==> !b.model_status@[k]) ==> !r
        },
{
    lemma_is_configured(*b, model@);
    b.model_status.lemma_keys();
    let keys = b.model_status.keys();
    let p = crate::backend::same_base(model@);
    lemma_first_index_props(keys, p);
    let i = first_index(keys, p);
    if i < keys.len() {
        assert(p(keys[i]));
        lemma_same_model(keys[i], model@);
        assert(b.model_status@.dom().contains(keys[i]));
    }
    assert forall|k: Seq<char>| #[trigger]
        b.model_status@.dom().contains(k) && same_model(k, model@) implies i < keys.len() by {
        lemma_same_model(k, model@);
        let j = keys.index_of(k);
        assert(p(keys[j]));
    }
}

pub proof fn lemma_alias_at(models: Seq<ParsedModel>, k: int, name: Seq<char>)
    requires
        0 <= k < models.len(),
    ensures
        lists_alias(models, k, name) <==> texts(models[k].aliases@).contains(name),
{
    let list = texts(models[k].aliases@);
    if list.contains(name) {
        let a = list.index_of(name);
        assert(models[k].aliases@[a]@ == name);
    }
    if lists_alias(models, k, name) {
        let a = choose|a: int|
            0 <= a < models[k].aliases@.len() && (#[trigger] models[k].aliases@[a])@ == name;
        assert(list[a] == name);
    }
}

/// Names resolve as they stand for models.
pub proof fn lemma_resolved(models: Seq<ParsedModel>, name: Seq<char>)
    ensures
        forall|real_name: Seq<char>| #[trigger]
            stands_for(models, name, real_name) <==> resolved(models, name) == Some(real_name),
        is_unknown(models, name) <==> resolved(models, name) is None,
{
    let pa = has_alias(name);
    let pn = has_name(name);
    lemma_first_index_props(models, pa);
    lemma_first_index_props(models, pn);
    let a = first_index(models, pa);
    let n = first_index(models, pn);
    assert forall|k: int| 0 <= k < models.len() implies (#[trigger] lists_alias(models, k, name)
        <==> pa(models[k])) by {
        lemma_alias_at(models, k, name);
    }
    assert forall|k: int| 0 <= k < models.len() implies (#[trigger] is_called(models, k, name)
        <==> pn(models[k])) by {}
    if a < models.len() {
        assert(pa(models[a]));
        assert(lists_alias(models, a, name));
    }
    if n < models.len() {
        assert(pn(models[n]));
        assert(is_called(models, n, name));
    }
    assert forall|j: int| #[trigger] lists_alias(models, j, name) implies a <= j by {
        assert(pa(models[j]));
    }
    assert forall|j: int| #[trigger] is_called(models, j, name) implies n <= j by {
        assert(pn(models[j]));
    }
    assert forall|real_name: Seq<char>| #[trigger]
        stands_for(models, name, real_name) <==> resolved(models, name) == Some(real_name) by {
        if stands_for(models, name, real_name) {
            if exists|k: int| #[trigger]
                lists_alias(models, k, name) && models[k].name@ == real_name && forall|j: int|
                    j < k ==> !#[trigger] lists_alias(models, j, name) {
                let k = choose|k: int| #[trigger]
                    lists_alias(models, k, name) && models[k].name@ == real_name && forall|j: int|
                        j < k ==> !#[trigger] lists_alias(models, j, name);
                assert(a == k);
            } else {
                assert(a == models.len());
                let k = choose|k: int| is_called(models, k, name);
                assert(n <= k);
            }
        }
        if resolved(models, name) == Some(real_name) {
            if a < models.len() {
                assert(lists_alias(models, a, name));
            }
        }
    }
    if is_unknown(models, name) {
        assert(!lists_alias(models, a, name));
        assert(!lists_alias(models, n, name));
    }
    if resolved(models, name) is None {
        assert forall|k: int| !#[trigger] lists_alias(models, k, name) && !is_called(models, k, name) by {
            if is_called(models, k, name) {
                assert(pn(models[k]));
            }
        }
    }
}

/// An alias resolves to the real name of the first model that lists it, a real name that is no alias
/// to itself, and nothing else resolves.
pub proof fn law_resolve_alias(config: &ModelConfig, name: &str, r: Option<String>)
    requires
        call_ensures(ModelConfig::resolve_alias, (config, name), r),
    ensures
        r is Some ==> stands_for(config.models@, name@, r->0@),
        r is None <==> is_unknown(config.models@, name@),
{
    lemma_resolved(config.models@, name@);
    if r is Some {
        assert(resolved(config.models@, name@) == Some(r->0@));
    }
}

/// A model is found by its name or an alias, the first one in the configuration.
pub proof fn law_get_model(config: &ModelConfig, name: &str, r: Option<&ParsedModel>)
    requires
        call_ensures(ModelConfig::get_model, (config, name), r),
    ensures
        r is None <==> is_unknown(config.models@, name@),
        r matches Some(m) ==> exists|k: int|
            0 <= k < config.models@.len() && *m == #[trigger] config.models@[k] && (lists_alias(
                config.models@,
                k,
                name@,
            ) || m.name@ == name@) && forall|j: int|
                j < k ==> !#[trigger] lists_alias(config.models@, j, name@) && !is_called(
                    config.models@,
                    j,
                    name@,
                ),
{
    let models = config.models@;
    let p = known_as(name@);
    lemma_first_index_props(models, p);
    let i = first_index(models, p);
    assert forall|k: int| 0 <= k < models.len() implies (p(#[trigger] models[k]) <==> lists_alias(
        models,
        k,
        name@,
    ) || is_called(models, k, name@)) by {
        lemma_alias_at(models, k, name@);
    }
    if i < models.len() {
        assert(p(models[i]));
        assert forall|j: int| j < i implies !#[trigger] lists_alias(models, j, name@) && !is_called(
            models,
            j,
            name@,
        ) by {
            if 0 <= j {
                assert(!p(models[j]));
            }
        }
        assert(lists_alias(models, i, name@) || is_called(models, i, name@));
    } else {
        assert forall|j: int| !#[trigger] lists_alias(models, j, name@) && !is_called(
            models,
            j,
            name@,
        ) by {
            if 0 <= j < models.len() {
                assert(!p(models[j]));
            }
        }
    }
}

/// A request is routed by the tagged real name of the model that its name stands for.
pub proof fn law_route(config: &ModelConfig, requested: &Option<String>, r: Option<String>)
    requires
        call_ensures(route, (config, requested), r),
    ensures
        requested is None ==> r is None,
        requested matches Some(name) ==> {
            &&& r is None <==> is_unknown(config.models@, name@)
            &&& forall|real_name: Seq<char>| #[trigger]
                stands_for(config.models@, name@, real_name) ==> r is Some && r->0@ == with_tag(
                    real_name,
                )
        },
{
    if let Some(name) = requested {
        lemma_resolved(config.models@, name@);
        assert forall|real_name: Seq<char>| #[trigger]
            stands_for(config.models@, name@, real_name) implies r is Some && r->0@ == with_tag(
            real_name,
        ) by {
            lemma_with_tag(real_name);
        }
    }
}

/// The backends are those that some model lists, each once, in increasing order.
pub proof fn law_get_all_backends(config: &ModelConfig, r: Vec<String>, url: Seq<char>)
    requires
        call_ensures(ModelConfig::get_all_backends, (config,), r),
    ensures
        (exists|i: int| 0 <= i < r@.len() && (#[trigger] r@[i])@ == url) <==> (exists|
            k: int,
            j: int,
        |
            0 <= k < config.models@.len() && 0 <= j < config.models@[k].backends@.len() && (
            #[trigger] config.models@[k].backends@[j])@ == url),
        forall|i: int, j: int|
            0 <= i < j < r@.len() ==> text_before((#[trigger] r@[i])@, (#[trigger] r@[j])@),
{
    let t = texts(r@);
    let set = crate::models::backend_urls(config.models@);
    if exists|i: int| 0 <= i < r@.len() && (#[trigger] r@[i])@ == url {
        let i = choose|i: int| 0 <= i < r@.len() && (#[trigger] r@[i])@ == url;
        assert(t[i] == url);
        assert(t.to_set().contains(url));
        let k = choose|k: int|
            0 <= k < config.models@.len() && texts(
                (#[trigger] config.models@[k]).backends@,
            ).contains(url);
        let j = texts(config.models@[k].backends@).index_of(url);
        assert(config.models@[k].backends@[j]@ == url);
    }
    if exists|k: int, j: int|
        0 <= k < config.models@.len() && 0 <= j < config.models@[k].backends@.len() && (
        #[trigger] config.models@[k].backends@[j])@ == url {
        let (k, j) = choose|k: int, j: int|
            0 <= k < config.models@.len() && 0 <= j < config.models@[k].backends@.len() && (
            #[trigger] config.models@[k].backends@[j])@ == url;
        assert(texts(config.models@[k].backends@)[j] == url);
        assert(texts(config.models@[k].backends@).contains(url));
        assert(set.contains(url));
        assert(t.to_set().contains(url));
        let i = t.index_of(url);
        assert(r@[i]@ == url);
    }
    assert forall|i: int, j: int| 0 <= i < j < r@.len() implies text_before(
        (#[trigger] r@[i])@,
        (#[trigger] r@[j])@,
    ) by {
        let before = crate::text::text_order();
        assert(before(t[i], t[j]));
    }
}

/// The real names, in order, of the models that list a backend.
pub open spec fn names_on(models: Seq<ParsedModel>, url: Seq<char>) -> Seq<Seq<char>>
    decreases models.len(),
{
    if models.len() == 0 {
        Seq::empty()
    } else {
        let before = names_on(models.drop_last(), url);
        if exists|j: int|
            0 <= j < models.last().backends@.len() && (#[trigger] models.last().backends@[j])@ == url {
            before.push(models.last().name@)
        } else {
            before
        }
    }
}

pub proof fn lemma_names_on(models: Seq<ParsedModel>, url: Seq<char>)
    ensures
        crate::models::models_on(models, url) == names_on(models, url),
    decreases models.len(),
{
    reveal(Seq::filter);
    if models.len() > 0 {
        lemma_names_on(models.drop_last(), url);
        let m = models.last();
        let list = texts(m.backends@);
        if list.contains(url) {
            assert(m.backends@[list.index_of(url)]@ == url);
        }
        if exists|j: int| 0 <= j < m.backends@.len() && (#[trigger] m.backends@[j])@ == url {
            let j = choose|j: int| 0 <= j < m.backends@.len() && (#[trigger] m.backends@[j])@ == url;
            assert(list[j] == url);
        }
        assert(served_by(url)(m) == list.contains(url));
    }
    assert(crate::models::models_on(models, url) =~= names_on(models, url));
}

/// A backend serves the models that list it, under their real names, in configuration order.
pub proof fn law_get_models_for_backend(config: &ModelConfig, url: &str, r: Vec<String>)
    requires
        call_ensures(ModelConfig::get_models_for_backend, (config, url), r),
    ensures
        texts(r@) == names_on(config.models@, url@),
{
    lemma_names_on(config.models@, url@);
}

/// A configuration is refused exactly when some model lists no backend, and the error names the
/// first such model.
pub proof fn law_model_config_load(parsed: ModelConfig, r: Result<ModelConfig, ConfigError>)
    requires
        call_ensures(ModelConfig::load, (parsed,), r),
    ensures
        r is Err <==> exists|k: int|
            0 <= k < parsed.models@.len() && (#[trigger] parsed.models@[k]).backends@.len() == 0,
        r matches Ok(config) ==> config == parsed,
        r matches Err(ConfigError::NoBackends(name)) ==> exists|k: int|
            0 <= k < parsed.models@.len() && (#[trigger] parsed.models@[k]).backends@.len() == 0
                && parsed.models@[k].name@ == name@ && forall|j: int|
                0 <= j < k ==> (#[trigger] parsed.models@[j]).backends@.len() > 0,
{
    let p = lacks_backends();
    lemma_first_index_props(parsed.models@, p);
    let i = first_index(parsed.models@, p);
    if i < parsed.models@.len() {
        assert(p(parsed.models@[i]));
        assert forall|j: int| 0 <= j < i implies (#[trigger] parsed.models@[j]).backends@.len() > 0 by {
            assert(!p(parsed.models@[j]));
        }
    } else {
        assert forall|j: int| 0 <= j < parsed.models@.len() implies (
        #[trigger] parsed.models@[j]).backends@.len() > 0 by {
            assert(!p(parsed.models@[j]));
        }
    }
}

/// What a model is given where the configuration says nothing.
pub proof fn law_defaults(keep_alive: bool, limit: usize)
    requires
        call_ensures(default_keep_alive, (), keep_alive),
        call_ensures(default_max_concurrent_requests, (), limit),
    ensures
        keep_alive,
        limit == 1,
{
}

/// The error names the model without backends.
pub proof fn law_config_error_message(e: &ConfigError, r: String)
    requires
        call_ensures(ConfigError::message, (e,), r),
    ensures
        e matches ConfigError::NoBackends(name) && r@ == "Model '"@ + name@
            + "' has no backends configured"@,
{
}

/// A character is found at its first place.
pub proof fn law_find_char(s: &str, c: char, k: usize, r: bool)
    requires
        call_ensures(find_char, (s, c), k),
        call_ensures(contains_char, (s, c), r),
    ensures
        k < s@.len() ==> s@[k as int] == c && r,
        k >= s@.len() ==> k == s@.len() && !r,
        forall|j: int| 0 <= j < k ==> #[trigger] s@[j] != c,
{
    let p = is_char(c);
    lemma_first_index_props(s@, p);
    if k < s@.len() {
        assert(p(s@[k as int]));
        assert(s@.contains(c));
    }
    assert forall|j: int| 0 <= j < k implies #[trigger] s@[j] != c by {
        assert(!p(s@[j]));
    }
}

/// A list contains the texts that are in it.
pub proof fn law_list_contains(list: &Vec<String>, s: &str, r: bool)
    requires
        call_ensures(list_contains, (list, s), r),
    ensures
        r <==> exists|i: int| 0 <= i < list@.len() && (#[trigger] list@[i])@ == s@,
{
    let t = texts(list@);
    if r {
        assert(list@[t.index_of(s@)]@ == s@);
    }
    if exists|i: int| 0 <= i < list@.len() && (#[trigger] list@[i])@ == s@ {
        let i = choose|i: int| 0 <= i < list@.len() && (#[trigger] list@[i])@ == s@;
        assert(t[i] == s@);
    }
}

/// A text is put into a list so that each text of the list comes before the next one, and none is
/// there twice.
pub proof fn law_insert_in_order(list: &mut Vec<String>, t: String, q: Seq<char>, i: int, j: int)
    requires
        call_ensures(insert_in_order, (list, t), ()),
    ensures
        (exists|k: int| 0 <= k < final(list)@.len() && (#[trigger] final(list)@[k])@ == q) <==> q
            == t@ || exists|k: int| 0 <= k < old(list)@.len() && (#[trigger] old(list)@[k])@ == q,
        0 <= i < j < final(list)@.len() ==> text_before(final(list)@[i]@, final(list)@[j]@),
{
    let before = texts(old(list)@);
    let after = texts(final(list)@);
    assert(after.to_set().contains(q) <==> before.to_set().contains(q) || q == t@);
    if exists|k: int| 0 <= k < final(list)@.len() && (#[trigger] final(list)@[k])@ == q {
        let k = choose|k: int| 0 <= k < final(list)@.len() && (#[trigger] final(list)@[k])@ == q;
        assert(after[k] == q);
        assert(after.to_set().contains(q));
        if q != t@ {
            assert(old(list)@[before.index_of(q)]@ == q);
        }
    }
    if q == t@ || exists|k: int| 0 <= k < old(list)@.len() && (#[trigger] old(list)@[k])@ == q {
        if q != t@ {
            let k = choose|k: int| 0 <= k < old(list)@.len() && (#[trigger] old(list)@[k])@ == q;
            assert(before[k] == q);
            assert(before.to_set().contains(q));
        }
        assert(final(list)@[after.index_of(q)]@ == q);
    }
    if 0 <= i < j < final(list)@.len() {
        let lt = crate::text::text_order();
        assert(lt(after[i], after[j]));
    }
}

} // verus!
