//! Users, admission, blocking and headers.

use crate::appstate::{
    answer_headers, authenticate_request, client_address_text, extract_client_ip, forward_headers,
    lemma_already_lower, normalize_path, Admission, AppState, IpAddr, IpSet,
};
use crate::auth::{
    is_vip, law_ambiguous_token_rejected, law_known_token_accepted, law_unknown_token_rejected,
    user_with_hash, vip_users, UserEntry, UserRegistry,
};
use crate::digest::{digest_of, hex, sha256, token_digest};
use crate::headers::{
    bearer_token, header_fields, header_text, is_visible, text_of_bytes, visible_text,
};
use crate::laws::basics::hex_value;
use crate::seqs::lemma_first_index;
use crate::text::{ascii_lowered, is_char, texts, trimmed, unicode_lowered};
use axum::http::{HeaderMap, HeaderValue, Method};
use vstd::prelude::*;
use vstd::string::*;
use vstd::utf8::*;

verus! {

/// Whether `text` is `bytes` in lower-case hexadecimal, two digits for each, the high one first.
pub open spec fn is_hex(text: Seq<char>, bytes: Seq<u8>) -> bool {
    &&& text.len() == 2 * bytes.len()
    &&& forall|i: int|
        0 <= i < bytes.len() ==> {
            &&& 0 <= hex_value(text[2 * i]) < 16
            &&& 0 <= hex_value(text[2 * i + 1]) < 16
            &&& 16 * hex_value(text[2 * i]) + hex_value(text[2 * i + 1]) == #[trigger] bytes[i]
        }
}

proof fn lemma_hex_digit(c: char, d: char)
    requires
        0 <= hex_value(c) < 16,
        hex_value(c) == hex_value(d),
    ensures
        c == d,
{
}

proof fn lemma_hex_at(bytes: Seq<u8>, i: int)
    requires
        0 <= i < bytes.len(),
    ensures
        hex_value(hex(bytes)[2 * i]) == bytes[i] as int / 16,
        hex_value(hex(bytes)[2 * i + 1]) == bytes[i] as int % 16,
{
    reveal_strlit("0123456789abcdef");
    let h = hex(bytes);
    assert((2 * i) / 2 == i && (2 * i + 1) / 2 == i);
    let b = bytes[i] as int;
    assert(h[2 * i] == "0123456789abcdef"@[b / 16]);
    assert(h[2 * i + 1] == "0123456789abcdef"@[b % 16]);
}

proof fn lemma_hex_same(text: Seq<char>, bytes: Seq<u8>, i: int)
    requires
        is_hex(text, bytes),
        0 <= i < bytes.len(),
    ensures
        text[2 * i] == hex(bytes)[2 * i],
        text[2 * i + 1] == hex(bytes)[2 * i + 1],
{
    lemma_hex_at(bytes, i);
    let b = bytes[i] as int;
    let x = hex_value(text[2 * i]);
    let y = hex_value(text[2 * i + 1]);
    assert(16 * x + y == b);
    assert(x == b / 16 && y == b % 16) by (nonlinear_arith)
        requires
            16 * x + y == b,
            0 <= y < 16,
    ;
    lemma_hex_digit(text[2 * i], hex(bytes)[2 * i]);
    lemma_hex_digit(text[2 * i + 1], hex(bytes)[2 * i + 1]);
}

proof fn lemma_is_hex(text: Seq<char>, bytes: Seq<u8>)
    ensures
        is_hex(text, bytes) <==> text == hex(bytes),
{
    let h = hex(bytes);
    if is_hex(text, bytes) {
        assert forall|j: int| 0 <= j < text.len() implies text[j] == h[j] by {
            lemma_hex_same(text, bytes, j / 2);
            assert(j == 2 * (j / 2) || j == 2 * (j / 2) + 1);
        }
        assert(text =~= h);
    }
    if text == h {
        assert forall|i: int| 0 <= i < bytes.len() implies {
            &&& 0 <= hex_value(text[2 * i]) < 16
            &&& 0 <= hex_value(text[2 * i + 1]) < 16
            &&& 16 * hex_value(text[2 * i]) + hex_value(text[2 * i + 1]) == #[trigger] bytes[i]
        } by {
            lemma_hex_at(bytes, i);
        }
    }
}

/// The hash of a token is the SHA-256 digest of its UTF-8 bytes, in hexadecimal.
pub proof fn law_digest_of(token: &str, r: String)
    requires
        call_ensures(digest_of, (token,), r),
    ensures
        is_hex(r@, sha256(encode_utf8(token@))),
{
    lemma_is_hex(r@, sha256(encode_utf8(token@)));
}

/// Whether entry `i` of a registry is the only one with the hash of `token`.
pub open spec fn is_holder(registry: UserRegistry, token: Seq<char>, i: int) -> bool {
    &&& 0 <= i < registry@.len()
    &&& is_hex(registry@[i].hash, sha256(encode_utf8(token)))
    &&& forall|j: int|
        0 <= j < registry@.len() && j != i ==> !is_hex(
            (#[trigger] registry@[j]).hash,
            sha256(encode_utf8(token)),
        )
}

proof fn lemma_holder(registry: UserRegistry, token: Seq<char>)
    ensures
        forall|i: int| #[trigger]
            is_holder(registry, token, i) ==> user_with_hash(registry@, token_digest(token))
                == Some(registry@[i].user),
        user_with_hash(registry@, token_digest(token)) is Some ==> exists|i: int|
            is_holder(registry, token, i),
{
    let users = registry@;
    let bytes = sha256(encode_utf8(token));
    let h = token_digest(token);
    assert forall|j: int| 0 <= j < users.len() implies (is_hex((#[trigger] users[j]).hash, bytes)
        <==> users[j].hash == h) by {
        lemma_is_hex(users[j].hash, bytes);
    }
    assert forall|i: int| #[trigger] is_holder(registry, token, i) implies user_with_hash(
        users,
        h,
    ) == Some(users[i].user) by {
        law_known_token_accepted(users, i);
    }
    if user_with_hash(users, h) is Some {
        if forall|j: int| 0 <= j < users.len() ==> (#[trigger] users[j]).hash != h {
            law_unknown_token_rejected(users, h);
        } else {
            let i = choose|i: int| 0 <= i < users.len() && (#[trigger] users[i]).hash == h;
            if exists|j: int| 0 <= j < users.len() && j != i && (#[trigger] users[j]).hash == h {
                let j = choose|j: int|
                    0 <= j < users.len() && j != i && (#[trigger] users[j]).hash == h;
                if i < j {
                    law_ambiguous_token_rejected(users, i, j);
                } else {
                    law_ambiguous_token_rejected(users, j, i);
                }
            }
            assert(is_holder(registry, token, i));
        }
    }
}

/// A token stands for the user of the one entry that has its hash; without such an entry, or with
/// several, it stands for nobody.
pub proof fn law_authenticate(registry: &UserRegistry, token: &str, r: Option<&str>)
    requires
        call_ensures(UserRegistry::authenticate, (registry, token), r),
    ensures
        forall|i: int| #[trigger]
            is_holder(*registry, token@, i) ==> r is Some && r->0@ == registry@[i].user,
        r is Some ==> exists|i: int| is_holder(*registry, token@, i),
{
    lemma_holder(*registry, token@);
}

/// The registry holds what the users file lists, in its order, with each hash in lower case.
pub proof fn law_registry_load(file: Option<Vec<UserEntry>>, r: UserRegistry)
    requires
        call_ensures(UserRegistry::load, (file,), r),
    ensures
        file is None ==> r@.len() == 0,
        file matches Some(users) ==> {
            &&& r@.len() == users@.len()
            &&& forall|i: int|
                0 <= i < users@.len() ==> {
                    &&& (#[trigger] r@[i]).user == users@[i].user_id@
                    &&& r@[i].vip == users@[i].vip
                    &&& r@[i].hash == unicode_lowered(users@[i].token_hash@)
                }
        },
{
}

/// A token is accepted for the user whose listed hash, in lower case, is that of the token and nobody
/// else's.
pub proof fn law_load_then_authenticate(
    users: Vec<UserEntry>,
    registry: UserRegistry,
    token: &str,
    r: Option<&str>,
    i: int,
)
    requires
        call_ensures(UserRegistry::load, (Some(users),), registry),
        call_ensures(UserRegistry::authenticate, (&registry, token), r),
        0 <= i < users@.len(),
        is_hex(unicode_lowered(users@[i].token_hash@), sha256(encode_utf8(token@))),
    ensures
        (forall|j: int|
            0 <= j < users@.len() && j != i ==> !is_hex(
                unicode_lowered((#[trigger] users@[j]).token_hash@),
                sha256(encode_utf8(token@)),
            )) ==> r is Some && r->0@ == users@[i].user_id@,
        forall|j: int|
            0 <= j < users@.len() && j != i && is_hex(
                unicode_lowered((#[trigger] users@[j]).token_hash@),
                sha256(encode_utf8(token@)),
            ) ==> r is None,
{
    law_registry_load(Some(users), registry);
    law_authenticate(&registry, token, r);
    if forall|j: int|
        0 <= j < users@.len() && j != i ==> !is_hex(
            unicode_lowered((#[trigger] users@[j]).token_hash@),
            sha256(encode_utf8(token@)),
        ) {
        assert forall|j: int| 0 <= j < registry@.len() && j != i implies !is_hex(
            (#[trigger] registry@[j]).hash,
            sha256(encode_utf8(token@)),
        ) by {
            assert(registry@[j].hash == unicode_lowered(users@[j].token_hash@));
        }
        assert(registry@[i].hash == unicode_lowered(users@[i].token_hash@));
        assert(is_holder(registry, token@, i));
    }
    assert forall|j: int|
        0 <= j < users@.len() && j != i && is_hex(
            unicode_lowered((#[trigger] users@[j]).token_hash@),
            sha256(encode_utf8(token@)),
        ) implies r is None by {
        if r is Some {
            let k = choose|k: int| is_holder(registry, token@, k);
            assert(registry@[i].hash == unicode_lowered(users@[i].token_hash@));
            assert(registry@[j].hash == unicode_lowered(users@[j].token_hash@));
        }
    }
}

/// An empty registry accepts no token.
pub proof fn law_empty_registry(registry: UserRegistry, token: &str, r: Option<&str>)
    requires
        call_ensures(UserRegistry::empty, (), registry),
        call_ensures(UserRegistry::authenticate, (&registry, token), r),
    ensures
        r is None,
{
    lemma_holder(registry, token@);
}

/// A hash stands for the user of the one entry that has it.
pub proof fn law_user_of_hash(registry: &UserRegistry, hash: &str, r: Option<&str>, i: int)
    requires
        call_ensures(UserRegistry::user_of_hash, (registry, hash), r),
        0 <= i < registry@.len(),
        registry@[i].hash == hash@,
    ensures
        r is Some <==> forall|j: int|
            0 <= j < registry@.len() && j != i ==> (#[trigger] registry@[j]).hash != hash@,
        r is Some ==> r->0@ == registry@[i].user,
{
    let users = registry@;
    if forall|j: int| 0 <= j < users.len() && j != i ==> (#[trigger] users[j]).hash != hash@ {
        law_known_token_accepted(users, i);
    } else {
        let j = choose|j: int| 0 <= j < users.len() && j != i && (#[trigger] users[j]).hash == hash@;
        if i < j {
            law_ambiguous_token_rejected(users, i, j);
        } else {
            law_ambiguous_token_rejected(users, j, i);
        }
    }
}

/// The VIP list is made of the VIP entries in registry order.
pub open spec fn vips_of(registry: UserRegistry, n: int) -> Seq<Seq<char>>
    decreases n,
{
    if n <= 0 {
        Seq::empty()
    } else if registry@[n - 1].vip {
        vips_of(registry, n - 1).push(registry@[n - 1].user)
    } else {
        vips_of(registry, n - 1)
    }
}

proof fn lemma_vips_of(registry: UserRegistry, n: int)
    requires
        0 <= n <= registry@.len(),
    ensures
        vip_users(registry@.take(n)) == vips_of(registry, n),
    decreases n,
{
    reveal(Seq::filter);
    if n > 0 {
        lemma_vips_of(registry, n - 1);
        let t = registry@.take(n);
        assert(t.drop_last() =~= registry@.take(n - 1));
        assert(t.last() == registry@[n - 1]);
        assert(is_vip()(t.last()) == registry@[n - 1].vip);
    }
    assert(vip_users(registry@.take(n)) =~= vips_of(registry, n));
}

pub proof fn lemma_vips(registry: UserRegistry)
    ensures
        vip_users(registry@) == vips_of(registry, registry@.len() as int),
{
    lemma_vips_of(registry, registry@.len() as int);
    assert(registry@.take(registry@.len() as int) =~= registry@);
}

/// The VIP users are returned in registry order.
pub proof fn law_get_vip_users(registry: &UserRegistry, r: Vec<String>)
    requires
        call_ensures(UserRegistry::get_vip_users, (registry,), r),
    ensures
        texts(r@) == vips_of(*registry, registry@.len() as int),
{
    lemma_vips(*registry);
}

/// Whether `bytes` are `text` in visible ASCII.
pub open spec fn spells(bytes: Seq<u8>, text: Seq<char>) -> bool {
    &&& bytes.len() == text.len()
    &&& forall|i: int|
        0 <= i < bytes.len() ==> {
            &&& (32 <= bytes[i] && bytes[i] < 127) || bytes[i] == 9
            &&& #[trigger] text[i] == bytes[i] as char
        }
}

proof fn lemma_spells(bytes: Seq<u8>, text: Seq<char>)
    ensures
        spells(bytes, text) <==> visible_text(bytes) == Some(text),
{
    if spells(bytes, text) {
        assert forall|i: int| 0 <= i < bytes.len() implies is_visible(#[trigger] bytes[i]) by {
            assert(text[i] == bytes[i] as char);
        }
        assert(text =~= Seq::new(bytes.len(), |i: int| bytes[i] as char));
    }
    if visible_text(bytes) == Some(text) {
        assert forall|i: int| 0 <= i < bytes.len() implies {
            &&& (32 <= bytes[i] && bytes[i] < 127) || bytes[i] == 9
            &&& #[trigger] text[i] == bytes[i] as char
        } by {
            assert(is_visible(bytes[i]));
        }
    }
}

/// Whether a request carries the bearer token `token`: its first `Authorization` value is `Bearer `
/// and the token.
pub open spec fn carries_token(headers: HeaderMap<HeaderValue>, token: Seq<char>) -> bool {
    let fields = header_fields(headers);
    &&& fields.dom().contains("authorization"@)
    &&& spells(fields["authorization"@][0], "Bearer "@ + token)
}

proof fn lemma_token(headers: HeaderMap<HeaderValue>)
    ensures
        ({
            let value = crate::headers::field_text(header_fields(headers), "authorization"@);
            &&& forall|token: Seq<char>| #[trigger]
                carries_token(headers, token) ==> crate::headers::bearer(value) == Some(token)
            &&& crate::headers::bearer(value) matches Some(token) ==> carries_token(headers, token)
        }),
{
    reveal_strlit("authorization");
    lemma_already_lower("authorization"@);
    let fields = header_fields(headers);
    let value = crate::headers::field_text(fields, "authorization"@);
    let bytes = fields["authorization"@][0];
    assert forall|token: Seq<char>| #[trigger]
        carries_token(headers, token) implies crate::headers::bearer(value) == Some(token) by {
        let v = "Bearer "@ + token;
        lemma_spells(bytes, v);
        assert(v.take("Bearer "@.len() as int) =~= "Bearer "@);
        assert(v.skip("Bearer "@.len() as int) =~= token);
    }
    if let Some(token) = crate::headers::bearer(value) {
        let v = value->0;
        lemma_spells(bytes, v);
        assert(v =~= "Bearer "@ + token);
    }
}

/// The token is all that follows `Bearer ` and its one space.
pub proof fn law_bearer_token(value: Option<&str>, r: Option<&str>, token: Seq<char>)
    requires
        call_ensures(bearer_token, (value,), r),
    ensures
        value matches Some(v) && v@ == "Bearer "@ + token ==> r is Some && r->0@ == token,
        r is Some ==> value is Some && value->0@ == "Bearer "@ + r->0@,
{
    if let Some(v) = value {
        let n = "Bearer "@.len() as int;
        if v@ == "Bearer "@ + token {
            assert(v@.take(n) =~= "Bearer "@);
            assert(v@.skip(n) =~= token);
        }
        if let Some(t) = r {
            assert(v@ =~= "Bearer "@ + t@);
        }
    }
}

/// Bytes are text exactly when they spell it in visible ASCII.
pub proof fn law_text_of_bytes(bytes: &[u8], r: Option<&str>, text: Seq<char>)
    requires
        call_ensures(text_of_bytes, (bytes,), r),
    ensures
        spells(bytes@, text) ==> r is Some && r->0@ == text,
        r is Some ==> spells(bytes@, r->0@),
{
    lemma_spells(bytes@, text);
    if let Some(t) = r {
        lemma_spells(bytes@, t@);
    }
}

/// The text of a header is that of its first value, whatever the case of the name.
pub proof fn law_header_text(
    headers: &HeaderMap<HeaderValue>,
    name: &str,
    r: Option<&str>,
    text: Seq<char>,
)
    requires
        call_ensures(header_text, (headers, name), r),
    ensures
        ({
            let fields = header_fields(*headers);
            let key = ascii_lowered(name@);
            &&& fields.dom().contains(key) && spells(fields[key][0], text) ==> r is Some && r->0@
                == text
            &&& r is Some ==> fields.dom().contains(key) && spells(fields[key][0], r->0@)
        }),
{
    let bytes = header_fields(*headers)[ascii_lowered(name@)][0];
    lemma_spells(bytes, text);
    if let Some(t) = r {
        lemma_spells(bytes, t@);
    }
}

/// An address is blocked once it is in the set, and stays so.
pub proof fn law_blocked_addresses<R>(
    state: &mut AppState<R>,
    ip: IpAddr,
    other: IpAddr,
    before: bool,
    after: bool,
)
    requires
        call_ensures(AppState::<R>::block_ip, (state, ip), ()),
        call_ensures(AppState::<R>::is_ip_blocked, (&*old(state), &other), before),
        call_ensures(AppState::<R>::is_ip_blocked, (&*final(state), &other), after),
    ensures
        before <==> old(state).blocked_ips@.contains(other),
        after <==> before || other == ip,
        *final(state) == (AppState { blocked_ips: final(state).blocked_ips, ..*old(state) }),
{
}

/// A set of addresses holds what was added.
pub proof fn law_address_set(
    s: &mut IpSet,
    fresh: IpSet,
    ip: IpAddr,
    other: IpAddr,
    none: bool,
    before: bool,
    after: bool,
)
    requires
        call_ensures(IpSet::new, (), fresh),
        call_ensures(IpSet::contains, (&fresh, &other), none),
        call_ensures(IpSet::insert, (s, ip), ()),
        call_ensures(IpSet::contains, (&*old(s), &other), before),
        call_ensures(IpSet::contains, (&*final(s), &other), after),
    ensures
        !none,
        after <==> before || other == ip,
{
}

/// A request is authenticated exactly by a bearer token that stands for a user.
pub proof fn law_authenticate_request(
    headers: &HeaderMap<HeaderValue>,
    registry: &UserRegistry,
    r: Option<String>,
)
    requires
        call_ensures(authenticate_request, (headers, registry), r),
    ensures
        forall|token: Seq<char>, i: int|
            #![trigger carries_token(*headers, token), is_holder(*registry, token, i)]
            carries_token(*headers, token) && is_holder(*registry, token, i) ==> r is Some && r->0@
                == registry@[i].user,
        r is Some ==> exists|token: Seq<char>, i: int|
            carries_token(*headers, token) && is_holder(*registry, token, i),
{
    lemma_token(*headers);
    assert forall|token: Seq<char>, i: int|
        #![trigger carries_token(*headers, token), is_holder(*registry, token, i)]
        carries_token(*headers, token) && is_holder(*registry, token, i) implies r is Some && r->0@
        == registry@[i].user by {
        lemma_holder(*registry, token);
    }
    if r is Some {
        let value = crate::headers::field_text(header_fields(*headers), "authorization"@);
        let token = crate::headers::bearer(value)->0;
        lemma_holder(*registry, token);
        let i = choose|i: int| is_holder(*registry, token, i);
        assert(carries_token(*headers, token) && is_holder(*registry, token, i));
    }
}

/// A request with a valid token is admitted unless its address is blocked or, after that, its user;
/// one without is unauthorized.
pub proof fn law_admission<R>(
    state: &AppState<R>,
    headers: &HeaderMap<HeaderValue>,
    ip: IpAddr,
    r: Admission,
)
    requires
        call_ensures(AppState::<R>::admission, (state, headers, ip), r),
    ensures
        forall|token: Seq<char>, i: int|
            #![trigger carries_token(*headers, token), is_holder(state.user_registry, token, i)]
            carries_token(*headers, token) && is_holder(state.user_registry, token, i) ==> {
                let user = state.user_registry@[i].user;
                if state.blocked_ips@.contains(ip) {
                    r is IpBlocked
                } else if state.blocked_users@.contains(user) {
                    r is UserBlocked
                } else {
                    r is Admitted && r->Admitted_0@ == user
                }
            },
        r is Unauthorized <==> !exists|token: Seq<char>, i: int|
            carries_token(*headers, token) && is_holder(state.user_registry, token, i),
{
    lemma_token(*headers);
    assert forall|token: Seq<char>, i: int|
        #![trigger carries_token(*headers, token), is_holder(state.user_registry, token, i)]
        carries_token(*headers, token) && is_holder(state.user_registry, token, i) implies {
        let user = state.user_registry@[i].user;
        if state.blocked_ips@.contains(ip) {
            r is IpBlocked
        } else if state.blocked_users@.contains(user) {
            r is UserBlocked
        } else {
            r is Admitted && r->Admitted_0@ == user
        }
    } by {
        lemma_holder(state.user_registry, token);
    }
    if !(r is Unauthorized) {
        let value = crate::headers::field_text(header_fields(*headers), "authorization"@);
        let token = crate::headers::bearer(value)->0;
        lemma_holder(state.user_registry, token);
        let i = choose|i: int| is_holder(state.user_registry, token, i);
        assert(carries_token(*headers, token) && is_holder(state.user_registry, token, i));
    }
}

/// What a refused request is answered.
pub proof fn law_refusal(admission: &Admission, r: Option<(u16, &'static str)>)
    requires
        call_ensures(Admission::refusal, (admission,), r),
    ensures
        admission is Unauthorized ==> (r matches Some((code, text)) && code == 401 && text@
            == "Unauthorized"@),
        admission is IpBlocked ==> (r matches Some((code, text)) && code == 403 && text@
            == "IP blocked"@),
        admission is UserBlocked ==> (r matches Some((code, text)) && code == 403 && text@
            == "User blocked"@),
        admission is Admitted ==> r is None,
{
}

/// After a user has been blocked no request of that user is admitted, and nobody else is affected.
pub proof fn law_block_user_then_admission<R>(
    state: &mut AppState<R>,
    user: String,
    headers: &HeaderMap<HeaderValue>,
    ip: IpAddr,
    before: Admission,
    after: Admission,
)
    requires
        call_ensures(AppState::<R>::block_user, (state, user), ()),
        call_ensures(AppState::<R>::admission, (&*old(state), headers, ip), before),
        call_ensures(AppState::<R>::admission, (&*final(state), headers, ip), after),
    ensures
        !(after is Admitted && after->Admitted_0@ == user@),
        before is Admitted && before->Admitted_0@ != user@ ==> after is Admitted
            && after->Admitted_0@ == before->Admitted_0@,
{
}

/// After an address has been blocked no request from it is admitted, and no other address is
/// affected.
pub proof fn law_block_ip_then_admission<R>(
    state: &mut AppState<R>,
    blocked: IpAddr,
    headers: &HeaderMap<HeaderValue>,
    ip: IpAddr,
    before: Admission,
    after: Admission,
)
    requires
        call_ensures(AppState::<R>::block_ip, (state, blocked), ()),
        call_ensures(AppState::<R>::admission, (&*old(state), headers, ip), before),
        call_ensures(AppState::<R>::admission, (&*final(state), headers, ip), after),
    ensures
        ip == blocked ==> !(after is Admitted),
        ip != blocked ==> after@ == before@,
{
}

/// What is blocked is reported as blocked, and nothing else.
pub proof fn law_blocked_is_reported<R>(
    state: &mut AppState<R>,
    user: String,
    other: &str,
    was: bool,
    is: bool,
)
    requires
        call_ensures(AppState::<R>::block_user, (state, user), ()),
        call_ensures(AppState::<R>::is_user_blocked, (&*old(state), other), was),
        call_ensures(AppState::<R>::is_user_blocked, (&*final(state), other), is),
    ensures
        was <==> old(state).blocked_users@.contains(other@),
        is <==> was || other@ == user@,
        *final(state) == (AppState { blocked_users: final(state).blocked_users, ..*old(state) }),
{
}

/// The users of a reload are those that count from then on, and its VIP entries make the VIP list.
pub proof fn law_reload_users<R>(state: &mut AppState<R>, registry: UserRegistry)
    requires
        call_ensures(AppState::<R>::reload_users, (state, registry), ()),
    ensures
        final(state).user_registry == registry,
        texts(final(state).vip_user@) == vips_of(registry, registry@.len() as int),
        *final(state) == (AppState {
            user_registry: final(state).user_registry,
            vip_user: final(state).vip_user,
            ..*old(state)
        }),
{
    lemma_vips(registry);
}

/// A header named `name` in any case holds the same in both maps.
pub open spec fn same_header(
    a: HeaderMap<HeaderValue>,
    b: HeaderMap<HeaderValue>,
    name: Seq<char>,
) -> bool {
    &&& header_fields(a).dom().contains(name) <==> header_fields(b).dom().contains(name)
    &&& header_fields(a).dom().contains(name) ==> header_fields(a)[name] == header_fields(b)[name]
}

/// The backend gets all headers of the client but three.
pub proof fn law_forward_headers(
    headers: HeaderMap<HeaderValue>,
    r: HeaderMap<HeaderValue>,
    name: Seq<char>,
)
    requires
        call_ensures(forward_headers, (headers,), r),
    ensures
        name == "host"@ || name == "authorization"@ || name == "content-length"@
            ==> !header_fields(r).dom().contains(name),
        name != "host"@ && name != "authorization"@ && name != "content-length"@ ==> same_header(
            r,
            headers,
            name,
        ),
{
}

/// The client gets all headers of the backend but two.
pub proof fn law_answer_headers(
    headers: HeaderMap<HeaderValue>,
    r: HeaderMap<HeaderValue>,
    name: Seq<char>,
)
    requires
        call_ensures(answer_headers, (headers,), r),
    ensures
        name == "transfer-encoding"@ || name == "content-length"@ ==> !header_fields(
            r,
        ).dom().contains(name),
        name != "transfer-encoding"@ && name != "content-length"@ ==> same_header(r, headers, name),
{
}

/// Only `/chat/completions` has another path at the backends.
pub proof fn law_normalize_path(path: &str, r: &str)
    requires
        call_ensures(normalize_path, (path,), r),
    ensures
        path@ == "/chat/completions"@ ==> r@ == "/v1/chat/completions"@,
        path@ != "/chat/completions"@ ==> r@ == path@,
{
}

/// A queued request stands at the end of its user's queue, ready for a backend; the queues of all
/// others are as before, and the user's address is noted.
pub proof fn law_enqueue<R>(
    state: &mut AppState<R>,
    user: &str,
    ip: IpAddr,
    method: Method,
    path: &str,
    headers: HeaderMap<HeaderValue>,
    body: Vec<u8>,
    responder: R,
    other: Seq<char>,
    name: Seq<char>,
)
    requires
        call_ensures(
            AppState::<R>::enqueue,
            (state, user, ip, method, path, headers, body, responder),
            (),
        ),
    ensures
        final(state).queues@.dom().contains(user@),
        ({
            let after = final(state).queues@[user@]@;
            let n = after.len() - 1;
            &&& n == if old(state).queues@.dom().contains(user@) {
                old(state).queues@[user@]@.len() as int
            } else {
                0
            }
            &&& forall|i: int|
                0 <= i < n ==> #[trigger] after[i] == old(state).queues@[user@]@[i]
            &&& after[n].method == method
            &&& after[n].body == body
            &&& after[n].responder == responder
            &&& after[n].resolved_model is None
            &&& after[n].path@ == if path@ == "/chat/completions"@ {
                "/v1/chat/completions"@
            } else {
                path@
            }
            &&& name == "host"@ || name == "authorization"@ || name == "content-length"@
                ==> !header_fields(after[n].headers).dom().contains(name)
            &&& name != "host"@ && name != "authorization"@ && name != "content-length"@
                ==> same_header(after[n].headers, headers, name)
        }),
        other != user@ ==> {
            &&& final(state).queues@.dom().contains(other) <==> old(state).queues@.dom().contains(
                other,
            )
            &&& old(state).queues@.dom().contains(other) ==> final(state).queues@[other]
                == old(state).queues@[other]
        },
        final(state).user_ips@.dom().contains(user@),
        final(state).user_ips@[user@] == ip,
        other != user@ ==> (final(state).user_ips@.dom().contains(other) <==> old(
            state,
        ).user_ips@.dom().contains(other)),
        other != user@ && old(state).user_ips@.dom().contains(other)
            ==> final(state).user_ips@[other] == old(state).user_ips@[other],
        *final(state) == (AppState {
            user_ips: final(state).user_ips,
            queues: final(state).queues,
            ..*old(state)
        }),
{
    let before = crate::appstate::queue_of(old(state).queues@, user@);
    let after = crate::appstate::queue_of(final(state).queues@, user@);
    assert(after =~= after.drop_last().push(after.last()));
    assert forall|i: int| 0 <= i < after.len() - 1 implies #[trigger] after[i] == before[i] by {
        assert(after.drop_last()[i] == after[i]);
    }
    if other != user@ {
        let a = final(state).queues@;
        let b = old(state).queues@;
        assert(a.remove(user@).dom().contains(other) == a.dom().contains(other));
        assert(b.remove(user@).dom().contains(other) == b.dom().contains(other));
        if b.dom().contains(other) {
            assert(a.remove(user@)[other] == a[other]);
            assert(b.remove(user@)[other] == b[other]);
        }
    }
}

/// The client's address stands in the named header before the first comma, without white space
/// around it; without such a header, or one that can be read, there is none.
pub proof fn law_client_address_text(
    headers: &HeaderMap<HeaderValue>,
    ip_header: &Option<String>,
    r: Option<&str>,
    a: Seq<char>,
    b: Seq<char>,
)
    requires
        call_ensures(client_address_text, (headers, ip_header), r),
    ensures
        ip_header is None ==> r is None,
        ip_header matches Some(name) ==> {
            let fields = header_fields(*headers);
            let key = ascii_lowered(name@);
            &&& !fields.dom().contains(key) ==> r is None
            &&& (forall|t: Seq<char>| !#[trigger] spells(fields[key][0], t)) ==> r is None
            &&& fields.dom().contains(key) && !a.contains(',') && (spells(fields[key][0], a)
                || spells(fields[key][0], a + seq![','] + b)) ==> r is Some && r->0@ == trimmed(a)
        },
{
    if let Some(name) = ip_header {
        let fields = header_fields(*headers);
        let key = ascii_lowered(name@);
        if let Some(value) = visible_text(fields[key][0]) {
            lemma_spells(fields[key][0], value);
        }
        if fields.dom().contains(key) && !a.contains(',') {
            let bytes = fields[key][0];
            lemma_spells(bytes, a);
            lemma_spells(bytes, a + seq![','] + b);
            let v = if spells(bytes, a) {
                a
            } else {
                a + seq![','] + b
            };
            let c = ',';
            let n = a.len() as int;
            assert forall|j: int| 0 <= j < n implies !is_char(c)(#[trigger] v[j]) by {
                assert(v[j] == a[j]);
            }
            lemma_first_index(v, is_char(c), n);
            assert(v.take(n) =~= a);
        }
    }
}

/// An address that the header gave goes before that of the connection.
pub proof fn law_extract_client_ip(forwarded: Option<IpAddr>, connection: IpAddr, r: IpAddr)
    requires
        call_ensures(extract_client_ip, (forwarded, connection), r),
    ensures
        forwarded matches Some(ip) ==> r == ip,
        forwarded is None ==> r == connection,
{
}

} // verus!
