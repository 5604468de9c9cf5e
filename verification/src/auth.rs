//! The registry of users and their tokens.

use crate::digest::{constant_time_eq, digest_of, token_digest};
use crate::seqs::lemma_filter_push;
use crate::text::{ascii_lowered, lemma_utf8_injective, lowercase, opt_str, texts, unicode_lowered};
use vstd::prelude::*;
use vstd::utf8::{encode_utf8, is_ascii_chars};

verus! {

/// One user as listed in the users file.
pub struct UserEntry {
    pub token_hash: String,
    pub user_id: String,
    pub vip: bool,
}

/// A registered user: the hash of the token, the user ID, and whether the user is a VIP.
pub struct Credential {
    pub hash: Seq<char>,
    pub user: Seq<char>,
    pub vip: bool,
}

/// Registry of authenticated users.
///
/// Tokens are stored as their SHA-256 hex digest — plaintext tokens are never kept.
pub struct UserRegistry {
    map: Vec<(String, String, bool)>,
}

/// Being registered under the token hash `hash`.
pub open spec fn has_hash(hash: Seq<char>) -> spec_fn(Credential) -> bool {
    |c: Credential| c.hash == hash
}

/// Being a VIP.
pub open spec fn is_vip() -> spec_fn(Credential) -> bool {
    |c: Credential| c.vip
}

/// The user whose token hash is `hash`, when exactly one entry has it.
pub open spec fn user_with_hash(users: Seq<Credential>, hash: Seq<char>) -> Option<Seq<char>> {
    let found = users.filter(has_hash(hash));
    if found.len() == 1 {
        Some(found[0].user)
    } else {
        None
    }
}

/// The IDs of the VIP users, in registry order.
pub open spec fn vip_users(users: Seq<Credential>) -> Seq<Seq<char>> {
    users.filter(is_vip()).map_values(|c: Credential| c.user)
}

/// Whether `users` are registered as `entries` list them, with each hash in lower case.
pub open spec fn registered(users: Seq<Credential>, entries: Seq<UserEntry>) -> bool {
    &&& users.len() == entries.len()
    &&& forall|i: int|
        #![trigger users[i]]
        0 <= i < entries.len() ==> {
            &&& users[i].hash == unicode_lowered(entries[i].token_hash@)
            &&& is_ascii_chars(entries[i].token_hash@) ==> users[i].hash == ascii_lowered(
                entries[i].token_hash@,
            )
            &&& users[i].user == entries[i].user_id@
            &&& users[i].vip == entries[i].vip
        }
}

impl View for UserRegistry {
    type V = Seq<Credential>;

    closed spec fn view(&self) -> Seq<Credential> {
        Seq::new(
            self.map@.len(),
            |i: int|
                Credential { hash: self.map@[i].0@, user: self.map@[i].1@, vip: self.map@[i].2 },
        )
    }
}

impl UserRegistry {
    /// Builds the registry from the users file, with each hash in lower case. Without a file the
    /// registry is empty, which causes every request to be rejected.
    pub fn load(file: Option<Vec<UserEntry>>) -> (r: Self)
        ensures
            file is None ==> r@ == Seq::<Credential>::empty(),
            file matches Some(users) ==> registered(r@, users@),
    {
        match file {
            Some(users) => Self::from_entries(users),
            None => Self::empty(),
        }
    }

    /// Registers `users` in their order, with each hash in lower case.
    fn from_entries(users: Vec<UserEntry>) -> (r: Self)
        ensures
            registered(r@, users@),
    {
        let mut map: Vec<(String, String, bool)> = Vec::new();
        let mut i: usize = 0;
        while i < users.len()
            invariant
                i <= users@.len(),
                map@.len() == i,
                forall|j: int|
                    #![trigger map@[j]]
                    0 <= j < i ==> {
                        &&& map@[j].0@ == unicode_lowered(users@[j].token_hash@)
                        &&& is_ascii_chars(users@[j].token_hash@) ==> map@[j].0@ == ascii_lowered(
                            users@[j].token_hash@,
                        )
                        &&& map@[j].1@ == users@[j].user_id@
                        &&& map@[j].2 == users@[j].vip
                    },
            decreases users@.len() - i,
        {
            let hash = lowercase(users[i].token_hash.as_str());
            map.push((hash, users[i].user_id.clone(), users[i].vip));
            i += 1;
        }
        UserRegistry { map }
    }

    /// Return an empty registry (all requests will be rejected).
    pub fn empty() -> (r: Self)
        ensures
            r@ == Seq::<Credential>::empty(),
    {
        let r = UserRegistry { map: Vec::new() };
        assert(r@ =~= Seq::<Credential>::empty());
        r
    }

    /// Hash `raw_token` with SHA-256 and look it up in the registry using constant-time
    /// comparison to prevent timing attacks.
    ///
    /// Returns the user ID if exactly one entry has that hash, `None` otherwise.
    pub fn authenticate(&self, raw_token: &str) -> (r: Option<&str>)
        ensures
            opt_str(r) == user_with_hash(self@, token_digest(raw_token@)),
    {
        let hash = digest_of(raw_token);
        self.user_of_hash(hash.as_str())
    }

    /// The user registered under the token hash `hash`, when exactly one entry has it. Every entry
    /// is compared, whether or not an earlier one matched.
    pub fn user_of_hash(&self, hash: &str) -> (r: Option<&str>)
        ensures
            opt_str(r) == user_with_hash(self@, hash@),
    {
        let mut matched_user: Option<&str> = None;
        let mut matches: usize = 0;
        let mut i: usize = 0;
        let ghost p = has_hash(hash@);
        proof {
            reveal(Seq::filter);
        }
        while i < self.map.len()
            invariant
                i <= self.map@.len(),
                p == has_hash(hash@),
                matches <= i,
                matches == self@.take(i as int).filter(p).len(),
                matches > 0 ==> matched_user is Some && matched_user->0@ == self@.take(
                    i as int,
                ).filter(p).last().user,
            decreases self.map@.len() - i,
        {
            let stored_hash = &self.map[i].0;
            proof {
                lemma_filter_push(self@, p, i as int);
                if encode_utf8(hash@) == encode_utf8(stored_hash@) {
                    lemma_utf8_injective(hash@, stored_hash@);
                }
            }
            if stored_hash.as_str().len() == hash.len() && constant_time_eq(
                hash.as_bytes(),
                stored_hash.as_str().as_bytes(),
            ) {
                matches += 1;
                matched_user = Some(self.map[i].1.as_str());
            }
            i += 1;
        }
        assert(self@.take(self@.len() as int) =~= self@);
        if matches == 1 {
            matched_user
        } else {
            None
        }
    }

    /// Return a list of all VIP user IDs.
    pub fn get_vip_users(&self) -> (r: Vec<String>)
        ensures
            texts(r@) == vip_users(self@),
    {
        let mut r: Vec<String> = Vec::new();
        let mut i: usize = 0;
        proof {
            reveal(Seq::filter);
            assert(texts(r@) =~= vip_users(self@.take(0)));
        }
        while i < self.map.len()
            invariant
                i <= self.map@.len(),
                texts(r@) == vip_users(self@.take(i as int)),
            decreases self.map@.len() - i,
        {
            proof {
                lemma_filter_push(self@, is_vip(), i as int);
            }
            let ghost before = texts(r@);
            if self.map[i].2 {
                r.push(self.map[i].1.clone());
                assert(texts(r@) =~= before.push(self@[i as int].user));
            }
            assert(texts(r@) =~= vip_users(self@.take(i + 1)));
            i += 1;
        }
        assert(self@.take(self@.len() as int) =~= self@);
        r
    }
}

/// A registry without users rejects every token.
pub proof fn law_empty_registry_rejects(hash: Seq<char>)
    ensures
        user_with_hash(Seq::<Credential>::empty(), hash) is None,
{
    reveal(Seq::filter);
}

/// Entries before and after one place are filtered apart.
proof fn lemma_filter_around(users: Seq<Credential>, p: spec_fn(Credential) -> bool, i: int)
    requires
        0 <= i < users.len(),
        p(users[i]),
    ensures
        users.filter(p) == users.take(i).filter(p) + seq![users[i]] + users.skip(i + 1).filter(p),
{
    let a = users.take(i);
    let b = seq![users[i]];
    let c = users.skip(i + 1);
    assert(users =~= a + b + c);
    Seq::filter_distributes_over_add(a + b, c, p);
    Seq::filter_distributes_over_add(a, b, p);
    reveal(Seq::filter);
    assert(b.drop_last() =~= Seq::<Credential>::empty());
    assert(b.filter(p) =~= b);
}

/// A token whose hash nobody has is rejected.
pub proof fn law_unknown_token_rejected(users: Seq<Credential>, hash: Seq<char>)
    requires
        forall|j: int| 0 <= j < users.len() ==> (#[trigger] users[j]).hash != hash,
    ensures
        user_with_hash(users, hash) is None,
        users.filter(has_hash(hash)).len() == 0,
    decreases users.len(),
{
    reveal(Seq::filter);
    if users.len() > 0 {
        let rest = users.drop_last();
        assert forall|j: int| 0 <= j < rest.len() implies (#[trigger] rest[j]).hash != hash by {
            assert(rest[j] == users[j]);
        }
        law_unknown_token_rejected(rest, hash);
    }
}

/// A token whose hash exactly one entry has stands for the user of that entry.
pub proof fn law_known_token_accepted(users: Seq<Credential>, i: int)
    requires
        0 <= i < users.len(),
        forall|j: int| 0 <= j < users.len() && j != i ==> (#[trigger] users[j]).hash != users[i].hash,
    ensures
        user_with_hash(users, users[i].hash) == Some(users[i].user),
{
    let hash = users[i].hash;
    lemma_filter_around(users, has_hash(hash), i);
    law_unknown_token_rejected(users.take(i), hash);
    let after = users.skip(i + 1);
    assert forall|j: int| 0 <= j < after.len() implies (#[trigger] after[j]).hash != hash by {
        assert(after[j] == users[i + 1 + j]);
    }
    law_unknown_token_rejected(after, hash);
}

/// A token whose hash several entries have is rejected.
pub proof fn law_ambiguous_token_rejected(users: Seq<Credential>, i: int, j: int)
    requires
        0 <= i < j < users.len(),
        users[i].hash == users[j].hash,
    ensures
        user_with_hash(users, users[i].hash) is None,
{
    let p = has_hash(users[i].hash);
    lemma_filter_around(users, p, j);
    lemma_filter_around(users.take(j), p, i);
}

/// The case of the letters in a listed token hash makes no difference.
pub proof fn law_hash_case_ignored(
    a: Seq<Credential>,
    b: Seq<Credential>,
    listed_a: Seq<UserEntry>,
    listed_b: Seq<UserEntry>,
)
    requires
        registered(a, listed_a),
        registered(b, listed_b),
        listed_a.len() == listed_b.len(),
        forall|i: int|
            #![trigger listed_a[i]]
            0 <= i < listed_a.len() ==> {
                &&& is_ascii_chars(listed_a[i].token_hash@)
                &&& is_ascii_chars(listed_b[i].token_hash@)
                &&& ascii_lowered(listed_a[i].token_hash@) == ascii_lowered(
                    listed_b[i].token_hash@,
                )
                &&& listed_a[i].user_id@ == listed_b[i].user_id@
                &&& listed_a[i].vip == listed_b[i].vip
            },
    ensures
        a == b,
{
    assert forall|i: int| 0 <= i < a.len() implies a[i] == b[i] by {
        assert(listed_a[i].user_id@ == listed_b[i].user_id@);
    }
    assert(a =~= b);
}

/// The VIP list holds exactly the users that some entry lists as VIP.
pub proof fn law_vips_are_listed(users: Seq<Credential>, user: Seq<char>)
    ensures
        vip_users(users).contains(user) <==> exists|i: int|
            0 <= i < users.len() && (#[trigger] users[i]).vip && users[i].user == user,
    decreases users.len(),
{
    reveal(Seq::filter);
    if users.len() > 0 {
        let rest = users.drop_last();
        law_vips_are_listed(rest, user);
        if users.last().vip {
            assert(vip_users(users) =~= vip_users(rest).push(users.last().user));
            crate::seqs::lemma_push_members(vip_users(rest), users.last().user);
        } else {
            assert(vip_users(users) =~= vip_users(rest));
        }
        if exists|i: int| 0 <= i < users.len() && (#[trigger] users[i]).vip && users[i].user == user {
            let i = choose|i: int|
                0 <= i < users.len() && (#[trigger] users[i]).vip && users[i].user == user;
            if i < rest.len() {
                assert(rest[i] == users[i]);
            }
        }
        if exists|i: int| 0 <= i < rest.len() && (#[trigger] rest[i]).vip && rest[i].user == user {
            let i = choose|i: int|
                0 <= i < rest.len() && (#[trigger] rest[i]).vip && rest[i].user == user;
            assert(users[i] == rest[i]);
        }
    }
}

} // verus!
