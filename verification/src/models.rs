//! Model configuration: which models exist, under which names, on which backends.

use crate::seqs::{
    first_index, lemma_filter_push, lemma_first_index, lemma_first_index_props, lemma_push_members,
};
use crate::text::{
    increasing, insert_in_order, joined3, list_contains, opt_text, str_eq, texts,
};
use vstd::prelude::*;

verus! {

/// Individual model configuration with explicit backends and aliases
pub struct ParsedModel {
    /// Real model name (required, used for routing)
    pub name: String,
    /// Display name (optional, defaults to name)
    pub public_name: Option<String>,
    /// Backend URLs that serve this model
    pub backends: Vec<String>,
    /// Alias names that resolve to this model
    pub aliases: Vec<String>,
    /// Maximum concurrent requests per backend for this model (default: 1)
    pub max_concurrent_requests: usize,
    /// Whether to enable keep-alive for this model (default: true)
    pub keep_alive: bool,
}

/// The value of `keep_alive` where the configuration names none.
pub fn default_keep_alive() -> (r: bool)
    ensures
        r == true,
{
    true
}

/// The value of `max_concurrent_requests` where the configuration names none.
pub fn default_max_concurrent_requests() -> (r: usize)
    ensures
        r == 1,
{
    1
}

/// Explicit model-to-backend mapping
pub struct ModelConfig {
    pub models: Vec<ParsedModel>,
}

/// Why a model configuration is refused.
pub enum ConfigError {
    /// The model of this name lists no backend.
    NoBackends(String),
}

impl ConfigError {
    /// The error in words.
    pub fn message(&self) -> (r: String)
        ensures
            r@ == match self {
                ConfigError::NoBackends(name) => "Model '"@ + name@
                    + "' has no backends configured"@,
            },
    {
        match self {
            ConfigError::NoBackends(name) => joined3(
                "Model '",
                name.as_str(),
                "' has no backends configured",
            ),
        }
    }
}

/// Listing `name` among the aliases.
pub open spec fn has_alias(name: Seq<char>) -> spec_fn(ParsedModel) -> bool {
    |m: ParsedModel| texts(m.aliases@).contains(name)
}

/// Having the real name `name`.
pub open spec fn has_name(name: Seq<char>) -> spec_fn(ParsedModel) -> bool {
    |m: ParsedModel| m.name@ == name
}

/// Having `name` as real name or alias.
pub open spec fn known_as(name: Seq<char>) -> spec_fn(ParsedModel) -> bool {
    |m: ParsedModel| m.name@ == name || texts(m.aliases@).contains(name)
}

/// Listing the backend `url`.
pub open spec fn served_by(url: Seq<char>) -> spec_fn(ParsedModel) -> bool {
    |m: ParsedModel| texts(m.backends@).contains(url)
}

/// Listing no backend.
pub open spec fn lacks_backends() -> spec_fn(ParsedModel) -> bool {
    |m: ParsedModel| m.backends@.len() == 0
}

/// The real name behind `name`: that of the first model with such an alias, else `name` itself if
/// some model is called so.
pub open spec fn resolved(models: Seq<ParsedModel>, name: Seq<char>) -> Option<Seq<char>> {
    let a = first_index(models, has_alias(name));
    if a < models.len() {
        Some(models[a].name@)
    } else if first_index(models, has_name(name)) < models.len() {
        Some(name)
    } else {
        None
    }
}

/// The first model known as `name`.
pub open spec fn model_known_as(models: Seq<ParsedModel>, name: Seq<char>) -> Option<ParsedModel> {
    let k = first_index(models, known_as(name));
    if k < models.len() {
        Some(models[k])
    } else {
        None
    }
}

/// The backend URLs that some model lists.
pub open spec fn backend_urls(models: Seq<ParsedModel>) -> Set<Seq<char>> {
    Set::new(
        |u: Seq<char>|
            exists|i: int| 0 <= i < models.len() && texts((#[trigger] models[i]).backends@).contains(u),
    )
}

/// The real names of the models that list the backend `url`, in configuration order.
pub open spec fn models_on(models: Seq<ParsedModel>, url: Seq<char>) -> Seq<Seq<char>> {
    models.filter(served_by(url)).map_values(|m: ParsedModel| m.name@)
}

impl ModelConfig {
    /// Accepts a parsed configuration in which each model has at least one backend.
    pub fn load(parsed: ModelConfig) -> (r: Result<Self, ConfigError>)
        ensures
            r is Ok <==> first_index(parsed.models@, lacks_backends()) == parsed.models@.len(),
            r is Ok ==> r->Ok_0 == parsed,
            r is Err ==> r->Err_0->NoBackends_0@ == parsed.models@[first_index(
                parsed.models@,
                lacks_backends(),
            )].name@,
    {
        let mut i: usize = 0;
        while i < parsed.models.len()
            invariant
                i <= parsed.models@.len(),
                forall|j: int| 0 <= j < i ==> !lacks_backends()(#[trigger] parsed.models@[j]),
            decreases parsed.models@.len() - i,
        {
            if parsed.models[i].backends.len() == 0 {
                proof {
                    lemma_first_index(parsed.models@, lacks_backends(), i as int);
                }
                return Err(ConfigError::NoBackends(parsed.models[i].name.clone()));
            }
            i += 1;
        }
        proof {
            lemma_first_index(parsed.models@, lacks_backends(), i as int);
        }
        Ok(parsed)
    }

    /// Resolve alias to real model name, returns None if not found
    pub fn resolve_alias(&self, model_name: &str) -> (r: Option<String>)
        ensures
            opt_text(r) == resolved(self.models@, model_name@),
    {
        let ghost alias = has_alias(model_name@);
        let ghost name = has_name(model_name@);
        let mut i: usize = 0;
        while i < self.models.len()
            invariant
                i <= self.models@.len(),
                alias == has_alias(model_name@),
                forall|j: int| 0 <= j < i ==> !alias(#[trigger] self.models@[j]),
            decreases self.models@.len() - i,
        {
            if list_contains(&self.models[i].aliases, model_name) {
                proof {
                    lemma_first_index(self.models@, alias, i as int);
                }
                return Some(self.models[i].name.clone());
            }
            i += 1;
        }
        proof {
            lemma_first_index(self.models@, alias, i as int);
        }
        let mut i: usize = 0;
        while i < self.models.len()
            invariant
                i <= self.models@.len(),
                name == has_name(model_name@),
                first_index(self.models@, has_alias(model_name@)) == self.models@.len(),
                forall|j: int| 0 <= j < i ==> !name(#[trigger] self.models@[j]),
            decreases self.models@.len() - i,
        {
            if str_eq(self.models[i].name.as_str(), model_name) {
                proof {
                    lemma_first_index(self.models@, name, i as int);
                }
                return Some(self.models[i].name.clone());
            }
            i += 1;
        }
        proof {
            lemma_first_index(self.models@, name, i as int);
        }
        None
    }

    /// Get ParsedModel by name or alias
    pub fn get_model(&self, model_name: &str) -> (r: Option<&ParsedModel>)
        ensures
            r is Some <==> model_known_as(self.models@, model_name@) is Some,
            r is Some ==> Some(*r->0) == model_known_as(self.models@, model_name@),
    {
        let ghost p = known_as(model_name@);
        let mut i: usize = 0;
        while i < self.models.len()
            invariant
                i <= self.models@.len(),
                p == known_as(model_name@),
                forall|j: int| 0 <= j < i ==> !p(#[trigger] self.models@[j]),
            decreases self.models@.len() - i,
        {
            let m = &self.models[i];
            if str_eq(m.name.as_str(), model_name) || list_contains(&m.aliases, model_name) {
                proof {
                    lemma_first_index(self.models@, p, i as int);
                }
                return Some(m);
            }
            i += 1;
        }
        proof {
            lemma_first_index(self.models@, p, i as int);
        }
        None
    }

    /// Get all unique backend URLs from all models, in increasing order
    pub fn get_all_backends(&self) -> (r: Vec<String>)
        ensures
            increasing(texts(r@)),
            texts(r@).to_set() == backend_urls(self.models@),
    {
        let mut r: Vec<String> = Vec::new();
        let mut i: usize = 0;
        assert(texts(r@).to_set() =~= backend_urls(self.models@.take(0)));
        while i < self.models.len()
            invariant
                i <= self.models@.len(),
                increasing(texts(r@)),
                texts(r@).to_set() == backend_urls(self.models@.take(i as int)),
            decreases self.models@.len() - i,
        {
            let urls = &self.models[i].backends;
            let ghost start = texts(r@).to_set();
            let ghost here = texts(urls@);
            let mut j: usize = 0;
            assert(start =~= start.union(here.take(0).to_set()));
            while j < urls.len()
                invariant
                    j <= urls@.len(),
                    here == texts(urls@),
                    increasing(texts(r@)),
                    texts(r@).to_set() == start.union(here.take(j as int).to_set()),
                decreases urls@.len() - j,
            {
                insert_in_order(&mut r, urls[j].clone());
                proof {
                    let short = here.take(j as int);
                    let long = here.take(j + 1);
                    assert(long =~= short.push(here[j as int]));
                    lemma_push_members(short, here[j as int]);
                    assert(start.union(short.to_set()).insert(here[j as int]) =~= start.union(
                        long.to_set(),
                    ));
                }
                j += 1;
            }
            proof {
                assert(here.take(j as int) =~= here);
                let short = self.models@.take(i as int);
                let long = self.models@.take(i + 1);
                assert forall|u: Seq<char>| #[trigger] backend_urls(long).contains(u) <==> backend_urls(
                    short,
                ).contains(u) || here.contains(u) by {
                    if backend_urls(short).contains(u) {
                        let k = choose|k: int|
                            0 <= k < short.len() && texts((#[trigger] short[k]).backends@).contains(u);
                        assert(long[k] == short[k]);
                    }
                    if here.contains(u) {
                        assert(texts(long[i as int].backends@).contains(u));
                    }
                    if backend_urls(long).contains(u) {
                        let k = choose|k: int|
                            0 <= k < long.len() && texts((#[trigger] long[k]).backends@).contains(u);
                        if k < i {
                            assert(texts(short[k].backends@).contains(u));
                        }
                    }
                }
                assert(texts(r@).to_set() =~= backend_urls(long));
            }
            i += 1;
        }
        assert(self.models@.take(i as int) =~= self.models@);
        r
    }

    /// Get models configured for a specific backend
    pub fn get_models_for_backend(&self, backend_url: &str) -> (r: Vec<String>)
        ensures
            texts(r@) == models_on(self.models@, backend_url@),
    {
        let ghost p = served_by(backend_url@);
        let mut r: Vec<String> = Vec::new();
        let mut i: usize = 0;
        proof {
            reveal(Seq::filter);
            assert(texts(r@) =~= models_on(self.models@.take(0), backend_url@));
        }
        while i < self.models.len()
            invariant
                i <= self.models@.len(),
                p == served_by(backend_url@),
                texts(r@) == models_on(self.models@.take(i as int), backend_url@),
            decreases self.models@.len() - i,
        {
            proof {
                lemma_filter_push(self.models@, p, i as int);
            }
            let ghost before = texts(r@);
            if list_contains(&self.models[i].backends, backend_url) {
                r.push(self.models[i].name.clone());
                assert(texts(r@) =~= before.push(self.models@[i as int].name@));
            }
            assert(texts(r@) =~= models_on(self.models@.take(i + 1), backend_url@));
            i += 1;
        }
        assert(self.models@.take(i as int) =~= self.models@);
        r
    }
}

/// A name resolves exactly when some model is known under it.
pub proof fn law_resolved_iff_known(models: Seq<ParsedModel>, name: Seq<char>)
    ensures
        resolved(models, name) is Some <==> model_known_as(models, name) is Some,
{
    lemma_first_index_props(models, has_alias(name));
    lemma_first_index_props(models, has_name(name));
    lemma_first_index_props(models, known_as(name));
    let k = first_index(models, known_as(name));
    let a = first_index(models, has_alias(name));
    let n = first_index(models, has_name(name));
    if k < models.len() {
        assert(known_as(name)(models[k]));
        assert(has_alias(name)(models[k]) || has_name(name)(models[k]));
    }
    if a < models.len() {
        assert(known_as(name)(models[a]));
    } else if n < models.len() {
        assert(known_as(name)(models[n]));
    }
}

/// What a name resolves to is the real name of a model, and a real name that is no alias resolves
/// to itself.
pub proof fn law_resolved_is_real(models: Seq<ParsedModel>, name: Seq<char>)
    ensures
        resolved(models, name) matches Some(real_name) ==> exists|i: int|
            0 <= i < models.len() && (#[trigger] models[i]).name@ == real_name,
        (exists|i: int| 0 <= i < models.len() && (#[trigger] models[i]).name@ == name) && (forall|
            i: int,
        |
            0 <= i < models.len() ==> !texts((#[trigger] models[i]).aliases@).contains(name))
            ==> resolved(models, name) == Some(name),
{
    lemma_first_index_props(models, has_alias(name));
    lemma_first_index_props(models, has_name(name));
    let a = first_index(models, has_alias(name));
    let n = first_index(models, has_name(name));
    if a < models.len() {
        assert(has_alias(name)(models[a]));
    } else if n < models.len() {
        assert(has_name(name)(models[n]));
    }
    if exists|i: int| 0 <= i < models.len() && (#[trigger] models[i]).name@ == name {
        let i = choose|i: int| 0 <= i < models.len() && (#[trigger] models[i]).name@ == name;
        assert(has_name(name)(models[i]));
    }
}

/// Of two models that claim a name, one with it as an alias goes before one with it as real name.
pub proof fn law_alias_goes_first(models: Seq<ParsedModel>, name: Seq<char>, i: int)
    requires
        0 <= i < models.len(),
        texts(models[i].aliases@).contains(name),
        forall|j: int|
            0 <= j < models.len() && j != i ==> !texts((#[trigger] models[j]).aliases@).contains(
                name,
            ),
    ensures
        resolved(models, name) == Some(models[i].name@),
{
    lemma_first_index(models, has_alias(name), i);
}

} // verus!
