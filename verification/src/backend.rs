//! Runtime status of a backend and what it can serve.

use crate::seqs::{first_index, lemma_first_index, lemma_first_index_props};
use crate::strmap::StrMap;
use crate::text::{before_char, split_first, str_eq, texts};
use vstd::prelude::*;

verus! {

/// Runtime backend status
pub struct BackendStatus {
    pub url: String,
    pub active_requests: usize,
    pub processed_count: usize,
    pub is_online: bool,
    pub active_models: StrMap<usize>,
    pub processed_models: StrMap<usize>,
    /// Models this backend is configured to serve (from config)
    pub configured_models: Vec<String>,
    /// Per-model verification status (true = available, false = not available)
    pub model_status: StrMap<bool>,
}

/// A model name without its tag: the part before the first colon.
pub open spec fn base_name(model: Seq<char>) -> Seq<char> {
    before_char(model, ':')
}

/// Having the base name of `model`.
pub open spec fn same_base(model: Seq<char>) -> spec_fn(Seq<char>) -> bool {
    |k: Seq<char>| base_name(k) == base_name(model)
}

/// Whether the statuses show `model` as available: by its own entry, else by the first entry with
/// the same base name, else yes.
pub open spec fn shown_available(status: StrMap<bool>, model: Seq<char>) -> bool {
    let k = first_index(status.keys(), same_base(model));
    if status@.dom().contains(model) {
        status@[model]
    } else if k < status.keys().len() {
        status@[status.keys()[k]]
    } else {
        true
    }
}

/// Whether some name in `configured` has the base name of `model`.
pub open spec fn covers(configured: Seq<Seq<char>>, model: Seq<char>) -> bool {
    exists|i: int| 0 <= i < configured.len() && base_name(#[trigger] configured[i]) == base_name(model)
}

/// Every model in `models` with its earlier status, or available where it had none.
pub open spec fn carried_over(models: Seq<Seq<char>>, earlier: Map<Seq<char>, bool>) -> Map<
    Seq<char>,
    bool,
> {
    Map::new(
        |k: Seq<char>| models.contains(k),
        |k: Seq<char>|
            if earlier.dom().contains(k) {
                earlier[k]
            } else {
                true
            },
    )
}

/// A model name without its tag.
pub fn base_of(model: &str) -> (r: &str)
    ensures
        r@ == base_name(model@),
{
    split_first(model, ':')
}

/// The statuses of `models`, each with its earlier status or available where it had none.
pub fn carry_over(models: &Vec<String>, earlier: &StrMap<bool>) -> (r: StrMap<bool>)
    requires
        earlier.wf(),
    ensures
        r.wf(),
        r@ == carried_over(texts(models@), earlier@),
{
    let mut r: StrMap<bool> = StrMap::new();
    let mut i: usize = 0;
    assert(r@ =~= carried_over(texts(models@).take(0), earlier@));
    while i < models.len()
        invariant
            i <= models@.len(),
            earlier.wf(),
            r.wf(),
            r@ == carried_over(texts(models@).take(i as int), earlier@),
        decreases models@.len() - i,
    {
        let status = match earlier.get(models[i].as_str()) {
            Some(s) => *s,
            None => true,
        };
        r.insert(models[i].clone(), status);
        proof {
            let names = texts(models@);
            assert(names.take(i + 1) =~= names.take(i as int).push(names[i as int]));
            crate::seqs::lemma_push_members(names.take(i as int), names[i as int]);
            assert(r@ =~= carried_over(names.take(i + 1), earlier@));
        }
        i += 1;
    }
    assert(texts(models@).take(i as int) =~= texts(models@));
    r
}

impl BackendStatus {
    /// No map of the status holds a key twice.
    pub open spec fn wf(&self) -> bool {
        &&& self.active_models.wf()
        &&& self.processed_models.wf()
        &&& self.model_status.wf()
    }

    /// Whether this backend can serve `model`: it is configured for the base name and not shown
    /// as unavailable.
    pub open spec fn serves(&self, model: Seq<char>) -> bool {
        covers(texts(self.configured_models@), model) && shown_available(self.model_status, model)
    }

    /// Online, idle, without models.
    pub open spec fn is_new(&self, url: Seq<char>) -> bool {
        &&& self.wf()
        &&& self.url@ == url
        &&& self.active_requests == 0
        &&& self.processed_count == 0
        &&& self.is_online
        &&& self.active_models@ == Map::<Seq<char>, usize>::empty()
        &&& self.processed_models@ == Map::<Seq<char>, usize>::empty()
    }

    pub fn new(url: String) -> (r: Self)
        ensures
            r.is_new(url@),
            r.configured_models@ == Seq::<String>::empty(),
            r.model_status@ == Map::<Seq<char>, bool>::empty(),
    {
        BackendStatus {
            url,
            active_requests: 0,
            processed_count: 0,
            is_online: true,
            active_models: StrMap::new(),
            processed_models: StrMap::new(),
            configured_models: Vec::new(),
            model_status: StrMap::new(),
        }
    }

    /// A new backend with its configured models, all taken to be available.
    pub fn with_models(url: String, models: Vec<String>) -> (r: Self)
        ensures
            r.is_new(url@),
            r.configured_models == models,
            r.model_status@ == carried_over(texts(models@), Map::<Seq<char>, bool>::empty()),
    {
        let none: StrMap<bool> = StrMap::new();
        let status = carry_over(&models, &none);
        let mut r = BackendStatus::new(url);
        r.configured_models = models;
        r.model_status = status;
        r
    }

    /// Check if this backend can serve a specific model
    pub fn can_serve_model(&self, model_name: &str) -> (r: bool)
        requires
            self.model_status.wf(),
        ensures
            r == self.serves(model_name@),
    {
        let request_base = base_of(model_name);
        let mut matched = false;
        let mut i: usize = 0;
        while i < self.configured_models.len() && !matched
            invariant
                i <= self.configured_models@.len(),
                request_base@ == base_name(model_name@),
                matched ==> covers(texts(self.configured_models@), model_name@),
                !matched ==> forall|j: int|
                    0 <= j < i ==> base_name(#[trigger] texts(self.configured_models@)[j])
                        != base_name(model_name@),
            decreases self.configured_models@.len() - i,
        {
            let configured = &self.configured_models[i];
            if str_eq(base_of(configured.as_str()), request_base) {
                assert(base_name(texts(self.configured_models@)[i as int]) == base_name(
                    model_name@,
                ));
                matched = true;
            }
            i += 1;
        }
        if !matched {
            return false;
        }
        match self.model_status.get(model_name) {
            Some(status) => *status,
            None => {
                let ghost p = same_base(model_name@);
                let mut k: usize = 0;
                while k < self.model_status.len()
                    invariant
                        k <= self.model_status.keys().len(),
                        self.model_status.wf(),
                        p == same_base(model_name@),
                        request_base@ == base_name(model_name@),
                        covers(texts(self.configured_models@), model_name@),
                        !self.model_status@.dom().contains(model_name@),
                        forall|j: int| 0 <= j < k ==> !p(#[trigger] self.model_status.keys()[j]),
                    decreases self.model_status.keys().len() - k,
                {
                    let key = self.model_status.key_at(k);
                    if str_eq(base_of(key.as_str()), request_base) {
                        proof {
                            lemma_first_index(self.model_status.keys(), p, k as int);
                        }
                        return *self.model_status.value_at(k);
                    }
                    k += 1;
                }
                proof {
                    lemma_first_index(self.model_status.keys(), p, k as int);
                }
                true
            },
        }
    }
}

/// Whether a backend is configured for a model does not depend on the model's tag.
pub proof fn law_tags_do_not_matter(configured: Seq<Seq<char>>, a: Seq<char>, b: Seq<char>)
    requires
        base_name(a) == base_name(b),
    ensures
        covers(configured, a) == covers(configured, b),
{
}

/// The order in which statuses were noted makes no difference as long as the statuses of models
/// with the same base name agree.
pub proof fn law_status_order_does_not_matter(
    a: StrMap<bool>,
    b: StrMap<bool>,
    model: Seq<char>,
    agreed: bool,
)
    requires
        a.wf(),
        b.wf(),
        a@ == b@,
        forall|k: Seq<char>|
            #[trigger] a@.dom().contains(k) && base_name(k) == base_name(model) ==> a@[k] == agreed,
    ensures
        shown_available(a, model) == shown_available(b, model),
{
    a.lemma_keys();
    b.lemma_keys();
    let p = same_base(model);
    lemma_first_index_props(a.keys(), p);
    lemma_first_index_props(b.keys(), p);
    let i = first_index(a.keys(), p);
    let j = first_index(b.keys(), p);
    if i < a.keys().len() {
        assert(p(a.keys()[i]));
        assert(b.keys().contains(a.keys()[i]));
        let k = b.keys().index_of(a.keys()[i]);
        assert(p(b.keys()[k]));
    }
    if j < b.keys().len() {
        assert(p(b.keys()[j]));
        assert(a.keys().contains(b.keys()[j]));
        let k = a.keys().index_of(b.keys()[j]);
        assert(p(a.keys()[k]));
    }
}

/// A model without any status of its base name is taken to be available.
pub proof fn law_unknown_status_is_available(status: StrMap<bool>, model: Seq<char>)
    requires
        status.wf(),
        forall|k: Seq<char>| #[trigger] status@.dom().contains(k) ==> base_name(k) != base_name(model),
    ensures
        shown_available(status, model),
{
    status.lemma_keys();
    let p = same_base(model);
    lemma_first_index_props(status.keys(), p);
    let i = first_index(status.keys(), p);
    if i < status.keys().len() {
        assert(status@.dom().contains(status.keys()[i]));
    }
}

} // verus!
