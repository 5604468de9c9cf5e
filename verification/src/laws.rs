//! Laws about the functions of the library: what their results must satisfy, in terms of their
//! arguments. Each takes a call as given (`call_ensures`) and speaks of plain sequences, maps and
//! sets.

use crate::models::ParsedModel;
use vstd::prelude::*;

pub mod access;
pub mod basics;
pub mod collections;
pub mod dashboard;
pub mod delivery;
pub mod listings;
pub mod logs;
pub mod requests;
pub mod upkeep;
pub mod wire;

verus! {

/// The number under `k`, and zero where there is none.
pub open spec fn number(m: Map<Seq<char>, usize>, k: Seq<char>) -> int {
    if m.dom().contains(k) {
        m[k] as int
    } else {
        0
    }
}

/// `name`, and `:latest` behind it where it holds no colon.
pub open spec fn with_tag(name: Seq<char>) -> Seq<char> {
    if exists|i: int| 0 <= i < name.len() && #[trigger] name[i] == ':' {
        name
    } else {
        name + ":latest"@
    }
}

/// Whether `name` is `base`, or `base` with a tag behind a colon.
pub open spec fn has_base(name: Seq<char>, base: Seq<char>) -> bool {
    &&& !base.contains(':')
    &&& name == base || exists|tag: Seq<char>| name == #[trigger] (base + seq![':'] + tag)
}

/// Whether two names differ at most in their tags.
pub open spec fn same_model(a: Seq<char>, b: Seq<char>) -> bool {
    exists|base: Seq<char>| has_base(a, base) && has_base(b, base)
}

/// Whether model `k` lists `name` among its aliases.
pub open spec fn lists_alias(models: Seq<ParsedModel>, k: int, name: Seq<char>) -> bool {
    &&& 0 <= k < models.len()
    &&& exists|a: int| 0 <= a < models[k].aliases@.len() && (#[trigger] models[k].aliases@[a])@ == name
}

/// Whether model `k` is called `name`.
pub open spec fn is_called(models: Seq<ParsedModel>, k: int, name: Seq<char>) -> bool {
    0 <= k < models.len() && models[k].name@ == name
}

/// Whether `name` stands for the model with the real name `real_name`: it is an alias of that model
/// and of no earlier one, or an alias of none and itself a real name.
pub open spec fn stands_for(
    models: Seq<ParsedModel>,
    name: Seq<char>,
    real_name: Seq<char>,
) -> bool {
    ||| exists|k: int| #[trigger]
        lists_alias(models, k, name) && models[k].name@ == real_name && forall|j: int|
            j < k ==> !#[trigger] lists_alias(models, j, name)
    ||| {
        &&& real_name == name
        &&& forall|j: int| !#[trigger] lists_alias(models, j, name)
        &&& exists|k: int| is_called(models, k, name)
    }
}

/// Whether no model has `name` as real name or alias.
pub open spec fn is_unknown(models: Seq<ParsedModel>, name: Seq<char>) -> bool {
    forall|k: int| !#[trigger] lists_alias(models, k, name) && !is_called(models, k, name)
}

/// The paths that carry a model.
pub open spec fn is_listed_path(start: Seq<char>) -> bool {
    ||| start == "/api/generate"@
    ||| start == "/api/chat"@
    ||| start == "/api/embed"@
    ||| start == "/api/embeddings"@
    ||| start == "/chat/completions"@
    ||| start == "/v1/chat/completions"@
    ||| start == "/v1/completions"@
    ||| start == "/v1/embeddings"@
    ||| start == "/v1/responses"@
    ||| start == "/v1/images/generations"@
}

} // verus!
