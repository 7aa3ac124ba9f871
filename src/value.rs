//! One environment entry (set, prepend or append) and how it combines with
//! the value a variable already has.
use crate::text::join_colon;
use vstd::prelude::*;

verus! {

/// How a configuration entry sets a variable.
#[derive(Debug, Clone)]
pub enum EnvValue {
    /// Sets the variable, ignoring any earlier value.
    Assign(String),
    /// Puts the paths, joined by `:`, in front of the earlier value.
    Prepend(Vec<String>),
    /// Puts the paths, joined by `:`, after the earlier value.
    Append(Vec<String>),
}

/// The mathematical content of an [`EnvValue`].
pub enum EnvValueModel {
    Assign(Seq<char>),
    Prepend(Seq<Seq<char>>),
    Append(Seq<Seq<char>>),
}

/// The characters of each string, in order.
pub open spec fn texts(v: Seq<String>) -> Seq<Seq<char>> {
    v.map_values(|s: String| s@)
}

impl View for EnvValue {
    type V = EnvValueModel;

    open spec fn view(&self) -> EnvValueModel {
        match self {
            EnvValue::Assign(s) => EnvValueModel::Assign(s@),
            EnvValue::Prepend(p) => EnvValueModel::Prepend(texts(p@)),
            EnvValue::Append(p) => EnvValueModel::Append(texts(p@)),
        }
    }
}

/// The characters of an optional string.
pub open spec fn text_of(o: Option<&str>) -> Option<Seq<char>> {
    match o {
        Some(s) => Some(s@),
        None => None,
    }
}

/// An earlier value that takes part in a merge: present and not empty.
pub open spec fn usable(existing: Option<Seq<char>>) -> bool {
    existing is Some && existing->0.len() > 0
}

/// The final value of a variable set by `v` when it had `existing` before.
pub open spec fn resolve_model(v: EnvValueModel, existing: Option<Seq<char>>) -> Seq<char> {
    match v {
        EnvValueModel::Assign(s) => s,
        EnvValueModel::Prepend(p) => if usable(existing) {
            join_colon(p) + seq![':'] + existing->0
        } else {
            join_colon(p)
        },
        EnvValueModel::Append(p) => if usable(existing) {
            existing->0 + seq![':'] + join_colon(p)
        } else {
            join_colon(p)
        },
    }
}

/// Joins the strings with `:` between neighbours.
pub fn join_paths(parts: &Vec<String>) -> (r: String)
    ensures
        r@ == join_colon(texts(parts@)),
{
    let ghost t = texts(parts@);
    let mut out = String::new();
    let mut i: usize = 0;
    proof {
        reveal_strlit(":");
    }
    assert(t.subrange(0, 0) =~= Seq::<Seq<char>>::empty());
    while i < parts.len()
        invariant
            t == texts(parts@),
            t.len() == parts@.len(),
            i <= parts.len(),
            out@ == join_colon(t.subrange(0, i as int)),
            ":"@ == seq![':'],
        decreases parts.len() - i,
    {
        assert(t.subrange(0, i + 1).drop_last() =~= t.subrange(0, i as int));
        if i > 0 {
            out.append(":");
        }
        out.append(parts[i].as_str());
        assert(t[i as int] == parts@[i as int]@);
        if i == 0 {
            assert(out@ =~= join_colon(t.subrange(0, 1)));
        }
        i = i + 1;
    }
    assert(t.subrange(0, parts.len() as int) =~= t);
    out
}

impl EnvValue {
    /// The final value of the variable, given the value it had before, if
    /// any. An empty earlier value counts as none: no stray `:` is added.
    pub fn resolve(&self, existing: Option<&str>) -> (r: String)
        ensures
            r@ == resolve_model(self@, text_of(existing)),
    {
        proof {
            reveal_strlit(":");
        }
        match self {
            EnvValue::Assign(v) => v.clone(),
            EnvValue::Prepend(paths) => {
                let joined = join_paths(paths);
                match existing {
                    Some(e) if e.unicode_len() > 0 => joined.concat(":").concat(e),
                    _ => joined,
                }
            },
            EnvValue::Append(paths) => {
                let joined = join_paths(paths);
                match existing {
                    Some(e) if e.unicode_len() > 0 => String::from_str(e).concat(":").concat(
                        joined.as_str(),
                    ),
                    _ => joined,
                }
            },
        }
    }
}

/// An `Assign` entry yields its own value, whatever the variable held before.
pub proof fn lemma_set_ignores_existing(v: Seq<char>, existing: Option<Seq<char>>)
    ensures
        resolve_model(EnvValueModel::Assign(v), existing) == v,
{
}

/// A `Prepend` of non-empty paths puts them, joined by `:`, before a
/// non-empty earlier value, and yields them alone when there is none.
pub proof fn lemma_prepend(p: Seq<Seq<char>>, e: Seq<char>)
    requires
        p.len() > 0,
        e.len() > 0,
    ensures
        resolve_model(EnvValueModel::Prepend(p), Some(e)) == join_colon(p) + seq![':'] + e,
        resolve_model(EnvValueModel::Prepend(p), None) == join_colon(p),
{
}

/// An `Append` is a `Prepend` with the two operands of the join swapped.
pub proof fn lemma_append_mirrors_prepend(p: Seq<Seq<char>>, e: Seq<char>)
    requires
        e.len() > 0,
    ensures
        resolve_model(EnvValueModel::Append(p), Some(e)) == e + seq![':'] + join_colon(p),
        resolve_model(EnvValueModel::Prepend(p), Some(e)) == join_colon(p) + seq![':'] + e,
        resolve_model(EnvValueModel::Append(p), None) == resolve_model(
            EnvValueModel::Prepend(p),
            None,
        ),
{
}

} // verus!
