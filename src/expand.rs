//! `${NAME}` placeholder expansion against a variable table, repeated until
//! nothing changes, with a bound on the number of passes.
use crate::name_map::NameMap;
use crate::value::text_of;
use crate::text::{contains_pattern, replace_all, replace_pattern};
use vstd::prelude::*;

verus! {

/// The placeholder `${name}`.
pub open spec fn placeholder(name: Seq<char>) -> Seq<char> {
    seq!['$', '{'] + name + seq!['}']
}

/// One pass over the variables in order: each one whose placeholder occurs
/// is substituted everywhere. The flag tells whether any was.
pub open spec fn expansion_pass(s: Seq<char>, vars: Seq<(Seq<char>, Seq<char>)>) -> (Seq<char>, bool)
    decreases vars.len(),
{
    if vars.len() == 0 {
        (s, false)
    } else {
        let before = expansion_pass(s, vars.drop_last());
        let pat = placeholder(vars.last().0);
        if contains_pattern(before.0, pat) {
            (replace_all(before.0, pat, vars.last().1), true)
        } else {
            before
        }
    }
}

/// Passes repeated until one changes nothing; `None` when `fuel` more passes
/// that change something do not reach that point.
pub open spec fn expand_fixpoint(s: Seq<char>, vars: Seq<(Seq<char>, Seq<char>)>, fuel: nat) -> Option<
    Seq<char>,
>
    decreases fuel,
{
    let step = expansion_pass(s, vars);
    if !step.1 {
        Some(s)
    } else if fuel == 0 {
        None
    } else {
        expand_fixpoint(step.0, vars, (fuel - 1) as nat)
    }
}

/// The text after substituting the build directory (`PROJECT_BUILD_ROOT`) for its placeholder, if
/// a build directory is given.
pub open spec fn with_build_root(s: Seq<char>, build_dir: Option<Seq<char>>) -> Seq<char> {
    match build_dir {
        Some(d) => replace_all(s, placeholder("PROJECT_BUILD_ROOT"@), d),
        None => s,
    }
}

/// Full expansion: the build directory first (never scanned again), then
/// variables until a fixed point. As many changing passes as there are
/// variables are allowed; `None` when the text still changes after them,
/// which is what a variable that refers to itself leads to.
pub open spec fn expand_model(
    s: Seq<char>,
    build_dir: Option<Seq<char>>,
    vars: Seq<(Seq<char>, Seq<char>)>,
) -> Option<Seq<char>> {
    expand_fixpoint(with_build_root(s, build_dir), vars, vars.len())
}

/// The placeholder `${name}` as a string.
pub fn placeholder_text(name: &str) -> (r: String)
    ensures
        r@ == placeholder(name@),
{
    proof {
        reveal_strlit("${");
        reveal_strlit("}");
    }
    let r = String::from_str("${").concat(name).concat("}");
    assert(r@ =~= placeholder(name@));
    r
}

fn expansion_pass_exec(s: String, vars: &NameMap<String>) -> (r: (String, bool))
    ensures
        (r.0@, r.1) == expansion_pass(s@, vars.pairs()),
{
    let ghost p = vars.pairs();
    let ghost s0 = s@;
    let mut cur = s;
    let mut changed = false;
    let mut i: usize = 0;
    assert(p.subrange(0, 0) =~= Seq::<(Seq<char>, Seq<char>)>::empty());
    while i < vars.len()
        invariant
            p == vars.pairs(),
            p.len() == vars.entries@.len(),
            i <= p.len(),
            (cur@, changed) == expansion_pass(s0, p.subrange(0, i as int)),
        decreases p.len() - i,
    {
        assert(p.subrange(0, i + 1).drop_last() =~= p.subrange(0, i as int));
        let pat = placeholder_text(vars.entries[i].0.as_str());
        let (next, hit) = replace_pattern(cur.as_str(), pat.as_str(), vars.entries[i].1.as_str());
        if hit {
            cur = next;
            changed = true;
        }
        i = i + 1;
    }
    assert(p.subrange(0, p.len() as int) =~= p);
    (cur, changed)
}

/// Expands `s`: see [`expand_model`]. `None` reports a variable that keeps
/// expanding, such as one that refers to itself.
pub fn expand_text(s: &str, build_dir: Option<&str>, vars: &NameMap<String>) -> (r: Option<String>)
    ensures
        r is None <==> expand_model(s@, text_of(build_dir), vars.pairs()) is None,
        r is Some ==> expand_model(s@, text_of(build_dir), vars.pairs()) == Some(r->0@),
{
    proof {
        reveal_strlit("PROJECT_BUILD_ROOT");
    }
    let mut cur = match build_dir {
        Some(d) => {
            let pat = placeholder_text("PROJECT_BUILD_ROOT");
            replace_pattern(s, pat.as_str(), d).0
        },
        None => String::from_str(s),
    };
    let ghost start = cur@;
    let ghost p = vars.pairs();
    let mut fuel: usize = vars.len();
    loop
        invariant
            p == vars.pairs(),
            start == with_build_root(s@, text_of(build_dir)),
            expand_fixpoint(start, p, p.len()) == expand_fixpoint(cur@, p, fuel as nat),
        decreases fuel,
    {
        let (next, changed) = expansion_pass_exec(cur.clone(), vars);
        if !changed {
            return Some(cur);
        }
        if fuel == 0 {
            return None;
        }
        cur = next;
        fuel = fuel - 1;
    }
}

} // verus!
