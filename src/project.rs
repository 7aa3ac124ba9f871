//! CMake project data: the targets that CMake's file API reports, and the
//! decisions taken on them and on tool output.
use crate::text::{before_pattern, find_model, find_pattern, same_text};
use crate::value::texts;
use vstd::prelude::*;

verus! {

/// A CMake project: its source root and its build directory.
#[derive(Debug, Clone)]
pub struct CMakeProject {
    pub project_root: String,
    pub build_root: String,
}

/// A file that a target produces, relative to the build directory.
#[derive(Debug, Clone)]
pub struct TargetArtifact {
    pub path: String,
}

/// A build target as CMake's file API describes it.
#[derive(Debug, Clone)]
pub struct Target {
    pub name: String,
    /// CMake's target type, such as `EXECUTABLE` or `STATIC_LIBRARY`.
    pub target_type: String,
    pub artifacts: Option<Vec<TargetArtifact>>,
}

/// A target that can be run: an executable with artifacts.
pub open spec fn runnable(t: Target) -> bool {
    t.target_type@ == "EXECUTABLE"@ && t.artifacts is Some
}

/// The runnable targets, in order.
pub open spec fn runnable_targets(s: Seq<Target>) -> Seq<Target>
    decreases s.len(),
{
    if s.len() == 0 {
        Seq::empty()
    } else {
        (if runnable(s[0]) {
            seq![s[0]]
        } else {
            Seq::empty()
        }) + runnable_targets(s.drop_first())
    }
}

/// Whether `s` begins with `prefix`.
pub open spec fn starts_with(s: Seq<char>, prefix: Seq<char>) -> bool {
    prefix.len() <= s.len() && s.subrange(0, prefix.len() as int) == prefix
}

impl Target {
    pub fn is_executable(&self) -> (r: bool)
        ensures
            r == (self.target_type@ == "EXECUTABLE"@),
    {
        same_text(self.target_type.as_str(), "EXECUTABLE")
    }
}

/// The targets that can be run, in their order.
pub fn select_executables(targets: Vec<Target>) -> (r: Vec<Target>)
    ensures
        r@ == runnable_targets(targets@),
{
    let ghost all = targets@;
    let mut rest = targets;
    let mut out: Vec<Target> = Vec::new();
    while rest.len() > 0
        invariant
            runnable_targets(all) == out@ + runnable_targets(rest@),
        decreases rest@.len(),
    {
        let ghost before = rest@;
        let t = rest.remove(0);
        assert(rest@ =~= before.drop_first());
        let keep = t.is_executable() && t.artifacts.is_some();
        let ghost prev = out@;
        if keep {
            out.push(t);
            assert(prev + (seq![before[0]] + runnable_targets(rest@)) =~= out@ + runnable_targets(
                rest@,
            ));
        } else {
            assert(prev + (Seq::<Target>::empty() + runnable_targets(rest@)) =~= out@
                + runnable_targets(rest@));
        }
    }
    assert(out@ + runnable_targets(rest@) =~= out@);
    out
}

/// Whether a file of CMake's file-API reply directory describes a target:
/// its name begins with `target-`.
pub fn is_target_reply(file_name: &str) -> (r: bool)
    ensures
        r == starts_with(file_name@, "target-"@),
{
    proof {
        reveal_strlit("target-");
    }
    let n = file_name.unicode_len();
    if n < 7 {
        return false;
    }
    same_text(file_name.substring_char(0, 7), "target-")
}

/// The height of the fuzzy picker for `count` choices: at most ten rows of
/// choices, plus two.
pub fn picker_height(count: usize) -> (r: usize)
    ensures
        r == (if count < 10 {
            count
        } else {
            10
        }) + 2,
{
    if count < 10 {
        count + 2
    } else {
        12
    }
}

/// The lines of `s`, split at each newline; `cur` is the part of the
/// current line read so far. Text ending in a newline ends in an empty line.
pub open spec fn lines_from(s: Seq<char>, cur: Seq<char>) -> Seq<Seq<char>>
    decreases s.len(),
{
    if s.len() == 0 {
        seq![cur]
    } else if s[0] == '\n' {
        seq![cur] + lines_from(s.drop_first(), Seq::empty())
    } else {
        lines_from(s.drop_first(), cur.push(s[0]))
    }
}

/// The lines of `s`, split at each newline.
pub open spec fn lines(s: Seq<char>) -> Seq<Seq<char>> {
    lines_from(s, Seq::empty())
}

/// The translation unit a line of `ninja -t targets` names, if any: a line
/// holding `.o: ` names the object file before its first `: `.
pub open spec fn unit_of_line(l: Seq<char>) -> Seq<Seq<char>> {
    if find_model(l, ".o: "@) >= 0 {
        seq![before_pattern(l, ": "@)]
    } else {
        Seq::empty()
    }
}

pub open spec fn units_of_lines(ls: Seq<Seq<char>>) -> Seq<Seq<char>>
    decreases ls.len(),
{
    if ls.len() == 0 {
        Seq::empty()
    } else {
        unit_of_line(ls[0]) + units_of_lines(ls.drop_first())
    }
}

/// The translation units that the output of `ninja -t targets all` lists.
pub open spec fn translation_units_model(output: Seq<char>) -> Seq<Seq<char>> {
    units_of_lines(lines(output))
}

proof fn lemma_units_cons(l: Seq<char>, rest: Seq<Seq<char>>)
    ensures
        units_of_lines(seq![l] + rest) == unit_of_line(l) + units_of_lines(rest),
{
    assert((seq![l] + rest).drop_first() =~= rest);
}

fn unit_of_line_exec(line: &str, out: &mut Vec<String>)
    ensures
        texts(final(out)@) == texts(old(out)@) + unit_of_line(line@),
{
    proof {
        reveal_strlit(".o: ");
        reveal_strlit(": ");
    }
    let ghost before = out@;
    if find_pattern(line, ".o: ").is_some() {
        let unit = match find_pattern(line, ": ") {
            Some(k) => line.substring_char(0, k),
            None => line,
        };
        out.push(String::from_str(unit));
        assert(texts(out@) =~= texts(before) + unit_of_line(line@));
    } else {
        assert(texts(out@) =~= texts(before) + unit_of_line(line@));
    }
}

/// The translation units that the output of `ninja -t targets all` lists,
/// in order.
pub fn parse_translation_units(output: &str) -> (r: Vec<String>)
    ensures
        texts(r@) == translation_units_model(output@),
{
    let n = output.unicode_len();
    let mut out: Vec<String> = Vec::new();
    let mut start: usize = 0;
    let mut i: usize = 0;
    assert(output@.subrange(0, n as int) =~= output@);
    assert(output@.subrange(0, 0) =~= Seq::<char>::empty());
    assert(texts(out@) + translation_units_model(output@) =~= translation_units_model(output@));
    while i < n
        invariant
            n == output@.len(),
            start <= i <= n,
            translation_units_model(output@) == texts(out@) + units_of_lines(
                lines_from(output@.subrange(i as int, n as int), output@.subrange(start as int, i as int)),
            ),
        decreases n - i,
    {
        let ghost rest = output@.subrange(i as int, n as int);
        let ghost cur = output@.subrange(start as int, i as int);
        assert(rest.drop_first() =~= output@.subrange(i + 1, n as int));
        if output.get_char(i) == '\n' {
            let ghost before = texts(out@);
            let line = output.substring_char(start, i);
            unit_of_line_exec(line, &mut out);
            proof {
                lemma_units_cons(cur, lines_from(rest.drop_first(), Seq::empty()));
                assert(output@.subrange(i + 1, i + 1) =~= Seq::<char>::empty());
                assert(before + (unit_of_line(cur) + units_of_lines(
                    lines_from(rest.drop_first(), Seq::empty()),
                )) =~= texts(out@) + units_of_lines(lines_from(rest.drop_first(), Seq::empty())));
            }
            start = i + 1;
        } else {
            assert(cur.push(output@[i as int]) =~= output@.subrange(start as int, i + 1));
        }
        i = i + 1;
    }
    let ghost before = texts(out@);
    let ghost cur = output@.subrange(start as int, n as int);
    let line = output.substring_char(start, n);
    unit_of_line_exec(line, &mut out);
    proof {
        assert(output@.subrange(n as int, n as int) =~= Seq::<char>::empty());
        lemma_units_cons(cur, Seq::empty());
        assert(units_of_lines(Seq::<Seq<char>>::empty()) == Seq::<Seq<char>>::empty());
        assert(seq![cur] + Seq::<Seq<char>>::empty() =~= seq![cur]);
        assert(before + (unit_of_line(cur) + Seq::<Seq<char>>::empty()) =~= texts(out@));
    }
    out
}

/// The first line of `s`: the text before its first newline.
pub fn first_line(s: &str) -> (r: String)
    ensures
        r@ == before_pattern(s@, "\n"@),
{
    proof {
        reveal_strlit("\n");
    }
    match find_pattern(s, "\n") {
        Some(k) => String::from_str(s.substring_char(0, k)),
        None => String::from_str(s),
    }
}

} // verus!
