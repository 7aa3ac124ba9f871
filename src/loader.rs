//! Reading the configuration file: TOML text becomes a tree of plain
//! values, and the tree becomes an [`EnvConfig`].
//!
//! File layout: `[vars]` holds strings for expansion; `[env]` holds entries
//! for every command, with the sub-tables `build`, `run`, `linux` and
//! `macos`. Under `run`, a non-empty table without `prepend` or `append`
//! keys is the scope of the target of that name.
use crate::env::{ConfigError, ConfigModel, EnvConfig, Scope, VarTable};
use crate::name_map::{NameMap, lemma_map_of_push, lemma_pairs_insert, map_of, pairs_insert};
use crate::value::{EnvValue, EnvValueModel, texts};
use vstd::prelude::*;

verus! {

/// A parsed TOML value, as far as configuration entries are concerned.
#[derive(Debug)]
pub enum RawEntry {
    /// A string.
    Text(String),
    /// An array.
    List(Vec<RawEntry>),
    /// A table: its keys, in the order the parser hands them out, with values.
    Table(Vec<(String, RawEntry)>),
    /// A number, boolean or date.
    Other,
}

#[verifier::external_type_specification]
#[verifier::external_body]
pub struct ExTomlValue(toml::Value);

/// The tree that the TOML parser makes of a document; `None` when the text
/// is not TOML.
pub uninterp spec fn toml_document(text: Seq<char>) -> Option<RawEntry>;

/// Relies on `toml::from_str` (to a `toml::Table`): parses a TOML document,
/// whose top level is a table. On failure, the parser's message.
#[verifier::external_body]
fn parse_toml(text: &str) -> (r: Result<RawEntry, String>)
    ensures
        r is Ok <==> toml_document(text@) is Some,
        r is Ok ==> toml_document(text@) == Some(r->Ok_0),
        r is Ok ==> r->Ok_0 is Table,
{
    match toml::from_str::<toml::Table>(text) {
        Ok(t) => Ok(raw_from_toml(toml::Value::Table(t))),
        Err(e) => Err(e.to_string()),
    }
}

/// The conversion inside [`parse_toml`]: one variant of `toml::Value` to
/// one of [`RawEntry`], element for element.
#[verifier::external_body]
fn raw_from_toml(v: toml::Value) -> RawEntry {
    match v {
        toml::Value::String(s) => RawEntry::Text(s),
        toml::Value::Array(a) => RawEntry::List(a.into_iter().map(raw_from_toml).collect()),
        toml::Value::Table(t) => RawEntry::Table(
            t.into_iter().map(|(k, x)| (k, raw_from_toml(x))).collect(),
        ),
        _ => RawEntry::Other,
    }
}

/// The value under key `k` of a table (the last one, were a key repeated).
pub open spec fn lookup(t: Seq<(String, RawEntry)>, k: Seq<char>) -> Option<RawEntry>
    decreases t.len(),
{
    if t.len() == 0 {
        None
    } else if t.last().0@ == k {
        Some(t.last().1)
    } else {
        lookup(t.drop_last(), k)
    }
}

/// The strings of an array; `None` when an element is not a string.
pub open spec fn strings_of(items: Seq<RawEntry>) -> Option<Seq<Seq<char>>>
    decreases items.len(),
{
    if items.len() == 0 {
        Some(Seq::empty())
    } else {
        match (strings_of(items.drop_last()), items.last()) {
            (Some(p), RawEntry::Text(s)) => Some(p.push(s@)),
            _ => None,
        }
    }
}

/// A list entry, or `None` when the array holds a non-string.
pub open spec fn list_model(items: Seq<RawEntry>, append: bool) -> Option<EnvValueModel> {
    match strings_of(items) {
        Some(p) => Some(if append { EnvValueModel::Append(p) } else { EnvValueModel::Prepend(p) }),
        None => None,
    }
}

/// The entry that a value denotes: a string sets, an array prepends, a
/// table with a `prepend` (else `append`) array modifies, and anything else
/// sets the empty string. `None` is a value-type error.
pub open spec fn entry_model(e: RawEntry) -> Option<EnvValueModel> {
    match e {
        RawEntry::Text(s) => Some(EnvValueModel::Assign(s@)),
        RawEntry::List(items) => list_model(items@, false),
        RawEntry::Table(t) => match lookup(t@, "prepend"@) {
            Some(RawEntry::List(items)) => list_model(items@, false),
            _ => match lookup(t@, "append"@) {
                Some(RawEntry::List(items)) => list_model(items@, true),
                _ => Some(EnvValueModel::Assign(Seq::empty())),
            },
        },
        RawEntry::Other => Some(EnvValueModel::Assign(Seq::empty())),
    }
}

/// Whether a value under `run` is a target's scope: a non-empty table with
/// neither a `prepend` nor an `append` key.
pub open spec fn is_target_model(e: RawEntry) -> bool {
    match e {
        RawEntry::Table(t) => lookup(t@, "prepend"@) is None && lookup(t@, "append"@) is None
            && t@.len() > 0,
        _ => false,
    }
}

/// The scope that a table's entries denote; `None` on a value-type error.
pub open spec fn scope_model(t: Seq<(String, RawEntry)>) -> Option<Map<Seq<char>, EnvValueModel>>
    decreases t.len(),
{
    if t.len() == 0 {
        Some(Map::empty())
    } else {
        match (scope_model(t.drop_last()), entry_model(t.last().1)) {
            (Some(m), Some(v)) => Some(m.insert(t.last().0@, v)),
            _ => None,
        }
    }
}

/// The scope of a value: its entries when it is a table, else nothing.
pub open spec fn table_scope_model(e: RawEntry) -> Option<Map<Seq<char>, EnvValueModel>> {
    match e {
        RawEntry::Table(t) => scope_model(t@),
        _ => Some(Map::empty()),
    }
}

/// What the `run` section holds: entries for every run, and target scopes.
pub struct RunModel {
    pub run: Map<Seq<char>, EnvValueModel>,
    pub targets: Map<Seq<char>, Map<Seq<char>, EnvValueModel>>,
}

/// The `run` section's entries, each a target scope or a default entry.
pub open spec fn run_model(t: Seq<(String, RawEntry)>) -> Option<RunModel>
    decreases t.len(),
{
    if t.len() == 0 {
        Some(RunModel { run: Map::empty(), targets: Map::empty() })
    } else {
        match run_model(t.drop_last()) {
            Some(m) => if is_target_model(t.last().1) {
                match table_scope_model(t.last().1) {
                    Some(sc) => Some(RunModel { run: m.run, targets: m.targets.insert(t.last().0@, sc) }),
                    None => None,
                }
            } else {
                match entry_model(t.last().1) {
                    Some(v) => Some(RunModel { run: m.run.insert(t.last().0@, v), targets: m.targets }),
                    None => None,
                }
            },
            None => None,
        }
    }
}

/// The `run` section of a value: its entries when it is a table.
pub open spec fn run_section_model(e: RawEntry) -> Option<RunModel> {
    match e {
        RawEntry::Table(t) => run_model(t@),
        _ => Some(RunModel { run: Map::empty(), targets: Map::empty() }),
    }
}

/// The scopes that the `env` table fills.
pub struct EnvModel {
    pub common: Map<Seq<char>, EnvValueModel>,
    pub build: Map<Seq<char>, EnvValueModel>,
    pub run: Map<Seq<char>, EnvValueModel>,
    pub run_targets: Map<Seq<char>, Map<Seq<char>, EnvValueModel>>,
    pub linux: Map<Seq<char>, EnvValueModel>,
    pub macos: Map<Seq<char>, EnvValueModel>,
}

pub open spec fn empty_env_model() -> EnvModel {
    EnvModel {
        common: Map::empty(),
        build: Map::empty(),
        run: Map::empty(),
        run_targets: Map::empty(),
        linux: Map::empty(),
        macos: Map::empty(),
    }
}

/// The scopes of a configuration.
pub open spec fn env_part(c: ConfigModel) -> EnvModel {
    EnvModel {
        common: c.common,
        build: c.build,
        run: c.run,
        run_targets: c.run_targets,
        linux: c.linux,
        macos: c.macos,
    }
}

/// The `env` table's entries: `build`, `run`, `linux` and `macos` fill their
/// scopes, every other key is an entry of `common`.
pub open spec fn env_model(t: Seq<(String, RawEntry)>) -> Option<EnvModel>
    decreases t.len(),
{
    if t.len() == 0 {
        Some(empty_env_model())
    } else {
        let k = t.last().0@;
        let v = t.last().1;
        match env_model(t.drop_last()) {
            Some(m) => if k == "build"@ {
                match table_scope_model(v) {
                    Some(sc) => Some(EnvModel { build: sc, ..m }),
                    None => None,
                }
            } else if k == "run"@ {
                match run_section_model(v) {
                    Some(r) => Some(EnvModel { run: r.run, run_targets: r.targets, ..m }),
                    None => None,
                }
            } else if k == "linux"@ {
                match table_scope_model(v) {
                    Some(sc) => Some(EnvModel { linux: sc, ..m }),
                    None => None,
                }
            } else if k == "macos"@ {
                match table_scope_model(v) {
                    Some(sc) => Some(EnvModel { macos: sc, ..m }),
                    None => None,
                }
            } else {
                match entry_model(v) {
                    Some(x) => Some(EnvModel { common: m.common.insert(k, x), ..m }),
                    None => None,
                }
            },
            None => None,
        }
    }
}

/// The `vars` table as ordered pairs; `None` when a value is not a string.
pub open spec fn vars_model(t: Seq<(String, RawEntry)>) -> Option<Seq<(Seq<char>, Seq<char>)>>
    decreases t.len(),
{
    if t.len() == 0 {
        Some(Seq::empty())
    } else {
        match (vars_model(t.drop_last()), t.last().1) {
            (Some(p), RawEntry::Text(x)) => Some(pairs_insert(p, t.last().0@, x@)),
            _ => None,
        }
    }
}

/// Why a document does not load.
pub enum LoadFailure {
    /// The text is not TOML.
    Syntax,
    /// `vars` is not a table of strings, or `env` is not a table.
    Shape,
    /// A `prepend` or `append` list holds a non-string.
    ValueType,
}

/// The configuration that a parsed document denotes for a project root.
/// `PROJECT_ROOT` is set last, over any variable of that name.
pub open spec fn config_model(doc: Option<RawEntry>, root: Seq<char>) -> Result<ConfigModel, LoadFailure> {
    match doc {
        None => Err(LoadFailure::Syntax),
        Some(RawEntry::Table(top)) => {
            let vars = match lookup(top@, "vars"@) {
                None => Some(Seq::empty()),
                Some(RawEntry::Table(vt)) => vars_model(vt@),
                Some(_) => None,
            };
            let env = match lookup(top@, "env"@) {
                None => Some(Some(empty_env_model())),
                Some(RawEntry::Table(et)) => Some(env_model(et@)),
                Some(_) => None,
            };
            if vars is None || env is None {
                Err(LoadFailure::Shape)
            } else {
                match env->0 {
                    None => Err(LoadFailure::ValueType),
                    Some(m) => Ok(
                        ConfigModel {
                            vars: pairs_insert(vars->0, "PROJECT_ROOT"@, root),
                            common: m.common,
                            build: m.build,
                            run: m.run,
                            run_targets: m.run_targets,
                            linux: m.linux,
                            macos: m.macos,
                        },
                    ),
                }
            }
        },
        Some(_) => Err(LoadFailure::Shape),
    }
}

/// A load result agrees with the model: the same configuration, or an
/// error of the matching kind.
pub open spec fn load_result_matches(
    r: Result<EnvConfig, ConfigError>,
    m: Result<ConfigModel, LoadFailure>,
) -> bool {
    match (r, m) {
        (Ok(c), Ok(x)) => c@ == x && c.wf(),
        (Err(ConfigError::Parse(_)), Err(LoadFailure::Syntax)) => true,
        (Err(ConfigError::Parse(_)), Err(LoadFailure::Shape)) => true,
        (Err(ConfigError::ValueType), Err(LoadFailure::ValueType)) => true,
        _ => false,
    }
}

/// The value under key `k` of a table.
fn lookup_entry<'a>(t: &'a Vec<(String, RawEntry)>, k: &str) -> (r: Option<&'a RawEntry>)
    ensures
        r is None <==> lookup(t@, k@) is None,
        r is Some ==> lookup(t@, k@) == Some(*r->0),
{
    let mut j: usize = t.len();
    assert(t@.subrange(0, j as int) =~= t@);
    while j > 0
        invariant
            j <= t@.len(),
            lookup(t@, k@) == lookup(t@.subrange(0, j as int), k@),
        decreases j,
    {
        assert(t@.subrange(0, j as int).drop_last() =~= t@.subrange(0, j - 1));
        if crate::text::same_text(t[j - 1].0.as_str(), k) {
            return Some(&t[j - 1].1);
        }
        j = j - 1;
    }
    None
}

/// The strings of an array, or `None` when an element is not a string.
fn string_list(items: &Vec<RawEntry>) -> (r: Option<Vec<String>>)
    ensures
        r is None <==> strings_of(items@) is None,
        r is Some ==> strings_of(items@) == Some(texts(r->0@)),
{
    let mut out: Vec<String> = Vec::new();
    let mut i: usize = 0;
    assert(items@.subrange(0, 0) =~= Seq::<RawEntry>::empty());
    assert(texts(out@) =~= Seq::<Seq<char>>::empty());
    while i < items.len()
        invariant
            i <= items@.len(),
            strings_of(items@.subrange(0, i as int)) == Some(texts(out@)),
        decreases items@.len() - i,
    {
        assert(items@.subrange(0, i + 1).drop_last() =~= items@.subrange(0, i as int));
        match &items[i] {
            RawEntry::Text(s) => {
                let ghost before = out@;
                out.push(s.clone());
                assert(texts(out@) =~= texts(before).push(s@));
            },
            _ => {
                proof {
                    lemma_strings_of_prefix(items@, i + 1);
                }
                return None;
            },
        }
        i = i + 1;
    }
    assert(items@.subrange(0, items@.len() as int) =~= items@);
    Some(out)
}

/// A non-string element makes the whole array fail.
proof fn lemma_strings_of_prefix(items: Seq<RawEntry>, i: int)
    requires
        0 <= i <= items.len(),
        strings_of(items.subrange(0, i)) is None,
    ensures
        strings_of(items) is None,
    decreases items.len() - i,
{
    if i < items.len() {
        assert(items.subrange(0, i + 1).drop_last() =~= items.subrange(0, i));
        lemma_strings_of_prefix(items, i + 1);
    } else {
        assert(items.subrange(0, i) =~= items);
    }
}

fn parse_list(items: &Vec<RawEntry>, append: bool) -> (r: Result<EnvValue, ConfigError>)
    ensures
        r is Ok <==> list_model(items@, append) is Some,
        r is Ok ==> list_model(items@, append) == Some(r->Ok_0@),
        r is Err ==> r->Err_0 == ConfigError::ValueType,
{
    match string_list(items) {
        Some(p) => if append {
            Ok(EnvValue::Append(p))
        } else {
            Ok(EnvValue::Prepend(p))
        },
        None => Err(ConfigError::ValueType),
    }
}

/// The entry that a value denotes (see [`entry_model`]).
pub fn parse_env_value(value: &RawEntry) -> (r: Result<EnvValue, ConfigError>)
    ensures
        r is Ok <==> entry_model(*value) is Some,
        r is Ok ==> entry_model(*value) == Some(r->Ok_0@),
        r is Err ==> r->Err_0 == ConfigError::ValueType,
{
    match value {
        RawEntry::Text(s) => Ok(EnvValue::Assign(s.clone())),
        RawEntry::List(items) => parse_list(items, false),
        RawEntry::Table(t) => {
            if let Some(RawEntry::List(items)) = lookup_entry(t, "prepend") {
                return parse_list(items, false);
            }
            if let Some(RawEntry::List(items)) = lookup_entry(t, "append") {
                return parse_list(items, true);
            }
            let r = EnvValue::Assign(String::new());
            assert(r@ == EnvValueModel::Assign(Seq::empty()));
            Ok(r)
        },
        RawEntry::Other => {
            let r = EnvValue::Assign(String::new());
            assert(r@ == EnvValueModel::Assign(Seq::empty()));
            Ok(r)
        },
    }
}

/// Whether a value under `run` is a target's scope (see [`is_target_model`]).
pub fn is_target_section(value: &RawEntry) -> (r: bool)
    ensures
        r == is_target_model(*value),
{
    match value {
        RawEntry::Table(t) => lookup_entry(t, "prepend").is_none() && lookup_entry(
            t,
            "append",
        ).is_none() && t.len() > 0,
        _ => false,
    }
}

proof fn lemma_scope_model_prefix(t: Seq<(String, RawEntry)>, i: int)
    requires
        0 <= i <= t.len(),
        scope_model(t.subrange(0, i)) is None,
    ensures
        scope_model(t) is None,
    decreases t.len() - i,
{
    if i < t.len() {
        assert(t.subrange(0, i + 1).drop_last() =~= t.subrange(0, i));
        lemma_scope_model_prefix(t, i + 1);
    } else {
        assert(t.subrange(0, i) =~= t);
    }
}

proof fn lemma_run_model_prefix(t: Seq<(String, RawEntry)>, i: int)
    requires
        0 <= i <= t.len(),
        run_model(t.subrange(0, i)) is None,
    ensures
        run_model(t) is None,
    decreases t.len() - i,
{
    if i < t.len() {
        assert(t.subrange(0, i + 1).drop_last() =~= t.subrange(0, i));
        lemma_run_model_prefix(t, i + 1);
    } else {
        assert(t.subrange(0, i) =~= t);
    }
}

proof fn lemma_env_model_prefix(t: Seq<(String, RawEntry)>, i: int)
    requires
        0 <= i <= t.len(),
        env_model(t.subrange(0, i)) is None,
    ensures
        env_model(t) is None,
    decreases t.len() - i,
{
    if i < t.len() {
        assert(t.subrange(0, i + 1).drop_last() =~= t.subrange(0, i));
        lemma_env_model_prefix(t, i + 1);
    } else {
        assert(t.subrange(0, i) =~= t);
    }
}

proof fn lemma_vars_model_prefix(t: Seq<(String, RawEntry)>, i: int)
    requires
        0 <= i <= t.len(),
        vars_model(t.subrange(0, i)) is None,
    ensures
        vars_model(t) is None,
    decreases t.len() - i,
{
    if i < t.len() {
        assert(t.subrange(0, i + 1).drop_last() =~= t.subrange(0, i));
        lemma_vars_model_prefix(t, i + 1);
    } else {
        assert(t.subrange(0, i) =~= t);
    }
}

/// The scope of a value: its entries when it is a table, else an empty one.
pub fn parse_env_table(value: &RawEntry) -> (r: Result<Scope, ConfigError>)
    ensures
        r is Ok <==> table_scope_model(*value) is Some,
        r is Ok ==> table_scope_model(*value) == Some(r->Ok_0@) && r->Ok_0.wf(),
        r is Err ==> r->Err_0 == ConfigError::ValueType,
{
    let mut result: Scope = NameMap::new();
    if let RawEntry::Table(t) = value {
        let mut i: usize = 0;
        assert(t@.subrange(0, 0) =~= Seq::<(String, RawEntry)>::empty());
        while i < t.len()
            invariant
                *value == RawEntry::Table(*t),
                i <= t@.len(),
                result.wf(),
                scope_model(t@.subrange(0, i as int)) == Some(result@),
            decreases t@.len() - i,
        {
            assert(t@.subrange(0, i + 1).drop_last() =~= t@.subrange(0, i as int));
            match parse_env_value(&t[i].1) {
                Ok(v) => {
                    result.insert(t[i].0.clone(), v);
                },
                Err(e) => {
                    proof {
                        lemma_scope_model_prefix(t@, i + 1);
                    }
                    return Err(e);
                },
            }
            i = i + 1;
        }
        assert(t@.subrange(0, t@.len() as int) =~= t@);
    }
    Ok(result)
}

/// The `run` section: entries for every run, and the scopes of targets.
pub fn parse_run_section(value: &RawEntry) -> (r: Result<(Scope, NameMap<Scope>), ConfigError>)
    ensures
        r is Ok <==> run_section_model(*value) is Some,
        r is Ok ==> ({
            let (run, targets) = r->Ok_0;
            &&& run_section_model(*value) == Some(RunModel { run: run@, targets: targets@ })
            &&& run.wf()
            &&& targets.wf()
            &&& forall|i: int|
                0 <= i < targets.entries@.len() ==> (#[trigger] targets.entries@[i]).1.wf()
        }),
        r is Err ==> r->Err_0 == ConfigError::ValueType,
{
    let mut run: Scope = NameMap::new();
    let mut targets: NameMap<Scope> = NameMap::new();
    if let RawEntry::Table(t) = value {
        let mut i: usize = 0;
        assert(t@.subrange(0, 0) =~= Seq::<(String, RawEntry)>::empty());
        while i < t.len()
            invariant
                *value == RawEntry::Table(*t),
                i <= t@.len(),
                run.wf(),
                targets.wf(),
                forall|j: int|
                    0 <= j < targets.entries@.len() ==> (#[trigger] targets.entries@[j]).1.wf(),
                run_model(t@.subrange(0, i as int)) == Some(RunModel { run: run@, targets: targets@ }),
            decreases t@.len() - i,
        {
            assert(t@.subrange(0, i + 1).drop_last() =~= t@.subrange(0, i as int));
            if is_target_section(&t[i].1) {
                match parse_env_table(&t[i].1) {
                    Ok(sc) => {
                        let ghost before = targets.entries@;
                        let ghost idx = crate::name_map::index_of(targets.pairs(), t@[i as int].0@);
                        let name = t[i].0.clone();
                        let ghost entry = (name, sc);
                        assert(entry.1.wf());
                        let ghost oldp = targets.pairs();
                        proof {
                            crate::name_map::lemma_index_of(oldp, name@);
                        }
                        assert(oldp.len() == before.len());
                        targets.insert(name, sc);
                        assert forall|j: int|
                            0 <= j < targets.entries@.len() implies (
                            #[trigger] targets.entries@[j]).1.wf() by {
                            if (idx >= 0 && j == idx) || (idx < 0 && j == before.len()) {
                                assert(targets.entries@[j] == entry);
                            } else {
                                assert(targets.entries@[j] == before[j]);
                            }
                        }
                    },
                    Err(e) => {
                        proof {
                            lemma_run_model_prefix(t@, i + 1);
                        }
                        return Err(e);
                    },
                }
            } else {
                match parse_env_value(&t[i].1) {
                    Ok(v) => {
                        run.insert(t[i].0.clone(), v);
                    },
                    Err(e) => {
                        proof {
                            lemma_run_model_prefix(t@, i + 1);
                        }
                        return Err(e);
                    },
                }
            }
            i = i + 1;
        }
        assert(t@.subrange(0, t@.len() as int) =~= t@);
    }
    Ok((run, targets))
}

/// The variables of a `vars` table, in order; `None` when a value is not a
/// string.
fn parse_vars(t: &Vec<(String, RawEntry)>) -> (r: Option<VarTable>)
    ensures
        r is None <==> vars_model(t@) is None,
        r is Some ==> vars_model(t@) == Some(r->0.pairs()) && r->0.wf(),
{
    let mut vars: VarTable = NameMap::new();
    let mut i: usize = 0;
    assert(t@.subrange(0, 0) =~= Seq::<(String, RawEntry)>::empty());
    while i < t.len()
        invariant
            i <= t@.len(),
            vars.wf(),
            vars_model(t@.subrange(0, i as int)) == Some(vars.pairs()),
        decreases t@.len() - i,
    {
        assert(t@.subrange(0, i + 1).drop_last() =~= t@.subrange(0, i as int));
        match &t[i].1 {
            RawEntry::Text(x) => {
                vars.insert(t[i].0.clone(), x.clone());
            },
            _ => {
                proof {
                    lemma_vars_model_prefix(t@, i + 1);
                }
                return None;
            },
        }
        i = i + 1;
    }
    assert(t@.subrange(0, t@.len() as int) =~= t@);
    Some(vars)
}

/// The scopes of an `env` table, added to a configuration with empty
/// scopes.
fn parse_env(t: &Vec<(String, RawEntry)>, config: &mut EnvConfig) -> (r: Result<(), ConfigError>)
    requires
        old(config).wf(),
        env_part(old(config)@) == empty_env_model(),
    ensures
        final(config).wf(),
        final(config)@.vars == old(config)@.vars,
        r is Ok <==> env_model(t@) is Some,
        r is Ok ==> env_model(t@) == Some(env_part(final(config)@)),
        r is Err ==> r->Err_0 == ConfigError::ValueType,
{
    let mut i: usize = 0;
    let ghost vars0 = config@.vars;
    assert(t@.subrange(0, 0) =~= Seq::<(String, RawEntry)>::empty());
    while i < t.len()
        invariant
            i <= t@.len(),
            config.wf(),
            config@.vars == vars0,
            vars0 == old(config)@.vars,
            env_model(t@.subrange(0, i as int)) == Some(env_part(config@)),
        decreases t@.len() - i,
    {
        assert(t@.subrange(0, i + 1).drop_last() =~= t@.subrange(0, i as int));
        let key = t[i].0.as_str();
        let value = &t[i].1;
        let step = if crate::text::same_text(key, "build") {
            match parse_env_table(value) {
                Ok(sc) => {
                    config.build = sc;
                    Ok(())
                },
                Err(e) => Err(e),
            }
        } else if crate::text::same_text(key, "run") {
            match parse_run_section(value) {
                Ok((run, targets)) => {
                    config.run = run;
                    config.run_targets = targets;
                    Ok(())
                },
                Err(e) => Err(e),
            }
        } else if crate::text::same_text(key, "linux") {
            match parse_env_table(value) {
                Ok(sc) => {
                    config.linux = sc;
                    Ok(())
                },
                Err(e) => Err(e),
            }
        } else if crate::text::same_text(key, "macos") {
            match parse_env_table(value) {
                Ok(sc) => {
                    config.macos = sc;
                    Ok(())
                },
                Err(e) => Err(e),
            }
        } else {
            match parse_env_value(value) {
                Ok(v) => {
                    config.common.insert(t[i].0.clone(), v);
                    Ok(())
                },
                Err(e) => Err(e),
            }
        };
        if let Err(e) = step {
            proof {
                lemma_env_model_prefix(t@, i + 1);
            }
            return Err(e);
        }
        i = i + 1;
    }
    assert(t@.subrange(0, t@.len() as int) =~= t@);
    Ok(())
}

impl EnvConfig {
    /// Reads configuration text for the project at `project_root`.
    /// `PROJECT_ROOT` is set to `project_root`, over any variable of that
    /// name in the text.
    pub fn parse(content: &str, project_root: &str) -> (r: Result<EnvConfig, ConfigError>)
        ensures
            load_result_matches(r, config_model(toml_document(content@), project_root@)),
    {
        match parse_toml(content) {
            Ok(doc) => EnvConfig::from_document(&doc, project_root),
            Err(msg) => Err(ConfigError::Parse(msg)),
        }
    }

    /// The configuration that a parsed document denotes for the project at
    /// `project_root` (see [`config_model`]).
    pub fn from_document(doc: &RawEntry, project_root: &str) -> (r: Result<EnvConfig, ConfigError>)
        ensures
            load_result_matches(r, config_model(Some(*doc), project_root@)),
    {
        let top = match doc {
            RawEntry::Table(t) => t,
            _ => {
                return Err(ConfigError::Parse(String::from_str("the document is not a table")));
            },
        };
        let mut vars = match lookup_entry(top, "vars") {
            None => NameMap::new(),
            Some(RawEntry::Table(vt)) => match parse_vars(vt) {
                Some(v) => v,
                None => {
                    return Err(
                        ConfigError::Parse(String::from_str("`vars` must map names to strings")),
                    );
                },
            },
            Some(_) => {
                return Err(ConfigError::Parse(String::from_str("`vars` must be a table")));
            },
        };
        let env = lookup_entry(top, "env");
        match env {
            None | Some(RawEntry::Table(_)) => {},
            Some(_) => {
                return Err(ConfigError::Parse(String::from_str("`env` must be a table")));
            },
        }
        vars.insert(String::from_str("PROJECT_ROOT"), String::from_str(project_root));
        let mut config = EnvConfig::new(project_root);
        config.vars = vars;
        assert(env_part(config@) == empty_env_model());
        if let Some(RawEntry::Table(et)) = env {
            let r = parse_env(et, &mut config);
            if let Err(e) = r {
                return Err(e);
            }
        }
        Ok(config)
    }

    /// The configuration of a project, given the text of its configuration
    /// file, or `None` when it has none: then every scope is empty.
    pub fn load(content: Option<&str>, project_root: &str) -> (r: Result<EnvConfig, ConfigError>)
        ensures
            content is Some ==> load_result_matches(
                r,
                config_model(toml_document(content->0@), project_root@),
            ),
            content is None ==> r is Ok && r->Ok_0.wf() && r->Ok_0@.vars == seq![
                ("PROJECT_ROOT"@, project_root@),
            ] && env_part(r->Ok_0@) == empty_env_model(),
    {
        match content {
            Some(text) => EnvConfig::parse(text, project_root),
            None => {
                let c = EnvConfig::new(project_root);
                assert(env_part(c@) == empty_env_model());
                Ok(c)
            },
        }
    }
}

/// Every configuration that loads binds `PROJECT_ROOT` to the project root,
/// also when the file declares a variable of that name.
pub proof fn lemma_project_root_wins(doc: Option<RawEntry>, root: Seq<char>)
    requires
        config_model(doc, root) is Ok,
    ensures
        map_of(config_model(doc, root)->Ok_0.vars).contains_key("PROJECT_ROOT"@),
        map_of(config_model(doc, root)->Ok_0.vars)["PROJECT_ROOT"@] == root,
{
    if let Some(RawEntry::Table(top)) = doc {
        let vars = match lookup(top@, "vars"@) {
            None => Some(Seq::empty()),
            Some(RawEntry::Table(vt)) => vars_model(vt@),
            Some(_) => None,
        };
        lemma_pairs_insert(vars->0, "PROJECT_ROOT"@, root);
    }
}

/// A project without a configuration file also binds `PROJECT_ROOT` to its
/// root, and has empty scopes.
pub proof fn lemma_absent_file(root: Seq<char>)
    ensures
        map_of(seq![("PROJECT_ROOT"@, root)]).contains_key("PROJECT_ROOT"@),
        map_of(seq![("PROJECT_ROOT"@, root)])["PROJECT_ROOT"@] == root,
{
    let p: Seq<(Seq<char>, Seq<char>)> = Seq::empty();
    assert(p.push(("PROJECT_ROOT"@, root)) =~= seq![("PROJECT_ROOT"@, root)]);
    lemma_map_of_push(p, "PROJECT_ROOT"@, root);
}

} // verus!
