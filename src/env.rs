//! The environment configuration of a project and its resolution into the
//! variables handed to build and run tools.
use crate::expand::{expand_model, expand_text};
use crate::name_map::{
    NameMap, lemma_index_of, lemma_map_of_dom, lemma_map_of_push, lemma_map_of_unique,
    map_of,
};
use crate::text::join_colon;
use crate::value::{EnvValue, EnvValueModel, resolve_model, text_of, texts};
use vstd::prelude::*;

verus! {

/// Why loading or resolving a configuration failed.
#[derive(Debug, Clone, PartialEq, Eq)]
pub enum ConfigError {
    /// The text is not well-formed, or a section has the wrong shape.
    Parse(String),
    /// A `prepend` or `append` list holds something other than a string.
    ValueType,
    /// A variable keeps expanding: it refers to itself, directly or not.
    ExpansionCycle,
}

/// The host platform, which selects the platform scope.
#[derive(Debug, Clone, Copy, PartialEq, Eq)]
pub enum Platform {
    Linux,
    MacOs,
}

/// Entries of one scope: names mapped to how they are set.
pub type Scope = NameMap<EnvValue>;

/// The variable table, the ambient environment, and resolved environments.
pub type VarTable = NameMap<String>;

/// The content of a configuration.
pub struct ConfigModel {
    /// Variables for expansion, in order.
    pub vars: Seq<(Seq<char>, Seq<char>)>,
    pub common: Map<Seq<char>, EnvValueModel>,
    pub build: Map<Seq<char>, EnvValueModel>,
    pub run: Map<Seq<char>, EnvValueModel>,
    pub run_targets: Map<Seq<char>, Map<Seq<char>, EnvValueModel>>,
    pub linux: Map<Seq<char>, EnvValueModel>,
    pub macos: Map<Seq<char>, EnvValueModel>,
}

/// A project's environment configuration.
#[derive(Debug)]
pub struct EnvConfig {
    /// Variables available as `${NAME}` placeholders.
    pub vars: VarTable,
    /// Entries for every command.
    pub common: Scope,
    /// Entries for build commands.
    pub build: Scope,
    /// Entries for every run of a target.
    pub run: Scope,
    /// Entries for runs of one named target.
    pub run_targets: NameMap<Scope>,
    /// Entries on Linux (and any platform other than macOS).
    pub linux: Scope,
    /// Entries on macOS.
    pub macos: Scope,
}

impl View for EnvConfig {
    type V = ConfigModel;

    open spec fn view(&self) -> ConfigModel {
        ConfigModel {
            vars: self.vars.pairs(),
            common: self.common@,
            build: self.build@,
            run: self.run@,
            run_targets: self.run_targets@,
            linux: self.linux@,
            macos: self.macos@,
        }
    }
}

/// Each path of the list expanded; `None` when one of them fails.
pub open spec fn expand_all(
    p: Seq<Seq<char>>,
    build_dir: Option<Seq<char>>,
    vars: Seq<(Seq<char>, Seq<char>)>,
) -> Option<Seq<Seq<char>>>
    decreases p.len(),
{
    if p.len() == 0 {
        Some(Seq::empty())
    } else {
        match (expand_all(p.drop_last(), build_dir, vars), expand_model(p.last(), build_dir, vars)) {
            (Some(q), Some(x)) => Some(q.push(x)),
            _ => None,
        }
    }
}

/// An entry with every string in it expanded.
pub open spec fn expand_value_model(
    v: EnvValueModel,
    build_dir: Option<Seq<char>>,
    vars: Seq<(Seq<char>, Seq<char>)>,
) -> Option<EnvValueModel> {
    match v {
        EnvValueModel::Assign(s) => match expand_model(s, build_dir, vars) {
            Some(t) => Some(EnvValueModel::Assign(t)),
            None => None,
        },
        EnvValueModel::Prepend(p) => match expand_all(p, build_dir, vars) {
            Some(q) => Some(EnvValueModel::Prepend(q)),
            None => None,
        },
        EnvValueModel::Append(p) => match expand_all(p, build_dir, vars) {
            Some(q) => Some(EnvValueModel::Append(q)),
            None => None,
        },
    }
}

/// The value a variable has before a layer sets it: the one resolved so far,
/// else the ambient one.
pub open spec fn existing_for(
    acc: Map<Seq<char>, Seq<char>>,
    ambient: Map<Seq<char>, Seq<char>>,
    k: Seq<char>,
) -> Option<Seq<char>> {
    if acc.contains_key(k) {
        Some(acc[k])
    } else if ambient.contains_key(k) {
        Some(ambient[k])
    } else {
        None
    }
}

/// Every entry of the layer expands.
pub open spec fn layer_expands(
    layer: Map<Seq<char>, EnvValueModel>,
    build_dir: Option<Seq<char>>,
    vars: Seq<(Seq<char>, Seq<char>)>,
) -> bool {
    forall|k: Seq<char>| #[trigger]
        layer.contains_key(k) ==> expand_value_model(layer[k], build_dir, vars) is Some
}

/// `acc` after applying a layer whose entries all expand: each variable of
/// the layer is resolved against its value in `acc`, or the ambient one.
pub open spec fn apply_layer_model(
    acc: Map<Seq<char>, Seq<char>>,
    layer: Map<Seq<char>, EnvValueModel>,
    build_dir: Option<Seq<char>>,
    vars: Seq<(Seq<char>, Seq<char>)>,
    ambient: Map<Seq<char>, Seq<char>>,
) -> Map<Seq<char>, Seq<char>> {
    Map::new(
        |k: Seq<char>| acc.contains_key(k) || layer.contains_key(k),
        |k: Seq<char>|
            if layer.contains_key(k) {
                resolve_model(
                    expand_value_model(layer[k], build_dir, vars)->0,
                    existing_for(acc, ambient, k),
                )
            } else {
                acc[k]
            },
    )
}

/// One layer applied to the outcome so far; `None` once an expansion fails.
pub open spec fn layer_step(
    acc: Option<Map<Seq<char>, Seq<char>>>,
    layer: Map<Seq<char>, EnvValueModel>,
    build_dir: Option<Seq<char>>,
    vars: Seq<(Seq<char>, Seq<char>)>,
    ambient: Map<Seq<char>, Seq<char>>,
) -> Option<Map<Seq<char>, Seq<char>>> {
    match acc {
        Some(a) => if layer_expands(layer, build_dir, vars) {
            Some(apply_layer_model(a, layer, build_dir, vars, ambient))
        } else {
            None
        },
        None => None,
    }
}

/// The scope of the platform.
pub open spec fn platform_model(c: ConfigModel, platform: Platform) -> Map<Seq<char>, EnvValueModel> {
    match platform {
        Platform::MacOs => c.macos,
        Platform::Linux => c.linux,
    }
}

/// The build environment: `common`, then the platform scope, then `build`.
pub open spec fn build_env_model(
    c: ConfigModel,
    platform: Platform,
    build_dir: Option<Seq<char>>,
    ambient: Map<Seq<char>, Seq<char>>,
) -> Option<Map<Seq<char>, Seq<char>>> {
    let a = layer_step(Some(Map::empty()), c.common, build_dir, c.vars, ambient);
    let b = layer_step(a, platform_model(c, platform), build_dir, c.vars, ambient);
    layer_step(b, c.build, build_dir, c.vars, ambient)
}

/// The run environment: `common`, the platform scope, `run`, then the
/// target's own scope when a target is named and has one.
pub open spec fn run_env_model(
    c: ConfigModel,
    platform: Platform,
    target: Option<Seq<char>>,
    build_dir: Option<Seq<char>>,
    ambient: Map<Seq<char>, Seq<char>>,
) -> Option<Map<Seq<char>, Seq<char>>> {
    let a = layer_step(Some(Map::empty()), c.common, build_dir, c.vars, ambient);
    let b = layer_step(a, platform_model(c, platform), build_dir, c.vars, ambient);
    let d = layer_step(b, c.run, build_dir, c.vars, ambient);
    if target is Some && c.run_targets.contains_key(target->0) {
        layer_step(d, c.run_targets[target->0], build_dir, c.vars, ambient)
    } else {
        d
    }
}

/// A result that is `Ok` exactly when the model is `Some`, with its content.
pub open spec fn env_result_matches(
    r: Result<VarTable, ConfigError>,
    m: Option<Map<Seq<char>, Seq<char>>>,
) -> bool {
    match r {
        Ok(t) => m == Some(t@) && t.wf(),
        Err(e) => m is None && e == ConfigError::ExpansionCycle,
    }
}

impl EnvConfig {
    pub open spec fn wf(&self) -> bool {
        &&& self.vars.wf()
        &&& self.common.wf()
        &&& self.build.wf()
        &&& self.run.wf()
        &&& self.run_targets.wf()
        &&& forall|i: int|
            0 <= i < self.run_targets.entries@.len() ==> (#[trigger] self.run_targets.entries@[i]).1.wf()
        &&& self.linux.wf()
        &&& self.macos.wf()
    }

    /// Expands `${NAME}` placeholders in `s`, after putting `build_dir` for
    /// `${PROJECT_BUILD_ROOT}` when it is given.
    pub fn expand_vars(&self, s: &str, build_dir: Option<&str>) -> (r: Result<String, ConfigError>)
        ensures
            r is Ok <==> expand_model(s@, text_of(build_dir), self.vars.pairs()) is Some,
            r is Ok ==> expand_model(s@, text_of(build_dir), self.vars.pairs()) == Some(r->Ok_0@),
            r is Err ==> r->Err_0 == ConfigError::ExpansionCycle,
    {
        match expand_text(s, build_dir, &self.vars) {
            Some(t) => Ok(t),
            None => Err(ConfigError::ExpansionCycle),
        }
    }

    fn expand_paths(&self, paths: &Vec<String>, build_dir: Option<&str>) -> (r: Result<
        Vec<String>,
        ConfigError,
    >)
        ensures
            r is Ok <==> expand_all(texts(paths@), text_of(build_dir), self.vars.pairs()) is Some,
            r is Ok ==> expand_all(texts(paths@), text_of(build_dir), self.vars.pairs()) == Some(
                texts(r->Ok_0@),
            ),
            r is Err ==> r->Err_0 == ConfigError::ExpansionCycle,
    {
        let ghost t = texts(paths@);
        let ghost bd = text_of(build_dir);
        let ghost vs = self.vars.pairs();
        let mut out: Vec<String> = Vec::new();
        let mut i: usize = 0;
        assert(t.subrange(0, 0) =~= Seq::<Seq<char>>::empty());
        assert(texts(out@) =~= Seq::<Seq<char>>::empty());
        while i < paths.len()
            invariant
                t == texts(paths@),
                t.len() == paths@.len(),
                bd == text_of(build_dir),
                vs == self.vars.pairs(),
                i <= paths.len(),
                expand_all(t.subrange(0, i as int), bd, vs) == Some(texts(out@)),
            decreases paths.len() - i,
        {
            assert(t.subrange(0, i + 1).drop_last() =~= t.subrange(0, i as int));
            assert(t[i as int] == paths@[i as int]@);
            match self.expand_vars(paths[i].as_str(), build_dir) {
                Ok(x) => {
                    let ghost before = out@;
                    out.push(x);
                    assert(texts(out@) =~= texts(before).push(out@.last()@));
                },
                Err(e) => {
                    proof {
                        lemma_expand_all_prefix(t, bd, vs, i + 1);
                    }
                    return Err(e);
                },
            }
            i = i + 1;
        }
        assert(t.subrange(0, paths.len() as int) =~= t);
        Ok(out)
    }

    /// The entry with every string in it expanded.
    pub fn expand_env_value(&self, value: &EnvValue, build_dir: Option<&str>) -> (r: Result<
        EnvValue,
        ConfigError,
    >)
        ensures
            r is Ok <==> expand_value_model(value@, text_of(build_dir), self.vars.pairs()) is Some,
            r is Ok ==> expand_value_model(value@, text_of(build_dir), self.vars.pairs()) == Some(
                r->Ok_0@,
            ),
            r is Err ==> r->Err_0 == ConfigError::ExpansionCycle,
    {
        match value {
            EnvValue::Assign(s) => match self.expand_vars(s.as_str(), build_dir) {
                Ok(t) => Ok(EnvValue::Assign(t)),
                Err(e) => Err(e),
            },
            EnvValue::Prepend(paths) => match self.expand_paths(paths, build_dir) {
                Ok(q) => Ok(EnvValue::Prepend(q)),
                Err(e) => Err(e),
            },
            EnvValue::Append(paths) => match self.expand_paths(paths, build_dir) {
                Ok(q) => Ok(EnvValue::Append(q)),
                Err(e) => Err(e),
            },
        }
    }

    /// Resolves each entry of `layer` into `result`: the entry is expanded,
    /// then merged with the value in `result`, or else the ambient one.
    fn apply_layer(
        &self,
        result: &mut VarTable,
        layer: &Scope,
        build_dir: Option<&str>,
        ambient: &VarTable,
    ) -> (r: Result<(), ConfigError>)
        requires
            old(result).wf(),
            layer.wf(),
        ensures
            final(result).wf(),
            r is Ok <==> layer_expands(layer@, text_of(build_dir), self.vars.pairs()),
            r is Ok ==> final(result)@ == apply_layer_model(
                old(result)@,
                layer@,
                text_of(build_dir),
                self.vars.pairs(),
                ambient@,
            ),
            r is Err ==> r->Err_0 == ConfigError::ExpansionCycle,
    {
        let ghost acc = result@;
        let ghost p = layer.pairs();
        let ghost bd = text_of(build_dir);
        let ghost vs = self.vars.pairs();
        let mut i: usize = 0;
        assert(p.subrange(0, 0) =~= Seq::<(Seq<char>, EnvValueModel)>::empty());
        assert(map_of(p.subrange(0, 0)) =~= Map::<Seq<char>, EnvValueModel>::empty());
        assert(result@ =~= apply_layer_model(acc, map_of(p.subrange(0, 0)), bd, vs, ambient@));
        while i < layer.len()
            invariant
                p == layer.pairs(),
                p.len() == layer.entries@.len(),
                layer.wf(),
                bd == text_of(build_dir),
                vs == self.vars.pairs(),
                i <= p.len(),
                result.wf(),
                layer_expands(map_of(p.subrange(0, i as int)), bd, vs),
                result@ == apply_layer_model(acc, map_of(p.subrange(0, i as int)), bd, vs, ambient@),
            decreases p.len() - i,
        {
            let ghost done = map_of(p.subrange(0, i as int));
            let key = &layer.entries[i].0;
            let ghost k = key@;
            proof {
                lemma_map_of_unique(p, i as int);
                assert(p.subrange(0, i + 1) =~= p.subrange(0, i as int).push(p[i as int]));
                lemma_map_of_push(p.subrange(0, i as int), p[i as int].0, p[i as int].1);
                lemma_map_of_dom(p.subrange(0, i as int), k);
                if done.contains_key(k) {
                    let j = choose|j: int| 0 <= j < i && p.subrange(0, i as int)[j].0 == k;
                    assert(p[j].0 == p[i as int].0);
                }
            }
            let expanded = match self.expand_env_value(&layer.entries[i].1, build_dir) {
                Ok(v) => v,
                Err(e) => {
                    return Err(e);
                },
            };
            let resolved = match result.get(key.as_str()) {
                Some(v) => expanded.resolve(Some(v.as_str())),
                None => match ambient.get(key.as_str()) {
                    Some(v) => expanded.resolve(Some(v.as_str())),
                    None => expanded.resolve(None),
                },
            };
            assert(existing_for(result@, ambient@, k) == existing_for(acc, ambient@, k));
            let ghost before = result@;
            result.insert(key.clone(), resolved);
            proof {
                let next = map_of(p.subrange(0, i + 1));
                assert(next == done.insert(k, p[i as int].1));
                assert forall|x: Seq<char>| #[trigger] next.contains_key(x) implies expand_value_model(
                    next[x],
                    bd,
                    vs,
                ) is Some by {
                    if x != k {
                        assert(done.contains_key(x));
                    }
                }
                assert(result@ =~= apply_layer_model(acc, next, bd, vs, ambient@));
            }
            i = i + 1;
        }
        assert(p.subrange(0, p.len() as int) =~= p);
        Ok(())
    }

    /// A configuration with every scope empty and `PROJECT_ROOT` as its only
    /// variable: what a project without a configuration file has.
    pub fn new(project_root: &str) -> (r: Self)
        ensures
            r.wf(),
            r@.vars == seq![("PROJECT_ROOT"@, project_root@)],
            r@.common == Map::<Seq<char>, EnvValueModel>::empty(),
            r@.build == Map::<Seq<char>, EnvValueModel>::empty(),
            r@.run == Map::<Seq<char>, EnvValueModel>::empty(),
            r@.run_targets == Map::<Seq<char>, Map<Seq<char>, EnvValueModel>>::empty(),
            r@.linux == Map::<Seq<char>, EnvValueModel>::empty(),
            r@.macos == Map::<Seq<char>, EnvValueModel>::empty(),
    {
        let mut vars = NameMap::new();
        vars.insert(String::from_str("PROJECT_ROOT"), String::from_str(project_root));
        assert(vars.pairs() =~= seq![("PROJECT_ROOT"@, project_root@)]);
        let run_targets: NameMap<Scope> = NameMap::new();
        EnvConfig {
            vars,
            common: NameMap::new(),
            build: NameMap::new(),
            run: NameMap::new(),
            run_targets,
            linux: NameMap::new(),
            macos: NameMap::new(),
        }
    }

    /// The environment for build commands: `common`, then the platform
    /// scope, then `build`. `ambient` is the environment of the calling
    /// process, consulted for variables no earlier layer has set.
    pub fn build_env(&self, platform: Platform, build_dir: Option<&str>, ambient: &VarTable) -> (r:
        Result<VarTable, ConfigError>)
        requires
            self.wf(),
        ensures
            env_result_matches(r, build_env_model(self@, platform, text_of(build_dir), ambient@)),
    {
        let mut result = NameMap::new();
        let r1 = self.apply_layer(&mut result, &self.common, build_dir, ambient);
        if r1.is_err() {
            return Err(ConfigError::ExpansionCycle);
        }
        let r2 = self.apply_layer(&mut result, self.platform_env(platform), build_dir, ambient);
        if r2.is_err() {
            return Err(ConfigError::ExpansionCycle);
        }
        let r3 = self.apply_layer(&mut result, &self.build, build_dir, ambient);
        if r3.is_err() {
            return Err(ConfigError::ExpansionCycle);
        }
        Ok(result)
    }

    /// The environment for running a target: `common`, the platform scope,
    /// `run`, then the target's own scope when `target_name` names one.
    pub fn run_env(
        &self,
        platform: Platform,
        target_name: Option<&str>,
        build_dir: Option<&str>,
        ambient: &VarTable,
    ) -> (r: Result<VarTable, ConfigError>)
        requires
            self.wf(),
        ensures
            env_result_matches(
                r,
                run_env_model(self@, platform, text_of(target_name), text_of(build_dir), ambient@),
            ),
    {
        let mut result = NameMap::new();
        let r1 = self.apply_layer(&mut result, &self.common, build_dir, ambient);
        if r1.is_err() {
            return Err(ConfigError::ExpansionCycle);
        }
        let r2 = self.apply_layer(&mut result, self.platform_env(platform), build_dir, ambient);
        if r2.is_err() {
            return Err(ConfigError::ExpansionCycle);
        }
        let r3 = self.apply_layer(&mut result, &self.run, build_dir, ambient);
        if r3.is_err() {
            return Err(ConfigError::ExpansionCycle);
        }
        if let Some(name) = target_name {
            if let Some(i) = self.run_targets.position(name) {
                proof {
                    lemma_index_of(self.run_targets.pairs(), name@);
                }
                assert(self.run_targets.pairs().len() == self.run_targets.entries@.len());
                let target = &self.run_targets.entries[i].1;
                assert(target.wf());
                let r4 = self.apply_layer(&mut result, target, build_dir, ambient);
                if r4.is_err() {
                    return Err(ConfigError::ExpansionCycle);
                }
            }
        }
        Ok(result)
    }

    /// The scope of the given platform.
    pub fn platform_env(&self, platform: Platform) -> (r: &Scope)
        ensures
            r@ == platform_model(self@, platform),
            self.wf() ==> r.wf(),
    {
        match platform {
            Platform::MacOs => &self.macos,
            Platform::Linux => &self.linux,
        }
    }
}

/// A failure to expand some path makes the whole list fail.
proof fn lemma_expand_all_prefix(
    t: Seq<Seq<char>>,
    bd: Option<Seq<char>>,
    vs: Seq<(Seq<char>, Seq<char>)>,
    i: int,
)
    requires
        0 <= i <= t.len(),
        expand_all(t.subrange(0, i), bd, vs) is None,
    ensures
        expand_all(t, bd, vs) is None,
    decreases t.len() - i,
{
    if i < t.len() {
        assert(t.subrange(0, i + 1).drop_last() =~= t.subrange(0, i));
        lemma_expand_all_prefix(t, bd, vs, i + 1);
    } else {
        assert(t.subrange(0, i) =~= t);
    }
}

/// With every scope empty, the build and run environments are empty, for
/// any platform, target, build directory and ambient environment.
pub proof fn lemma_empty_scopes_resolve_empty(
    c: ConfigModel,
    platform: Platform,
    target: Option<Seq<char>>,
    build_dir: Option<Seq<char>>,
    ambient: Map<Seq<char>, Seq<char>>,
)
    requires
        c.common == Map::<Seq<char>, EnvValueModel>::empty(),
        c.build == Map::<Seq<char>, EnvValueModel>::empty(),
        c.run == Map::<Seq<char>, EnvValueModel>::empty(),
        c.run_targets == Map::<Seq<char>, Map<Seq<char>, EnvValueModel>>::empty(),
        c.linux == Map::<Seq<char>, EnvValueModel>::empty(),
        c.macos == Map::<Seq<char>, EnvValueModel>::empty(),
    ensures
        build_env_model(c, platform, build_dir, ambient) == Some(Map::<Seq<char>, Seq<char>>::empty()),
        run_env_model(c, platform, target, build_dir, ambient) == Some(
            Map::<Seq<char>, Seq<char>>::empty(),
        ),
{
    let e = Map::<Seq<char>, Seq<char>>::empty();
    let none = Map::<Seq<char>, EnvValueModel>::empty();
    assert(layer_expands(none, build_dir, c.vars));
    assert(apply_layer_model(e, none, build_dir, c.vars, ambient) =~= e);
}

/// In the build environment an `Assign` entry of the `build` scope decides
/// the variable, whatever the earlier layers or the ambient environment set.
pub proof fn lemma_build_assign_wins(
    c: ConfigModel,
    platform: Platform,
    build_dir: Option<Seq<char>>,
    ambient: Map<Seq<char>, Seq<char>>,
    k: Seq<char>,
    v: Seq<char>,
)
    requires
        c.build.contains_key(k),
        c.build[k] == EnvValueModel::Assign(v),
        build_env_model(c, platform, build_dir, ambient) is Some,
    ensures
        build_env_model(c, platform, build_dir, ambient)->0.contains_key(k),
        Some(build_env_model(c, platform, build_dir, ambient)->0[k]) == expand_model(
            v,
            build_dir,
            c.vars,
        ),
{
    let a = layer_step(Some(Map::empty()), c.common, build_dir, c.vars, ambient);
    let b = layer_step(a, platform_model(c, platform), build_dir, c.vars, ambient);
    assert(b is Some);
    assert(layer_expands(c.build, build_dir, c.vars));
    assert(expand_value_model(c.build[k], build_dir, c.vars) is Some);
}

/// In the build environment a `Prepend` of the `build` scope goes in front
/// of a `Prepend` of `common` for the same variable, when the platform scope
/// and the ambient environment leave that variable alone.
pub proof fn lemma_build_prepends_compose(
    c: ConfigModel,
    platform: Platform,
    build_dir: Option<Seq<char>>,
    ambient: Map<Seq<char>, Seq<char>>,
    k: Seq<char>,
    first: Seq<Seq<char>>,
    second: Seq<Seq<char>>,
)
    requires
        c.common.contains_key(k),
        c.common[k] == EnvValueModel::Prepend(first),
        c.build.contains_key(k),
        c.build[k] == EnvValueModel::Prepend(second),
        !platform_model(c, platform).contains_key(k),
        !ambient.contains_key(k),
        build_env_model(c, platform, build_dir, ambient) is Some,
        join_colon(expand_all(first, build_dir, c.vars)->0).len() > 0,
    ensures
        build_env_model(c, platform, build_dir, ambient)->0.contains_key(k),
        build_env_model(c, platform, build_dir, ambient)->0[k] == join_colon(
            expand_all(second, build_dir, c.vars)->0,
        ) + seq![':'] + join_colon(expand_all(first, build_dir, c.vars)->0),
{
    let a = layer_step(Some(Map::empty()), c.common, build_dir, c.vars, ambient);
    let b = layer_step(a, platform_model(c, platform), build_dir, c.vars, ambient);
    assert(a is Some);
    assert(b is Some);
    assert(layer_expands(c.common, build_dir, c.vars));
    assert(expand_value_model(c.common[k], build_dir, c.vars) is Some);
    assert(layer_expands(c.build, build_dir, c.vars));
    assert(expand_value_model(c.build[k], build_dir, c.vars) is Some);
    assert(a->0[k] == join_colon(expand_all(first, build_dir, c.vars)->0));
    assert(b->0[k] == a->0[k]);
}

} // verus!
