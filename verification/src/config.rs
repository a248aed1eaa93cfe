//! A configuration: the variables that every environment has, and what each
//! named environment sets in their place or beside them.

use crate::diff::{
    diff, difference, entries_of, in_diff_order, lemma_difference_symmetric, names_in, reversed,
    unique_keys, DiffEntry, DiffResult,
};
use crate::error::{ConfigError, Failure};
use crate::names::{ascending, in_order, names_of};
use crate::sorted::sorted_by_name;
use crate::sorted_map::SortedMap;
use crate::variable::{keyed_by_name, EnvVariable, EnvVariableMap, Variable};
use vstd::prelude::*;

verus! {

/// What a configuration holds.
pub struct Configuration {
    /// The path of the file that the configuration was read from.
    pub source_file: Seq<char>,
    /// The variables of every environment.
    pub defaults: Map<Seq<char>, Variable>,
    /// For each environment, by name, the variables that it sets itself.
    pub overrides: Map<Seq<char>, Map<Seq<char>, Variable>>,
}

/// The variables of the process that a set of variables also names, each
/// with the value that the process has for it.
pub open spec fn known_to_process(
    process: Map<Seq<char>, Seq<char>>,
    variables: Map<Seq<char>, Variable>,
) -> Map<Seq<char>, Variable> {
    Map::new(
        |name: Seq<char>| process.contains_key(name) && variables.contains_key(name),
        |name: Seq<char>| Variable { name, value: process[name] },
    )
}

impl Configuration {
    /// Every variable is stored under its own name.
    pub open spec fn keyed(self) -> bool {
        &&& keyed_by_name(self.defaults)
        &&& forall|name: Seq<char>| #[trigger]
            self.overrides.contains_key(name) ==> keyed_by_name(self.overrides[name])
    }

    /// The variables of the environment `name`: the defaults and the
    /// environment's own, which win where both set a variable.
    pub open spec fn resolved(self, name: Seq<char>) -> Map<Seq<char>, Variable> {
        self.defaults.union_prefer_right(self.overrides[name])
    }

    /// The failure to find the environment `name`.
    pub open spec fn unknown(self, name: Seq<char>) -> Failure {
        Failure::UnknownEnvironment { name, source_file: self.source_file }
    }

    /// What asking for the variables of `name` gives.
    pub open spec fn resolution(self, name: Seq<char>) -> Result<Map<Seq<char>, Variable>, Failure> {
        if self.overrides.contains_key(name) {
            Ok(self.resolved(name))
        } else {
            Err(self.unknown(name))
        }
    }

    /// What comparing the environment `from` with the environment `to`
    /// gives: the comparison of their variables on the names that either
    /// stores a variable under. Where neither is known, the failure speaks
    /// of `from`.
    pub open spec fn environment_difference(self, from: Seq<char>, to: Seq<char>) -> Result<
        Seq<DiffEntry>,
        Failure,
    > {
        if !self.overrides.contains_key(from) {
            Err(self.unknown(from))
        } else if !self.overrides.contains_key(to) {
            Err(self.unknown(to))
        } else {
            Ok(
                difference(
                    self.resolved(from).dom().union(self.resolved(to).dom()),
                    self.resolved(from),
                    self.resolved(to),
                ),
            )
        }
    }

    /// What comparing the process's variables with the environment `name`
    /// gives. Only the names of the environment's variables are looked at.
    pub open spec fn live_difference(self, name: Seq<char>, process: Map<Seq<char>, Seq<char>>) -> Result<
        Seq<DiffEntry>,
        Failure,
    > {
        if !self.overrides.contains_key(name) {
            Err(self.unknown(name))
        } else {
            Ok(
                difference(
                    self.resolved(name).dom(),
                    known_to_process(process, self.resolved(name)),
                    self.resolved(name),
                ),
            )
        }
    }
}

/// What the result of asking for the variables of an environment says.
pub open spec fn variables_outcome(r: Result<EnvVariableMap, ConfigError>) -> Result<
    Map<Seq<char>, Variable>,
    Failure,
> {
    match r {
        Ok(variables) => Ok(variables@),
        Err(e) => Err(e@),
    }
}

/// What the result of a comparison says.
pub open spec fn diff_outcome(r: Result<Vec<DiffResult>, ConfigError>) -> Result<
    Seq<DiffEntry>,
    Failure,
> {
    match r {
        Ok(entries) => Ok(entries_of(entries@)),
        Err(e) => Err(e@),
    }
}

/// The variables of a known environment are those that the defaults or the
/// environment itself set, and no others. Where the environment sets a
/// variable, its value counts; the default counts where it does not.
pub proof fn lemma_resolution_union(config: Configuration, name: Seq<char>)
    requires
        config.overrides.contains_key(name),
    ensures
        config.resolution(name) == Ok::<Map<Seq<char>, Variable>, Failure>(config.resolved(name)),
        config.resolved(name).dom() == config.defaults.dom().union(config.overrides[name].dom()),
        forall|variable: Seq<char>| #[trigger]
            config.overrides[name].contains_key(variable) ==> config.resolved(name)[variable]
                == config.overrides[name][variable],
        forall|variable: Seq<char>|
            config.defaults.contains_key(variable) && !config.overrides[name].contains_key(variable)
                ==> #[trigger] config.resolved(name)[variable] == config.defaults[variable],
{
    assert(config.resolved(name).dom() =~= config.defaults.dom().union(
        config.overrides[name].dom(),
    ));
}

/// Comparing two known environments the other way round gives what
/// comparing them gives, seen from the other side: as many entries, on the
/// same names, and each variable that one comparison calls deleted the other
/// calls added.
pub proof fn lemma_environment_difference_symmetric(
    config: Configuration,
    a: Seq<char>,
    b: Seq<char>,
)
    requires
        config.overrides.contains_key(a),
        config.overrides.contains_key(b),
    ensures
        config.environment_difference(a, b) is Ok,
        config.environment_difference(b, a) is Ok,
        config.environment_difference(a, b)->Ok_0.len() == config.environment_difference(
            b,
            a,
        )->Ok_0.len(),
        forall|e: DiffEntry| #[trigger]
            config.environment_difference(a, b)->Ok_0.contains(e)
                <==> config.environment_difference(b, a)->Ok_0.contains(reversed(e)),
        names_in(config.environment_difference(a, b)->Ok_0) == names_in(
            config.environment_difference(b, a)->Ok_0,
        ),
{
    let from = config.resolved(a);
    let to = config.resolved(b);
    assert(from.dom().union(to.dom()) =~= to.dom().union(from.dom()));
    lemma_difference_symmetric(from.dom().union(to.dom()), from, to);
}

/// Asking for the variables of an environment again gives the same: what
/// `variables` returns is fixed by the configuration and the name.
pub proof fn lemma_variables_repeatable(
    config: Configuration,
    key: Seq<char>,
    first: Result<EnvVariableMap, ConfigError>,
    second: Result<EnvVariableMap, ConfigError>,
)
    requires
        variables_outcome(first) == config.resolution(key),
        variables_outcome(second) == config.resolution(key),
    ensures
        variables_outcome(first) == variables_outcome(second),
{
}

/// Comparing two environments again gives the same: what `keys_diff`
/// returns is fixed by the configuration and the two names.
pub proof fn lemma_keys_diff_repeatable(
    config: Configuration,
    key_1: Seq<char>,
    key_2: Seq<char>,
    first: Result<Vec<DiffResult>, ConfigError>,
    second: Result<Vec<DiffResult>, ConfigError>,
)
    requires
        diff_outcome(first) == config.environment_difference(key_1, key_2),
        diff_outcome(second) == config.environment_difference(key_1, key_2),
    ensures
        diff_outcome(first) == diff_outcome(second),
{
}

/// Comparing the process with an environment again gives the same, as long
/// as the process's variables are the same: what `env_diff` returns is fixed
/// by the configuration, the name and those variables.
pub proof fn lemma_env_diff_repeatable(
    config: Configuration,
    key: Seq<char>,
    process: Map<Seq<char>, Seq<char>>,
    first: Result<Vec<DiffResult>, ConfigError>,
    second: Result<Vec<DiffResult>, ConfigError>,
)
    requires
        diff_outcome(first) == config.live_difference(key, process),
        diff_outcome(second) == config.live_difference(key, process),
    ensures
        diff_outcome(first) == diff_outcome(second),
{
}

/// A configuration read from a file.
#[derive(Debug)]
pub struct EnvironmentVariablesConfig {
    source_file: String,
    defaults: EnvVariableMap,
    overrides: SortedMap<EnvVariableMap>,
}

impl View for EnvironmentVariablesConfig {
    type V = Configuration;

    closed spec fn view(&self) -> Configuration {
        Configuration {
            source_file: self.source_file@,
            defaults: self.defaults@,
            overrides: self.overrides@,
        }
    }
}

impl EnvironmentVariablesConfig {
    /// The configuration with these defaults and environments, read from
    /// `source_path`.
    pub fn new(
        defaults: EnvVariableMap,
        overrides: SortedMap<EnvVariableMap>,
        source_path: String,
    ) -> (r: Self)
        ensures
            r@ == (Configuration {
                source_file: source_path@,
                defaults: defaults@,
                overrides: overrides@,
            }),
    {
        EnvironmentVariablesConfig { source_file: source_path, defaults, overrides }
    }

    /// The path of the file that the configuration was read from.
    pub fn source_file(&self) -> (r: &String)
        ensures
            r@ == self@.source_file,
    {
        &self.source_file
    }

    /// Compares the variables of the environment `key_1` with those of the
    /// environment `key_2`. The entries come sorted by the names of their
    /// variables. In a configuration that stores every variable under its
    /// own name, a name has two entries at most: the deleted variable, then
    /// the added one.
    pub fn keys_diff(&self, key_1: &str, key_2: &str) -> (r: Result<Vec<DiffResult>, ConfigError>)
        ensures
            diff_outcome(r) == self@.environment_difference(key_1@, key_2@),
            r matches Ok(entries) ==> sorted_by_name(entries_of(entries@)),
            self@.keyed() ==> (r matches Ok(entries) ==> in_diff_order(entries_of(entries@))),
    {
        let from_vars = match self.variables(key_1) {
            Ok(variables) => variables,
            Err(e) => {
                return Err(e);
            },
        };
        let to_vars = match self.variables(key_2) {
            Ok(variables) => variables,
            Err(e) => {
                return Err(e);
            },
        };
        let unique_keys = unique_keys(&from_vars, &to_vars);
        Ok(diff(unique_keys.as_slice(), &from_vars, &to_vars))
    }

    /// Compares the variables of the process, given in `process_env` by
    /// name, with those of the environment `key`. The entries come sorted by
    /// the names of their variables. In a configuration that stores every
    /// variable under its own name, a name has two entries at most: the
    /// deleted variable, then the added one.
    pub fn env_diff(&self, key: &str, process_env: &SortedMap<String>) -> (r: Result<
        Vec<DiffResult>,
        ConfigError,
    >)
        ensures
            diff_outcome(r) == self@.live_difference(key@, process_env@),
            r matches Ok(entries) ==> sorted_by_name(entries_of(entries@)),
            self@.keyed() ==> (r matches Ok(entries) ==> in_diff_order(entries_of(entries@))),
    {
        let config_vars = match self.variables(key) {
            Ok(variables) => variables,
            Err(e) => {
                return Err(e);
            },
        };
        let process_names = process_env.keys();
        let mut env_vars = EnvVariableMap::new();
        let mut at: usize = 0;
        while at < process_names.len()
            invariant
                at <= process_names@.len(),
                names_of(process_names@).to_set() == process_env@.dom(),
                env_vars@ == known_to_process(process_env@, config_vars@).restrict(
                    names_of(process_names@).take(at as int).to_set(),
                ),
            decreases process_names@.len() - at,
        {
            let name = process_names[at].as_str();
            proof {
                assert(names_of(process_names@)[at as int] == name@);
                assert(names_of(process_names@).to_set().contains(name@));
                assert(names_of(process_names@).take(at + 1) =~= names_of(process_names@).take(
                    at as int,
                ).push(name@));
            }
            if config_vars.contains_key(name) {
                match process_env.get(name) {
                    Some(value) => {
                        env_vars.insert(name.to_owned(), EnvVariable::new(name, value.clone()));
                    },
                    None => {},
                }
            }
            proof {
                let all = known_to_process(process_env@, config_vars@);
                let earlier = names_of(process_names@).take(at as int);
                earlier.lemma_push_to_set_commute(name@);
                assert(env_vars@ =~= all.restrict(earlier.to_set().insert(name@)));
            }
            at = at + 1;
        }
        proof {
            let all = known_to_process(process_env@, config_vars@);
            assert(names_of(process_names@).take(process_names@.len() as int) =~= names_of(
                process_names@,
            ));
            assert(env_vars@ =~= all);
        }
        let unique_keys = unique_keys(&config_vars, &EnvVariableMap::new());
        proof {
            assert(config_vars@.dom().union(Map::<Seq<char>, Variable>::empty().dom())
                =~= config_vars@.dom());
        }
        Ok(diff(unique_keys.as_slice(), &env_vars, &config_vars))
    }

    /// The variables of the environment `key`.
    pub fn variables(&self, key: &str) -> (r: Result<EnvVariableMap, ConfigError>)
        ensures
            variables_outcome(r) == self@.resolution(key@),
            r matches Ok(variables) ==> {
                &&& self@.keyed() ==> keyed_by_name(variables@)
                &&& variables@.dom() == self@.defaults.dom().union(self@.overrides[key@].dom())
                &&& forall|name: Seq<char>| #[trigger]
                    self@.overrides[key@].contains_key(name) ==> variables@[name]
                        == self@.overrides[key@][name]
                &&& forall|name: Seq<char>|
                    self@.defaults.contains_key(name) && !self@.overrides[key@].contains_key(name)
                        ==> #[trigger] variables@[name] == self@.defaults[name]
            },
    {
        match self.overrides.get(key) {
            Some(o) => {
                let mut variables = EnvVariableMap::new();
                let names = unique_keys(&self.defaults, o);
                let ghost all = self.defaults@.union_prefer_right(o@);
                let mut at: usize = 0;
                while at < names.len()
                    invariant
                        at <= names@.len(),
                        all == self.defaults@.union_prefer_right(o@),
                        variables@ == all.restrict(names_of(names@).take(at as int).to_set()),
                    decreases names@.len() - at,
                {
                    let k = names[at].as_str();
                    if let Some(val) = self.defaults.get(k) {
                        variables.insert(k.to_owned(), val.clone());
                    }
                    if let Some(val) = o.get(k) {
                        variables.insert(k.to_owned(), val.clone());
                    }
                    proof {
                        let earlier = names_of(names@).take(at as int);
                        assert(names_of(names@).take(at + 1) =~= earlier.push(k@));
                        earlier.lemma_push_to_set_commute(k@);
                        assert(variables@ =~= all.restrict(earlier.to_set().insert(k@)));
                    }
                    at = at + 1;
                }
                proof {
                    assert(names_of(names@).take(names@.len() as int) =~= names_of(names@));
                    assert(variables@ =~= all);
                    lemma_resolution_union(self@, key@);
                }
                Ok(variables)
            },
            None => Err(
                ConfigError::UnknownEnvironment {
                    name: key.to_owned(),
                    source_file: self.source_file.clone(),
                },
            ),
        }
    }

    /// The names of the environments, each once, in ascending order.
    pub fn keys(&self) -> (r: Vec<String>)
        ensures
            names_of(r@) == in_order(self@.overrides.dom()),
            names_of(r@).to_set() == self@.overrides.dom(),
            ascending(names_of(r@)),
    {
        self.overrides.keys()
    }
}

} // verus!
