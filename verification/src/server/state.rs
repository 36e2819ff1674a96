//! Server state object managing all operations on configuration.

use crate::failure::Failure;
use crate::json::{same_text, Json, JsonValue};
use crate::keyed::lists_names;
use crate::server::resolver::{Resolver, ResolverChain};
use crate::server::storage::{stored, Storage};
use crate::server::template::{
    fails, merge_templates, merged, populate_template, populates, settled, MAX_RESOLVE_DEPTH,
};
use vstd::prelude::*;
use vstd::string::StringExecFns;

verus! {

/// The environment from which `env` inherits: the default environment,
/// unless there is none or `env` is that environment itself.
pub open spec fn parent_of(default_env: Option<Seq<char>>, env: Seq<char>) -> Option<Seq<char>> {
    match default_env {
        Some(name) if name != env => Some(name),
        _ => None,
    }
}

/// The template of `env` with what it inherits merged in; `None` where
/// storage lacks the template of `env`, or that of the environment from
/// which it inherits.
pub open spec fn inherited(
    records: Map<Seq<char>, JsonValue>,
    default_env: Option<Seq<char>>,
    env: Seq<char>,
) -> Option<JsonValue> {
    match stored(records, env) {
        None => None,
        Some(own) => match parent_of(default_env, env) {
            None => Some(own),
            Some(parent) => match stored(records, parent) {
                None => None,
                Some(base) => Some(merged(own, base)),
            },
        },
    }
}

/// The environment whose template storage lacks, where [`inherited`] is
/// `None`: `env` itself, or else the environment from which it inherits.
pub open spec fn missing_record(
    records: Map<Seq<char>, JsonValue>,
    default_env: Option<Seq<char>>,
    env: Seq<char>,
) -> Seq<char> {
    if stored(records, env) is None {
        env
    } else {
        parent_of(default_env, env).unwrap()
    }
}

/// The characters of a name that may be missing.
pub open spec fn name_text(name: Option<&str>) -> Option<Seq<char>> {
    match name {
        Some(text) => Some(text@),
        None => None,
    }
}

/// `template` with `base` merged into it, where there is one.
pub open spec fn with_base(template: JsonValue, base: Option<&Json>) -> JsonValue {
    match base {
        Some(b) => merged(template, b@),
        None => template,
    }
}

/// The environment whose template is merged into that of `env`, if any.
pub fn inherits_from<'a>(default_template: Option<&'a str>, env: &str) -> (parent: Option<&'a str>)
    ensures
        name_text(parent) == parent_of(name_text(default_template), env@),
{
    match default_template {
        Some(name) => {
            if same_text(name, env) {
                None
            } else {
                Some(name)
            }
        },
        None => None,
    }
}

/// The configuration that a raw template gives: the template of the
/// environment from which it inherits is merged into it, and the result is
/// populated. The merge comes first, so that a placeholder of the template
/// beats a plain value that it inherits under the same key.
pub fn resolve_config<R: Resolver>(
    template: Json,
    base: Option<&Json>,
    chain: &ResolverChain<R>,
) -> (outcome: Result<Json, Failure>)
    ensures
        match outcome {
            Ok(config) => populates(
                chain@,
                with_base(template@, base),
                config@,
                MAX_RESOLVE_DEPTH as nat,
            ),
            Err(failure) => fails(
                chain@,
                with_base(template@, base),
                MAX_RESOLVE_DEPTH as nat,
                failure,
            ),
        },
        settled(with_base(template@, base)) ==> outcome is Ok && outcome.unwrap()@ == with_base(
            template@,
            base,
        ),
{
    let mut config = template;
    match base {
        Some(b) => {
            merge_templates(&mut config, b);
        },
        None => {},
    }
    populate_template(&mut config, chain)?;
    Ok(config)
}

/// Object that manages server state, including storage and templating.
pub struct State<R: Resolver> {
    chain: ResolverChain<R>,
    storage: Storage,
    default_template: Option<String>,
}

impl<R: Resolver> State<R> {
    /// The resolvers of the state.
    pub closed spec fn chain(&self) -> Seq<(Seq<char>, R)> {
        self.chain@
    }

    /// The templates that the state stores, by environment.
    pub closed spec fn records(&self) -> Map<Seq<char>, JsonValue> {
        self.storage@
    }

    /// The environment from which the others inherit, if there is one.
    pub closed spec fn default_env(&self) -> Option<Seq<char>> {
        match self.default_template {
            Some(name) => Some(name@),
            None => None,
        }
    }

    /// Create a new state object.
    pub fn new(chain: ResolverChain<R>, storage: Storage, default_template: Option<&str>) -> (state:
        Self)
        ensures
            state.chain() == chain@,
            state.records() == storage@,
            state.default_env() == name_text(default_template),
    {
        State {
            chain,
            storage,
            default_template: match default_template {
                Some(name) => Some(String::from_str(name)),
                None => None,
            },
        }
    }

    /// Read a configuration template from storage, as it was written.
    pub fn read_template(&self, env: &str) -> (outcome: Result<Json, Failure>)
        ensures
            match outcome {
                Ok(json) => stored(self.records(), env@) == Some(json@),
                Err(failure) => stored(self.records(), env@) is None && (
                failure matches Failure::MissingTemplate { env: missing } && missing@ == env@),
            },
    {
        self.storage.get(env)
    }

    /// Persist a configuration template to storage, in place of what `env`
    /// had. A store in memory takes every template.
    pub fn write_template(&mut self, env: &str, template: &Json) -> (outcome: Result<(), Failure>)
        ensures
            outcome is Ok,
            final(self).records() == old(self).records().insert(env@, template@),
            final(self).chain() == old(self).chain(),
            final(self).default_env() == old(self).default_env(),
    {
        self.storage.set(env, template);
        Ok(())
    }

    /// Read a configuration template from storage and populate templated
    /// values.
    ///
    /// This configuration will first be merged with the default template as
    /// well, if it is provided and `env` is another environment.
    pub fn load_config(&self, env: &str) -> (outcome: Result<Json, Failure>)
        ensures
            match outcome {
                Ok(config) => inherited(self.records(), self.default_env(), env@) is Some
                    && populates(
                    self.chain(),
                    inherited(self.records(), self.default_env(), env@).unwrap(),
                    config@,
                    MAX_RESOLVE_DEPTH as nat,
                ),
                Err(failure) => match inherited(self.records(), self.default_env(), env@) {
                    None => failure matches Failure::MissingTemplate { env: missing } && missing@
                        == missing_record(self.records(), self.default_env(), env@),
                    Some(template) => fails(
                        self.chain(),
                        template,
                        MAX_RESOLVE_DEPTH as nat,
                        failure,
                    ),
                },
            },
            inherited(self.records(), self.default_env(), env@) matches Some(template) && settled(
                template,
            ) ==> outcome is Ok && outcome.unwrap()@ == inherited(
                self.records(),
                self.default_env(),
                env@,
            ).unwrap(),
    {
        let template = self.read_template(env)?;
        let default_template = match &self.default_template {
            Some(name) => Some(name.as_str()),
            None => None,
        };
        match inherits_from(default_template, env) {
            Some(parent) => {
                let base = self.read_template(parent)?;
                resolve_config(template, Some(&base), &self.chain)
            },
            None => resolve_config(template, None, &self.chain),
        }
    }

    /// Return a list of available configuration templates: the
    /// environments that have one, each once.
    pub fn list_available_configs(&self) -> (outcome: Result<Vec<String>, Failure>)
        ensures
            outcome is Ok,
            lists_names(outcome.unwrap()@, self.records()),
    {
        Ok(self.storage.list())
    }
}

} // verus!
