//! Chat messages and the registry of language-model providers: which
//! providers exist and how each one is configured.

use vstd::prelude::*;
use crate::memory::opt_view;
use crate::text::{owned, str_eq, upper_of, uppercase};

verus! {

broadcast use vstd::string::group_string_axioms;

fn copy_opt(o: &Option<String>) -> (r: Option<String>)
    ensures
        opt_view(r) == opt_view(*o),
{
    match o {
        Some(s) => Some(s.clone()),
        None => None,
    }
}

fn opt_owned(o: Option<&str>) -> (r: Option<String>)
    ensures
        match o {
            Some(s) => opt_view(r) == Some(s@),
            None => r.is_none(),
        },
{
    match o {
        Some(s) => Some(owned(s)),
        None => None,
    }
}

/// One message of a conversation.
#[derive(Debug, Clone)]
pub struct ChatMessage {
    pub role: String,
    pub content: String,
}

impl ChatMessage {
    pub fn system(content: &str) -> (r: Self)
        ensures
            r.role@ == "system"@,
            r.content@ == content@,
    {
        ChatMessage { role: owned("system"), content: owned(content) }
    }

    pub fn user(content: &str) -> (r: Self)
        ensures
            r.role@ == "user"@,
            r.content@ == content@,
    {
        ChatMessage { role: owned("user"), content: owned(content) }
    }

    pub fn assistant(content: &str) -> (r: Self)
        ensures
            r.role@ == "assistant"@,
            r.content@ == content@,
    {
        ChatMessage { role: owned("assistant"), content: owned(content) }
    }
}

/// The reply of a provider.
#[derive(Debug, Clone)]
pub struct ChatResponse {
    pub text: Option<String>,
}

impl ChatResponse {
    /// Whether the reply holds non-empty text.
    pub fn has_text(&self) -> (r: bool)
        ensures
            r == (self.text.is_some() && self.text.unwrap()@.len() > 0),
    {
        match &self.text {
            Some(t) => t.as_str().unicode_len() > 0,
            None => false,
        }
    }

    /// The text of the reply, or the empty string.
    pub fn text_or_empty(&self) -> (r: &str)
        ensures
            r@ == match self.text {
                Some(t) => t@,
                None => Seq::<char>::empty(),
            },
    {
        match &self.text {
            Some(t) => t.as_str(),
            None => {
                proof {
                    reveal_strlit("");
                }
                ""
            },
        }
    }
}

/// A provider: its name, the environment variables of its key and base
/// URL, its default model and a description.
#[derive(Debug, Clone)]
pub struct ProviderSpec {
    pub name: String,
    pub api_key_env: String,
    pub base_url_env: String,
    pub default_model: Option<String>,
    pub description: String,
}

/// What a provider spec holds.
pub type SpecView = (Seq<char>, Seq<char>, Seq<char>, Option<Seq<char>>, Seq<char>);

impl ProviderSpec {
    pub open spec fn view(&self) -> SpecView {
        (self.name@, self.api_key_env@, self.base_url_env@, opt_view(self.default_model), self.description@)
    }

    pub fn new(
        name: &str,
        api_key_env: &str,
        base_url_env: &str,
        default_model: Option<&str>,
        description: &str,
    ) -> (r: Self)
        ensures
            r.view().0 == name@,
            r.view().1 == api_key_env@,
            r.view().2 == base_url_env@,
            r.view().3 == match default_model {
                Some(m) => Some(m@),
                None => None,
            },
            r.view().4 == description@,
    {
        ProviderSpec {
            name: owned(name),
            api_key_env: owned(api_key_env),
            base_url_env: owned(base_url_env),
            default_model: opt_owned(default_model),
            description: owned(description),
        }
    }

    /// A field-by-field copy.
    pub fn copy(&self) -> (r: Self)
        ensures
            r.view() == self.view(),
    {
        ProviderSpec {
            name: self.name.clone(),
            api_key_env: self.api_key_env.clone(),
            base_url_env: self.base_url_env.clone(),
            default_model: copy_opt(&self.default_model),
            description: self.description.clone(),
        }
    }
}

/// Names of the built-in providers, in order.
pub open spec fn builtin_names() -> Seq<Seq<char>> {
    seq!["anthropic"@, "openai"@, "openrouter"@, "custom"@]
}

/// Key variables of the built-in providers, in the same order.
pub open spec fn builtin_key_vars() -> Seq<Seq<char>> {
    seq!["ANTHROPIC_API_KEY"@, "OPENAI_API_KEY"@, "OPENROUTER_API_KEY"@, "CUSTOM_API_KEY"@]
}

pub open spec fn spec_key_vars(s: Seq<ProviderSpec>) -> Seq<Seq<char>> {
    s.map_values(|p: ProviderSpec| p.api_key_env@)
}

/// Name of the first built-in provider, from position `i` on, whose key
/// variable is set in `env`.
pub open spec fn first_keyed(env: Seq<(String, String)>, i: int) -> Option<Seq<char>>
    decreases 4 - i,
{
    if i < 0 || i >= 4 {
        None
    } else if env_get(env, builtin_key_vars()[i]).is_some() {
        Some(builtin_names()[i])
    } else {
        first_keyed(env, i + 1)
    }
}

pub open spec fn spec_names(s: Seq<ProviderSpec>) -> Seq<Seq<char>> {
    s.map_values(|p: ProviderSpec| p.name@)
}

/// The built-in providers: anthropic, openai, openrouter and custom.
pub fn providers() -> (r: Vec<ProviderSpec>)
    ensures
        spec_names(r@) == builtin_names(),
        spec_key_vars(r@) == builtin_key_vars(),
        r@[0].view() == ("anthropic"@, "ANTHROPIC_API_KEY"@, "ANTHROPIC_BASE_URL"@, Some("sonnet-4-20250514"@), "Anthropic API"@),
{
    let mut v: Vec<ProviderSpec> = Vec::new();
    v.push(ProviderSpec::new(
        "anthropic",
        "ANTHROPIC_API_KEY",
        "ANTHROPIC_BASE_URL",
        Some("sonnet-4-20250514"),
        "Anthropic API",
    ));
    v.push(ProviderSpec::new("openai", "OPENAI_API_KEY", "OPENAI_BASE_URL", Some("gpt-4o"), "OpenAI GPT API"));
    v.push(ProviderSpec::new(
        "openrouter",
        "OPENROUTER_API_KEY",
        "OPENROUTER_BASE_URL",
        Some("anthropic/sonnet-4-20250514"),
        "OpenRouter - Unified LLM Gateway",
    ));
    v.push(ProviderSpec::new("custom", "CUSTOM_API_KEY", "CUSTOM_BASE_URL", None, "Custom OpenAI-compatible endpoint"));
    assert(spec_names(v@) =~= builtin_names());
    assert(spec_key_vars(v@) =~= builtin_key_vars());
    v
}

/// How a provider is configured.
#[derive(Debug, Clone)]
pub struct ProviderConfig {
    pub name: String,
    pub api_key: Option<String>,
    pub base_url: Option<String>,
    pub model: Option<String>,
}

/// The model chosen for a provider with default model `default_model`: a
/// provider-specific override, else the general one, else the default; a
/// provider without a default model gets none.
pub open spec fn chosen_model(
    default_model: Option<Seq<char>>,
    provider_model: Option<Seq<char>>,
    general_model: Option<Seq<char>>,
) -> Option<Seq<char>> {
    if default_model.is_none() {
        None
    } else if provider_model.is_some() {
        provider_model
    } else if general_model.is_some() {
        general_model
    } else {
        default_model
    }
}

/// What a provider configuration holds.
pub type ConfigView = (Seq<char>, Option<Seq<char>>, Option<Seq<char>>, Option<Seq<char>>);

impl ProviderConfig {
    pub open spec fn view(&self) -> ConfigView {
        (self.name@, opt_view(self.api_key), opt_view(self.base_url), opt_view(self.model))
    }

    /// The configuration of `spec` from the values its environment gives:
    /// the key, the base URL, the provider's own model override and the
    /// general model override.
    pub fn from_values(
        spec: &ProviderSpec,
        api_key: Option<String>,
        base_url: Option<String>,
        provider_model: Option<String>,
        general_model: Option<String>,
    ) -> (r: Self)
        ensures
            r.name@ == spec.name@,
            opt_view(r.api_key) == opt_view(api_key),
            opt_view(r.base_url) == opt_view(base_url),
            opt_view(r.model) == chosen_model(opt_view(spec.default_model), opt_view(provider_model), opt_view(general_model)),
    {
        let model = match &spec.default_model {
            None => None,
            Some(d) => match provider_model {
                Some(m) => Some(m),
                None => match general_model {
                    Some(g) => Some(g),
                    None => Some(d.clone()),
                },
            },
        };
        ProviderConfig { name: spec.name.clone(), api_key, base_url, model }
    }

    /// A provider is configured when it has a key.
    pub fn is_configured(&self) -> (r: bool)
        ensures
            r == self.api_key.is_some(),
    {
        self.api_key.is_some()
    }

    /// A field-by-field copy.
    pub fn copy(&self) -> (r: Self)
        ensures
            r.view() == self.view(),
    {
        ProviderConfig {
            name: self.name.clone(),
            api_key: copy_opt(&self.api_key),
            base_url: copy_opt(&self.base_url),
            model: copy_opt(&self.model),
        }
    }
}

/// `i` is the first position of `s` whose name is `n`.
pub open spec fn first_spec_named(s: Seq<SpecView>, n: Seq<char>, i: int) -> bool {
    0 <= i < s.len() && s[i].0 == n && forall|j: int| 0 <= j < i ==> #[trigger] s[j].0 != n
}

/// `s2` is `s` with `v` stored under its name: in place of the first
/// provider of that name, or last where there is none.
pub open spec fn spec_upserted(s: Seq<SpecView>, v: SpecView, s2: Seq<SpecView>) -> bool {
    if exists|i: int| 0 <= i < s.len() && #[trigger] s[i].0 == v.0 {
        exists|i: int| #[trigger] first_spec_named(s, v.0, i) && s2 == s.update(i, v)
    } else {
        s2 == s.push(v)
    }
}

/// `i` is the first position of `s` whose name is `n`.
pub open spec fn first_config_named(s: Seq<ConfigView>, n: Seq<char>, i: int) -> bool {
    0 <= i < s.len() && s[i].0 == n && forall|j: int| 0 <= j < i ==> #[trigger] s[j].0 != n
}

/// `s2` is `s` with `v` stored under its name: in place of the first
/// configuration of that name, or last where there is none.
pub open spec fn config_upserted(s: Seq<ConfigView>, v: ConfigView, s2: Seq<ConfigView>) -> bool {
    if exists|i: int| 0 <= i < s.len() && #[trigger] s[i].0 == v.0 {
        exists|i: int| #[trigger] first_config_named(s, v.0, i) && s2 == s.update(i, v)
    } else {
        s2 == s.push(v)
    }
}

/// Providers and their configurations, each by name.
pub struct ProviderRegistry {
    specs: Vec<ProviderSpec>,
    configs: Vec<ProviderConfig>,
}

impl ProviderRegistry {
    pub closed spec fn specs_view(&self) -> Seq<SpecView> {
        self.specs@.map_values(|p: ProviderSpec| p.view())
    }

    pub closed spec fn configs_view(&self) -> Seq<ConfigView> {
        self.configs@.map_values(|c: ProviderConfig| c.view())
    }

    /// No two providers share a name.
    pub open spec fn wf(&self) -> bool {
        forall|i: int, j: int| 0 <= i < j < self.specs_view().len() ==> #[trigger] self.specs_view()[i].0 != #[trigger] self.specs_view()[j].0
    }

    /// The registry of the built-in providers, with no configuration yet.
    pub fn new() -> (r: Self)
        ensures
            r.wf(),
            r.specs_view().map_values(|v: SpecView| v.0) == builtin_names(),
            r.configs_view().len() == 0,
    {
        let r = ProviderRegistry { specs: providers(), configs: Vec::new() };
        assert(r.specs_view().map_values(|v: SpecView| v.0) =~= spec_names(r.specs@));
        proof {
            reveal_strlit("anthropic");
            reveal_strlit("openai");
            reveal_strlit("openrouter");
            reveal_strlit("custom");
            let names = builtin_names();
            assert forall|i: int, j: int| 0 <= i < j < r.specs_view().len() implies #[trigger] r.specs_view()[i].0 != #[trigger] r.specs_view()[j].0 by {
                assert(r.specs_view()[i].0 == names[i]);
                assert(r.specs_view()[j].0 == names[j]);
                assert(names[i].len() != names[j].len() || names[i][0] != names[j][0]);
            }
        }
        assert(r.configs_view() =~= Seq::<ConfigView>::empty());
        r
    }

    fn find_spec(&self, name: &str) -> (r: Option<usize>)
        ensures
            match r {
                None => forall|i: int| 0 <= i < self.specs_view().len() ==> #[trigger] self.specs_view()[i].0 != name@,
                Some(i) => i < self.specs_view().len() && self.specs_view()[i as int].0 == name@,
            },
    {
        let mut i: usize = 0;
        while i < self.specs.len()
            invariant
                i <= self.specs@.len(),
                forall|j: int| 0 <= j < i ==> #[trigger] self.specs_view()[j].0 != name@,
            decreases self.specs@.len() - i,
        {
            if str_eq(self.specs[i].name.as_str(), name) {
                return Some(i);
            }
            i = i + 1;
        }
        None
    }

    fn find_config(&self, name: &str) -> (r: Option<usize>)
        ensures
            match r {
                None => forall|i: int| 0 <= i < self.configs_view().len() ==> #[trigger] self.configs_view()[i].0 != name@,
                Some(i) => first_config_named(self.configs_view(), name@, i as int),
            },
    {
        let mut i: usize = 0;
        while i < self.configs.len()
            invariant
                i <= self.configs@.len(),
                forall|j: int| 0 <= j < i ==> #[trigger] self.configs_view()[j].0 != name@,
            decreases self.configs@.len() - i,
        {
            if str_eq(self.configs[i].name.as_str(), name) {
                return Some(i);
            }
            i = i + 1;
        }
        None
    }

    /// Adds `spec`, replacing the provider of the same name; the
    /// configurations stay as they are.
    pub fn register(&mut self, spec: ProviderSpec)
        requires
            old(self).wf(),
        ensures
            final(self).wf(),
            spec_upserted(old(self).specs_view(), spec.view(), final(self).specs_view()),
            final(self).configs_view() == old(self).configs_view(),
    {
        let ghost sv = spec.view();
        match self.find_spec(spec.name.as_str()) {
            Some(i) => {
                self.specs.set(i, spec);
                assert(self.specs_view() =~= old(self).specs_view().update(i as int, sv));
                assert forall|a: int, b: int| 0 <= a < b < self.specs_view().len() implies #[trigger] self.specs_view()[a].0 != #[trigger] self.specs_view()[b].0 by {
                    assert(old(self).specs_view()[a].0 != old(self).specs_view()[b].0);
                }
                assert forall|j: int| 0 <= j < i implies #[trigger] old(self).specs_view()[j].0 != sv.0 by {
                    assert(old(self).specs_view()[j].0 != old(self).specs_view()[i as int].0);
                }
                assert(first_spec_named(old(self).specs_view(), sv.0, i as int));
            },
            None => {
                self.specs.push(spec);
                let ghost last = (self.specs_view().len() - 1) as int;
                assert(self.specs_view() =~= old(self).specs_view().push(sv));
                assert forall|a: int, b: int| 0 <= a < b < self.specs_view().len() implies #[trigger] self.specs_view()[a].0 != #[trigger] self.specs_view()[b].0 by {
                    if b == last {
                        assert(self.specs_view()[a] == old(self).specs_view()[a]);
                    } else {
                        assert(old(self).specs_view()[a].0 != old(self).specs_view()[b].0);
                    }
                }
            },
        }
    }

    /// The provider named `name`, if registered.
    pub fn get_spec(&self, name: &str) -> (r: Option<ProviderSpec>)
        ensures
            match r {
                None => forall|i: int| 0 <= i < self.specs_view().len() ==> #[trigger] self.specs_view()[i].0 != name@,
                Some(s) => s.view().0 == name@ && self.specs_view().contains(s.view()),
            },
    {
        match self.find_spec(name) {
            Some(i) => {
                let s = self.specs[i].copy();
                assert(self.specs_view()[i as int] == s.view());
                Some(s)
            },
            None => None,
        }
    }

    /// Every registered provider.
    pub fn list_specs(&self) -> (r: Vec<ProviderSpec>)
        ensures
            r@.map_values(|p: ProviderSpec| p.view()) == self.specs_view(),
    {
        let mut r: Vec<ProviderSpec> = Vec::new();
        let mut i: usize = 0;
        while i < self.specs.len()
            invariant
                i <= self.specs@.len(),
                r@.map_values(|p: ProviderSpec| p.view()) == self.specs_view().subrange(0, i as int),
            decreases self.specs@.len() - i,
        {
            let ghost r0 = r@;
            let c = self.specs[i].copy();
            r.push(c);
            assert(r@.map_values(|p: ProviderSpec| p.view()) =~= r0.map_values(|p: ProviderSpec| p.view()).push(c.view()));
            assert(r@.map_values(|p: ProviderSpec| p.view()) =~= self.specs_view().subrange(0, i + 1));
            i = i + 1;
        }
        assert(self.specs_view() =~= self.specs_view().subrange(0, i as int));
        r
    }

    /// The configuration stored under `name`, if any.
    pub fn get_config(&self, name: &str) -> (r: Option<ProviderConfig>)
        ensures
            match r {
                None => forall|i: int| 0 <= i < self.configs_view().len() ==> #[trigger] self.configs_view()[i].0 != name@,
                Some(c) => exists|i: int| #[trigger] first_config_named(self.configs_view(), name@, i) && c.view() == self.configs_view()[i],
            },
    {
        match self.find_config(name) {
            Some(i) => Some(self.configs[i].copy()),
            None => None,
        }
    }

    /// Stores `config` under its name, replacing the one stored there; the
    /// providers stay as they are.
    pub fn set_config(&mut self, config: ProviderConfig)
        ensures
            config_upserted(old(self).configs_view(), config.view(), final(self).configs_view()),
            final(self).specs_view() == old(self).specs_view(),
    {
        let ghost v = config.view();
        match self.find_config(config.name.as_str()) {
            Some(i) => {
                self.configs.set(i, config);
                assert(self.configs_view() =~= old(self).configs_view().update(i as int, v));
            },
            None => {
                self.configs.push(config);
                assert(self.configs_view() =~= old(self).configs_view().push(v));
            },
        }
    }
}

/// The value of variable `var` in an environment given as pairs of name
/// and value; the first pair wins.
pub open spec fn env_get(env: Seq<(String, String)>, var: Seq<char>) -> Option<Seq<char>>
    decreases env.len(),
{
    if env.len() == 0 {
        None
    } else if env[0].0@ == var {
        Some(env[0].1@)
    } else {
        env_get(env.subrange(1, env.len() as int), var)
    }
}

/// Looks `var` up in `env`.
pub fn env_lookup(env: &Vec<(String, String)>, var: &str) -> (r: Option<String>)
    ensures
        opt_view(r) == env_get(env@, var@),
{
    let mut i: usize = 0;
    assert(env@.subrange(0, env@.len() as int) =~= env@);
    while i < env.len()
        invariant
            i <= env@.len(),
            env_get(env@, var@) == env_get(env@.subrange(i as int, env@.len() as int), var@),
        decreases env@.len() - i,
    {
        let ghost rest = env@.subrange(i as int, env@.len() as int);
        assert(rest.subrange(1, rest.len() as int) =~= env@.subrange(i + 1, env@.len() as int));
        if str_eq(env[i].0.as_str(), var) {
            return Some(env[i].1.clone());
        }
        i = i + 1;
    }
    None
}

/// Name of the variable that overrides the model of provider `name`.
pub open spec fn model_var(name: Seq<char>) -> Seq<char> {
    upper_of(name) + "_MODEL"@
}

impl ProviderRegistry {
    /// The configuration of the provider named `name` from the environment
    /// `env`, with `general_model` as the model override common to all
    /// providers; `None` for an unknown provider.
    pub fn load_config(&self, name: &str, env: &Vec<(String, String)>, general_model: Option<String>) -> (r: Option<ProviderConfig>)
        ensures
            r.is_none() == (forall|i: int| 0 <= i < self.specs_view().len() ==> #[trigger] self.specs_view()[i].0 != name@),
            r.is_some() ==> exists|i: int|
                0 <= i < self.specs_view().len() && #[trigger] self.specs_view()[i].0 == name@ && ({
                    let v = self.specs_view()[i];
                    let c = r.unwrap();
                    &&& c.name@ == name@
                    &&& opt_view(c.api_key) == env_get(env@, v.1)
                    &&& opt_view(c.base_url) == env_get(env@, v.2)
                    &&& opt_view(c.model) == chosen_model(v.3, env_get(env@, model_var(v.0)), opt_view(general_model))
                }),
    {
        match self.find_spec(name) {
            None => None,
            Some(i) => {
                let spec = &self.specs[i];
                Some(config_from_env(spec, env, general_model))
            },
        }
    }

    /// Whether the provider named `name` is known and has a key in `env`.
    pub fn is_configured(&self, name: &str, env: &Vec<(String, String)>) -> (r: bool)
        requires
            self.wf(),
        ensures
            r == exists|i: int|
                0 <= i < self.specs_view().len() && #[trigger] self.specs_view()[i].0 == name@ && env_get(env@, self.specs_view()[i].1).is_some(),
    {
        match self.find_spec(name) {
            None => false,
            Some(i) => {
                let r = env_lookup(env, self.specs[i].api_key_env.as_str()).is_some();
                proof {
                    if !r {
                        assert forall|j: int| 0 <= j < self.specs_view().len() && #[trigger] self.specs_view()[j].0 == name@
                            implies env_get(env@, self.specs_view()[j].1).is_none() by {
                            if j < i as int {
                                assert(self.specs_view()[j].0 != self.specs_view()[i as int].0);
                            }
                            if j > i as int {
                                assert(self.specs_view()[i as int].0 != self.specs_view()[j].0);
                            }
                        }
                    }
                }
                r
            },
        }
    }

    /// The first built-in provider whose key is set in `env`.
    pub fn detect_provider(&self, env: &Vec<(String, String)>) -> (r: Option<String>)
        ensures
            opt_view(r) == first_keyed(env@, 0),
    {
        let specs = providers();
        assert(spec_names(specs@).len() == builtin_names().len());
        let mut i: usize = 0;
        while i < specs.len()
            invariant
                i <= specs@.len(),
                specs@.len() == 4,
                spec_names(specs@) == builtin_names(),
                spec_key_vars(specs@) == builtin_key_vars(),
                first_keyed(env@, 0) == first_keyed(env@, i as int),
            decreases specs@.len() - i,
        {
            assert(builtin_key_vars()[i as int] == specs@[i as int].api_key_env@);
            if env_lookup(env, specs[i].api_key_env.as_str()).is_some() {
                let n = specs[i].name.clone();
                assert(builtin_names()[i as int] == n@);
                return Some(n);
            }
            i = i + 1;
        }
        None
    }
}

fn config_from_env(spec: &ProviderSpec, env: &Vec<(String, String)>, general_model: Option<String>) -> (r: ProviderConfig)
    ensures
        r.name@ == spec.name@,
        opt_view(r.api_key) == env_get(env@, spec.api_key_env@),
        opt_view(r.base_url) == env_get(env@, spec.base_url_env@),
        opt_view(r.model) == chosen_model(opt_view(spec.default_model), env_get(env@, model_var(spec.name@)), opt_view(general_model)),
{
    let mut var = uppercase(spec.name.as_str());
    var.append("_MODEL");
    ProviderConfig::from_values(
        spec,
        env_lookup(env, spec.api_key_env.as_str()),
        env_lookup(env, spec.base_url_env.as_str()),
        env_lookup(env, var.as_str()),
        general_model,
    )
}

/// The registry of the built-in providers.
pub fn provider_registry() -> (r: ProviderRegistry)
    ensures
        r.wf(),
        r.specs_view().map_values(|v: SpecView| v.0) == builtin_names(),
{
    ProviderRegistry::new()
}

} // verus!
