//! Skills: named prompt fragments, and the registry of the built-in ones.

use std::sync::Arc;
use vstd::prelude::*;
use crate::text::{owned, str_eq};

verus! {

broadcast use vstd::string::group_string_axioms;

/// A named prompt fragment.
#[derive(Debug, Clone)]
pub struct Skill {
    pub name: String,
    pub description: String,
    pub content: String,
}

impl Skill {
    pub fn new(name: &str, description: &str, content: &str) -> (r: Skill)
        ensures
            r.name@ == name@,
            r.description@ == description@,
            r.content@ == content@,
    {
        Skill { name: owned(name), description: owned(description), content: owned(content) }
    }
}

/// Texts of the built-in skills.
pub const GITHUB_DESCRIPTION: &'static str = "Manage GitHub repositories, issues, and pull requests";

pub const GITHUB_CONTENT: &'static str = "# GitHub Skill\n\nYou are a GitHub assistant. You can help users with:\n- Creating and managing repositories\n- Working with issues and pull requests\n- Searching code\n- Managing branches\n- Getting repository information\n\nWhen asked to perform GitHub actions, use appropriate GitHub CLI commands or API calls.";

pub const WEATHER_DESCRIPTION: &'static str = "Get weather information for locations";

pub const WEATHER_CONTENT: &'static str = "# Weather Skill\n\nYou are a weather assistant. You can help users with:\n- Current weather conditions\n- Weather forecasts\n- Temperature, humidity, and wind information\n\nUse available weather APIs to fetch accurate information.";

pub const SEARCH_DESCRIPTION: &'static str = "Search the web for information";

pub const SEARCH_CONTENT: &'static str = "# Web Search Skill\n\nYou are a web search assistant. You can help users with:\n- Finding information on the web\n- Researching topics\n- Getting current news\n- Fact checking\n\nUse search tools to find relevant information.";

pub const MEMORY_DESCRIPTION: &'static str = "Persistent memory and context management";

pub const MEMORY_CONTENT: &'static str = "# Memory Skill\n\nYou are a memory assistant. You can help users with:\n- Remembering important information\n- Retrieving past conversations\n- Managing context\n- Storing preferences\n\nUse the memory system to persist and retrieve information across sessions.";

/// The built-in skills as name, description and content, in order.
pub open spec fn builtin_table() -> Seq<(Seq<char>, Seq<char>, Seq<char>)> {
    seq![
        ("github"@, GITHUB_DESCRIPTION@, GITHUB_CONTENT@),
        ("weather"@, WEATHER_DESCRIPTION@, WEATHER_CONTENT@),
        ("search"@, SEARCH_DESCRIPTION@, SEARCH_CONTENT@),
        ("memory"@, MEMORY_DESCRIPTION@, MEMORY_CONTENT@),
    ]
}

/// The registered skills are the built-in ones, in order.
pub open spec fn holds_builtins(s: Seq<Arc<Skill>>) -> bool {
    &&& s.len() == 4
    &&& forall|i: int| 0 <= i < 4 ==> {
        &&& #[trigger] s[i].name@ == builtin_table()[i].0
        &&& s[i].description@ == builtin_table()[i].1
        &&& s[i].content@ == builtin_table()[i].2
    }
}

/// Lookup of skills by name.
pub trait SkillRegistry {
    fn get(&self, name: &str) -> Option<Arc<Skill>>;

    fn list(&self) -> Vec<Arc<Skill>>;

    fn names(&self) -> Vec<String>;
}

/// Names of the skills, in order.
pub open spec fn skill_names(s: Seq<Arc<Skill>>) -> Seq<Seq<char>> {
    s.map_values(|k: Arc<Skill>| k.name@)
}

/// No two skills share a name.
pub open spec fn unique_names(s: Seq<Arc<Skill>>) -> bool {
    forall|i: int, j: int| 0 <= i < j < s.len() ==> #[trigger] s[i].name@ != #[trigger] s[j].name@
}

/// The registry of skills, one per name, in order of registration.
pub struct BuiltinSkillRegistry {
    skills: Vec<Arc<Skill>>,
}

impl View for BuiltinSkillRegistry {
    type V = Seq<Arc<Skill>>;

    closed spec fn view(&self) -> Seq<Arc<Skill>> {
        self.skills@
    }
}

impl BuiltinSkillRegistry {
    /// The registry holding the four built-in skills: github, weather,
    /// search and memory.
    pub fn new() -> (r: Self)
        ensures
            r.wf(),
            skill_names(r@) == seq!["github"@, "weather"@, "search"@, "memory"@],
            holds_builtins(r@),
    {
        let mut r = BuiltinSkillRegistry { skills: Vec::new() };
        r.register_builtin_skills();
        r
    }

    pub open spec fn wf(&self) -> bool {
        unique_names(self@)
    }

    fn register_builtin_skills(&mut self)
        requires
            old(self)@.len() == 0,
        ensures
            final(self).wf(),
            skill_names(final(self)@) == seq!["github"@, "weather"@, "search"@, "memory"@],
            holds_builtins(final(self)@),
    {
        proof {
            reveal_strlit("github");
            reveal_strlit("weather");
            reveal_strlit("search");
            reveal_strlit("memory");
            assert("github"@ != "weather"@) by { assert("github"@[0] != "weather"@[0]); }
            assert("github"@ != "search"@) by { assert("github"@[0] != "search"@[0]); }
            assert("github"@ != "memory"@) by { assert("github"@[0] != "memory"@[0]); }
            assert("weather"@ != "search"@) by { assert("weather"@[0] != "search"@[0]); }
            assert("weather"@ != "memory"@) by { assert("weather"@[0] != "memory"@[0]); }
            assert("search"@ != "memory"@) by { assert("search"@[0] != "memory"@[0]); }
        }
        self.register(Skill::new(
            "github",
            GITHUB_DESCRIPTION,
            GITHUB_CONTENT,
        ));
        let ghost sgithub = self@;
        self.register(Skill::new(
            "weather",
            WEATHER_DESCRIPTION,
            WEATHER_CONTENT,
        ));
        let ghost sweather = self@;
        self.register(Skill::new(
            "search",
            SEARCH_DESCRIPTION,
            SEARCH_CONTENT,
        ));
        let ghost ssearch = self@;
        self.register(Skill::new(
            "memory",
            MEMORY_DESCRIPTION,
            MEMORY_CONTENT,
        ));
        let ghost smemory = self@;
        assert(skill_names(self@) =~= seq!["github"@, "weather"@, "search"@, "memory"@]);
        assert(sweather.drop_last() == sgithub);
        assert(ssearch.drop_last() == sweather);
        assert(smemory.drop_last() == ssearch);
        assert(self@[0] == sgithub[0]);
        assert(self@[1] == sweather[1]);
        assert(self@[2] == ssearch[2]);
    }

    /// Position of the skill named `name`, if any.
    fn find(&self, name: &str) -> (r: Option<usize>)
        ensures
            match r {
                None => forall|i: int| 0 <= i < self@.len() ==> #[trigger] self@[i].name@ != name@,
                Some(i) => i < self@.len() && self@[i as int].name@ == name@,
            },
    {
        let mut i: usize = 0;
        while i < self.skills.len()
            invariant
                i <= self.skills@.len(),
                forall|j: int| 0 <= j < i ==> #[trigger] self.skills@[j].name@ != name@,
            decreases self.skills@.len() - i,
        {
            if str_eq(self.skills[i].name.as_str(), name) {
                return Some(i);
            }
            i = i + 1;
        }
        None
    }

    /// Adds `skill`, replacing the skill of the same name where there is one.
    pub fn register(&mut self, skill: Skill)
        requires
            old(self).wf(),
        ensures
            final(self).wf(),
            match index_of_name(old(self)@, skill.name@) {
                Some(i) => final(self)@.len() == old(self)@.len() && same_skill(final(self)@[i], skill)
                    && forall|j: int| 0 <= j < old(self)@.len() && j != i ==> #[trigger] final(self)@[j] == old(self)@[j],
                None => final(self)@.len() == old(self)@.len() + 1 && same_skill(final(self)@.last(), skill)
                    && final(self)@.drop_last() == old(self)@,
            },
    {
        let ghost name = skill.name@;
        match self.find(skill.name.as_str()) {
            Some(i) => {
                self.skills.set(i, Arc::new(skill));
                proof {
                    lemma_index_of_name(old(self)@, name, i as int);
                    assert forall|a: int, b: int| 0 <= a < b < self@.len() implies #[trigger] self@[a].name@ != #[trigger] self@[b].name@ by {
                        assert(old(self)@[a].name@ != old(self)@[b].name@);
                    }
                }
            },
            None => {
                self.skills.push(Arc::new(skill));
                proof {
                    assert(!(exists|i: int| 0 <= i < old(self)@.len() && #[trigger] old(self)@[i].name@ == name));
                }
            },
        }
    }

    /// The skill named `name`, if registered.
    pub fn get(&self, name: &str) -> (r: Option<Arc<Skill>>)
        requires
            self.wf(),
        ensures
            match index_of_name(self@, name@) {
                Some(i) => r == Some(self@[i]),
                None => r.is_none(),
            },
    {
        match self.find(name) {
            Some(i) => {
                proof {
                    lemma_index_of_name(self@, name@, i as int);
                }
                Some(self.skills[i].clone())
            },
            None => None,
        }
    }

    /// Every registered skill, in order of registration.
    pub fn list(&self) -> (r: Vec<Arc<Skill>>)
        ensures
            r@ == self@,
    {
        let mut r: Vec<Arc<Skill>> = Vec::new();
        let mut i: usize = 0;
        while i < self.skills.len()
            invariant
                i <= self.skills@.len(),
                r@ == self.skills@.subrange(0, i as int),
            decreases self.skills@.len() - i,
        {
            r.push(self.skills[i].clone());
            assert(r@ =~= self.skills@.subrange(0, i + 1));
            i = i + 1;
        }
        assert(self.skills@ =~= self.skills@.subrange(0, i as int));
        r
    }

    /// Names of every registered skill, in order of registration.
    pub fn names(&self) -> (r: Vec<String>)
        ensures
            r@.map_values(|s: String| s@) == skill_names(self@),
    {
        let mut r: Vec<String> = Vec::new();
        let mut i: usize = 0;
        while i < self.skills.len()
            invariant
                i <= self.skills@.len(),
                r@.map_values(|s: String| s@) == skill_names(self.skills@.subrange(0, i as int)),
            decreases self.skills@.len() - i,
        {
            let ghost r0 = r@;
            let nm = self.skills[i].name.clone();
            r.push(nm);
            assert(r@.map_values(|s: String| s@) =~= r0.map_values(|s: String| s@).push(nm@));
            assert(r@.map_values(|s: String| s@) =~= skill_names(self.skills@.subrange(0, i + 1)));
            i = i + 1;
        }
        assert(self.skills@ =~= self.skills@.subrange(0, i as int));
        r
    }
}

/// A registered skill holds the fields of `b`.
pub open spec fn same_skill(a: Arc<Skill>, b: Skill) -> bool {
    a.name@ == b.name@ && a.description@ == b.description@ && a.content@ == b.content@
}

/// Index of the skill named `name`, if any.
pub open spec fn index_of_name(s: Seq<Arc<Skill>>, name: Seq<char>) -> Option<int> {
    if exists|i: int| 0 <= i < s.len() && #[trigger] s[i].name@ == name {
        Some(choose|i: int| 0 <= i < s.len() && #[trigger] s[i].name@ == name)
    } else {
        None
    }
}

pub proof fn lemma_index_of_name(s: Seq<Arc<Skill>>, name: Seq<char>, i: int)
    requires
        unique_names(s),
        0 <= i < s.len(),
        s[i].name@ == name,
    ensures
        index_of_name(s, name) == Some(i),
{
    let c = choose|c: int| 0 <= c < s.len() && #[trigger] s[c].name@ == name;
    if c < i {
        assert(s[c].name@ != s[i].name@);
    }
    if i < c {
        assert(s[i].name@ != s[c].name@);
    }
}

impl SkillRegistry for BuiltinSkillRegistry {
    fn get(&self, name: &str) -> Option<Arc<Skill>> {
        match self.find(name) {
            Some(i) => Some(self.skills[i].clone()),
            None => None,
        }
    }

    fn list(&self) -> Vec<Arc<Skill>> {
        BuiltinSkillRegistry::list(self)
    }

    fn names(&self) -> Vec<String> {
        BuiltinSkillRegistry::names(self)
    }
}

/// The registry of built-in skills.
pub fn builtin_skills() -> (r: BuiltinSkillRegistry)
    ensures
        r.wf(),
        skill_names(r@) == seq!["github"@, "weather"@, "search"@, "memory"@],
        holds_builtins(r@),
{
    BuiltinSkillRegistry::new()
}

} // verus!
