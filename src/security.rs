//! Workspace isolation (which paths an agent may touch) and the command
//! allowlist.

use vstd::prelude::*;
use crate::text::{
    contains, contains_seq, first_word, first_word_of, lower_of, lowercase, owned, starts_with,
    starts_with_seq, str_eq,
};

verus! {

broadcast use vstd::string::group_string_axioms;

/// Paths blocked whatever the allowed roots.
pub open spec fn default_blocked() -> Seq<Seq<char>> {
    seq!["/etc"@, "/root"@, "/proc"@, "/sys"@, "/boot"@, "/dev"@, "/var"@]
}

pub open spec fn strings(v: Seq<String>) -> Seq<Seq<char>> {
    v.map_values(|s: String| s@)
}

/// Some item of `prefixes` starts `path`.
pub open spec fn under_any(path: Seq<char>, prefixes: Seq<Seq<char>>) -> bool {
    exists|i: int| 0 <= i < prefixes.len() && starts_with_seq(path, #[trigger] prefixes[i])
}

/// `input` has `..` as one of its `/`-separated components.
pub open spec fn has_parent_component(s: Seq<char>) -> bool {
    exists|i: int|
        0 <= i && i + 2 <= s.len() && #[trigger] s[i] == '.' && s[i + 1] == '.' && (i == 0 || s[i - 1] == '/')
            && (i + 2 == s.len() || s[i + 2] == '/')
}

/// `base` is a leading run of whole components of `path`.
pub open spec fn component_prefix(path: Seq<char>, base: Seq<char>) -> bool {
    starts_with_seq(path, base) && (path.len() == base.len() || (base.len() > 0 && base.last() == '/')
        || path[base.len() as int] == '/')
}

fn any_prefix(path: &str, prefixes: &Vec<String>) -> (r: bool)
    ensures
        r == under_any(path@, strings(prefixes@)),
{
    let mut i: usize = 0;
    while i < prefixes.len()
        invariant
            i <= prefixes@.len(),
            forall|j: int| 0 <= j < i ==> !starts_with_seq(path@, #[trigger] strings(prefixes@)[j]),
        decreases prefixes@.len() - i,
    {
        if starts_with(path, prefixes[i].as_str()) {
            assert(starts_with_seq(path@, strings(prefixes@)[i as int]));
            return true;
        }
        i = i + 1;
    }
    false
}

/// Which paths an agent may touch.
pub struct WorkspaceIsolation {
    allowed_roots: Vec<String>,
    blocked_paths: Vec<String>,
    pub workspace_only: bool,
}

impl WorkspaceIsolation {
    pub closed spec fn roots(&self) -> Seq<Seq<char>> {
        strings(self.allowed_roots@)
    }

    pub closed spec fn blocked(&self) -> Seq<Seq<char>> {
        strings(self.blocked_paths@)
    }

    pub closed spec fn only_workspace(&self) -> bool {
        self.workspace_only
    }

    /// No allowed root yet, the default blocked paths.
    pub fn new(workspace_only: bool) -> (r: Self)
        ensures
            r.only_workspace() == workspace_only,
            r.roots() == Seq::<Seq<char>>::empty(),
            r.blocked() == default_blocked(),
    {
        let mut blocked: Vec<String> = Vec::new();
        blocked.push(owned("/etc"));
        blocked.push(owned("/root"));
        blocked.push(owned("/proc"));
        blocked.push(owned("/sys"));
        blocked.push(owned("/boot"));
        blocked.push(owned("/dev"));
        blocked.push(owned("/var"));
        let r = WorkspaceIsolation { allowed_roots: Vec::new(), blocked_paths: blocked, workspace_only };
        assert(r.blocked() =~= default_blocked());
        assert(r.roots() =~= Seq::<Seq<char>>::empty());
        r
    }

    /// Adds an allowed root.
    pub fn add_allowed_root(&mut self, path: &str)
        ensures
            final(self).roots() == old(self).roots().push(path@),
            final(self).blocked() == old(self).blocked(),
            final(self).only_workspace() == old(self).only_workspace(),
    {
        let ghost r0 = self.allowed_roots@;
        self.allowed_roots.push(owned(path));
        assert(strings(self.allowed_roots@) =~= strings(r0).push(path@));
    }

    /// The allowed roots, in order of addition.
    pub fn allowed_roots(&self) -> (r: Vec<String>)
        ensures
            strings(r@) == self.roots(),
    {
        self.allowed_roots.clone()
    }

    /// A path is allowed when no blocked path starts it and, in
    /// workspace-only mode, some allowed root does.
    pub fn is_path_allowed(&self, path: &str) -> (r: bool)
        ensures
            r == (!under_any(path@, self.blocked()) && (!self.only_workspace() || under_any(
                path@,
                self.roots(),
            ))),
    {
        if any_prefix(path, &self.blocked_paths) {
            return false;
        }
        if self.workspace_only {
            return any_prefix(path, &self.allowed_roots);
        }
        true
    }

    /// The path, unless it holds a NUL character or a `..` component.
    pub fn sanitize_path(&self, input: &str) -> (r: Option<String>)
        ensures
            match r {
                Some(p) => p@ == input@ && !input@.contains('\0') && !has_parent_component(input@),
                None => input@.contains('\0') || has_parent_component(input@),
            },
    {
        let n = input.unicode_len();
        let mut i: usize = 0;
        while i < n
            invariant
                n == input@.len(),
                i <= n,
                forall|j: int| 0 <= j < i ==> #[trigger] input@[j] != '\0',
            decreases n - i,
        {
            if input.get_char(i) == '\0' {
                return None;
            }
            i = i + 1;
        }
        let mut k: usize = 0;
        while k < n && n - k >= 2
            invariant
                n == input@.len(),
                k <= n,
                forall|j: int| 0 <= j < n ==> #[trigger] input@[j] != '\0',
                forall|j: int|
                    0 <= j < k && j + 2 <= n ==> !(#[trigger] input@[j] == '.' && input@[j + 1] == '.' && (j == 0
                        || input@[j - 1] == '/') && (j + 2 == n || input@[j + 2] == '/')),
            decreases n - k,
        {
            if input.get_char(k) == '.' && input.get_char(k + 1) == '.' && (k == 0 || input.get_char(k - 1) == '/')
                && (k + 2 == n || input.get_char(k + 2) == '/') {
                return None;
            }
            k = k + 1;
        }
        Some(owned(input))
    }

    /// Whether `path`, once resolved, lies outside `base`, resolved. Where
    /// `path` could not be resolved it is not an escape; where only `base`
    /// could not, it is.
    pub fn detect_symlink_escape(&self, resolved: Option<&str>, base_resolved: Option<&str>) -> (r: bool)
        ensures
            r == match (resolved, base_resolved) {
                (None, _) => false,
                (Some(_), None) => true,
                (Some(p), Some(b)) => !component_prefix(p@, b@),
            },
    {
        match resolved {
            None => false,
            Some(p) => match base_resolved {
                None => true,
                Some(b) => {
                    if !starts_with(p, b) {
                        return true;
                    }
                    let pn = p.unicode_len();
                    let bn = b.unicode_len();
                    if pn == bn {
                        return false;
                    }
                    if bn > 0 && b.get_char(bn - 1) == '/' {
                        return false;
                    }
                    !(p.get_char(bn) == '/')
                },
            },
        }
    }
}

/// Substrings that make a command dangerous.
pub open spec fn dangerous_patterns() -> Seq<Seq<char>> {
    seq!["rm -rf"@, "mkfs"@, "dd if="@, ":(){:|:&};:"@]
}

/// The first dangerous pattern found in the text `l`, if any.
pub open spec fn danger_in(l: Seq<char>) -> Option<Seq<char>> {
    if contains_seq(l, "rm -rf"@) {
        Some("rm -rf"@)
    } else if contains_seq(l, "mkfs"@) {
        Some("mkfs"@)
    } else if contains_seq(l, "dd if="@) {
        Some("dd if="@)
    } else if contains_seq(l, ":(){:|:&};:"@) {
        Some(":(){:|:&};:"@)
    } else {
        None
    }
}

/// The first dangerous pattern in the lowercase form of `command`, if any.
pub open spec fn first_danger(command: Seq<char>) -> Option<Seq<char>> {
    danger_in(lower_of(command))
}

/// The first dangerous pattern found in the already lowercased text `lower`.
pub fn find_danger(lower: &str) -> (r: Option<&'static str>)
    ensures
        match r {
            Some(p) => danger_in(lower@) == Some(p@),
            None => danger_in(lower@).is_none(),
        },
{
    if contains(lower, "rm -rf") {
        Some("rm -rf")
    } else if contains(lower, "mkfs") {
        Some("mkfs")
    } else if contains(lower, "dd if=") {
        Some("dd if=")
    } else if contains(lower, ":(){:|:&};:") {
        Some(":(){:|:&};:")
    } else {
        None
    }
}

/// The commands an agent may run, by name.
pub struct CommandAllowlist {
    allowed_commands: Vec<String>,
}

impl CommandAllowlist {
    pub closed spec fn commands(&self) -> Seq<Seq<char>> {
        strings(self.allowed_commands@)
    }

    /// An empty allowlist.
    pub fn new() -> (r: Self)
        ensures
            r.commands() == Seq::<Seq<char>>::empty(),
    {
        let r = CommandAllowlist { allowed_commands: Vec::new() };
        assert(r.commands() =~= Seq::<Seq<char>>::empty());
        r
    }

    fn holds(&self, name: &str) -> (r: bool)
        ensures
            r == self.commands().contains(name@),
    {
        let mut i: usize = 0;
        while i < self.allowed_commands.len()
            invariant
                i <= self.allowed_commands@.len(),
                forall|j: int| 0 <= j < i ==> #[trigger] self.commands()[j] != name@,
            decreases self.allowed_commands@.len() - i,
        {
            if str_eq(self.allowed_commands[i].as_str(), name) {
                assert(self.commands()[i as int] == name@);
                return true;
            }
            i = i + 1;
        }
        false
    }

    /// Allows the command named `cmd`.
    pub fn add_command(&mut self, cmd: &str)
        ensures
            old(self).commands().contains(cmd@) ==> final(self).commands() == old(self).commands(),
            !old(self).commands().contains(cmd@) ==> final(self).commands() == old(self).commands().push(cmd@),
    {
        if !self.holds(cmd) {
            let ghost r0 = self.allowed_commands@;
            self.allowed_commands.push(owned(cmd));
            assert(strings(self.allowed_commands@) =~= strings(r0).push(cmd@));
        }
    }

    /// Whether the first word of `command` is an allowed command name.
    pub fn is_allowed(&self, command: &str) -> (r: bool)
        ensures
            r == match first_word(command@) {
                Some(w) => self.commands().contains(w),
                None => self.commands().contains(Seq::<char>::empty()),
            },
    {
        match first_word_of(command) {
            Some(w) => self.holds(w.as_str()),
            None => {
                proof {
                    reveal_strlit("");
                    assert(""@ =~= Seq::<char>::empty());
                }
                self.holds("")
            },
        }
    }

    /// Checks `command`: it must have a first word; an empty allowlist
    /// allows anything; otherwise the word must be allowed and the command
    /// free of dangerous patterns.
    pub fn validate(&self, command: &str) -> (r: Result<(), String>)
        ensures
            match first_word(command@) {
                None => r is Err && r->Err_0@ == "Empty command"@,
                Some(w) => if self.commands().len() == 0 {
                    r is Ok
                } else if !self.commands().contains(w) {
                    r is Err && r->Err_0@ == "Command '"@ + w + "' not in allowlist"@
                } else {
                    match first_danger(command@) {
                        Some(p) => r is Err && r->Err_0@ == "Dangerous pattern detected: "@ + p,
                        None => r is Ok,
                    }
                },
            },
    {
        let name = match first_word_of(command) {
            Some(w) => w,
            None => {
                return Err(owned("Empty command"));
            },
        };
        if self.allowed_commands.len() == 0 {
            return Ok(());
        }
        if !self.holds(name.as_str()) {
            let mut msg = owned("Command '");
            msg.append(name.as_str());
            msg.append("' not in allowlist");
            return Err(msg);
        }
        let lower = lowercase(command);
        match find_danger(lower.as_str()) {
            Some(p) => Err(danger(p)),
            None => Ok(()),
        }
    }
}

fn danger(pattern: &str) -> (r: String)
    ensures
        r@ == "Dangerous pattern detected: "@ + pattern@,
{
    let mut msg = owned("Dangerous pattern detected: ");
    msg.append(pattern);
    msg
}

} // verus!
