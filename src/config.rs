//! Where things live under the home directory of the service.

use vstd::prelude::*;
use crate::text::owned;

verus! {

broadcast use vstd::string::group_string_axioms;

/// `part` joined onto `base` with one separator, as `PathBuf::join` does
/// for a relative `part`.
pub open spec fn joined(base: Seq<char>, part: Seq<char>) -> Seq<char> {
    if base.len() == 0 {
        part
    } else if base.last() == '/' {
        base + part
    } else {
        base + "/"@ + part
    }
}

/// Joins a relative `part` onto `base`.
pub fn join(base: &str, part: &str) -> (r: String)
    ensures
        r@ == joined(base@, part@),
{
    let n = base.unicode_len();
    if n == 0 {
        return owned(part);
    }
    let mut r = owned(base);
    if base.get_char(n - 1) != '/' {
        r.append("/");
    }
    r.append(part);
    r
}

/// Storage directory for the database and credentials.
pub fn store_dir(home: &str) -> (r: String)
    ensures
        r@ == joined(home@, "store"@),
{
    join(home, "store")
}

/// Directory of the per-group files.
pub fn groups_dir(home: &str) -> (r: String)
    ensures
        r@ == joined(home@, "groups"@),
{
    join(home, "groups")
}

/// Runtime data directory.
pub fn data_dir(home: &str) -> (r: String)
    ensures
        r@ == joined(home@, "data"@),
{
    join(home, "data")
}

/// Logs directory, inside the groups directory.
pub fn logs_dir(home: &str) -> (r: String)
    ensures
        r@ == joined(joined(home@, "groups"@), "logs"@),
{
    let g = groups_dir(home);
    join(g.as_str(), "logs")
}

/// Mount allowlist file.
pub fn mount_allowlist_path(home: &str) -> (r: String)
    ensures
        r@ == joined(home@, "mount-allowlist.json"@),
{
    join(home, "mount-allowlist.json")
}

/// Main configuration file.
pub fn config_path(home: &str) -> (r: String)
    ensures
        r@ == joined(home@, "config.json"@),
{
    join(home, "config.json")
}

} // verus!

verus! {

/// Relies on `home::home_dir`: the current user's home directory, if one is
/// known, in text form. Nothing is promised of its value.
#[verifier::external_body]
fn user_home_dir() -> (r: Option<String>) {
    match home::home_dir() {
        Some(p) => Some(p.to_string_lossy().into_owned()),
        None => None,
    }
}

/// The home directory of the service: the configured one if set, else
/// `.nuclaw` under the user's home, or under `/Users/user` where that is
/// unknown.
pub open spec fn home_of(configured: Option<Seq<char>>, user_home: Option<Seq<char>>) -> Seq<char> {
    match configured {
        Some(c) => c,
        None => match user_home {
            Some(h) => joined(h, ".nuclaw"@),
            None => joined("/Users/user"@, ".nuclaw"@),
        },
    }
}

/// The home directory from the configured value and the user's home.
pub fn home_from(configured: Option<&str>, user_home: Option<&str>) -> (r: String)
    ensures
        r@ == home_of(
            match configured {
                Some(c) => Some(c@),
                None => None,
            },
            match user_home {
                Some(h) => Some(h@),
                None => None,
            },
        ),
{
    match configured {
        Some(c) => owned(c),
        None => match user_home {
            Some(h) => join(h, ".nuclaw"),
            None => join("/Users/user", ".nuclaw"),
        },
    }
}

/// The home directory of the service, given the configured value (the
/// `NUCLAW_HOME` variable) and looking up the user's home when it is unset.
pub fn nuclaw_home(configured: Option<&str>) -> (r: String)
    ensures
        configured.is_some() ==> r@ == configured.unwrap()@,
        configured.is_none() ==> exists|h: Option<Seq<char>>| r@ == #[trigger] home_of(None, h),
{
    match configured {
        Some(c) => owned(c),
        None => {
            let h = user_home_dir();
            match h {
                Some(s) => {
                    let r = home_from(None, Some(s.as_str()));
                    assert(r@ == home_of(None, Some(s@)));
                    r
                },
                None => {
                    let r = home_from(None, None);
                    assert(r@ == home_of(None, None));
                    r
                },
            }
        },
    }
}

} // verus!
