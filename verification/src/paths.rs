//! Path computation, on plain strings. Where the surrounding application
//! learns a directory from the environment or checks that a file exists,
//! it hands the answer in as an argument; these functions only assemble
//! and take apart path strings.

use vstd::prelude::*;

verus! {

use vstd::string::StringExecFns;

use crate::strings::{string_from_chars, string_to_chars};

/// The base directory of the managed installation: a non-empty configured
/// override wins, else `.factory` under the home directory.
pub open spec fn spec_factory_base_dir(custom: Option<Seq<char>>, home: Seq<char>) -> Seq<char> {
    match custom {
        Some(p) => if p.len() > 0 {
            p
        } else {
            home + "/.factory"@
        },
        None => home + "/.factory"@,
    }
}

/// Computes the base directory from the configured override and the home
/// directory.
pub fn factory_base_dir(custom: &Option<String>, home: &String) -> (r: String)
    ensures
        r@ == spec_factory_base_dir(
            match custom {
                Some(p) => Some(p@),
                None => None,
            },
            home@,
        ),
{
    match custom {
        Some(p) => {
            if !p.as_str().is_empty() {
                p.clone()
            } else {
                home.clone().concat("/.factory")
            }
        },
        None => home.clone().concat("/.factory"),
    }
}

/// The directory that holds the stored profile documents.
pub fn configs_dir(base: &String) -> (r: String)
    ensures
        r@ == base@ + "/configs"@,
{
    base.clone().concat("/configs")
}

/// The preferred live settings file under the base directory.
pub fn settings_path(base: &String) -> (r: String)
    ensures
        r@ == base@ + "/settings.json"@,
{
    base.clone().concat("/settings.json")
}

/// The fallback live settings file under the base directory.
pub fn config_path(base: &String) -> (r: String)
    ensures
        r@ == base@ + "/config.json"@,
{
    base.clone().concat("/config.json")
}

/// The live document to write: the settings file when it exists, else the
/// config file. The caller reports whether the settings file exists.
pub fn target_path(base: &String, settings_exists: bool) -> (r: String)
    ensures
        r@ == if settings_exists {
            base@ + "/settings.json"@
        } else {
            base@ + "/config.json"@
        },
{
    if settings_exists {
        settings_path(base)
    } else {
        config_path(base)
    }
}

/// Where this application's own settings live: under the platform's
/// configuration directory when one is known, else under home.
pub fn app_settings_path(config_dir: &Option<String>, home: &String) -> (r: String)
    ensures
        r@ == (match config_dir {
            Some(d) => d@,
            None => home@,
        }) + "/dd-switch/settings.json"@,
{
    match config_dir {
        Some(d) => d.clone().concat("/dd-switch/settings.json"),
        None => home.clone().concat("/dd-switch/settings.json"),
    }
}

/// The base directory used when no override is configured.
pub fn get_default_factory_path(home: &String) -> (r: String)
    ensures
        r@ == home@ + "/.factory"@,
{
    home.clone().concat("/.factory")
}

/// Whether a base directory holds a usable installation: it must exist
/// and carry at least one of the two live settings files. The caller
/// reports each existence check.
pub fn check_factory_path(base_exists: bool, settings_exists: bool, config_exists: bool) -> (r:
    bool)
    ensures
        r == (base_exists && (settings_exists || config_exists)),
{
    base_exists && (settings_exists || config_exists)
}

/// The file that stores a profile of the given name.
pub fn config_file_path(dir: &String, name: &String) -> (r: String)
    ensures
        r@ == dir@ + "/"@ + name@ + ".json"@,
{
    dir.clone().concat("/").concat(name.as_str()).concat(".json")
}

/// The position of the last separator in a path, if any.
pub open spec fn last_slash(s: Seq<char>) -> Option<int>
    decreases s.len(),
{
    if s.len() == 0 {
        None
    } else if s[s.len() - 1] == '/' {
        Some(s.len() - 1)
    } else {
        last_slash(s.drop_last())
    }
}

/// The path of a file named `new_name` (with the profile suffix) in the
/// directory of `old_path`: how a profile is renamed in place. `None`
/// when `old_path` has no directory part.
#[verifier::loop_isolation(false)]
pub fn sibling_path(old_path: &String, new_name: &String) -> (r: Option<String>)
    ensures
        match r {
            Some(p) => last_slash(old_path@) is Some && p@ == old_path@.take(last_slash(old_path@)->0)
                + "/"@ + new_name@ + ".json"@,
            None => last_slash(old_path@) is None,
        },
{
    let chars = string_to_chars(old_path.as_str());
    let mut i: usize = chars.len();
    proof {
        assert(old_path@.take(chars.len() as int) =~= old_path@);
    }
    while i > 0
        invariant
            0 <= i <= chars.len(),
            last_slash(old_path@) == last_slash(old_path@.take(i as int)),
        decreases i,
    {
        proof {
            let pre = old_path@.take(i as int);
            assert(pre.drop_last() =~= old_path@.take(i as int - 1));
        }
        if chars[i - 1] == '/' {
            proof {
                assert(old_path@.take(i as int).len() == i);
                assert(old_path@.take(i as int)[i as int - 1] == old_path@[i as int - 1]);
                assert(last_slash(old_path@.take(i as int)) == Some(i as int - 1));
            }
            let mut dir: Vec<char> = Vec::new();
            let mut j: usize = 0;
            proof {
                assert(dir@ =~= old_path@.take(0));
            }
            while j < i - 1
                invariant
                    0 <= j <= i - 1 < chars.len(),
                    dir@ == old_path@.take(j as int),
                    last_slash(old_path@) == Some(i as int - 1),
                decreases i - j,
            {
                dir.push(chars[j]);
                proof {
                    assert(dir@ =~= old_path@.take(j as int + 1));
                }
                j = j + 1;
            }
            let dir_s = string_from_chars(&dir);
            return Some(dir_s.concat("/").concat(new_name.as_str()).concat(".json"));
        }
        i = i - 1;
    }
    proof {
        assert(old_path@.take(0) =~= Seq::<char>::empty());
    }
    None
}

} // verus!
