//! Paths as text: home-marker expansion and Unix-style joining.
use vstd::prelude::*;
use vstd::string::*;

verus! {

/// A path that starts at the root.
pub open spec fn is_absolute(p: Seq<char>) -> bool {
    p.len() > 0 && p[0] == '/'
}

/// `base` joined with `p`: an absolute `p` replaces `base`; otherwise a
/// separator is put between the two unless `base` is empty or already ends
/// with one.
pub open spec fn joined(base: Seq<char>, p: Seq<char>) -> Seq<char> {
    if is_absolute(p) {
        p
    } else if base.len() > 0 && base.last() != '/' {
        base + seq!['/'] + p
    } else {
        base + p
    }
}

/// The home marker `~` on its own, or `~/` followed by a rest, expanded
/// against `home`; any other path, or any path when the home directory is
/// unknown, is left as it is.
pub open spec fn expanded(path: Seq<char>, home: Option<Seq<char>>) -> Seq<char> {
    match home {
        None => path,
        Some(h) => if path == seq!['~'] {
            h
        } else if path.len() >= 2 && path[0] == '~' && path[1] == '/' {
            joined(h, path.subrange(2, path.len() as int))
        } else {
            path
        },
    }
}

/// Index of the last `/` in `p`, or -1 when there is none.
pub open spec fn last_slash(p: Seq<char>) -> int
    decreases p.len(),
{
    if p.len() == 0 {
        -1
    } else if p.last() == '/' {
        p.len() - 1
    } else {
        last_slash(p.drop_last())
    }
}

/// The directory that holds the file at the canonical path `p`: what comes
/// before the last separator, the root itself for a file at the root, and
/// the empty path when `p` has no separator.
pub open spec fn parent_dir(p: Seq<char>) -> Seq<char> {
    let k = last_slash(p);
    if k < 0 {
        Seq::empty()
    } else if k == 0 {
        seq!['/']
    } else {
        p.subrange(0, k)
    }
}

/// Where an import entry written in a file of directory `dir` points: the
/// entry with the home marker expanded, taken relative to `dir` unless it is
/// absolute.
pub open spec fn import_target(dir: Seq<char>, entry: Seq<char>, home: Option<Seq<char>>) -> Seq<char> {
    let e = expanded(entry, home);
    if is_absolute(e) {
        e
    } else {
        joined(dir, e)
    }
}

/// Relies on `dirs::home_dir`: the current user's home directory, if it can
/// be found (from the environment or the user database), as text; a home
/// directory that is not valid UTF-8 counts as unknown. Nothing is promised
/// of its value.
#[verifier::external_body]
pub(crate) fn home_dir() -> (r: Option<String>) {
    dirs::home_dir().and_then(|p| p.into_os_string().into_string().ok())
}

/// The configuration file under the home directory `home`:
/// `<home>/.config/sesh/sesh.toml`.
pub open spec fn config_path(home: Seq<char>) -> Seq<char> {
    joined(joined(joined(home, ".config"@), "sesh"@), "sesh.toml"@)
}

/// Joins `p` onto `base` as a Unix path buffer does.
pub fn join_path(base: &str, p: &str) -> (r: String)
    ensures
        r@ == joined(base@, p@),
{
    let n = p.unicode_len();
    if n > 0 && p.get_char(0) == '/' {
        return String::from_str(p);
    }
    let mut r = String::from_str(base);
    let m = base.unicode_len();
    if m > 0 && base.get_char(m - 1) != '/' {
        proof {
            reveal_strlit("/");
        }
        r.append("/");
    }
    r.append(p);
    r
}

/// Expands the home marker of `path` against the home directory `home`.
pub fn expand_tilde_in(path: &str, home: Option<&str>) -> (r: String)
    ensures
        r@ == expanded(path@, match home {
            Some(h) => Some(h@),
            None => None,
        }),
{
    match home {
        None => String::from_str(path),
        Some(h) => {
            let n = path.unicode_len();
            if n == 1 && path.get_char(0) == '~' {
                assert(path@ =~= seq!['~']);
                String::from_str(h)
            } else if n >= 2 && path.get_char(0) == '~' && path.get_char(1) == '/' {
                let rest = path.substring_char(2, n);
                join_path(h, rest)
            } else {
                String::from_str(path)
            }
        },
    }
}

/// Expands the home marker of `path` against the current user's home
/// directory, whatever it turns out to be.
pub fn expand_tilde(path: &str) -> (r: String)
    ensures
        exists|h: Option<Seq<char>>| r@ == expanded(path@, h),
{
    let home = home_dir();
    match home {
        Some(h) => expand_tilde_in(path, Some(h.as_str())),
        None => expand_tilde_in(path, None),
    }
}

/// The configuration file under the home directory `home`.
pub fn config_path_in(home: &str) -> (r: String)
    ensures
        r@ == config_path(home@),
{
    let a = join_path(home, ".config");
    let b = join_path(a.as_str(), "sesh");
    join_path(b.as_str(), "sesh.toml")
}

/// The configuration file of the current user, when the home directory is
/// known.
pub fn sesh_config_path() -> (r: Option<String>)
    ensures
        r matches Some(p) ==> exists|h: Seq<char>| p@ == config_path(h),
{
    match home_dir() {
        Some(h) => Some(config_path_in(h.as_str())),
        None => None,
    }
}

/// The directory holding the file at canonical path `p`.
pub fn parent_of(p: &str) -> (r: String)
    ensures
        r@ == parent_dir(p@),
{
    let n = p.unicode_len();
    let mut i: usize = n;
    assert(p@.subrange(0, n as int) =~= p@);
    while i > 0 && p.get_char(i - 1) != '/'
        invariant
            i <= n,
            n == p@.len(),
            last_slash(p@) == last_slash(p@.subrange(0, i as int)),
        decreases i,
    {
        assert(p@.subrange(0, i as int).drop_last() =~= p@.subrange(0, i - 1));
        i = i - 1;
    }
    proof {
        if i > 0 {
            assert(last_slash(p@.subrange(0, i as int)) == i - 1);
        }
    }
    if i == 0 {
        assert(p@.subrange(0, 0) =~= Seq::<char>::empty());
        String::new()
    } else if i == 1 {
        proof {
            reveal_strlit("/");
        }
        String::from_str("/")
    } else {
        String::from_str(p.substring_char(0, i - 1))
    }
}

/// Where the import `entry`, written in a file whose directory is `dir`,
/// points, with `home` as the home directory.
pub fn resolve_import(dir: &str, entry: &str, home: Option<&str>) -> (r: String)
    ensures
        r@ == import_target(dir@, entry@, match home {
            Some(h) => Some(h@),
            None => None,
        }),
{
    let e = expand_tilde_in(entry, home);
    let n = e.as_str().unicode_len();
    if n > 0 && e.as_str().get_char(0) == '/' {
        e
    } else {
        join_path(dir, e.as_str())
    }
}

} // verus!
