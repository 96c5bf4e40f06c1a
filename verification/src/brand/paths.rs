//! System paths and the choice of the configuration directory.

use vstd::prelude::*;

use crate::text::chars_of;

verus! {

/// The system configuration root.
pub fn config_root() -> (r: &'static str)
    ensures
        r@ == "/etc/pxi"@,
{
    "/etc/pxi"
}

/// The system data root.
pub fn data_root() -> (r: &'static str)
    ensures
        r@ == "/var/lib/pxi"@,
{
    "/var/lib/pxi"
}

/// `PathBuf::join` on Unix: an absolute segment replaces the path; otherwise the segment is
/// appended, with a `/` between unless the path is empty or already ends in one.
pub open spec fn path_join(base: Seq<char>, seg: Seq<char>) -> Seq<char> {
    if seg.len() > 0 && seg[0] == '/' {
        seg
    } else if base.len() == 0 || base.last() == '/' {
        base + seg
    } else {
        base + "/"@ + seg
    }
}

/// `PathBuf::from(base).join(seg)`.
pub fn join_path(base: &str, seg: &str) -> (r: String)
    ensures
        r@ == path_join(base@, seg@),
{
    let b = chars_of(base);
    let s = chars_of(seg);
    if s.len() > 0 && s[0] == '/' {
        return String::from_str(seg);
    }
    let mut out = String::from_str(base);
    if !(b.len() == 0 || b[b.len() - 1] == '/') {
        out.append("/");
    }
    out.append(seg);
    out
}

/// The per-user configuration directory under a home directory: `~/.config/pxi`.
pub open spec fn user_config_path(home: Seq<char>) -> Seq<char> {
    path_join(path_join(home, ".config"@), "pxi"@)
}

/// `~/.config/pxi` for the home directory `home`.
pub fn user_config_dir(home: &str) -> (r: String)
    ensures
        r@ == user_config_path(home@),
{
    let c = join_path(home, ".config");
    join_path(c.as_str(), "pxi")
}

/// Which configuration directory applies: `$XDG_CONFIG_HOME/pxi` when that variable is set,
/// else `~/.config/pxi` when it exists, else `/etc/pxi`.
pub open spec fn config_dir_path(
    xdg_config_home: Option<Seq<char>>,
    home: Option<Seq<char>>,
    user_dir_exists: bool,
) -> Seq<char> {
    match xdg_config_home {
        Some(x) => path_join(x, "pxi"@),
        None => match home {
            Some(h) if user_dir_exists => user_config_path(h),
            _ => "/etc/pxi"@,
        },
    }
}

/// The configuration directory, given `$XDG_CONFIG_HOME`, `$HOME`, and whether
/// `$HOME/.config/pxi` exists.
pub fn config_dir(xdg_config_home: Option<&str>, home: Option<&str>, user_dir_exists: bool) -> (r:
    String)
    ensures
        r@ == config_dir_path(
            match xdg_config_home {
                Some(x) => Some(x@),
                None => None,
            },
            match home {
                Some(h) => Some(h@),
                None => None,
            },
            user_dir_exists,
        ),
{
    match xdg_config_home {
        Some(x) => join_path(x, "pxi"),
        None => match home {
            Some(h) => {
                if user_dir_exists {
                    user_config_dir(h)
                } else {
                    String::from_str(config_root())
                }
            },
            None => String::from_str(config_root()),
        },
    }
}

} // verus!
