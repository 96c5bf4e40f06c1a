//! NAS mounts (SMB/CIFS and NFS): credential files, mount sources and options, and the
//! `/etc/fstab` lines that make a mount permanent.

use vstd::prelude::*;

use crate::text::{chars_of, push_char};

verus! {

/// `char::is_alphanumeric`: the Unicode `Alphabetic` or `Numeric` property.
pub uninterp spec fn unicode_alphanumeric(c: char) -> bool;

/// `char::is_alphanumeric`. Trusted: its result is the Unicode property named by
/// `unicode_alphanumeric`; nothing more is stated of it.
#[verifier::external_body]
fn is_alphanumeric(c: char) -> (r: bool)
    ensures
        r == unicode_alphanumeric(c),
{
    c.is_alphanumeric()
}

/// The character kept, or `_` in its place: `c` stays when it is alphanumeric (`alnum`) or
/// `_`.
pub open spec fn sanitized_char(c: char, alnum: bool) -> char {
    if alnum || c == '_' {
        c
    } else {
        '_'
    }
}

/// Each character paired with whether it is alphanumeric, sanitized.
pub open spec fn sanitized_with(cs: Seq<(char, bool)>) -> Seq<char> {
    cs.map_values(|p: (char, bool)| sanitized_char(p.0, p.1))
}

/// `s` with every character that is neither alphanumeric nor `_` replaced by `_`.
pub open spec fn sanitized(s: Seq<char>) -> Seq<char> {
    s.map_values(|c: char| sanitized_char(c, unicode_alphanumeric(c)))
}

/// Sanitizes characters already classified: each is paired with whether it is
/// alphanumeric, and every one that is neither alphanumeric nor `_` becomes `_`.
pub fn sanitize_classified(cs: &[(char, bool)]) -> (r: String)
    ensures
        r@ == sanitized_with(cs@),
{
    let mut out = String::new();
    let mut i: usize = 0;
    while i < cs.len()
        invariant
            i <= cs@.len(),
            out@ == sanitized_with(cs@.take(i as int)),
        decreases cs@.len() - i,
    {
        let (c, alnum) = cs[i];
        push_char(&mut out, if alnum || c == '_' { c } else { '_' });
        proof {
            assert(sanitized_with(cs@.take(i + 1)) =~= sanitized_with(cs@.take(i as int)).push(
                sanitized_char(c, alnum),
            ));
        }
        i = i + 1;
    }
    proof {
        assert(cs@.take(cs@.len() as int) =~= cs@);
    }
    out
}

/// The file-name-safe key of a share: `<host>_<share>`, sanitized.
pub fn safe_name(host: &str, share: &str) -> (r: String)
    ensures
        r@ == sanitized(host@ + "_"@ + share@),
{
    let mut joined = String::from_str(host);
    joined.append("_");
    joined.append(share);
    let cs = chars_of(joined.as_str());
    let mut classified: Vec<(char, bool)> = Vec::new();
    let mut i: usize = 0;
    while i < cs.len()
        invariant
            i <= cs@.len(),
            classified@.len() == i,
            forall|k: int|
                0 <= k < i ==> #[trigger] classified@[k] == (cs@[k], unicode_alphanumeric(
                    cs@[k],
                )),
        decreases cs@.len() - i,
    {
        let c = cs[i];
        classified.push((c, is_alphanumeric(c)));
        i = i + 1;
    }
    let out = sanitize_classified(classified.as_slice());
    proof {
        assert(sanitized_with(classified@) =~= sanitized(host@ + "_"@ + share@));
    }
    out
}

/// Where the credentials of a share are kept: `/etc/cifs-credentials/<safe name>`.
pub fn credentials_path(host: &str, share: &str) -> (r: String)
    ensures
        r@ == "/etc/cifs-credentials/"@ + sanitized(host@ + "_"@ + share@),
{
    let name = safe_name(host, share);
    let mut s = String::from_str("/etc/cifs-credentials/");
    s.append(name.as_str());
    s
}

/// The credentials file: the user name, and the password unless it is empty.
pub fn credentials_file(user: &str, password: &str) -> (r: String)
    ensures
        password@.len() == 0 ==> r@ == "username="@ + user@ + "\n"@,
        password@.len() > 0 ==> r@ == "username="@ + user@ + "\npassword="@ + password@
            + "\n"@,
{
    let mut s = String::from_str("username=");
    s.append(user);
    if password.is_empty() {
        s.append("\n");
    } else {
        s.append("\npassword=");
        s.append(password);
        s.append("\n");
    }
    s
}

/// The SMB source of a share: `//<host>/<share>`.
pub fn smb_source(host: &str, share: &str) -> (r: String)
    ensures
        r@ == "//"@ + host@ + "/"@ + share@,
{
    let mut s = String::from_str("//");
    s.append(host);
    s.append("/");
    s.append(share);
    s
}

/// The CIFS mount options: the credentials file, SMB 3.0, UTF-8, and a mount that waits for
/// the network and tolerates its absence.
pub fn smb_options(credentials_path: &str) -> (r: String)
    ensures
        r@ == "credentials="@ + credentials_path@ + ",vers=3.0,iocharset=utf8,_netdev,nofail"@,
{
    let mut s = String::from_str("credentials=");
    s.append(credentials_path);
    s.append(",vers=3.0,iocharset=utf8,_netdev,nofail");
    s
}

/// The `/etc/fstab` line of a CIFS mount.
pub fn smb_fstab_line(source: &str, target: &str, options: &str) -> (r: String)
    ensures
        r@ == source@ + " "@ + target@ + " cifs "@ + options@ + " 0 0"@,
{
    let mut s = String::from_str(source);
    s.append(" ");
    s.append(target);
    s.append(" cifs ");
    s.append(options);
    s.append(" 0 0");
    s
}

/// The NFS source of an export: `<host>:<share>`.
pub fn nfs_source(host: &str, share: &str) -> (r: String)
    ensures
        r@ == host@ + ":"@ + share@,
{
    let mut s = String::from_str(host);
    s.append(":");
    s.append(share);
    s
}

/// The `/etc/fstab` line of an NFS mount.
pub fn nfs_fstab_line(source: &str, target: &str) -> (r: String)
    ensures
        r@ == source@ + " "@ + target@ + " nfs _netdev,nofail 0 0"@,
{
    let mut s = String::from_str(source);
    s.append(" ");
    s.append(target);
    s.append(" nfs _netdev,nofail 0 0");
    s
}

/// Why an SMB mount cannot proceed.
#[derive(Debug, Clone, PartialEq, Eq)]
pub enum NasError {
    /// Neither `--user` nor `NAS_USER` gives a user.
    MissingUser,
}

/// The SMB user: the one given, else the one from the environment file; it must not be
/// empty.
pub fn smb_user(given: Option<&str>, from_env: &str) -> (r: Result<String, NasError>)
    ensures
        ({
            let u = match given {
                Some(g) => g@,
                None => from_env@,
            };
            if u.len() == 0 {
                r == Err::<String, NasError>(NasError::MissingUser)
            } else {
                r matches Ok(s) && s@ == u
            }
        }),
{
    let u = match given {
        Some(g) => g,
        None => from_env,
    };
    if u.is_empty() {
        Err(NasError::MissingUser)
    } else {
        Ok(String::from_str(u))
    }
}

} // verus!
