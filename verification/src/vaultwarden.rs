//! Vaultwarden lifecycle: reading the outputs of `bw`, `curl` and the guest's probes, and
//! writing the files and scripts pushed into the guest.

use vstd::prelude::*;
use vstd::string::StringSliceAdditionalSpecFns;

use crate::text::{
    is_ws, lemma_find_char_after, lemma_find_first, lemma_last_line, lemma_trim_start_after_ws,
    lemma_trim_unchanged, occurs_at,
    chars_of, contains, contains_str, find, find_str, lines, split_lines, str_eq, trim,
    trim_start, trim_start_str, trim_str, views,
};

verus! {

/// The index of the `}` that closes the JSON object being read, scanning `s` from `i` in the
/// given state: inside a string or not, just after a backslash in a string or not, and how many
/// inner objects are open. Braces inside strings, and escaped quotes, do not count.
pub open spec fn closing_from(s: Seq<char>, i: int, in_str: bool, esc: bool, depth: nat) -> Option<
    int,
>
    decreases s.len() - i,
{
    if i < 0 || i >= s.len() {
        None
    } else {
        let c = s[i];
        if in_str {
            if esc {
                closing_from(s, i + 1, true, false, depth)
            } else if c == '\\' {
                closing_from(s, i + 1, true, true, depth)
            } else if c == '"' {
                closing_from(s, i + 1, false, false, depth)
            } else {
                closing_from(s, i + 1, true, false, depth)
            }
        } else if c == '"' {
            closing_from(s, i + 1, true, false, depth)
        } else if c == '{' {
            closing_from(s, i + 1, false, false, depth + 1)
        } else if c == '}' {
            if depth == 0 {
                Some(i)
            } else {
                closing_from(s, i + 1, false, false, (depth - 1) as nat)
            }
        } else {
            closing_from(s, i + 1, false, false, depth)
        }
    }
}

/// The index of the `}` that closes the current object, for text that starts inside the
/// object and outside any string.
pub open spec fn object_close(s: Seq<char>) -> Option<int> {
    closing_from(s, 0, false, false, 0)
}

/// The index of the `}` that closes the current object (see [`object_close`]).
fn find_object_close(s: &str) -> (r: Option<usize>)
    ensures
        match r {
            Some(i) => object_close(s@) == Some(i as int),
            None => object_close(s@) is None,
        },
{
    let cs = chars_of(s);
    let n = cs.len();
    let mut i: usize = 0;
    let mut in_str = false;
    let mut esc = false;
    let mut depth: usize = 0;
    while i < n
        invariant
            cs@ == s@,
            n == cs@.len(),
            i <= n,
            depth <= i,
            !in_str ==> !esc,
            object_close(s@) == closing_from(s@, i as int, in_str, esc, depth as nat),
        decreases n - i,
    {
        let c = cs[i];
        if in_str {
            if esc {
                esc = false;
            } else if c == '\\' {
                esc = true;
            } else if c == '"' {
                in_str = false;
            }
        } else if c == '"' {
            in_str = true;
        } else if c == '{' {
            depth = depth + 1;
        } else if c == '}' {
            if depth == 0 {
                return Some(i);
            }
            depth = depth - 1;
        }
        i = i + 1;
    }
    None
}

/// The value of the custom field `field` in a `bw get item` JSON document. The field's
/// object is the one whose name comes first as `"name":"<field>"`; its value is the string
/// right after its `"value":` key. There is none when no field has that name, when the
/// object closes (its `}`, braces inside strings not counted) before any `"value":` key, or
/// when the value is not a string (such as `null`): the value of another field is never
/// taken.
pub open spec fn field_value(json: Seq<char>, field: Seq<char>) -> Option<Seq<char>> {
    let needle = "\"name\":\""@ + field + "\""@;
    let key = "\"value\":"@;
    match find(json, needle) {
        None => None,
        Some(pos) => {
            let after = json.subrange(pos + needle.len(), json.len() as int);
            match find(after, key) {
                None => None,
                Some(v) => {
                    let closed_before = match object_close(after) {
                        Some(c) => c < v,
                        None => false,
                    };
                    let start = v + key.len();
                    if closed_before || start >= after.len() || after[start] != '"' {
                        None
                    } else {
                        let rest = after.subrange(start + 1, after.len() as int);
                        match find(rest, "\""@) {
                            None => None,
                            Some(e) => Some(rest.subrange(0, e)),
                        }
                    }
                },
            }
        },
    }
}

/// The value of the custom field `field_name` in an item's JSON (see [`field_value`]).
pub fn extract_field(item_json: &str, field_name: &str) -> (r: Option<String>)
    ensures
        match field_value(item_json@, field_name@) {
            Some(v) => r matches Some(s) && s@ == v,
            None => r is None,
        },
{
    let mut needle = String::from_str("\"name\":\"");
    needle.append(field_name);
    needle.append("\"");
    let pos = find_str(item_json, needle.as_str())?;
    let n = chars_of(item_json).len();
    let nl = chars_of(needle.as_str()).len();
    let after = item_json.substring_char(pos + nl, n);
    let v = find_str(after, "\"value\":")?;
    match find_object_close(after) {
        Some(c) => {
            if c < v {
                return None;
            }
        },
        None => {},
    }
    let key_len = chars_of("\"value\":").len();
    let cs = chars_of(after);
    let start = v + key_len;
    if start >= cs.len() || cs[start] != '"' {
        return None;
    }
    let rest = after.substring_char(start + 1, cs.len());
    let e = find_str(rest, "\"")?;
    Some(String::from_str(rest.substring_char(0, e)))
}

/// Why no release tag could be read from a GitHub API response.
#[derive(Debug, Clone, PartialEq, Eq)]
pub enum TagError {
    /// No `"tag_name"` key.
    MissingKey,
    /// No `:` after the key.
    MissingColon,
    /// No opening `"` of the value.
    MissingOpenQuote,
    /// No closing `"` of the value.
    MissingCloseQuote,
}

/// The tag of a GitHub "latest release" response: after the first `"tag_name"`, the next
/// `:`, then white space, then a quoted value.
pub open spec fn latest_tag(body: Seq<char>) -> Result<Seq<char>, TagError> {
    match find(body, "\"tag_name\""@) {
        None => Err(TagError::MissingKey),
        Some(k) => match find(body.subrange(k, body.len() as int), ":"@) {
            None => Err(TagError::MissingColon),
            Some(c) => {
                let rest = trim_start(body.subrange(k + c + 1, body.len() as int));
                match find(rest, "\""@) {
                    None => Err(TagError::MissingOpenQuote),
                    Some(q) => {
                        let after_quote = rest.subrange(q + 1, rest.len() as int);
                        match find(after_quote, "\""@) {
                            None => Err(TagError::MissingCloseQuote),
                            Some(e) => Ok(after_quote.subrange(0, e)),
                        }
                    },
                }
            },
        },
    }
}

/// Reads the release tag out of a GitHub "latest release" response (see [`latest_tag`]).
pub fn parse_latest_tag(body: &str) -> (r: Result<String, TagError>)
    ensures
        match (r, latest_tag(body@)) {
            (Ok(s), Ok(t)) => s@ == t,
            (Err(e), Err(f)) => e == f,
            _ => false,
        },
{
    let n = chars_of(body).len();
    let k = match find_str(body, "\"tag_name\"") {
        Some(k) => k,
        None => {
            return Err(TagError::MissingKey);
        },
    };
    let from_key = body.substring_char(k, n);
    let c = match find_str(from_key, ":") {
        Some(c) => c,
        None => {
            return Err(TagError::MissingColon);
        },
    };
    proof {
        reveal_strlit(":");
        crate::text::lemma_find_result(from_key@, ":"@);
    }
    let rest = trim_start_str(body.substring_char(k + c + 1, n));
    let rn = chars_of(rest).len();
    let q = match find_str(rest, "\"") {
        Some(q) => q,
        None => {
            return Err(TagError::MissingOpenQuote);
        },
    };
    proof {
        reveal_strlit("\"");
        crate::text::lemma_find_result(rest@, "\""@);
    }
    let after_quote = rest.substring_char(q + 1, rn);
    let e = match find_str(after_quote, "\"") {
        Some(e) => e,
        None => {
            return Err(TagError::MissingCloseQuote);
        },
    };
    proof {
        crate::text::lemma_find_result(after_quote@, "\""@);
    }
    Ok(String::from_str(after_quote.substring_char(0, e)))
}

/// One of the characters of a `bw` session key: an ASCII letter or digit, `+`, `/` or `=`.
pub open spec fn is_session_char(c: char) -> bool {
    let u = c as u32;
    ||| 48 <= u <= 57
    ||| 65 <= u <= 90
    ||| 97 <= u <= 122
    ||| c == '+'
    ||| c == '/'
    ||| c == '='
}

/// A trimmed line that reads as a session key: at least 40 characters, all session
/// characters.
pub open spec fn is_session_line(t: Seq<char>) -> bool {
    t.len() >= 40 && forall|i: int| 0 <= i < t.len() ==> is_session_char(t[i])
}

/// The last line of `ls` that, trimmed, reads as a session key (trimmed).
pub open spec fn last_session(ls: Seq<Seq<char>>) -> Option<Seq<char>>
    decreases ls.len(),
{
    if ls.len() == 0 {
        None
    } else if is_session_line(trim(ls.last())) {
        Some(trim(ls.last()))
    } else {
        last_session(ls.drop_last())
    }
}

fn session_line(t: &str) -> (r: bool)
    ensures
        r == is_session_line(t@),
{
    let cs = chars_of(t);
    if cs.len() < 40 {
        return false;
    }
    let mut i: usize = 0;
    while i < cs.len()
        invariant
            cs@ == t@,
            i <= cs@.len(),
            forall|k: int| 0 <= k < i ==> is_session_char(cs@[k]),
        decreases cs@.len() - i,
    {
        let c = cs[i];
        let u = c as u32;
        if !((48 <= u && u <= 57) || (65 <= u && u <= 90) || (97 <= u && u <= 122) || c == '+'
            || c == '/' || c == '=') {
            return false;
        }
        i = i + 1;
    }
    true
}

/// The session key printed by `bw login --raw`: the last line of its standard output then
/// error output that reads as a session key, trimmed; empty when there is none.
pub fn session_from_login(stdout: &str, stderr: &str) -> (r: String)
    ensures
        match last_session(lines(stdout@) + lines(stderr@)) {
            Some(s) => r@ == s,
            None => r@.len() == 0,
        },
{
    let mut all = split_lines(stdout);
    let mut more = split_lines(stderr);
    let ghost a = all@;
    let ghost b = more@;
    all.append(&mut more);
    let ghost ls = lines(stdout@) + lines(stderr@);
    proof {
        assert(all@ =~= a + b);
        assert(views(all@) =~= views(a) + views(b));
    }
    let mut i = all.len();
    proof {
        assert(views(all@).len() == all@.len());
        assert(ls.take(i as int) =~= ls);
    }
    while i > 0
        invariant
            i <= all@.len(),
            views(all@) == ls,
            ls == lines(stdout@) + lines(stderr@),
            last_session(ls) == last_session(ls.take(i as int)),
        decreases i,
    {
        let t = trim_str(all[i - 1]);
        proof {
            assert(views(all@)[i - 1] == all@[i - 1]@);
            assert(ls.take(i as int).last() == all@[i - 1]@);
            assert(ls.take(i as int).drop_last() =~= ls.take(i - 1));
        }
        if session_line(t) {
            return String::from_str(t);
        }
        i = i - 1;
    }
    String::new()
}

/// The last line of `ls` that is not blank, as it is.
pub open spec fn last_nonblank(ls: Seq<Seq<char>>) -> Option<Seq<char>>
    decreases ls.len(),
{
    if ls.len() == 0 {
        None
    } else if trim(ls.last()).len() > 0 {
        Some(ls.last())
    } else {
        last_nonblank(ls.drop_last())
    }
}

/// The line to report for a failed login: the last nonblank line of the error output, or
/// `(no stderr)`.
pub fn login_failure_line(stderr: &str) -> (r: &str)
    ensures
        match last_nonblank(lines(stderr@)) {
            Some(l) => r@ == l,
            None => r@ == "(no stderr)"@,
        },
{
    let ls = split_lines(stderr);
    let ghost l = lines(stderr@);
    let mut i = ls.len();
    proof {
        assert(views(ls@).len() == ls@.len());
        assert(l.take(i as int) =~= l);
    }
    while i > 0
        invariant
            i <= ls@.len(),
            views(ls@) == l,
            l == lines(stderr@),
            last_nonblank(l) == last_nonblank(l.take(i as int)),
        decreases i,
    {
        proof {
            assert(views(ls@)[i - 1] == ls@[i - 1]@);
            assert(l.take(i as int).last() == ls@[i - 1]@);
            assert(l.take(i as int).drop_last() =~= l.take(i - 1));
        }
        if !trim_str(ls[i - 1]).is_empty() {
            return ls[i - 1];
        }
        i = i - 1;
    }
    "(no stderr)"
}

/// The number of non-overlapping occurrences of `p` (non-empty) in `s` at or after `i`.
pub open spec fn count_from(s: Seq<char>, p: Seq<char>, i: int) -> nat
    decreases s.len() + 1 - i,
{
    if p.len() == 0 || i < 0 || i > s.len() {
        0
    } else {
        match crate::text::find_from(s, p, i) {
            None => 0,
            Some(j) => if j >= i && j + p.len() <= s.len() {
                1 + count_from(s, p, j + p.len())
            } else {
                0
            },
        }
    }
}

/// The number of items in a `bw list items` JSON array: the occurrences of `"id":`.
pub fn count_item_ids(items_json: &str) -> (r: usize)
    ensures
        r == count_from(items_json@, "\"id\":"@, 0),
{
    let cs = chars_of(items_json);
    let pat = chars_of("\"id\":");
    proof {
        reveal_strlit("\"id\":");
    }
    let n = cs.len();
    let mut count: usize = 0;
    let mut i: usize = 0;
    while i <= n
        invariant
            cs@ == items_json@,
            pat@ == "\"id\":"@,
            pat@.len() == 5,
            n == cs@.len(),
            i <= n,
            count <= i,
            count_from(items_json@, pat@, 0) == count + count_from(items_json@, pat@, i as int),
        decreases n + 1 - i,
    {
        match crate::text::find_chars(&cs, &pat, i) {
            None => {
                return count;
            },
            Some(j) => {
                proof {
                    crate::text::lemma_find_from_result(cs@, pat@, i as int);
                }
                count = count + 1;
                i = j + 5;
            },
        }
    }
    count
}

/// `a` and `b` joined.
fn concat2(a: &str, b: &str) -> (r: String)
    ensures
        r@ == a@ + b@,
{
    let mut s = String::from_str(a);
    s.append(b);
    s
}

/// `a`, `b` and `c` joined.
fn concat3(a: &str, b: &str, c: &str) -> (r: String)
    ensures
        r@ == a@ + b@ + c@,
{
    let mut s = String::from_str(a);
    s.append(b);
    s.append(c);
    s
}

/// Whether a `bw get item` answer means failure: blank, or carrying a `"message":` field.
pub fn item_lookup_failed(json: &str) -> (r: bool)
    ensures
        r == (trim(json@).len() == 0 || contains(json@, "\"message\":"@)),
{
    trim_str(json).is_empty() || contains_str(json, "\"message\":")
}

/// The first line of the trimmed text (the version line of `bw --version`).
pub open spec fn first_line_of(s: Seq<char>) -> Seq<char> {
    let t = trim(s);
    match find(t, "\n"@) {
        Some(i) => t.subrange(0, i),
        None => t,
    }
}

/// The first line of the trimmed text.
pub fn first_line(s: &str) -> (r: &str)
    ensures
        r@ == first_line_of(s@),
{
    let t = trim_str(s);
    match find_str(t, "\n") {
        Some(i) => t.substring_char(0, i),
        None => t,
    }
}

/// The session key of `bw unlock --raw`: its trimmed output, unless empty.
pub fn unlock_session(stdout: &str) -> (r: Option<String>)
    ensures
        trim(stdout@).len() == 0 ==> r is None,
        trim(stdout@).len() > 0 ==> (r matches Some(s) && s@ == trim(stdout@)),
{
    let t = trim_str(stdout);
    if t.is_empty() {
        None
    } else {
        Some(String::from_str(t))
    }
}

/// Whether an install step is skipped: the guest's probe answered `yes` (trimmed) and no
/// reinstall was forced.
pub fn install_skipped(probe: &str, force: bool) -> (r: bool)
    ensures
        r == (trim(probe@) == "yes"@ && !force),
{
    str_eq(trim_str(probe), "yes") && !force
}

/// The first `n` bytes of a key, when `n` falls on a character boundary (slicing elsewhere
/// panics).
pub fn key_preview(key: &str, n: usize) -> (r: Option<&str>)
    ensures
        r is Some <==> vstd::utf8::is_char_boundary(key.spec_bytes(), n as int),
        r matches Some(p) ==> p.spec_bytes() == key.spec_bytes().subrange(0, n as int),
{
    if key.is_char_boundary(n) {
        Some(key.split_at(n).0)
    } else {
        None
    }
}

/// The tag an upgrade aims at: the requested one, else the latest release's, else `?` when
/// the latest release could not be read.
pub fn upgrade_tag(requested: Option<&str>, latest: Option<&str>) -> (r: String)
    ensures
        r@ == match requested {
            Some(t) => t@,
            None => match latest {
                Some(l) => l@,
                None => "?"@,
            },
        },
{
    match requested {
        Some(t) => String::from_str(t),
        None => match latest {
            Some(l) => String::from_str(l),
            None => String::from_str("?"),
        },
    }
}

/// The GitHub API address of the latest release of `repo`.
pub fn latest_release_url(repo: &str) -> (r: String)
    ensures
        r@ == "https://api.github.com/repos/"@ + repo@ + "/releases/latest"@,
{
    concat3("https://api.github.com/repos/", repo, "/releases/latest")
}

/// Where the prebuilt web vault releases are published.
pub const WEB_VAULT_RELEASE_BASE: &'static str =
    "https://github.com/dani-garcia/bw_web_builds/releases/download";

/// Upstream repository of Vaultwarden.
pub const VW_UPSTREAM: &'static str = "https://github.com/dani-garcia/vaultwarden.git";

/// The download address of the web vault tarball of `tag`.
pub fn web_vault_url(tag: &str) -> (r: String)
    ensures
        r@ == WEB_VAULT_RELEASE_BASE@ + "/"@ + tag@ + "/bw_web_"@ + tag@ + ".tar.gz"@,
{
    let mut s = concat3(WEB_VAULT_RELEASE_BASE, "/", tag);
    s.append("/bw_web_");
    s.append(tag);
    s.append(".tar.gz");
    s
}

pub const ENV_HEAD: &'static str = "# Generated by `pxi run vaultwarden install-env`\nADMIN_TOKEN=";

pub const ENV_MIDDLE: &'static str = "\nROCKET_ADDRESS=0.0.0.0\n# ROCKET_TLS 는 Traefik 경유라 off. 다시 쓰려면 주석 해제.\nDATA_FOLDER=/opt/vaultwarden/data\nDATABASE_MAX_CONNS=10\nWEB_VAULT_FOLDER=/opt/vaultwarden/web-vault\nWEB_VAULT_ENABLED=true\n# 도메인 — invite/verify 메일 링크에 사용 (config.json 이 있으면 그쪽 우선)\nDOMAIN=";

pub const ENV_TAIL: &'static str = "\n# SMTP — mailgun-smtp-proxy shim 경유 (CF same-zone 수신자도 배달)\nSMTP_HOST=10.0.50.122\nSMTP_PORT=2526\nSMTP_SECURITY=off\nSMTP_FROM=devops@ranode.net\nSMTP_FROM_NAME=Vaultwarden\n";

/// The `/opt/vaultwarden/.env` file: the admin token, the domain, and the SMTP relay.
pub fn env_file(token: &str, url: &str) -> (r: String)
    ensures
        r@ == ENV_HEAD@ + token@ + ENV_MIDDLE@ + url@ + ENV_TAIL@,
{
    let mut s = concat3(ENV_HEAD, token, ENV_MIDDLE);
    s.append(url);
    s.append(ENV_TAIL);
    s
}

pub const DOMAIN_SET_HEAD: &'static str = "python3 - <<'PY'\nimport json\np = \"/opt/vaultwarden/data/config.json\"\nc = json.load(open(p))\nc[\"domain\"] = \"";

pub const DOMAIN_SET_TAIL: &'static str = "\"\njson.dump(c, open(p, \"w\"), indent=2)\nPY\nchown vaultwarden:vaultwarden /opt/vaultwarden/data/config.json\nsystemctl restart vaultwarden\necho ok\n";

/// The guest script that sets the invitation link domain in `config.json` and restarts.
pub fn domain_set_script(url: &str) -> (r: String)
    ensures
        r@ == DOMAIN_SET_HEAD@ + url@ + DOMAIN_SET_TAIL@,
{
    concat3(DOMAIN_SET_HEAD, url, DOMAIN_SET_TAIL)
}

pub const SMTP_HEAD: &'static str = "python3 - <<'PY'\nimport json\np = \"/opt/vaultwarden/data/config.json\"\nc = json.load(open(p))\nc[\"smtp_host\"] = \"";

pub const SMTP_AFTER_HOST: &'static str = "\"\nc[\"smtp_port\"] = ";

pub const SMTP_AFTER_PORT: &'static str = "\nc[\"smtp_security\"] = \"off\"\nc[\"smtp_from\"] = \"";

pub const SMTP_TAIL: &'static str = "\"\nc[\"smtp_from_name\"] = \"Vaultwarden\"\nc[\"smtp_username\"] = None\nc[\"smtp_password\"] = None\nc[\"smtp_auth_mechanism\"] = None\nc[\"smtp_accept_invalid_certs\"] = True\nc[\"smtp_accept_invalid_hostnames\"] = True\njson.dump(c, open(p, \"w\"), indent=2)\nPY\n# .env 에 auth 변수가 남아 있으면 warning 뜨므로 주석 처리\nsed -i 's|^SMTP_USERNAME=|# SMTP_USERNAME=|' /opt/vaultwarden/.env\nsed -i 's|^SMTP_PASSWORD=|# SMTP_PASSWORD=|' /opt/vaultwarden/.env\nsed -i 's|^SMTP_AUTH_MECHANISM=|# SMTP_AUTH_MECHANISM=|' /opt/vaultwarden/.env\nchown vaultwarden:vaultwarden /opt/vaultwarden/data/config.json\nsystemctl restart vaultwarden\necho ok\n";

/// The guest script that points SMTP at the relay `host:port`, sending as `from`.
pub fn smtp_mailgun_script(host: &str, port: u16, from: &str) -> (r: String)
    ensures
        r@ == SMTP_HEAD@ + host@ + SMTP_AFTER_HOST@ + crate::text::decimal(port as nat)
            + SMTP_AFTER_PORT@ + from@ + SMTP_TAIL@,
{
    let mut s = concat3(SMTP_HEAD, host, SMTP_AFTER_HOST);
    crate::text::push_decimal(&mut s, port as u64);
    s.append(SMTP_AFTER_PORT);
    s.append(from);
    s.append(SMTP_TAIL);
    s
}

pub const BUILD_HEAD: &'static str = "set -e\napt-get update -qq\napt-get install -y --no-install-recommends \\\n    git curl ca-certificates build-essential pkg-config \\\n    libssl-dev libsqlite3-dev libpq-dev libmariadb-dev-compat >/dev/null\n\n# rustup (per-run, minimal)\nif ! command -v cargo >/dev/null 2>&1; then\n    curl --proto '=https' --tlsv1.2 -sSf https://sh.rustup.rs | sh -s -- -y --profile minimal --default-toolchain stable >/dev/null\nfi\n. \"$HOME/.cargo/env\"\n\nSRC=/opt/vaultwarden/src\nmkdir -p /opt/vaultwarden/bin /opt/vaultwarden/data\n\n# shallow clone + tag 체크아웃이 기존 .git 에서 꼬이면 --version metadata 가\n# 예전 값 embed 되므로, 매번 src 를 새로 clone 하는 편이 안전.\nrm -rf \"$SRC\"\ngit clone --depth 1 --branch ";

pub const BUILD_AFTER_UPSTREAM: &'static str = " \"$SRC\"\n\ncd \"$SRC\"\nHEAD_TAG=$(git describe --tags --always)\necho \"src HEAD = $HEAD_TAG\"\ncargo build --release --features ";

pub const BUILD_TAIL: &'static str = " --no-default-features\ninstall -m 0755 target/release/vaultwarden /opt/vaultwarden/bin/vaultwarden\nchown -R vaultwarden:vaultwarden /opt/vaultwarden/bin /opt/vaultwarden/data\necho \"binary_sha=$(sha256sum /opt/vaultwarden/bin/vaultwarden | awk '{print $1}')\"\n";

/// The guest script that builds Vaultwarden `tag` from source with the cargo `features`
/// and installs the binary.
pub fn build_script(tag: &str, features: &str) -> (r: String)
    ensures
        r@ == BUILD_HEAD@ + tag@ + " "@ + VW_UPSTREAM@ + BUILD_AFTER_UPSTREAM@ + features@
            + BUILD_TAIL@,
{
    let mut s = concat3(BUILD_HEAD, tag, " ");
    s.append(VW_UPSTREAM);
    s.append(BUILD_AFTER_UPSTREAM);
    s.append(features);
    s.append(BUILD_TAIL);
    s
}

pub const WEB_VAULT_HEAD: &'static str = "set -e\napt-get install -y --no-install-recommends curl ca-certificates tar >/dev/null\nmkdir -p /opt/vaultwarden\nrm -rf /opt/vaultwarden/web-vault.new\nmkdir -p /opt/vaultwarden/web-vault.new\ncurl -fsSL \"";

pub const WEB_VAULT_TAIL: &'static str = "\" | tar -xz -C /opt/vaultwarden/web-vault.new --strip-components=1\n[ -f /opt/vaultwarden/web-vault.new/index.html ] || { echo \"web-vault tarball missing index.html\"; exit 1; }\nrm -rf /opt/vaultwarden/web-vault\nmv /opt/vaultwarden/web-vault.new /opt/vaultwarden/web-vault\nchown -R vaultwarden:vaultwarden /opt/vaultwarden/web-vault\necho ok\n";

/// The guest script that installs the web vault tarball at `url`.
pub fn web_vault_script(url: &str) -> (r: String)
    ensures
        r@ == WEB_VAULT_HEAD@ + url@ + WEB_VAULT_TAIL@,
{
    concat3(WEB_VAULT_HEAD, url, WEB_VAULT_TAIL)
}

/// The GitLab group whose CI variable holds the dotenvx private key.
pub const GITLAB_GROUP_ID: &'static str = "283";

/// The GitLab API address of the group variable `DOTENV_PRIVATE_KEY`.
pub fn gitlab_variable_url(gitlab_url: &str) -> (r: String)
    ensures
        r@ == gitlab_url@ + "/api/v4/groups/"@ + GITLAB_GROUP_ID@
            + "/variables/DOTENV_PRIVATE_KEY"@,
{
    let mut s = concat3(gitlab_url, "/api/v4/groups/", GITLAB_GROUP_ID);
    s.append("/variables/DOTENV_PRIVATE_KEY");
    s
}

/// The authentication header of a GitLab API request.
pub fn gitlab_token_header(token: &str) -> (r: String)
    ensures
        r@ == "PRIVATE-TOKEN: "@ + token@,
{
    concat2("PRIVATE-TOKEN: ", token)
}

/// The JSON body that sets the variable `DOTENV_PRIVATE_KEY` to `key`, masked.
pub fn gitlab_variable_body(key: &str) -> (r: String)
    ensures
        r@ == "{\"key\":\"DOTENV_PRIVATE_KEY\",\"value\":\""@ + key@
            + "\",\"masked\":true,\"protected\":false}"@,
{
    concat3("{\"key\":\"DOTENV_PRIVATE_KEY\",\"value\":\"", key, "\",\"masked\":true,\"protected\":false}")
}

/// Whether GitLab's answer confirms the variable update.
pub fn gitlab_update_confirmed(response: &str) -> (r: bool)
    ensures
        r == contains(response@, "\"key\":\"DOTENV_PRIVATE_KEY\""@),
{
    contains_str(response, "\"key\":\"DOTENV_PRIVATE_KEY\"")
}

/// The GitLab token and address of a control-plane `.env` text: `GITLAB_TOKEN`, else
/// `GITLAB_API_TOKEN`; `GITLAB_URL`, else `http://10.0.50.63`.
pub fn gitlab_settings(content: &str) -> (r: (Option<String>, String))
    ensures
        match crate::envfile::env_value(content@, "GITLAB_TOKEN"@) {
            Some(t) => r.0 matches Some(s) && s@ == t,
            None => match crate::envfile::env_value(content@, "GITLAB_API_TOKEN"@) {
                Some(t) => r.0 matches Some(s) && s@ == t,
                None => r.0 is None,
            },
        },
        match crate::envfile::env_value(content@, "GITLAB_URL"@) {
            Some(u) => r.1@ == u,
            None => r.1@ == "http://10.0.50.63"@,
        },
{
    let token = match crate::envfile::read_env_value(content, "GITLAB_TOKEN") {
        Some(t) => Some(t),
        None => crate::envfile::read_env_value(content, "GITLAB_API_TOKEN"),
    };
    let url = match crate::envfile::read_env_value(content, "GITLAB_URL") {
        Some(u) => u,
        None => String::from_str("http://10.0.50.63"),
    };
    (token, url)
}

/// The re-encryption script of a repository checked out at `root`.
pub fn rekey_script_path(root: &str) -> (r: String)
    ensures
        r@ == root@ + "/control-plane/scripts/rekey.sh"@,
{
    concat2(root, "/control-plane/scripts/rekey.sh")
}

/// The commit message of a key rotation on `date`.
pub fn rotation_commit_message(date: &str) -> (r: String)
    ensures
        r@ == "chore: dotenvx 마스터 키 로테이션 "@ + date@,
{
    concat2("chore: dotenvx 마스터 키 로테이션 ", date)
}

/// Every ASCII letter (either case) and digit, and `+`, `/` and `=`, is a session-key
/// character: when the last line of `bw login`'s output is at least 40 of them (and the error
/// output is empty), that line is the session key read.
pub proof fn law_session_last_line(out: Seq<char>, key: Seq<char>)
    requires
        key.len() >= 40,
        forall|i: int|
            0 <= i < key.len() ==> {
                let c = #[trigger] key[i];
                ||| '0' as u32 <= c as u32 <= '9' as u32
                ||| 'A' as u32 <= c as u32 <= 'Z' as u32
                ||| 'a' as u32 <= c as u32 <= 'z' as u32
                ||| c == '+'
                ||| c == '/'
                ||| c == '='
            },
    ensures
        last_session(lines(out + "\n"@ + key) + lines(Seq::<char>::empty())) == Some(key),
{
    assert forall|i: int| 0 <= i < key.len() implies key[i] != '\n' && !is_ws(key[i]) by {
        let c = key[i];
        assert(48 <= c as u32 <= 57 || 65 <= c as u32 <= 90 || 97 <= c as u32 <= 122 || c == '+'
            || c == '/' || c == '=');
    }
    lemma_last_line(out, key);
    let e = Seq::<char>::empty();
    assert(lines(e) =~= Seq::<Seq<char>>::empty());
    let ls = lines(out + "\n"@).push(key);
    assert(ls + lines(e) =~= ls);
    lemma_trim_unchanged(key);
    assert(is_session_line(key)) by {
        assert forall|i: int| 0 <= i < key.len() implies is_session_char(key[i]) by {
            let c = key[i];
            assert(48 <= c as u32 <= 57 || 65 <= c as u32 <= 90 || 97 <= c as u32 <= 122 || c
                == '+' || c == '/' || c == '=');
        }
    }
    assert(ls.last() == key);
}

/// The tag is read verbatim: in a response whose first `"tag_name"` key is followed by a
/// colon, white space only, and a quoted tag without quotes, the tag is that quoted text,
/// character for character.
pub proof fn law_latest_tag_verbatim(pre: Seq<char>, gap: Seq<char>, tag: Seq<char>, post: Seq<
    char,
>)
    requires
        find(
            pre + "\"tag_name\":"@ + gap + "\""@ + tag + "\""@ + post,
            "\"tag_name\""@,
        ) == Some(pre.len() as int),
        forall|i: int| 0 <= i < gap.len() ==> is_ws(gap[i]),
        forall|i: int| 0 <= i < tag.len() ==> tag[i] != '"',
    ensures
        latest_tag(pre + "\"tag_name\":"@ + gap + "\""@ + tag + "\""@ + post) == Ok::<
            Seq<char>,
            TagError,
        >(tag),
{
    reveal_strlit("\"tag_name\":");
    reveal_strlit("\"tag_name\"");
    reveal_strlit("\"");
    reveal_strlit(":");
    let key = "\"tag_name\""@;
    let body = pre + "\"tag_name\":"@ + gap + "\""@ + tag + "\""@ + post;
    let k = pre.len() as int;
    let tail = gap + "\""@ + tag + "\""@ + post;
    let from_key = body.subrange(k, body.len() as int);
    assert(from_key =~= key + seq![':'] + tail);
    assert forall|i: int| 0 <= i < key.len() implies key[i] != ':' by {}
    lemma_find_char_after(key, ':', tail);
    assert(":"@ =~= seq![':']);
    let c = 10int;
    assert(body.subrange(k + c + 1, body.len() as int) =~= tail);
    let quoted = "\""@ + tag + "\""@ + post;
    assert(tail =~= gap + quoted);
    lemma_trim_start_after_ws(gap, quoted);
    let e = Seq::<char>::empty();
    assert(quoted =~= e + seq!['"'] + (tag + "\""@ + post));
    lemma_find_char_after(e, '"', tag + "\""@ + post);
    assert("\""@ =~= seq!['"']);
    let after_quote = quoted.subrange(1, quoted.len() as int);
    assert(after_quote =~= tag + seq!['"'] + post);
    lemma_find_char_after(tag, '"', post);
    assert(after_quote.subrange(0, tag.len() as int) =~= tag);
}

proof fn lemma_closing_from_at_least(s: Seq<char>, i: int, in_str: bool, esc: bool, depth: nat)
    ensures
        closing_from(s, i, in_str, esc, depth) matches Some(c) ==> c >= i,
    decreases s.len() - i,
{
    if 0 <= i < s.len() {
        let c = s[i];
        lemma_closing_from_at_least(s, i + 1, true, false, depth);
        lemma_closing_from_at_least(s, i + 1, true, true, depth);
        lemma_closing_from_at_least(s, i + 1, false, false, depth);
        lemma_closing_from_at_least(s, i + 1, false, false, depth + 1);
        if depth > 0 {
            lemma_closing_from_at_least(s, i + 1, false, false, (depth - 1) as nat);
        }
    }
}

/// A field's value is read whole: for the first object named `field` whose `"value"` comes
/// right after its name and is a string without quotes, the value read is that string,
/// character for character, whatever its length.
pub proof fn law_extract_field_value(pre: Seq<char>, field: Seq<char>, value: Seq<char>, post: Seq<
    char,
>)
    requires
        find(
            pre + "\"name\":\""@ + field + "\",\"value\":\""@ + value + "\""@ + post,
            "\"name\":\""@ + field + "\""@,
        ) == Some(pre.len() as int),
        forall|i: int| 0 <= i < value.len() ==> value[i] != '"',
    ensures
        field_value(
            pre + "\"name\":\""@ + field + "\",\"value\":\""@ + value + "\""@ + post,
            field,
        ) == Some(value),
{
    reveal_strlit("\"name\":\"");
    reveal_strlit("\",\"value\":\"");
    reveal_strlit("\"value\":");
    reveal_strlit("\"");
    let json = pre + "\"name\":\""@ + field + "\",\"value\":\""@ + value + "\""@ + post;
    let needle = "\"name\":\""@ + field + "\""@;
    let key = "\"value\":"@;
    let after = json.subrange((pre.len() + needle.len()) as int, json.len() as int);
    let rest = value + "\""@ + post;
    assert(after =~= seq![','] + key + seq!['"'] + rest);
    assert(occurs_at(after, key, 1)) by {
        assert(after.subrange(1, 9) =~= key);
    }
    assert(!occurs_at(after, key, 0)) by {
        assert(after.subrange(0, 8)[0] == ',');
    }
    lemma_find_first(after, key, 1);
    assert(after[0] == ',');
    assert(object_close(after) == closing_from(after, 1, false, false, 0));
    lemma_closing_from_at_least(after, 1, false, false, 0);
    assert(after[9] == '"');
    assert(after.subrange(10, after.len() as int) =~= value + seq!['"'] + post);
    lemma_find_char_after(value, '"', post);
    assert("\""@ =~= seq!['"']);
    assert((value + seq!['"'] + post).subrange(0, value.len() as int) =~= value);
}

} // verus!
