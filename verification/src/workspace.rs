//! The developer workspace: the shell start-up hook and the tmux configuration backup.

use vstd::prelude::*;

use crate::fstab::lemma_contains_middle;
use crate::text::{contains, contains_str, trim, trim_str};

verus! {

/// The line that makes `~/.bashrc` source every `~/.bashrc.d/*.sh`.
pub const SOURCE_LINE: &'static str =
    "for f in ~/.bashrc.d/*.sh; do [ -r \"$f\" ] && source \"$f\"; done";

/// The new `~/.bashrc` with the source line appended, or `None` when it already mentions
/// `bashrc.d`.
pub fn bashrc_with_source(existing: &str) -> (r: Option<String>)
    ensures
        contains(existing@, "bashrc.d"@) ==> r is None,
        !contains(existing@, "bashrc.d"@) ==> (r matches Some(s) && s@ == existing@
            + "\n# prelik-workspace\n"@ + SOURCE_LINE@ + "\n"@),
{
    if contains_str(existing, "bashrc.d") {
        return None;
    }
    let mut s = String::from_str(existing);
    s.append("\n# prelik-workspace\n");
    s.append(SOURCE_LINE);
    s.append("\n");
    Some(s)
}

/// The backup name of an existing tmux configuration, stamped with the trimmed output of
/// `date`.
pub fn tmux_backup_name(date: &str) -> (r: String)
    ensures
        r@ == ".tmux.conf.prelik-backup-"@ + trim(date@),
{
    let mut s = String::from_str(".tmux.conf.prelik-backup-");
    s.append(trim_str(date));
    s
}

/// The start-up hook is added once: after it is appended, the text mentions `bashrc.d`, so a
/// second setup leaves it unchanged.
pub proof fn law_bashrc_hook_once(existing: Seq<char>)
    ensures
        contains(existing + "\n# prelik-workspace\n"@ + SOURCE_LINE@ + "\n"@, "bashrc.d"@),
{
    reveal_strlit("for f in ~/.bashrc.d/*.sh; do [ -r \"$f\" ] && source \"$f\"; done");
    reveal_strlit("bashrc.d");
    let line = SOURCE_LINE@;
    let head = existing + "\n# prelik-workspace\n"@ + line.subrange(0, 12);
    let tail = line.subrange(20, line.len() as int) + "\n"@;
    assert(line.subrange(12, 20) =~= "bashrc.d"@);
    assert(existing + "\n# prelik-workspace\n"@ + line + "\n"@ =~= head + "bashrc.d"@ + tail);
    lemma_contains_middle(head, "bashrc.d"@, tail);
}

} // verus!
