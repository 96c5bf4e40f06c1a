//! Host LVM, swap and file-system sizing: size arguments, swap planning, LV names and the
//! `/etc/fstab` entry of a swap volume.

use vstd::prelude::*;

use crate::common::{run, string_views, Invocation};
use crate::fstab::{append_line, appended, lemma_contains_middle};
use crate::text::{
    contains, contains_str, decimal, lines, parse_u64, parse_u64_str, push_decimal, split_lines,
    str_eq, strip_suffix_str, trim, trim_str, views,
};

verus! {

/// `str::to_uppercase`: the Unicode upper-case mapping of a string (which may change its
/// length, e.g. `ß` becomes `SS`).
pub uninterp spec fn unicode_uppercase(s: Seq<char>) -> Seq<char>;

/// `str::to_uppercase`. Trusted: its result is the Unicode upper-case mapping of the
/// argument, named by `unicode_uppercase`; nothing more is stated of it.
#[verifier::external_body]
fn to_uppercase(s: &str) -> (r: String)
    ensures
        r@ == unicode_uppercase(s@),
{
    s.to_uppercase()
}

/// Why a size could not be read as a number of GiB.
#[derive(Debug, Clone, PartialEq, Eq)]
pub enum GibError {
    /// The size does not end in `G`, `GB` or `GiB`.
    MissingUnit,
    /// What precedes the unit is not a decimal number.
    InvalidNumber,
}

/// The number of GiB an upper-cased size denotes: a `GIB`, `GB` or `G` suffix (tried in that
/// order) is required, and what precedes it, trimmed, must be a `u64`.
pub open spec fn gib_of_upper(up: Seq<char>) -> Result<u64, GibError> {
    let stripped = if "GIB"@.is_suffix_of(up) {
        Some(up.subrange(0, up.len() - "GIB"@.len()))
    } else if "GB"@.is_suffix_of(up) {
        Some(up.subrange(0, up.len() - "GB"@.len()))
    } else if "G"@.is_suffix_of(up) {
        Some(up.subrange(0, up.len() - "G"@.len()))
    } else {
        None
    };
    match stripped {
        None => Err(GibError::MissingUnit),
        Some(n) => match parse_u64(trim(n)) {
            Some(v) => Ok(v),
            None => Err(GibError::InvalidNumber),
        },
    }
}

/// Reads an upper-cased size such as `40G`, `40 GB` or `40GIB`.
pub fn parse_gib_upper(up: &str) -> (r: Result<u64, GibError>)
    ensures
        r == gib_of_upper(up@),
{
    let stripped = match strip_suffix_str(up, "GIB") {
        Some(s) => s,
        None => match strip_suffix_str(up, "GB") {
            Some(s) => s,
            None => match strip_suffix_str(up, "G") {
                Some(s) => s,
                None => {
                    return Err(GibError::MissingUnit);
                },
            },
        },
    };
    match parse_u64_str(trim_str(stripped)) {
        Some(v) => Ok(v),
        None => Err(GibError::InvalidNumber),
    }
}

/// Reads a size in GiB such as `40G`, `40gb` or `40GiB` (the unit in any case).
pub fn parse_gib(s: &str) -> (r: Result<u64, GibError>)
    ensures
        r == gib_of_upper(unicode_uppercase(trim(s@))),
{
    let up = to_uppercase(trim_str(s));
    parse_gib_upper(up.as_str())
}

/// The total of the lines of `swapon --show=SIZE --bytes --noheadings` that read as a
/// number (trimmed), the others ignored.
pub open spec fn swap_sum(ls: Seq<Seq<char>>) -> nat
    decreases ls.len(),
{
    if ls.len() == 0 {
        0
    } else {
        swap_sum(ls.drop_last()) + match parse_u64(trim(ls.last())) {
            Some(v) => v as nat,
            None => 0,
        }
    }
}

/// The current swap size in bytes, from the `swapon` listing; `None` when the total does not
/// fit in `u64`.
pub fn swap_total_bytes(listing: &str) -> (r: Option<u64>)
    ensures
        r == (if swap_sum(lines(listing@)) <= u64::MAX {
            Some(swap_sum(lines(listing@)) as u64)
        } else {
            None::<u64>
        }),
{
    let ls = split_lines(listing);
    let ghost l = lines(listing@);
    proof {
        assert(views(ls@).len() == ls@.len());
        assert(l.take(0) =~= Seq::<Seq<char>>::empty());
    }
    let mut total: u64 = 0;
    let mut i: usize = 0;
    while i < ls.len()
        invariant
            l == views(ls@),
            l == lines(listing@),
            l.len() == ls@.len(),
            i <= ls@.len(),
            total as nat == swap_sum(l.take(i as int)),
        decreases ls@.len() - i,
    {
        proof {
            assert(l.take(i + 1).drop_last() =~= l.take(i as int));
            assert(l.take(i + 1).last() == ls@[i as int]@);
        }
        match parse_u64_str(trim_str(ls[i])) {
            Some(v) => {
                match total.checked_add(v) {
                    Some(t) => {
                        total = t;
                    },
                    None => {
                        proof {
                            assert(swap_sum(l.take(i + 1)) == swap_sum(l.take(i as int)) + v);
                            lemma_swap_sum_grows(l, i + 1);
                        }
                        return None;
                    },
                }
            },
            None => {},
        }
        i = i + 1;
    }
    proof {
        assert(l.take(i as int) =~= l);
    }
    Some(total)
}

proof fn lemma_swap_sum_grows(l: Seq<Seq<char>>, i: int)
    requires
        0 <= i <= l.len(),
    ensures
        swap_sum(l.take(i)) <= swap_sum(l),
    decreases l.len() - i,
{
    if i < l.len() {
        lemma_swap_sum_grows(l, i + 1);
        assert(l.take(i + 1).drop_last() =~= l.take(i));
    } else {
        assert(l.take(i) =~= l);
    }
}

/// Bytes in a GiB.
pub const GIB_BYTES: u64 = 1073741824;

/// How many GiB of swap to add to reach `target_gib`, counting only whole GiB of the current
/// swap; `None` when the target is already met.
pub fn swap_shortfall(current_bytes: u64, target_gib: u64) -> (r: Option<u64>)
    ensures
        current_bytes / GIB_BYTES >= target_gib ==> r is None,
        current_bytes / GIB_BYTES < target_gib ==> r == Some((target_gib - current_bytes
            / GIB_BYTES) as u64),
{
    let current_gib = current_bytes / GIB_BYTES;
    if current_gib >= target_gib {
        None
    } else {
        Some(target_gib - current_gib)
    }
}

/// The name of the `n`-th swap volume, `swap<n>`.
pub open spec fn swap_name(n: nat) -> Seq<char> {
    "swap"@ + decimal(n)
}

/// The trimmed lines of an `lvs` listing: the names of the existing volumes.
pub open spec fn lv_names(listing: Seq<char>) -> Seq<Seq<char>> {
    lines(listing).map_values(|l: Seq<char>| trim(l))
}

/// The first free swap volume name from `swap<from>` to `swap99`.
pub open spec fn first_free_swap(names: Seq<Seq<char>>, from: nat) -> Option<Seq<char>>
    decreases 100 - from,
{
    if from > 99 {
        None
    } else if !names.contains(swap_name(from)) {
        Some(swap_name(from))
    } else {
        first_free_swap(names, from + 1)
    }
}

/// Why no swap volume name is free.
#[derive(Debug, Clone, PartialEq, Eq)]
pub enum DiskError {
    /// `swap2` through `swap99` are all taken.
    NoFreeSwapName,
}

/// The name for a new swap volume: the first of `swap2` … `swap99` not among the volumes
/// the `lvs --noheadings -o lv_name` listing shows.
pub fn next_swap_lv_name(listing: &str) -> (r: Result<String, DiskError>)
    ensures
        match first_free_swap(lv_names(listing@), 2) {
            Some(n) => r matches Ok(s) && s@ == n,
            None => r == Err::<String, DiskError>(DiskError::NoFreeSwapName),
        },
{
    let ls = split_lines(listing);
    let ghost names = lv_names(listing@);
    let mut trimmed: Vec<&str> = Vec::new();
    let mut k: usize = 0;
    while k < ls.len()
        invariant
            k <= ls@.len(),
            views(ls@) == lines(listing@),
            trimmed@.len() == k,
            forall|m: int| 0 <= m < k ==> #[trigger] trimmed@[m]@ == trim(ls@[m]@),
        decreases ls@.len() - k,
    {
        trimmed.push(trim_str(ls[k]));
        k = k + 1;
    }
    proof {
        assert(views(ls@).len() == ls@.len());
        assert forall|m: int| 0 <= m < names.len() implies names[m] == trimmed@[m]@ by {
            assert(views(ls@)[m] == ls@[m]@);
        }
    }
    let mut i: u64 = 2;
    while i <= 99
        invariant
            2 <= i <= 100,
            names == lv_names(listing@),
            names.len() == trimmed@.len(),
            forall|m: int| 0 <= m < names.len() ==> names[m] == #[trigger] trimmed@[m]@,
            first_free_swap(names, 2) == first_free_swap(names, i as nat),
        decreases 100 - i,
    {
        let mut name = String::from_str("swap");
        push_decimal(&mut name, i);
        let mut taken = false;
        let mut m: usize = 0;
        while m < trimmed.len()
            invariant
                m <= trimmed@.len(),
                names.len() == trimmed@.len(),
                forall|j: int| 0 <= j < names.len() ==> names[j] == #[trigger] trimmed@[j]@,
                taken <==> exists|j: int| 0 <= j < m && names[j] == name@,
            decreases trimmed@.len() - m,
        {
            if str_eq(trimmed[m], name.as_str()) {
                taken = true;
            }
            m = m + 1;
        }
        proof {
            assert(name@ == swap_name(i as nat));
            if taken {
                let j = choose|j: int| 0 <= j < m && names[j] == name@;
                assert(names.contains(swap_name(i as nat)));
            } else {
                assert(!names.contains(swap_name(i as nat)));
            }
        }
        if !taken {
            return Ok(name);
        }
        i = i + 1;
    }
    Err(DiskError::NoFreeSwapName)
}

/// The device path of a logical volume: `/dev/<vg>/<lv>`.
pub open spec fn lv_path_of(vg: Seq<char>, lv: Seq<char>) -> Seq<char> {
    "/dev/"@ + vg + "/"@ + lv
}

/// `/dev/<vg>/<lv>`.
pub fn lv_path(vg: &str, lv: &str) -> (r: String)
    ensures
        r@ == lv_path_of(vg@, lv@),
{
    let mut s = String::from_str("/dev/");
    s.append(vg);
    s.append("/");
    s.append(lv);
    s
}

/// The size argument of `lvcreate -L` for `gib` GiB: `<gib>G`.
pub fn lvcreate_size(gib: u64) -> (r: String)
    ensures
        r@ == decimal(gib as nat) + "G"@,
{
    let mut s = String::new();
    push_decimal(&mut s, gib);
    s.append("G");
    s
}

/// The commands that grow the root volume `/dev/<vg>/root` by `size` (an `lvextend -L`
/// size): `lvextend`, then `resize2fs`, with the terminal passed through. A dry run runs
/// nothing; it only previews them.
pub fn resize_root_steps(size: &str, vg: &str, dry_run: bool) -> (r: Vec<Invocation>)
    ensures
        dry_run ==> r@.len() == 0,
        !dry_run ==> {
            &&& r@.len() == 2
            &&& r@[0].program@ == "lvextend"@
            &&& string_views(r@[0].args@) == seq!["-L"@, size@, lv_path_of(vg@, "root"@)]
            &&& !r@[0].capture
            &&& r@[1].program@ == "resize2fs"@
            &&& string_views(r@[1].args@) == seq![lv_path_of(vg@, "root"@)]
            &&& !r@[1].capture
        },
{
    let mut steps: Vec<Invocation> = Vec::new();
    if dry_run {
        return steps;
    }
    let path = lv_path(vg, "root");
    let extend = run("lvextend", &["-L", size, path.as_str()]);
    let resize = run("resize2fs", &[path.as_str()]);
    steps.push(extend);
    steps.push(resize);
    steps
}

/// The commands that add the swap volume `lv_name` of `delta_gib` GiB in `vg`: `lvcreate`,
/// `mkswap`, then `swapon`, with the terminal passed through. A dry run runs nothing; it
/// only previews them.
pub fn swap_expansion_steps(vg: &str, lv_name: &str, delta_gib: u64, dry_run: bool) -> (r: Vec<
    Invocation,
>)
    ensures
        dry_run ==> r@.len() == 0,
        !dry_run ==> {
            &&& r@.len() == 3
            &&& r@[0].program@ == "lvcreate"@
            &&& string_views(r@[0].args@) == seq![
                "-L"@,
                decimal(delta_gib as nat) + "G"@,
                "-n"@,
                lv_name@,
                vg@,
            ]
            &&& r@[1].program@ == "mkswap"@
            &&& string_views(r@[1].args@) == seq![lv_path_of(vg@, lv_name@)]
            &&& r@[2].program@ == "swapon"@
            &&& string_views(r@[2].args@) == seq![lv_path_of(vg@, lv_name@)]
            &&& !r@[0].capture && !r@[1].capture && !r@[2].capture
        },
{
    let mut steps: Vec<Invocation> = Vec::new();
    if dry_run {
        return steps;
    }
    let size = lvcreate_size(delta_gib);
    let path = lv_path(vg, lv_name);
    let create = run("lvcreate", &["-L", size.as_str(), "-n", lv_name, vg]);
    let format = run("mkswap", &[path.as_str()]);
    let enable = run("swapon", &[path.as_str()]);
    steps.push(create);
    steps.push(format);
    steps.push(enable);
    steps
}

/// The `/etc/fstab` line of a swap volume.
pub open spec fn swap_fstab_line(lv_path: Seq<char>) -> Seq<char> {
    lv_path + " none swap sw 0 0"@
}

/// The new `/etc/fstab` text that registers the swap volume `lv_path`, or `None` when the
/// text already mentions it.
pub fn fstab_with_swap(fstab: &str, lv_path: &str) -> (r: Option<String>)
    ensures
        contains(fstab@, lv_path@) ==> r is None,
        !contains(fstab@, lv_path@) ==> (r matches Some(t) && t@ == appended(
            fstab@,
            swap_fstab_line(lv_path@),
        )),
{
    if contains_str(fstab, lv_path) {
        return None;
    }
    let mut line = String::from_str(lv_path);
    line.append(" none swap sw 0 0");
    Some(append_line(fstab, line.as_str()))
}

/// Registering a swap volume is idempotent: once its line is added, a second registration
/// changes nothing.
pub proof fn law_swap_registration_idempotent(fstab: Seq<char>, lv_path: Seq<char>)
    ensures
        contains(appended(fstab, swap_fstab_line(lv_path)), lv_path),
{
    reveal_strlit("\n");
    let line = swap_fstab_line(lv_path);
    if fstab.len() == 0 || fstab.last() == '\n' {
        assert(appended(fstab, line) =~= fstab + lv_path + (" none swap sw 0 0"@ + "\n"@));
        lemma_contains_middle(fstab, lv_path, " none swap sw 0 0"@ + "\n"@);
    } else {
        assert(appended(fstab, line) =~= (fstab + "\n"@) + lv_path + (" none swap sw 0 0"@
            + "\n"@));
        lemma_contains_middle(fstab + "\n"@, lv_path, " none swap sw 0 0"@ + "\n"@);
    }
}

} // verus!
