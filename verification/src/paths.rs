//! Path resolution helpers: joining path segments and stripping the
//! extended-length prefix that the platform puts in front of absolute
//! paths.

use vstd::prelude::*;

use crate::text::{chars_of, match_at, push_all, starts_with, string_from_chars};

verus! {

/// `dir` and `name` joined with a single path separator.
pub open spec fn joined(dir: Seq<char>, name: Seq<char>) -> Seq<char> {
    dir + seq!['\\'] + name
}

/// `dir` with a trailing path separator.
pub open spec fn with_sep(dir: Seq<char>) -> Seq<char> {
    dir + seq!['\\']
}

/// `dir` joined with `name` by a path separator.
pub fn join_path(dir: &str, name: &str) -> (r: String)
    ensures
        r@ == joined(dir@, name@),
{
    let mut out = chars_of(dir);
    out.push('\\');
    let n = chars_of(name);
    push_all(&mut out, &n);
    proof {
        assert(out@ =~= joined(dir@, name@));
    }
    string_from_chars(out)
}

/// The extended-length prefix of absolute paths.
pub open spec fn extended_prefix() -> Seq<char> {
    "\\\\?\\"@
}

/// `p` with every leading repetition of the extended-length prefix
/// removed.
pub open spec fn stripped_extended(p: Seq<char>) -> Seq<char>
    decreases p.len(),
{
    if starts_with(p, extended_prefix()) && extended_prefix().len() >= 1 {
        stripped_extended(p.skip(extended_prefix().len() as int))
    } else {
        p
    }
}

/// `p` without its leading extended-length prefixes.
pub fn strip_extended_prefix(p: &str) -> (r: String)
    ensures
        r@ == stripped_extended(p@),
{
    proof {
        reveal_strlit("\\\\?\\");
    }
    let pre = chars_of("\\\\?\\");
    let mut rest = chars_of(p);
    while rest.len() >= 4 && match_at(&rest, &pre, 0)
        invariant
            pre@ == extended_prefix(),
            pre@.len() == 4,
            stripped_extended(p@) == stripped_extended(rest@),
        decreases rest.len(),
    {
        proof {
            assert(rest@.subrange(0, 4) == pre@);
            assert(starts_with(rest@, extended_prefix()));
        }
        let shorter = crate::text::subvec(&rest, 4, rest.len());
        proof {
            assert(shorter@ =~= rest@.skip(4));
        }
        rest = shorter;
    }
    proof {
        if rest@.len() >= 4 {
            assert(!crate::text::contains_at(rest@, pre@, 0));
            assert(!starts_with(rest@, extended_prefix()));
        } else {
            assert(!starts_with(rest@, extended_prefix()));
        }
        assert(stripped_extended(rest@) == rest@);
    }
    string_from_chars(rest)
}

/// The settings file sits beside the executable.
pub fn get_config_path(exe_dir: &str) -> (r: String)
    ensures
        r@ == joined(exe_dir@, "settings.json"@),
{
    join_path(exe_dir, "settings.json")
}

/// The hosts file sits at its fixed place under the system root.
pub fn hosts_file_path(system_root: &str) -> (r: String)
    ensures
        r@ == joined(system_root@, "System32\\drivers\\etc\\hosts"@),
{
    join_path(system_root, "System32\\drivers\\etc\\hosts")
}

} // verus!
