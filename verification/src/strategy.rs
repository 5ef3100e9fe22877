//! Strategy storage and discovery: filtering directory listings, the
//! converter from the legacy batch-script format, and the remote
//! strategy-update comparison.

use vstd::prelude::*;

use crate::text::{
    chars_eq, chars_of, contains_sub, ends_with, ends_with_chars, find_first, find_sub, has_sub,
    lemma_find_first_is, lemma_find_first_none, push_all, replace_all, replaced, string_from_chars,
    subvec, trim_chars, trimmed,
};

verus! {

/// The substring that marks the invocation of the bypass binary inside a
/// legacy batch script.
pub open spec fn bat_marker() -> Seq<char> {
    "winws.exe\""@
}

/// The file extension of stored strategies.
pub open spec fn config_extension() -> Seq<char> {
    ".zapret"@
}

/// The argument template carried by a legacy script: everything from just
/// past the marker (one character after its closing quote) to the end,
/// trimmed; none when the script has no marker.
pub open spec fn extracted_args(content: Seq<char>) -> Option<Seq<char>> {
    match find_first(content, bat_marker()) {
        None => None,
        Some(i) => {
            let cut = if i + 11 <= content.len() {
                i + 11
            } else {
                content.len() as int
            };
            Some(trimmed(content.skip(cut)))
        },
    }
}

/// Extract the argument template from a legacy script, or nothing when the
/// script does not invoke the bypass binary.
pub fn extract_args_from_bat(content: &str) -> (r: Option<String>)
    ensures
        match extracted_args(content@) {
            None => r is None,
            Some(args) => r is Some && r->Some_0@ == args,
        },
{
    proof {
        reveal_strlit("winws.exe\"");
    }
    let v = chars_of(content);
    let marker = chars_of("winws.exe\"");
    match find_sub(&v, &marker) {
        None => {
            proof {
                lemma_find_first_none(v@, marker@);
            }
            None
        },
        Some(i) => {
            proof {
                lemma_find_first_is(v@, marker@, i as int);
            }
            let cut = if v.len() >= 11 && i <= v.len() - 11 {
                i + 11
            } else {
                v.len()
            };
            proof {
                assert(i + bat_marker().len() <= v@.len());
                assert(cut as int == (if i + 11 <= v@.len() {
                    i + 11int
                } else {
                    v@.len() as int
                }));
            }
            let tail = subvec(&v, cut, v.len());
            let out = trim_chars(&tail);
            Some(string_from_chars(out))
        },
    }
}

/// The file-name stem: the name without its final extension.  A lone
/// leading dot does not count as an extension separator.
pub open spec fn stem_of(name: Seq<char>) -> Seq<char> {
    match last_dot_before(name, name.len() as int) {
        None => name,
        Some(d) => if d == 0 {
            name
        } else {
            name.take(d)
        },
    }
}

/// The position of the last dot strictly before `k`, if any.
pub open spec fn last_dot_before(name: Seq<char>, k: int) -> Option<int>
    decreases k,
{
    if k <= 0 || k > name.len() {
        None
    } else if name[k - 1] == '.' {
        Some(k - 1)
    } else {
        last_dot_before(name, k - 1)
    }
}

/// The stem of `name`, as `stem_of` describes it.
pub fn file_stem(name: &str) -> (r: String)
    ensures
        r@ == stem_of(name@),
{
    let v = chars_of(name);
    let n = v.len();
    let mut k: usize = n;
    while k > 0 && v[k - 1] != '.'
        invariant
            0 <= k <= n,
            n == v@.len(),
            last_dot_before(v@, n as int) == last_dot_before(v@, k as int),
        decreases k,
    {
        k -= 1;
    }
    if k == 0 || k == 1 {
        proof {
            if k == 1 {
                assert(last_dot_before(v@, 1) == Some(0int));
            }
            assert(v@.subrange(0, n as int) =~= v@);
        }
        string_from_chars(subvec(&v, 0, n))
    } else {
        proof {
            assert(last_dot_before(v@, k as int) == Some(k - 1int));
        }
        string_from_chars(subvec(&v, 0, k - 1))
    }
}

/// Convert one legacy script: the derived strategy file name (the script's
/// stem with the strategy extension) and the extracted argument template.
/// A script without the marker converts to nothing and leaves no trace.
pub fn convert_bat(file_name: &str, content: &str) -> (r: Option<(String, String)>)
    ensures
        match extracted_args(content@) {
            None => r is None,
            Some(args) => r is Some && r->Some_0.0@ == stem_of(file_name@) + config_extension()
                && r->Some_0.1@ == args,
        },
{
    match extract_args_from_bat(content) {
        None => None,
        Some(args) => {
            let stem = file_stem(file_name);
            let mut name = chars_of(stem.as_str());
            let ext = chars_of(".zapret");
            push_all(&mut name, &ext);
            proof {
                assert(name@ =~= stem_of(file_name@) + config_extension());
            }
            Some((string_from_chars(name), args))
        },
    }
}

/// The remote script name with its batch extension rewritten to the
/// strategy extension, every occurrence.
pub fn zapret_name_of(bat_name: &str) -> (r: String)
    ensures
        r@ == replaced(bat_name@, ".bat"@, ".zapret"@),
{
    proof {
        reveal_strlit(".bat");
    }
    let v = chars_of(bat_name);
    let from = chars_of(".bat");
    let to = chars_of(".zapret");
    string_from_chars(replace_all(&v, &from, &to))
}

/// The names of `names` that the predicate keeps, in listing order.
pub open spec fn filtered(names: Seq<Seq<char>>, p: spec_fn(Seq<char>) -> bool) -> Seq<Seq<char>>
    decreases names.len(),
{
    if names.len() == 0 {
        Seq::empty()
    } else {
        (if p(names[0]) {
            seq![names[0]]
        } else {
            Seq::<Seq<char>>::empty()
        }) + filtered(names.drop_first(), p)
    }
}

/// The listing entries whose names end with the given extension.
pub fn list_files(entries: &Vec<String>, ext: &str) -> (r: Vec<String>)
    ensures
        r.deep_view() == filtered(entries.deep_view(), |n: Seq<char>| ends_with(n, ext@)),
{
    let ghost p = |n: Seq<char>| ends_with(n, ext@);
    let ghost dv = entries.deep_view();
    let ext_c = chars_of(ext);
    let mut out: Vec<String> = Vec::new();
    let n = entries.len();
    let mut i: usize = 0;
    proof {
        assert(dv.skip(0) =~= dv);
        assert(out.deep_view() + filtered(dv.skip(0), p) =~= filtered(dv, p));
    }
    while i < n
        invariant
            0 <= i <= n,
            n == entries@.len(),
            dv == entries.deep_view(),
            ext_c@ == ext@,
            filtered(dv, p) == out.deep_view() + filtered(dv.skip(i as int), p),
            p == (|n: Seq<char>| ends_with(n, ext@)),
        decreases n - i,
    {
        let ghost pre = out.deep_view();
        let ghost rest = dv.skip(i as int);
        proof {
            assert(rest[0] == dv[i as int]);
            assert(dv[i as int] == entries@[i as int]@);
            assert(rest.drop_first() =~= dv.skip(i + 1));
        }
        let name = chars_of(entries[i].as_str());
        if ends_with_chars(&name, &ext_c) {
            out.push(string_from_chars(name));
            proof {
                assert(out.deep_view() =~~= pre + seq![rest[0]]);
            }
        } else {
            proof {
                assert(out.deep_view() + Seq::<Seq<char>>::empty() =~= pre);
            }
        }
        i += 1;
        proof {
            assert(filtered(rest, p) == (if p(rest[0]) {
                seq![rest[0]]
            } else {
                Seq::<Seq<char>>::empty()
            }) + filtered(dv.skip(i as int), p));
            assert(filtered(dv, p) =~= out.deep_view() + filtered(dv.skip(i as int), p));
        }
    }
    proof {
        assert(dv.skip(n as int) =~= Seq::<Seq<char>>::empty());
        assert(out.deep_view() =~= filtered(dv, p));
    }
    out
}

/// The stored strategies among the strategy-directory entries.
pub fn get_list_strategies(entries: &Vec<String>) -> (r: Vec<String>)
    ensures
        r.deep_view() == filtered(
            entries.deep_view(),
            |n: Seq<char>| ends_with(n, config_extension()),
        ),
{
    list_files(entries, ".zapret")
}

/// The visible hostlist and ipset files among the lists-directory entries:
/// text files whose names do not mark them as hidden.
pub fn get_list_files(entries: &Vec<String>) -> (r: Vec<String>)
    ensures
        r.deep_view() == filtered(
            entries.deep_view(),
            |n: Seq<char>| ends_with(n, ".txt"@) && !has_sub(n, "-hide"@),
        ),
{
    let ghost p = |n: Seq<char>| ends_with(n, ".txt"@) && !has_sub(n, "-hide"@);
    let ghost dv = entries.deep_view();
    let txt = chars_of(".txt");
    let hide = chars_of("-hide");
    let mut out: Vec<String> = Vec::new();
    let n = entries.len();
    let mut i: usize = 0;
    proof {
        assert(dv.skip(0) =~= dv);
        assert(out.deep_view() + filtered(dv.skip(0), p) =~= filtered(dv, p));
    }
    while i < n
        invariant
            0 <= i <= n,
            n == entries@.len(),
            dv == entries.deep_view(),
            txt@ == ".txt"@,
            hide@ == "-hide"@,
            filtered(dv, p) == out.deep_view() + filtered(dv.skip(i as int), p),
            p == (|n: Seq<char>| ends_with(n, ".txt"@) && !has_sub(n, "-hide"@)),
        decreases n - i,
    {
        let ghost pre = out.deep_view();
        let ghost rest = dv.skip(i as int);
        proof {
            assert(rest[0] == dv[i as int]);
            assert(dv[i as int] == entries@[i as int]@);
            assert(rest.drop_first() =~= dv.skip(i + 1));
        }
        let name = chars_of(entries[i].as_str());
        if ends_with_chars(&name, &txt) && !contains_sub(&name, &hide) {
            out.push(string_from_chars(name));
            proof {
                assert(out.deep_view() =~~= pre + seq![rest[0]]);
            }
        } else {
            proof {
                assert(out.deep_view() + Seq::<Seq<char>>::empty() =~= pre);
            }
        }
        i += 1;
        proof {
            assert(filtered(rest, p) == (if p(rest[0]) {
                seq![rest[0]]
            } else {
                Seq::<Seq<char>>::empty()
            }) + filtered(dv.skip(i as int), p));
            assert(filtered(dv, p) =~= out.deep_view() + filtered(dv.skip(i as int), p));
        }
    }
    proof {
        assert(dv.skip(n as int) =~= Seq::<Seq<char>>::empty());
        assert(out.deep_view() =~= filtered(dv, p));
    }
    out
}

/// The custom ipset files among the configuration-directory entries.
pub fn get_custom_configs(entries: &Vec<String>) -> (r: Vec<String>)
    ensures
        r.deep_view() == filtered(entries.deep_view(), |n: Seq<char>| ends_with(n, ".txt"@)),
{
    list_files(entries, ".txt")
}

/// The fixed list of remote script names checked for strategy updates.
pub open spec fn repo_names() -> Seq<Seq<char>> {
    seq![
        "general (ALT).bat"@,
        "general (ALT2).bat"@,
        "general (ALT3).bat"@,
        "general (ALT4).bat"@,
        "general (ALT5).bat"@,
        "general (ALT6).bat"@,
        "general (ALT7).bat"@,
        "general (ALT8).bat"@,
        "general (ALT9).bat"@,
        "general (ALT10).bat"@,
        "general (ALT11).bat"@,
        "general.bat"@,
        "general (FAKE TLS AUTO ALT).bat"@,
        "general (FAKE TLS AUTO ALT2).bat"@,
        "general (FAKE TLS AUTO ALT3).bat"@,
        "general (FAKE TLS AUTO).bat"@,
        "general (SIMPLE FAKE ALT).bat"@,
        "general (SIMPLE FAKE ALT2).bat"@,
        "general (SIMPLE FAKE).bat"@,
    ]
}

/// The fixed list of remote script names, as strings.
pub fn repo_strategy_names() -> (r: Vec<String>)
    ensures
        r.deep_view() == repo_names(),
{
    let mut out: Vec<String> = Vec::new();
    out.push(String::from_str("general (ALT).bat"));
    out.push(String::from_str("general (ALT2).bat"));
    out.push(String::from_str("general (ALT3).bat"));
    out.push(String::from_str("general (ALT4).bat"));
    out.push(String::from_str("general (ALT5).bat"));
    out.push(String::from_str("general (ALT6).bat"));
    out.push(String::from_str("general (ALT7).bat"));
    out.push(String::from_str("general (ALT8).bat"));
    out.push(String::from_str("general (ALT9).bat"));
    out.push(String::from_str("general (ALT10).bat"));
    out.push(String::from_str("general (ALT11).bat"));
    out.push(String::from_str("general.bat"));
    out.push(String::from_str("general (FAKE TLS AUTO ALT).bat"));
    out.push(String::from_str("general (FAKE TLS AUTO ALT2).bat"));
    out.push(String::from_str("general (FAKE TLS AUTO ALT3).bat"));
    out.push(String::from_str("general (FAKE TLS AUTO).bat"));
    out.push(String::from_str("general (SIMPLE FAKE ALT).bat"));
    out.push(String::from_str("general (SIMPLE FAKE ALT2).bat"));
    out.push(String::from_str("general (SIMPLE FAKE).bat"));
    proof {
        assert(out.deep_view() =~~= repo_names());
    }
    out
}

/// Whether one remote script calls for an update of its local strategy: it
/// must carry the marker, and the local converted strategy must be absent
/// or differ (trimmed) from the extracted template.  A script without the
/// marker never calls for an update.
pub fn should_update_strategy(remote_bat: &str, local: Option<&String>) -> (r: bool)
    ensures
        r == match extracted_args(remote_bat@) {
            None => false,
            Some(args) => match local {
                None => true,
                Some(l) => trimmed(l@) != args,
            },
        },
{
    match extract_args_from_bat(remote_bat) {
        None => false,
        Some(args) => match local {
            None => true,
            Some(l) => {
                let lc = chars_of(l.as_str());
                let lt = trim_chars(&lc);
                let ac = chars_of(args.as_str());
                !chars_eq(&lt, &ac)
            },
        },
    }
}

/// The position of `name` in the strategy listing, if it is there.
pub fn find_strategy_index(list: &Vec<String>, name: &str) -> (r: Option<usize>)
    ensures
        match r {
            Some(i) => i < list@.len() && list.deep_view()[i as int] == name@ && forall|j: int|
                0 <= j < i ==> list.deep_view()[j] != name@,
            None => forall|j: int| 0 <= j < list@.len() ==> list.deep_view()[j] != name@,
        },
{
    let target = chars_of(name);
    let n = list.len();
    let mut i: usize = 0;
    while i < n
        invariant
            0 <= i <= n,
            n == list@.len(),
            target@ == name@,
            forall|j: int| 0 <= j < i ==> list.deep_view()[j] != name@,
        decreases n - i,
    {
        let cand = chars_of(list[i].as_str());
        proof {
            assert(list.deep_view()[i as int] == list@[i as int]@);
        }
        if chars_eq(&cand, &target) {
            return Some(i);
        }
        i += 1;
    }
    None
}

} // verus!
