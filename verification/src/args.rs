//! The argument-template builder: placeholder substitution in a fixed
//! order, ipset selector resolution, and the hostlist fallback scan for
//! templates without an explicit lists placeholder.

use vstd::prelude::*;

use crate::paths::{join_path, joined, with_sep};
use crate::text::{
    chars_of, contains_sub, ends_with, ends_with_chars, has_sub, lemma_append_keeps_token_out,
    lemma_has_sub_trimmed, push_all, replace_all, replaced, seq_has_char, starts_with,
    starts_with_chars, string_from_chars, token_shaped, trim_chars, trimmed, wipes_token,
};

verus! {

/// The game-filter placeholder.
pub open spec fn gf_token() -> Seq<char> {
    "%GameFilter%"@
}

/// The binary-directory placeholder.
pub open spec fn bin_token() -> Seq<char> {
    "%BIN%"@
}

/// The ipset placeholder.
pub open spec fn ipset_token() -> Seq<char> {
    "%IPSET%"@
}

/// The lists-directory placeholder.
pub open spec fn lists_token() -> Seq<char> {
    "%LISTS%"@
}

/// The port range substituted for the game-filter placeholder: the wide
/// range when the toggle is on, the narrow literal otherwise.
pub open spec fn game_filter_value(enabled: bool) -> Seq<char> {
    if enabled {
        "1024-65535"@
    } else {
        "12"@
    }
}

/// The ipset flag with its quoted path.
pub open spec fn ipset_flag(path: Seq<char>) -> Seq<char> {
    "--ipset=\""@ + path + seq!['"']
}

/// A lists-directory entry that the fallback scan picks up.
pub open spec fn hostlist_match(name: Seq<char>) -> bool {
    starts_with(name, "list-"@) && ends_with(name, ".txt"@) && !has_sub(name, "excluded"@)
}

/// One appended hostlist flag per matching entry, in listing order.
pub open spec fn hostlist_flags(names: Seq<Seq<char>>, lists_dir: Seq<char>) -> Seq<char>
    decreases names.len(),
{
    if names.len() == 0 {
        Seq::empty()
    } else {
        (if hostlist_match(names[0]) {
            seq![' '] + "--hostlist=\""@ + joined(lists_dir, names[0]) + seq!['"']
        } else {
            Seq::<char>::empty()
        }) + hostlist_flags(names.drop_first(), lists_dir)
    }
}

/// The directory listing handed to the fallback scan, if the listing could
/// be read at all.
pub open spec fn opt_entries(e: Option<&Vec<String>>) -> Option<Seq<Seq<char>>> {
    match e {
        Some(v) => Some(v.deep_view()),
        None => None,
    }
}

/// Whether every name in the listing is free of percent signs.
pub open spec fn percent_free_entries(entries: Option<Seq<Seq<char>>>) -> bool {
    match entries {
        None => true,
        Some(es) => forall|i: int| 0 <= i < es.len() ==> !seq_has_char(es[i], '%'),
    }
}

/// The finalized argument string: the game filter, binary directory and
/// ipset placeholders substituted in that order; then either the lists
/// placeholder substituted, or — only when the template has none — the
/// fallback hostlist flags appended; the whole trimmed.
pub open spec fn built_args(
    raw: Seq<char>,
    game_filter: bool,
    bin_dir: Seq<char>,
    lists_dir: Seq<char>,
    ipset_path: Seq<char>,
    entries: Option<Seq<Seq<char>>>,
) -> Seq<char> {
    let s1 = replaced(raw, gf_token(), game_filter_value(game_filter));
    let s2 = replaced(s1, bin_token(), with_sep(bin_dir));
    let s3 = replaced(s2, ipset_token(), ipset_flag(ipset_path));
    if has_sub(s3, lists_token()) {
        trimmed(replaced(s3, lists_token(), with_sep(lists_dir)))
    } else {
        match entries {
            None => trimmed(s3),
            Some(es) => trimmed(s3 + hostlist_flags(es, lists_dir)),
        }
    }
}

/// Concrete character facts about the tokens and the fixed replacement
/// texts: token shapes, and which characters each of them lacks.
pub proof fn lemma_token_facts()
    ensures
        token_shaped(gf_token()),
        token_shaped(bin_token()),
        token_shaped(ipset_token()),
        gf_token().len() == 12,
        bin_token().len() == 5,
        ipset_token().len() == 7,
        lists_token().len() == 7,
        !seq_has_char(gf_token(), '\\'),
        !seq_has_char(gf_token(), '"'),
        !seq_has_char(gf_token(), '5'),
        !seq_has_char(gf_token(), '2'),
        !seq_has_char(bin_token(), '\\'),
        !seq_has_char(bin_token(), '"'),
        !seq_has_char(ipset_token(), '\\'),
        !seq_has_char(ipset_token(), '"'),
        !seq_has_char("1024-65535"@, '%'),
        !seq_has_char("12"@, '%'),
        !seq_has_char("--ipset=\""@, '%'),
        !seq_has_char("--hostlist=\""@, '%'),
{
    reveal_strlit("%GameFilter%");
    reveal_strlit("%BIN%");
    reveal_strlit("%IPSET%");
    reveal_strlit("%LISTS%");
    reveal_strlit("1024-65535");
    reveal_strlit("12");
    reveal_strlit("--ipset=\"");
    reveal_strlit("--hostlist=\"");
        assert(!seq_has_char(gf_token(), '\\')) by {
            if seq_has_char(gf_token(), '\\') {
                let k = choose|k: int| 0 <= k < gf_token().len() && gf_token()[k] == '\\';
                if k == 0 {
                    assert(false);
                } else if k == 1 {
                    assert(false);
                } else if k == 2 {
                    assert(false);
                } else if k == 3 {
                    assert(false);
                } else if k == 4 {
                    assert(false);
                } else if k == 5 {
                    assert(false);
                } else if k == 6 {
                    assert(false);
                } else if k == 7 {
                    assert(false);
                } else if k == 8 {
                    assert(false);
                } else if k == 9 {
                    assert(false);
                } else if k == 10 {
                    assert(false);
                } else if k == 11 {
                    assert(false);
                } else {
                    assert(false);
                }
            }
        }
        assert(!seq_has_char(gf_token(), '"')) by {
            if seq_has_char(gf_token(), '"') {
                let k = choose|k: int| 0 <= k < gf_token().len() && gf_token()[k] == '"';
                if k == 0 {
                    assert(false);
                } else if k == 1 {
                    assert(false);
                } else if k == 2 {
                    assert(false);
                } else if k == 3 {
                    assert(false);
                } else if k == 4 {
                    assert(false);
                } else if k == 5 {
                    assert(false);
                } else if k == 6 {
                    assert(false);
                } else if k == 7 {
                    assert(false);
                } else if k == 8 {
                    assert(false);
                } else if k == 9 {
                    assert(false);
                } else if k == 10 {
                    assert(false);
                } else if k == 11 {
                    assert(false);
                } else {
                    assert(false);
                }
            }
        }
        assert(!seq_has_char(gf_token(), '5')) by {
            if seq_has_char(gf_token(), '5') {
                let k = choose|k: int| 0 <= k < gf_token().len() && gf_token()[k] == '5';
                if k == 0 {
                    assert(false);
                } else if k == 1 {
                    assert(false);
                } else if k == 2 {
                    assert(false);
                } else if k == 3 {
                    assert(false);
                } else if k == 4 {
                    assert(false);
                } else if k == 5 {
                    assert(false);
                } else if k == 6 {
                    assert(false);
                } else if k == 7 {
                    assert(false);
                } else if k == 8 {
                    assert(false);
                } else if k == 9 {
                    assert(false);
                } else if k == 10 {
                    assert(false);
                } else if k == 11 {
                    assert(false);
                } else {
                    assert(false);
                }
            }
        }
        assert(!seq_has_char(gf_token(), '2')) by {
            if seq_has_char(gf_token(), '2') {
                let k = choose|k: int| 0 <= k < gf_token().len() && gf_token()[k] == '2';
                if k == 0 {
                    assert(false);
                } else if k == 1 {
                    assert(false);
                } else if k == 2 {
                    assert(false);
                } else if k == 3 {
                    assert(false);
                } else if k == 4 {
                    assert(false);
                } else if k == 5 {
                    assert(false);
                } else if k == 6 {
                    assert(false);
                } else if k == 7 {
                    assert(false);
                } else if k == 8 {
                    assert(false);
                } else if k == 9 {
                    assert(false);
                } else if k == 10 {
                    assert(false);
                } else if k == 11 {
                    assert(false);
                } else {
                    assert(false);
                }
            }
        }
        assert(!seq_has_char(bin_token(), '\\')) by {
            if seq_has_char(bin_token(), '\\') {
                let k = choose|k: int| 0 <= k < bin_token().len() && bin_token()[k] == '\\';
                if k == 0 {
                    assert(false);
                } else if k == 1 {
                    assert(false);
                } else if k == 2 {
                    assert(false);
                } else if k == 3 {
                    assert(false);
                } else if k == 4 {
                    assert(false);
                } else {
                    assert(false);
                }
            }
        }
        assert(!seq_has_char(bin_token(), '"')) by {
            if seq_has_char(bin_token(), '"') {
                let k = choose|k: int| 0 <= k < bin_token().len() && bin_token()[k] == '"';
                if k == 0 {
                    assert(false);
                } else if k == 1 {
                    assert(false);
                } else if k == 2 {
                    assert(false);
                } else if k == 3 {
                    assert(false);
                } else if k == 4 {
                    assert(false);
                } else {
                    assert(false);
                }
            }
        }
        assert(!seq_has_char(ipset_token(), '\\')) by {
            if seq_has_char(ipset_token(), '\\') {
                let k = choose|k: int| 0 <= k < ipset_token().len() && ipset_token()[k] == '\\';
                if k == 0 {
                    assert(false);
                } else if k == 1 {
                    assert(false);
                } else if k == 2 {
                    assert(false);
                } else if k == 3 {
                    assert(false);
                } else if k == 4 {
                    assert(false);
                } else if k == 5 {
                    assert(false);
                } else if k == 6 {
                    assert(false);
                } else {
                    assert(false);
                }
            }
        }
        assert(!seq_has_char(ipset_token(), '"')) by {
            if seq_has_char(ipset_token(), '"') {
                let k = choose|k: int| 0 <= k < ipset_token().len() && ipset_token()[k] == '"';
                if k == 0 {
                    assert(false);
                } else if k == 1 {
                    assert(false);
                } else if k == 2 {
                    assert(false);
                } else if k == 3 {
                    assert(false);
                } else if k == 4 {
                    assert(false);
                } else if k == 5 {
                    assert(false);
                } else if k == 6 {
                    assert(false);
                } else {
                    assert(false);
                }
            }
        }
        assert(!seq_has_char("1024-65535"@, '%')) by {
            if seq_has_char("1024-65535"@, '%') {
                let k = choose|k: int| 0 <= k < "1024-65535"@.len() && "1024-65535"@[k] == '%';
                if k == 0 {
                    assert(false);
                } else if k == 1 {
                    assert(false);
                } else if k == 2 {
                    assert(false);
                } else if k == 3 {
                    assert(false);
                } else if k == 4 {
                    assert(false);
                } else if k == 5 {
                    assert(false);
                } else if k == 6 {
                    assert(false);
                } else if k == 7 {
                    assert(false);
                } else if k == 8 {
                    assert(false);
                } else if k == 9 {
                    assert(false);
                } else {
                    assert(false);
                }
            }
        }
        assert(!seq_has_char("12"@, '%')) by {
            if seq_has_char("12"@, '%') {
                let k = choose|k: int| 0 <= k < "12"@.len() && "12"@[k] == '%';
                if k == 0 {
                    assert(false);
                } else if k == 1 {
                    assert(false);
                } else {
                    assert(false);
                }
            }
        }
        assert(!seq_has_char("--ipset=\""@, '%')) by {
            if seq_has_char("--ipset=\""@, '%') {
                let k = choose|k: int| 0 <= k < "--ipset=\""@.len() && "--ipset=\""@[k] == '%';
                if k == 0 {
                    assert(false);
                } else if k == 1 {
                    assert(false);
                } else if k == 2 {
                    assert(false);
                } else if k == 3 {
                    assert(false);
                } else if k == 4 {
                    assert(false);
                } else if k == 5 {
                    assert(false);
                } else if k == 6 {
                    assert(false);
                } else if k == 7 {
                    assert(false);
                } else if k == 8 {
                    assert(false);
                } else {
                    assert(false);
                }
            }
        }
        assert(!seq_has_char("--hostlist=\""@, '%')) by {
            if seq_has_char("--hostlist=\""@, '%') {
                let k = choose|k: int| 0 <= k < "--hostlist=\""@.len() && "--hostlist=\""@[k] == '%';
                if k == 0 {
                    assert(false);
                } else if k == 1 {
                    assert(false);
                } else if k == 2 {
                    assert(false);
                } else if k == 3 {
                    assert(false);
                } else if k == 4 {
                    assert(false);
                } else if k == 5 {
                    assert(false);
                } else if k == 6 {
                    assert(false);
                } else if k == 7 {
                    assert(false);
                } else if k == 8 {
                    assert(false);
                } else if k == 9 {
                    assert(false);
                } else if k == 10 {
                    assert(false);
                } else if k == 11 {
                    assert(false);
                } else {
                    assert(false);
                }
            }
        }
}

/// Concatenation keeps a character out when both parts lack it.
pub proof fn lemma_has_char_concat(a: Seq<char>, b: Seq<char>, c: char)
    requires
        !seq_has_char(a, c),
        !seq_has_char(b, c),
    ensures
        !seq_has_char(a + b, c),
{
    if seq_has_char(a + b, c) {
        let k = choose|k: int| 0 <= k < (a + b).len() && (a + b)[k] == c;
        if k < a.len() {
            assert(a[k] == c);
        } else {
            assert(b[k - a.len()] == c);
        }
    }
}

/// A text whose last character the token lacks cannot sit inside the
/// token.
pub proof fn lemma_no_sub_by_last(pat: Seq<char>, to: Seq<char>)
    requires
        to.len() >= 1,
        !seq_has_char(pat, to.last()),
    ensures
        !has_sub(pat, to),
{
    if has_sub(pat, to) {
        let k = choose|k: int| crate::text::contains_at(pat, to, k);
        assert(pat.subrange(k, k + to.len() as int)[to.len() - 1] == to.last());
        assert(pat[k + to.len() - 1] == to.last());
    }
}

proof fn lemma_hostlist_flags_percent_free(names: Seq<Seq<char>>, lists_dir: Seq<char>)
    requires
        forall|i: int| 0 <= i < names.len() ==> !seq_has_char(names[i], '%'),
        !seq_has_char(lists_dir, '%'),
    ensures
        !seq_has_char(hostlist_flags(names, lists_dir), '%'),
    decreases names.len(),
{
    lemma_token_facts();
    if names.len() == 0 {
        assert(!seq_has_char(hostlist_flags(names, lists_dir), '%'));
    } else {
        lemma_hostlist_flags_percent_free(names.drop_first(), lists_dir);
        if hostlist_match(names[0]) {
            assert(!seq_has_char(seq![' '], '%'));
            lemma_has_char_concat(seq![' '], "--hostlist=\""@, '%');
            lemma_has_char_concat(lists_dir, seq!['\\'], '%');
            lemma_has_char_concat(lists_dir + seq!['\\'], names[0], '%');
            assert(joined(lists_dir, names[0]) =~= (lists_dir + seq!['\\']) + names[0]);
            lemma_has_char_concat(seq![' '] + "--hostlist=\""@, joined(lists_dir, names[0]), '%');
            assert(!seq_has_char(seq!['"'], '%'));
            lemma_has_char_concat(
                (seq![' '] + "--hostlist=\""@) + joined(lists_dir, names[0]),
                seq!['"'],
                '%',
            );
            let flag = seq![' '] + "--hostlist=\""@ + joined(lists_dir, names[0]) + seq!['"'];
            assert(flag =~= ((seq![' '] + "--hostlist=\""@) + joined(lists_dir, names[0]))
                + seq!['"']);
            lemma_has_char_concat(flag, hostlist_flags(names.drop_first(), lists_dir), '%');
        } else {
            assert(hostlist_flags(names, lists_dir) =~= Seq::<char>::empty() + hostlist_flags(
                names.drop_first(),
                lists_dir,
            ));
            lemma_has_char_concat(
                Seq::<char>::empty(),
                hostlist_flags(names.drop_first(), lists_dir),
                '%',
            );
        }
    }
}

/// The resolved ipset path: the hide files for the `none` and `any`
/// selectors, the custom-configuration directory for a named file that
/// exists there, the default lists directory for one that does not, and
/// the catch-all file when no selector was given.
pub open spec fn resolved_ipset(
    selector: Option<Seq<char>>,
    custom_exists: bool,
    lists_dir: Seq<char>,
    configs_dir: Seq<char>,
) -> Seq<char> {
    match selector {
        Some(s) => if s == "none"@ {
            joined(lists_dir, "ipset-none-hide.txt"@)
        } else if s == "any"@ {
            joined(lists_dir, "ipset-any-hide.txt"@)
        } else if custom_exists {
            joined(configs_dir, s)
        } else {
            joined(lists_dir, s)
        },
        None => joined(lists_dir, "ipset-all.txt"@),
    }
}

/// The view of an optional selector.
pub open spec fn opt_view(selector: Option<&String>) -> Option<Seq<char>> {
    match selector {
        Some(s) => Some(s@),
        None => None,
    }
}

/// Resolve an ipset selector to the file path handed to the ipset flag.
/// `custom_exists` reports whether the named file exists under the
/// custom-configuration directory; it matters only for a named selector.
pub fn resolve_ipset(
    selector: Option<&String>,
    custom_exists: bool,
    lists_dir: &str,
    configs_dir: &str,
) -> (r: String)
    ensures
        r@ == resolved_ipset(opt_view(selector), custom_exists, lists_dir@, configs_dir@),
{
    match selector {
        Some(s) => {
            let sc = chars_of(s.as_str());
            let none_lit = chars_of("none");
            let any_lit = chars_of("any");
            if crate::text::chars_eq(&sc, &none_lit) {
                join_path(lists_dir, "ipset-none-hide.txt")
            } else if crate::text::chars_eq(&sc, &any_lit) {
                join_path(lists_dir, "ipset-any-hide.txt")
            } else if custom_exists {
                join_path(configs_dir, s.as_str())
            } else {
                join_path(lists_dir, s.as_str())
            }
        },
        None => join_path(lists_dir, "ipset-all.txt"),
    }
}

/// Expand a raw strategy template into the final argument string.  The
/// placeholders for the game filter, the binary directory and the ipset
/// flag are always substituted; the lists placeholder is substituted when
/// present, and only in its absence does the fallback scan append one
/// hostlist flag per matching listing entry.  When every substituted path
/// and listing name is free of percent signs, none of the three always-
/// substituted placeholders survives in the result.
pub fn build_full_args(
    raw: &str,
    game_filter_enabled: bool,
    bin_dir: &str,
    lists_dir: &str,
    ipset_path: &str,
    lists_entries: Option<&Vec<String>>,
) -> (r: String)
    ensures
        r@ == built_args(
            raw@,
            game_filter_enabled,
            bin_dir@,
            lists_dir@,
            ipset_path@,
            opt_entries(lists_entries),
        ),
        (!seq_has_char(bin_dir@, '%') && !seq_has_char(ipset_path@, '%') && !seq_has_char(
            lists_dir@,
            '%',
        ) && percent_free_entries(opt_entries(lists_entries))) ==> !has_sub(r@, gf_token())
            && !has_sub(r@, bin_token()) && !has_sub(r@, ipset_token()),
{
    proof {
        lemma_token_facts();
    }
    let ghost hyp = !seq_has_char(bin_dir@, '%') && !seq_has_char(ipset_path@, '%')
        && !seq_has_char(lists_dir@, '%') && percent_free_entries(opt_entries(lists_entries));
    let raw_c = chars_of(raw);
    let gf_tok = chars_of("%GameFilter%");
    let gf_val = if game_filter_enabled {
        chars_of("1024-65535")
    } else {
        chars_of("12")
    };
    proof {
        reveal_strlit("%GameFilter%");
        reveal_strlit("1024-65535");
        reveal_strlit("12");
        assert(gf_tok@.len() == 12);
        assert(gf_val@ == game_filter_value(game_filter_enabled));
        assert(gf_val@.len() >= 1);
    }
    let s1 = replace_all(&raw_c, &gf_tok, &gf_val);
    proof {
        lemma_no_sub_by_last(gf_token(), gf_val@);
        assert(wipes_token(gf_token(), raw@, gf_tok@, gf_val@));
        assert(!has_sub(s1@, gf_token()));
    }
    let bin_tok = chars_of("%BIN%");
    let mut bin_rep = chars_of(bin_dir);
    bin_rep.push('\\');
    proof {
        reveal_strlit("%BIN%");
        assert(bin_tok@.len() == 5);
        assert(bin_rep@ =~= with_sep(bin_dir@));
    }
    let s2 = replace_all(&s1, &bin_tok, &bin_rep);
    proof {
        lemma_no_sub_by_last(bin_token(), bin_rep@);
        lemma_no_sub_by_last(gf_token(), bin_rep@);
        if hyp {
            lemma_has_char_concat(bin_dir@, seq!['\\'], '%');
            assert(bin_rep@ == bin_dir@ + seq!['\\']);
            assert(wipes_token(bin_token(), s1@, bin_tok@, bin_rep@));
            assert(!has_sub(s2@, bin_token()));
            assert(wipes_token(gf_token(), s1@, bin_tok@, bin_rep@));
            assert(!has_sub(s2@, gf_token()));
        }
    }
    let ipset_tok = chars_of("%IPSET%");
    let mut ipset_rep = chars_of("--ipset=\"");
    let ipset_path_c = chars_of(ipset_path);
    push_all(&mut ipset_rep, &ipset_path_c);
    ipset_rep.push('"');
    proof {
        reveal_strlit("%IPSET%");
        reveal_strlit("--ipset=\"");
        assert(ipset_tok@.len() == 7);
        assert(ipset_rep@ =~= ipset_flag(ipset_path@));
    }
    let s3 = replace_all(&s2, &ipset_tok, &ipset_rep);
    proof {
        lemma_no_sub_by_last(ipset_token(), ipset_rep@);
        lemma_no_sub_by_last(gf_token(), ipset_rep@);
        lemma_no_sub_by_last(bin_token(), ipset_rep@);
        if hyp {
            lemma_has_char_concat("--ipset=\""@, ipset_path@, '%');
            assert(!seq_has_char(seq!['"'], '%'));
            lemma_has_char_concat("--ipset=\""@ + ipset_path@, seq!['"'], '%');
            assert(ipset_rep@ == ("--ipset=\""@ + ipset_path@) + seq!['"']);
            assert(wipes_token(ipset_token(), s2@, ipset_tok@, ipset_rep@));
            assert(!has_sub(s3@, ipset_token()));
            assert(wipes_token(gf_token(), s2@, ipset_tok@, ipset_rep@));
            assert(!has_sub(s3@, gf_token()));
            assert(wipes_token(bin_token(), s2@, ipset_tok@, ipset_rep@));
            assert(!has_sub(s3@, bin_token()));
        }
    }
    let lists_tok = chars_of("%LISTS%");
    proof {
        reveal_strlit("%LISTS%");
        assert(lists_tok@.len() == 7);
    }
    if contains_sub(&s3, &lists_tok) {
        let mut lists_rep = chars_of(lists_dir);
        lists_rep.push('\\');
        proof {
            assert(lists_rep@ =~= with_sep(lists_dir@));
        }
        let s4 = replace_all(&s3, &lists_tok, &lists_rep);
        proof {
            if hyp {
                lemma_has_char_concat(lists_dir@, seq!['\\'], '%');
                assert(lists_rep@ == lists_dir@ + seq!['\\']);
                lemma_no_sub_by_last(gf_token(), lists_rep@);
                lemma_no_sub_by_last(bin_token(), lists_rep@);
                lemma_no_sub_by_last(ipset_token(), lists_rep@);
                assert(wipes_token(gf_token(), s3@, lists_tok@, lists_rep@));
                assert(!has_sub(s4@, gf_token()));
                assert(wipes_token(bin_token(), s3@, lists_tok@, lists_rep@));
                assert(!has_sub(s4@, bin_token()));
                assert(wipes_token(ipset_token(), s3@, lists_tok@, lists_rep@));
                assert(!has_sub(s4@, ipset_token()));
                lemma_has_sub_trimmed(s4@, gf_token());
                lemma_has_sub_trimmed(s4@, bin_token());
                lemma_has_sub_trimmed(s4@, ipset_token());
            }
        }
        let out = trim_chars(&s4);
        string_from_chars(out)
    } else {
        let mut s4 = s3;
        match lists_entries {
            None => {},
            Some(es) => {
                let flag_head = chars_of(" --hostlist=\"");
                proof {
                    reveal_strlit(" --hostlist=\"");
                    reveal_strlit("--hostlist=\"");
                    assert(flag_head@ =~= seq![' '] + "--hostlist=\""@);
                }
                let prefix_lit = chars_of("list-");
                let suffix_lit = chars_of(".txt");
                let excl_lit = chars_of("excluded");
                let ghost s3v = s4@;
                let ghost dv = es.deep_view();
                let n = es.len();
                let mut i: usize = 0;
                proof {
                    assert(dv.skip(0) =~= dv);
                }
                while i < n
                    invariant
                        0 <= i <= n,
                        n == es@.len(),
                        dv == es.deep_view(),
                        prefix_lit@ == "list-"@,
                        suffix_lit@ == ".txt"@,
                        excl_lit@ == "excluded"@,
                        flag_head@ == seq![' '] + "--hostlist=\""@,
                        s3v + hostlist_flags(dv, lists_dir@) == s4@ + hostlist_flags(
                            dv.skip(i as int),
                            lists_dir@,
                        ),
                    decreases n - i,
                {
                    let ghost pre = s4@;
                    let ghost restn = dv.skip(i as int);
                    proof {
                        assert(restn[0] == es@[i as int]@);
                        assert(restn.drop_first() =~= dv.skip(i + 1));
                    }
                    let name = chars_of(es[i].as_str());
                    let is_match = starts_with_chars(&name, &prefix_lit) && ends_with_chars(
                        &name,
                        &suffix_lit,
                    ) && !contains_sub(&name, &excl_lit);
                    if is_match {
                        push_all(&mut s4, &flag_head);
                        let p = join_path_chars(lists_dir, &name);
                        push_all(&mut s4, &p);
                        s4.push('"');
                        proof {
                            assert(s4@ =~= pre + (seq![' '] + "--hostlist=\""@ + joined(
                                lists_dir@,
                                restn[0],
                            ) + seq!['"']));
                        }
                    }
                    i += 1;
                    proof {
                        assert(hostlist_flags(restn, lists_dir@) == (if hostlist_match(restn[0]) {
                            seq![' '] + "--hostlist=\""@ + joined(lists_dir@, restn[0])
                                + seq!['"']
                        } else {
                            Seq::<char>::empty()
                        }) + hostlist_flags(dv.skip(i as int), lists_dir@));
                        if !is_match {
                            assert(s4@ =~= pre + Seq::<char>::empty());
                        }
                        assert(s3v + hostlist_flags(dv, lists_dir@) =~= s4@ + hostlist_flags(
                            dv.skip(i as int),
                            lists_dir@,
                        ));
                    }
                }
                proof {
                    assert(dv.skip(n as int) =~= Seq::<Seq<char>>::empty());
                    assert(hostlist_flags(Seq::<Seq<char>>::empty(), lists_dir@)
                        == Seq::<char>::empty());
                    assert(s4@ =~= s3v + hostlist_flags(dv, lists_dir@));
                }
            },
        }
        proof {
            if hyp {
                match opt_entries(lists_entries) {
                    None => {
                        lemma_has_sub_trimmed(s4@, gf_token());
                        lemma_has_sub_trimmed(s4@, bin_token());
                        lemma_has_sub_trimmed(s4@, ipset_token());
                    },
                    Some(es) => {
                        lemma_hostlist_flags_percent_free(es, lists_dir@);
                        lemma_append_keeps_token_out(
                            s3@,
                            hostlist_flags(es, lists_dir@),
                            gf_token(),
                        );
                        lemma_append_keeps_token_out(
                            s3@,
                            hostlist_flags(es, lists_dir@),
                            bin_token(),
                        );
                        lemma_append_keeps_token_out(
                            s3@,
                            hostlist_flags(es, lists_dir@),
                            ipset_token(),
                        );
                        lemma_has_sub_trimmed(s4@, gf_token());
                        lemma_has_sub_trimmed(s4@, bin_token());
                        lemma_has_sub_trimmed(s4@, ipset_token());
                    },
                }
            }
        }
        let out = trim_chars(&s4);
        string_from_chars(out)
    }
}

/// `dir` joined with the already-split `name`, as characters.
fn join_path_chars(dir: &str, name: &Vec<char>) -> (r: Vec<char>)
    ensures
        r@ == joined(dir@, name@),
{
    let mut out = chars_of(dir);
    out.push('\\');
    push_all(&mut out, name);
    proof {
        assert(out@ =~= joined(dir@, name@));
    }
    out
}


/// The lists fallback is exclusive: when the substituted template still
/// holds the lists placeholder, the placeholder is substituted and no
/// hostlist flag is appended; only in its absence is one flag appended per
/// matching listing entry, in listing order, as `hostlist_flags` lays them
/// out.
pub proof fn lemma_lists_fallback_exclusive(
    raw: Seq<char>,
    game_filter: bool,
    bin_dir: Seq<char>,
    lists_dir: Seq<char>,
    ipset_path: Seq<char>,
    entries: Seq<Seq<char>>,
)
    ensures
        ({
            let s3 = replaced(
                replaced(
                    replaced(raw, gf_token(), game_filter_value(game_filter)),
                    bin_token(),
                    with_sep(bin_dir),
                ),
                ipset_token(),
                ipset_flag(ipset_path),
            );
            &&& has_sub(s3, lists_token()) ==> built_args(
                raw,
                game_filter,
                bin_dir,
                lists_dir,
                ipset_path,
                Some(entries),
            ) == trimmed(replaced(s3, lists_token(), with_sep(lists_dir)))
            &&& !has_sub(s3, lists_token()) ==> built_args(
                raw,
                game_filter,
                bin_dir,
                lists_dir,
                ipset_path,
                Some(entries),
            ) == trimmed(s3 + hostlist_flags(entries, lists_dir))
        }),
{
}

/// Each matching listing entry contributes exactly one hostlist flag, and
/// a non-matching one contributes nothing.
pub proof fn lemma_one_flag_per_entry(name: Seq<char>, rest: Seq<Seq<char>>, lists_dir: Seq<char>)
    ensures
        hostlist_match(name) ==> hostlist_flags(seq![name] + rest, lists_dir) == seq![' ']
            + "--hostlist=\""@ + joined(lists_dir, name) + seq!['"'] + hostlist_flags(
            rest,
            lists_dir,
        ),
        !hostlist_match(name) ==> hostlist_flags(seq![name] + rest, lists_dir) == hostlist_flags(
            rest,
            lists_dir,
        ),
{
    let names = seq![name] + rest;
    assert(names[0] == name);
    assert(names.drop_first() =~= rest);
    if hostlist_match(name) {
        assert(hostlist_flags(names, lists_dir) =~= seq![' '] + "--hostlist=\""@ + joined(
            lists_dir,
            name,
        ) + seq!['"'] + hostlist_flags(rest, lists_dir));
    } else {
        assert(hostlist_flags(names, lists_dir) =~= hostlist_flags(rest, lists_dir));
    }
}

/// The five ipset selector cases: the two hide files, the existing custom
/// file, the same-name fallback into the lists directory, and the
/// catch-all file when no selector was given.
pub proof fn lemma_ipset_selector_cases(
    name: Seq<char>,
    custom_exists: bool,
    lists_dir: Seq<char>,
    configs_dir: Seq<char>,
)
    ensures
        resolved_ipset(Some("none"@), custom_exists, lists_dir, configs_dir) == joined(
            lists_dir,
            "ipset-none-hide.txt"@,
        ),
        resolved_ipset(Some("any"@), custom_exists, lists_dir, configs_dir) == joined(
            lists_dir,
            "ipset-any-hide.txt"@,
        ),
        name != "none"@ && name != "any"@ && custom_exists ==> resolved_ipset(
            Some(name),
            custom_exists,
            lists_dir,
            configs_dir,
        ) == joined(configs_dir, name),
        name != "none"@ && name != "any"@ && !custom_exists ==> resolved_ipset(
            Some(name),
            custom_exists,
            lists_dir,
            configs_dir,
        ) == joined(lists_dir, name),
        resolved_ipset(None, custom_exists, lists_dir, configs_dir) == joined(
            lists_dir,
            "ipset-all.txt"@,
        ),
{
    reveal_strlit("none");
    reveal_strlit("any");
    assert("none"@.len() == 4);
    assert("any"@.len() == 3);
}

} // verus!
