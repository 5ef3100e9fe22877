//! Marker-delimited merge engine for the system hosts file, and the parser
//! for the remote hosts-override document (update date and category
//! groupings).

use vstd::prelude::*;

use crate::text::{
    chars_of, chars_eq, contains_at, contains_sub, find_first, find_sub, has_sub, is_first_at,
    lemma_find_first_is,
    lemma_find_first_none, lines_of, lower_of, lowercase, push_all, replace_all, replaced,
    seq_has_char,
    split_lines, starts_with, starts_with_chars, string_from_chars, strip_hashes,
    strip_hashes_chars, subvec, trim_chars, trimmed,
};

verus! {

/// The line that opens the managed block of the hosts file.
pub open spec fn start_marker() -> Seq<char> {
    "### dns.malw.link: hosts file"@
}

/// The line that closes the managed block of the hosts file.
pub open spec fn end_marker() -> Seq<char> {
    "### dns.malw.link: end hosts file"@
}

/// The opening marker, as characters.
pub fn start_marker_chars() -> (r: Vec<char>)
    ensures
        r@ == start_marker(),
        r@.len() == 29,
{
    proof {
        reveal_strlit("### dns.malw.link: hosts file");
    }
    chars_of("### dns.malw.link: hosts file")
}

/// The closing marker, as characters.
pub fn end_marker_chars() -> (r: Vec<char>)
    ensures
        r@ == end_marker(),
        r@.len() == 33,
{
    proof {
        reveal_strlit("### dns.malw.link: end hosts file");
    }
    chars_of("### dns.malw.link: end hosts file")
}

/// `s` with every managed block removed: each span from an opening marker
/// to the next closing marker after it, both markers included, scanning
/// left to right.  Text whose opening marker has no closing marker after it
/// is left alone.
pub open spec fn cleaned(s: Seq<char>) -> Seq<char>
    decreases s.len(),
{
    match find_first(s, start_marker()) {
        None => s,
        Some(i) => match find_first(s.skip(i + start_marker().len()), end_marker()) {
            None => s,
            Some(j) => {
                let cut = i + start_marker().len() + j + end_marker().len();
                if 0 <= i && 0 <= j && 1 <= cut <= s.len() {
                    s.take(i) + cleaned(s.skip(cut))
                } else {
                    s
                }
            },
        },
    }
}

/// `v` with every managed block removed, then trimmed.
pub fn clean_chars(v: &Vec<char>) -> (r: Vec<char>)
    ensures
        r@ == trimmed(cleaned(v@)),
{
    let sm = start_marker_chars();
    let em = end_marker_chars();
    let ghost whole = v@;
    let mut acc: Vec<char> = Vec::new();
    let mut rest: Vec<char> = subvec(v, 0, v.len());
    proof {
        assert(v@.subrange(0, v@.len() as int) =~= v@);
        assert(cleaned(whole) =~= acc@ + cleaned(rest@));
    }
    loop
        invariant
            sm@ == start_marker(),
            em@ == end_marker(),
            sm@.len() == 29,
            em@.len() == 33,
            cleaned(whole) == acc@ + cleaned(rest@),
        ensures
            cleaned(whole) == acc@ + rest@,
        decreases rest.len(),
    {
        let found_start = find_sub(&rest, &sm);
        match found_start {
            None => {
                proof {
                    lemma_find_first_none(rest@, sm@);
                    assert(cleaned(rest@) == rest@);
                }
                break;
            },
            Some(i) => {
                proof {
                    lemma_find_first_is(rest@, sm@, i as int);
                }
                let after = i + 29;
                let tail = subvec(&rest, after, rest.len());
                proof {
                    assert(tail@ =~= rest@.skip(i + start_marker().len()));
                }
                match find_sub(&tail, &em) {
                    None => {
                        proof {
                            lemma_find_first_none(tail@, em@);
                            assert(cleaned(rest@) == rest@);
                        }
                        break;
                    },
                    Some(j) => {
                        proof {
                            lemma_find_first_is(tail@, em@, j as int);
                        }
                        let cut = after + j + 33;
                        let ghost restv = rest@;
                        let prefix = subvec(&rest, 0, i);
                        proof {
                            assert(prefix@ =~= restv.take(i as int));
                            assert(cleaned(restv) == restv.take(i as int) + cleaned(
                                restv.skip(cut as int),
                            ));
                        }
                        push_all(&mut acc, &prefix);
                        let new_rest = subvec(&rest, cut, rest.len());
                        proof {
                            assert(new_rest@ =~= restv.skip(cut as int));
                            assert(cleaned(whole) =~= acc@ + cleaned(new_rest@));
                        }
                        rest = new_rest;
                    },
                }
            },
        }
    }
    push_all(&mut acc, &rest);
    trim_chars(&acc)
}

/// Merge engine for the hosts file.
pub struct Hosts;

impl Hosts {
    /// The content with the managed block removed and the remainder
    /// trimmed; content without a complete block comes back trimmed but
    /// otherwise unchanged.
    pub fn clean(content: &str) -> (r: String)
        ensures
            r@ == trimmed(cleaned(content@)),
    {
        let v = chars_of(content);
        string_from_chars(clean_chars(&v))
    }

    /// Whether the content already holds the opening marker.
    pub fn contains_block(content: &str) -> (r: bool)
        ensures
            r == has_sub(content@, start_marker()),
    {
        let v = chars_of(content);
        let sm = start_marker_chars();
        contains_sub(&v, &sm)
    }

    /// The new hosts-file content: the managed block first — opening
    /// marker, trimmed payload, closing marker — then a blank line, then
    /// whatever unmanaged content the current file held.
    pub fn render(new_data: &str, current: &str) -> (r: String)
        ensures
            r@ == rendered(new_data@, current@),
            r@ == start_marker() + seq!['\n'] + trimmed(new_data@) + seq!['\n'] + end_marker()
                + seq!['\n', '\n'] + trimmed(cleaned(current@)),
    {
        let mut acc = start_marker_chars();
        acc.push('\n');
        let payload = chars_of(new_data);
        let tp = trim_chars(&payload);
        push_all(&mut acc, &tp);
        acc.push('\n');
        let em = end_marker_chars();
        push_all(&mut acc, &em);
        acc.push('\n');
        acc.push('\n');
        let cur = chars_of(current);
        let base = clean_chars(&cur);
        push_all(&mut acc, &base);
        proof {
            assert(acc@ =~= start_marker() + seq!['\n'] + trimmed(new_data@) + seq!['\n']
                + end_marker() + seq!['\n', '\n'] + trimmed(cleaned(current@)));
        }
        string_from_chars(acc)
    }
}


// ---------------------------------------------------------------------------
// The "last updated" line
// ---------------------------------------------------------------------------

/// The phrase that marks the "last updated" comment line.
pub open spec fn update_phrase() -> Seq<char> {
    "Последнее обновление"@
}

/// The phrase with its colon, which the date extraction removes.
pub open spec fn update_phrase_colon() -> Seq<char> {
    "Последнее обновление:"@
}

/// The sentinel returned when no "last updated" line exists.
pub open spec fn unknown_date() -> Seq<char> {
    "Неизвестно"@
}

/// The date carried by the first line holding the update phrase: the line
/// without its leading hashes, the phrase-with-colon removed, trimmed.
pub open spec fn date_from_lines(ls: Seq<Seq<char>>) -> Seq<char>
    decreases ls.len(),
{
    if ls.len() == 0 {
        unknown_date()
    } else if has_sub(ls[0], update_phrase()) {
        trimmed(replaced(strip_hashes(ls[0]), update_phrase_colon(), Seq::empty()))
    } else {
        date_from_lines(ls.drop_first())
    }
}

/// The update date of a whole document.
pub open spec fn update_date_of(content: Seq<char>) -> Seq<char> {
    date_from_lines(lines_of(content))
}

// ---------------------------------------------------------------------------
// Category groupings
// ---------------------------------------------------------------------------

/// The canonical default category.
pub open spec fn default_category() -> Seq<char> {
    "Базовая"@
}

/// The prefix (lowercased) that folds a category name into the default one.
pub open spec fn default_prefix() -> Seq<char> {
    "базов"@
}

/// A comment text becomes the default category when its lowercase form
/// starts with the default prefix, and names itself otherwise.
pub open spec fn normalized_category(c: Seq<char>) -> Seq<char> {
    if starts_with(lower_of(c), default_prefix()) {
        default_category()
    } else {
        c
    }
}

/// `acc` with `e` appended to the entry list of category `cat`: to the
/// first pair named `cat` if one exists, as a new pair at the end
/// otherwise.
pub open spec fn add_entry(
    acc: Seq<(Seq<char>, Seq<Seq<char>>)>,
    cat: Seq<char>,
    e: Seq<char>,
) -> Seq<(Seq<char>, Seq<Seq<char>>)>
    decreases acc.len(),
{
    if acc.len() == 0 {
        seq![(cat, seq![e])]
    } else if acc[0].0 == cat {
        seq![(acc[0].0, acc[0].1.push(e))] + acc.drop_first()
    } else {
        seq![acc[0]] + add_entry(acc.drop_first(), cat, e)
    }
}

/// The category walk over the document's lines: the opening marker turns
/// collection on; the closing marker stops it for good; inside the block a
/// comment line selects the current category (except the update-date line
/// and empty comments) and any other non-empty line joins the current
/// category, the default one at the start.
pub open spec fn cats_from_lines(
    ls: Seq<Seq<char>>,
    inside: bool,
    cur: Seq<char>,
    acc: Seq<(Seq<char>, Seq<Seq<char>>)>,
) -> Seq<(Seq<char>, Seq<Seq<char>>)>
    decreases ls.len(),
{
    if ls.len() == 0 {
        acc
    } else {
        let l = trimmed(ls[0]);
        let rest = ls.drop_first();
        if l == start_marker() {
            cats_from_lines(rest, true, cur, acc)
        } else if l == end_marker() {
            acc
        } else if inside && l.len() > 0 {
            if l[0] == '#' {
                let c = trimmed(strip_hashes(l));
                if has_sub(c, update_phrase()) || c.len() == 0 {
                    cats_from_lines(rest, inside, cur, acc)
                } else {
                    cats_from_lines(rest, inside, normalized_category(c), acc)
                }
            } else {
                cats_from_lines(rest, inside, cur, add_entry(acc, cur, l))
            }
        } else {
            cats_from_lines(rest, inside, cur, acc)
        }
    }
}

/// The categories of a whole document.
pub open spec fn categories_of(content: Seq<char>) -> Seq<(Seq<char>, Seq<Seq<char>>)> {
    cats_from_lines(lines_of(content), false, default_category(), Seq::empty())
}

/// One named category with its entries, in document order.
pub struct Category {
    /// The category's name.
    pub name: String,
    /// The host entries grouped under it, in input order.
    pub entries: Vec<String>,
}

/// The mathematical content of a category list.
pub open spec fn cats_view(cs: Seq<Category>) -> Seq<(Seq<char>, Seq<Seq<char>>)> {
    cs.map_values(|c: Category| (c.name@, c.entries.deep_view()))
}

/// The parsed remote document: its update date and its categories.
pub struct HostsData {
    /// The "last updated" date, or the unknown sentinel.
    pub date: String,
    /// The categories, in document order.
    pub categories: Vec<Category>,
}

fn add_entry_exec(acc: &mut Vec<Category>, cat: &Vec<char>, e: &Vec<char>)
    ensures
        cats_view(final(acc)@) == add_entry(cats_view(old(acc)@), cat@, e@),
{
    let ghost acc0 = cats_view(old(acc)@);
    let n = acc.len();
    let mut m: usize = 0;
    while m < n
        invariant
            0 <= m <= n,
            n == acc.len(),
            acc == old(acc),
            acc0 == cats_view(acc@),
            forall|t: int| 0 <= t < m ==> cats_view(acc@)[t].0 != cat@,
        decreases n - m,
    {
        let name_chars = chars_of(acc[m].name.as_str());
        if chars_eq(&name_chars, cat) {
            proof {
                assert(acc0[m as int] == (acc@[m as int].name@, acc@[
                    m as int
                ].entries.deep_view()));
                assert(acc0[m as int].0 == cat@);
                assert(acc0.len() == acc@.len());
                lemma_add_entry_found(acc0, cat@, e@, m as int);
            }
            let ghost a_seq = acc@;
            let mut item = acc.remove(m);
            let ghost entries0 = item.entries.deep_view();
            proof {
                assert(entries0 == acc0[m as int].1);
            }
            let s = string_from_chars(subvec(e, 0, e.len()));
            proof {
                assert(e@.subrange(0, e@.len() as int) =~= e@);
            }
            item.entries.push(s);
            proof {
                assert(item.entries.deep_view() =~~= entries0.push(e@));
            }
            acc.insert(m, item);
            proof {
                assert(acc@ =~= a_seq.update(m as int, acc@[m as int]));
                assert(acc@[m as int].name@ == acc0[m as int].0);
                assert(acc@[m as int].entries.deep_view() == entries0.push(e@));
                assert(cats_view(acc@) =~~= acc0.update(
                    m as int,
                    (acc0[m as int].0, acc0[m as int].1.push(e@)),
                ));
            }
            return ;
        }
        proof {
            assert(cats_view(acc@)[m as int] == (acc@[m as int].name@, acc@[
                m as int
            ].entries.deep_view()));
        }
        m += 1;
    }
    proof {
        lemma_add_entry_missing(acc0, cat@, e@);
    }
    let mut entries: Vec<String> = Vec::new();
    entries.push(string_from_chars(subvec(e, 0, e.len())));
    let item = Category { name: string_from_chars(subvec(cat, 0, cat.len())), entries };
    proof {
        assert(e@.subrange(0, e@.len() as int) =~= e@);
        assert(cat@.subrange(0, cat@.len() as int) =~= cat@);
        assert(item.entries.deep_view() =~~= seq![e@]);
    }
    acc.push(item);
    proof {
        assert(cats_view(acc@) =~~= acc0.push((cat@, seq![e@])));
    }
}

proof fn lemma_add_entry_found(
    acc: Seq<(Seq<char>, Seq<Seq<char>>)>,
    cat: Seq<char>,
    e: Seq<char>,
    m: int,
)
    requires
        0 <= m < acc.len(),
        acc[m].0 == cat,
        forall|t: int| 0 <= t < m ==> acc[t].0 != cat,
    ensures
        add_entry(acc, cat, e) == acc.update(m, (acc[m].0, acc[m].1.push(e))),
    decreases m,
{
    if m == 0 {
        assert(seq![(acc[0].0, acc[0].1.push(e))] + acc.drop_first() =~= acc.update(
            0,
            (acc[0].0, acc[0].1.push(e)),
        ));
    } else {
        assert(acc[0].0 != cat);
        lemma_add_entry_found(acc.drop_first(), cat, e, m - 1);
        assert(seq![acc[0]] + acc.drop_first().update(
            m - 1,
            (acc.drop_first()[m - 1].0, acc.drop_first()[m - 1].1.push(e)),
        ) =~= acc.update(m, (acc[m].0, acc[m].1.push(e))));
    }
}

proof fn lemma_add_entry_missing(acc: Seq<(Seq<char>, Seq<Seq<char>>)>, cat: Seq<char>, e: Seq<char>)
    requires
        forall|t: int| 0 <= t < acc.len() ==> acc[t].0 != cat,
    ensures
        add_entry(acc, cat, e) == acc.push((cat, seq![e])),
    decreases acc.len(),
{
    if acc.len() == 0 {
        assert(seq![(cat, seq![e])] =~= acc.push((cat, seq![e])));
    } else {
        lemma_add_entry_missing(acc.drop_first(), cat, e);
        assert(seq![acc[0]] + acc.drop_first().push((cat, seq![e])) =~= acc.push((cat, seq![e])));
    }
}

impl Hosts {
    /// The date on the "last updated" comment line, or the unknown
    /// sentinel when no line holds the phrase.
    pub fn get_update_date(content: &str) -> (r: String)
        ensures
            r@ == update_date_of(content@),
    {
        let v = chars_of(content);
        let lines = split_lines(&v);
        let phrase = chars_of("Последнее обновление");
        let phrase_colon = chars_of("Последнее обновление:");
        proof {
            reveal_strlit("Последнее обновление:");
        }
        let empty: Vec<char> = Vec::new();
        let n = lines.len();
        let mut i: usize = 0;
        proof {
            assert(lines.deep_view().skip(0) =~= lines.deep_view());
        }
        while i < n
            invariant
                0 <= i <= n,
                n == lines@.len(),
                phrase@ == update_phrase(),
                phrase_colon@ == update_phrase_colon(),
                phrase_colon@.len() >= 1,
                empty@ == Seq::<char>::empty(),
                update_date_of(content@) == date_from_lines(lines.deep_view().skip(i as int)),
            decreases n - i,
        {
            let ghost ls = lines.deep_view().skip(i as int);
            proof {
                assert(ls[0] == lines@[i as int]@);
                assert(ls.drop_first() =~= lines.deep_view().skip(i + 1));
            }
            let line = &lines[i];
            if contains_sub(line, &phrase) {
                let stripped = strip_hashes_chars(line);
                let removed = replace_all(&stripped, &phrase_colon, &empty);
                let out = trim_chars(&removed);
                return string_from_chars(out);
            }
            i += 1;
        }
        proof {
            assert(lines.deep_view().skip(n as int) =~= Seq::<Seq<char>>::empty());
        }
        String::from_str("Неизвестно")
    }

    /// The categories of the document: walked only inside the managed
    /// block, entries grouped under the most recent comment header, the
    /// default category at the start and for headers that the default
    /// prefix folds together.
    pub fn get_categories(content: &str) -> (r: Vec<Category>)
        ensures
            cats_view(r@) == categories_of(content@),
    {
        let v = chars_of(content);
        let lines = split_lines(&v);
        let sm = start_marker_chars();
        let em = end_marker_chars();
        let phrase = chars_of("Последнее обновление");
        let prefix = chars_of("базов");
        let mut inside = false;
        let mut cur = chars_of("Базовая");
        let mut acc: Vec<Category> = Vec::new();
        let n = lines.len();
        let mut i: usize = 0;
        proof {
            assert(cats_view(acc@) =~= Seq::<(Seq<char>, Seq<Seq<char>>)>::empty());
            assert(lines.deep_view().skip(0) =~= lines.deep_view());
        }
        while i < n
            invariant
                0 <= i <= n,
                n == lines@.len(),
                sm@ == start_marker(),
                em@ == end_marker(),
                phrase@ == update_phrase(),
                prefix@ == default_prefix(),
                categories_of(content@) == cats_from_lines(
                    lines.deep_view().skip(i as int),
                    inside,
                    cur@,
                    cats_view(acc@),
                ),
            decreases n - i,
        {
            let ghost ls = lines.deep_view().skip(i as int);
            proof {
                assert(ls[0] == lines@[i as int]@);
                assert(ls.drop_first() =~= lines.deep_view().skip(i + 1));
            }
            let line = trim_chars(&lines[i]);
            if chars_eq(&line, &sm) {
                inside = true;
            } else if chars_eq(&line, &em) {
                return acc;
            } else if inside && line.len() > 0 {
                if line[0] == '#' {
                    let c = trim_chars(&strip_hashes_chars(&line));
                    if contains_sub(&c, &phrase) || c.len() == 0 {
                        // the update-date line and bare hashes change nothing
                    } else {
                        let cs = string_from_chars(subvec(&c, 0, c.len()));
                        proof {
                            assert(c@.subrange(0, c@.len() as int) =~= c@);
                        }
                        let low = lowercase(cs.as_str());
                        let low_chars = chars_of(low.as_str());
                        if starts_with_chars(&low_chars, &prefix) {
                            cur = chars_of("Базовая");
                        } else {
                            cur = c;
                        }
                    }
                } else {
                    add_entry_exec(&mut acc, &cur, &line);
                }
            }
            i += 1;
        }
        proof {
            assert(lines.deep_view().skip(n as int) =~= Seq::<Seq<char>>::empty());
        }
        acc
    }

    /// The parsed document: update date and categories together.
    pub fn parse(content: &str) -> (r: HostsData)
        ensures
            r.date@ == update_date_of(content@),
            cats_view(r.categories@) == categories_of(content@),
    {
        let date = Self::get_update_date(content);
        let categories = Self::get_categories(content);
        HostsData { date, categories }
    }
}


// ---------------------------------------------------------------------------
// Laws of the merge engine
// ---------------------------------------------------------------------------

/// `pat` overlaps itself with period `p`: its tail from `p` equals its head.
pub open spec fn border_at(pat: Seq<char>, p: int) -> bool {
    pat.skip(p) == pat.take(pat.len() - p)
}

/// `pat` has no nontrivial self-overlap, so two occurrences of it cannot
/// intersect.
pub open spec fn unbordered(pat: Seq<char>) -> bool {
    forall|p: int| 1 <= p < pat.len() ==> !border_at(pat, p)
}

proof fn lemma_markers_unbordered()
    ensures
        unbordered(start_marker()),
        unbordered(end_marker()),
        start_marker().len() == 29,
        end_marker().len() == 33,
        start_marker().first() == '#',
        end_marker().first() == '#',
        start_marker().last() == 'e',
        end_marker().last() == 'e',
        !seq_has_char(start_marker(), '\n'),
        !seq_has_char(end_marker(), '\n'),
{
    reveal_strlit("### dns.malw.link: hosts file");
    reveal_strlit("### dns.malw.link: end hosts file");
        assert(!seq_has_char(start_marker(), '\n')) by {
            if seq_has_char(start_marker(), '\n') {
                let k = choose|k: int| 0 <= k < start_marker().len() && start_marker()[k] == '\n';
                if k == 0 {
                    assert(false);
                } else if k == 1 {
                    assert(false);
                } else if k == 2 {
                    assert(false);
                } else if k == 3 {
                    assert(false);
                } else if k == 4 {
                    assert(false);
                } else if k == 5 {
                    assert(false);
                } else if k == 6 {
                    assert(false);
                } else if k == 7 {
                    assert(false);
                } else if k == 8 {
                    assert(false);
                } else if k == 9 {
                    assert(false);
                } else if k == 10 {
                    assert(false);
                } else if k == 11 {
                    assert(false);
                } else if k == 12 {
                    assert(false);
                } else if k == 13 {
                    assert(false);
                } else if k == 14 {
                    assert(false);
                } else if k == 15 {
                    assert(false);
                } else if k == 16 {
                    assert(false);
                } else if k == 17 {
                    assert(false);
                } else if k == 18 {
                    assert(false);
                } else if k == 19 {
                    assert(false);
                } else if k == 20 {
                    assert(false);
                } else if k == 21 {
                    assert(false);
                } else if k == 22 {
                    assert(false);
                } else if k == 23 {
                    assert(false);
                } else if k == 24 {
                    assert(false);
                } else if k == 25 {
                    assert(false);
                } else if k == 26 {
                    assert(false);
                } else if k == 27 {
                    assert(false);
                } else if k == 28 {
                    assert(false);
                } else {
                    assert(false);
                }
            }
        }
        assert(!seq_has_char(end_marker(), '\n')) by {
            if seq_has_char(end_marker(), '\n') {
                let k = choose|k: int| 0 <= k < end_marker().len() && end_marker()[k] == '\n';
                if k == 0 {
                    assert(false);
                } else if k == 1 {
                    assert(false);
                } else if k == 2 {
                    assert(false);
                } else if k == 3 {
                    assert(false);
                } else if k == 4 {
                    assert(false);
                } else if k == 5 {
                    assert(false);
                } else if k == 6 {
                    assert(false);
                } else if k == 7 {
                    assert(false);
                } else if k == 8 {
                    assert(false);
                } else if k == 9 {
                    assert(false);
                } else if k == 10 {
                    assert(false);
                } else if k == 11 {
                    assert(false);
                } else if k == 12 {
                    assert(false);
                } else if k == 13 {
                    assert(false);
                } else if k == 14 {
                    assert(false);
                } else if k == 15 {
                    assert(false);
                } else if k == 16 {
                    assert(false);
                } else if k == 17 {
                    assert(false);
                } else if k == 18 {
                    assert(false);
                } else if k == 19 {
                    assert(false);
                } else if k == 20 {
                    assert(false);
                } else if k == 21 {
                    assert(false);
                } else if k == 22 {
                    assert(false);
                } else if k == 23 {
                    assert(false);
                } else if k == 24 {
                    assert(false);
                } else if k == 25 {
                    assert(false);
                } else if k == 26 {
                    assert(false);
                } else if k == 27 {
                    assert(false);
                } else if k == 28 {
                    assert(false);
                } else if k == 29 {
                    assert(false);
                } else if k == 30 {
                    assert(false);
                } else if k == 31 {
                    assert(false);
                } else if k == 32 {
                    assert(false);
                } else {
                    assert(false);
                }
            }
        }
    let m = start_marker();
    assert forall|p: int| 1 <= p < m.len() implies !border_at(m, p) by {
        if border_at(m, p) {
            if p == 1 {
                assert(m.skip(1)[2] == m.take(28)[2]);
            } else if p == 2 {
                assert(m.skip(2)[1] == m.take(27)[1]);
            } else if p == 3 {
                assert(m.skip(3)[0] == m.take(26)[0]);
            } else if p == 4 {
                assert(m.skip(4)[0] == m.take(25)[0]);
            } else if p == 5 {
                assert(m.skip(5)[0] == m.take(24)[0]);
            } else if p == 6 {
                assert(m.skip(6)[0] == m.take(23)[0]);
            } else if p == 7 {
                assert(m.skip(7)[0] == m.take(22)[0]);
            } else if p == 8 {
                assert(m.skip(8)[0] == m.take(21)[0]);
            } else if p == 9 {
                assert(m.skip(9)[0] == m.take(20)[0]);
            } else if p == 10 {
                assert(m.skip(10)[0] == m.take(19)[0]);
            } else if p == 11 {
                assert(m.skip(11)[0] == m.take(18)[0]);
            } else if p == 12 {
                assert(m.skip(12)[0] == m.take(17)[0]);
            } else if p == 13 {
                assert(m.skip(13)[0] == m.take(16)[0]);
            } else if p == 14 {
                assert(m.skip(14)[0] == m.take(15)[0]);
            } else if p == 15 {
                assert(m.skip(15)[0] == m.take(14)[0]);
            } else if p == 16 {
                assert(m.skip(16)[0] == m.take(13)[0]);
            } else if p == 17 {
                assert(m.skip(17)[0] == m.take(12)[0]);
            } else if p == 18 {
                assert(m.skip(18)[0] == m.take(11)[0]);
            } else if p == 19 {
                assert(m.skip(19)[0] == m.take(10)[0]);
            } else if p == 20 {
                assert(m.skip(20)[0] == m.take(9)[0]);
            } else if p == 21 {
                assert(m.skip(21)[0] == m.take(8)[0]);
            } else if p == 22 {
                assert(m.skip(22)[0] == m.take(7)[0]);
            } else if p == 23 {
                assert(m.skip(23)[0] == m.take(6)[0]);
            } else if p == 24 {
                assert(m.skip(24)[0] == m.take(5)[0]);
            } else if p == 25 {
                assert(m.skip(25)[0] == m.take(4)[0]);
            } else if p == 26 {
                assert(m.skip(26)[0] == m.take(3)[0]);
            } else if p == 27 {
                assert(m.skip(27)[0] == m.take(2)[0]);
            } else if p == 28 {
                assert(m.skip(28)[0] == m.take(1)[0]);
            } else {
                assert(false);
            }
        }
    }
    let m = end_marker();
    assert forall|p: int| 1 <= p < m.len() implies !border_at(m, p) by {
        if border_at(m, p) {
            if p == 1 {
                assert(m.skip(1)[2] == m.take(32)[2]);
            } else if p == 2 {
                assert(m.skip(2)[1] == m.take(31)[1]);
            } else if p == 3 {
                assert(m.skip(3)[0] == m.take(30)[0]);
            } else if p == 4 {
                assert(m.skip(4)[0] == m.take(29)[0]);
            } else if p == 5 {
                assert(m.skip(5)[0] == m.take(28)[0]);
            } else if p == 6 {
                assert(m.skip(6)[0] == m.take(27)[0]);
            } else if p == 7 {
                assert(m.skip(7)[0] == m.take(26)[0]);
            } else if p == 8 {
                assert(m.skip(8)[0] == m.take(25)[0]);
            } else if p == 9 {
                assert(m.skip(9)[0] == m.take(24)[0]);
            } else if p == 10 {
                assert(m.skip(10)[0] == m.take(23)[0]);
            } else if p == 11 {
                assert(m.skip(11)[0] == m.take(22)[0]);
            } else if p == 12 {
                assert(m.skip(12)[0] == m.take(21)[0]);
            } else if p == 13 {
                assert(m.skip(13)[0] == m.take(20)[0]);
            } else if p == 14 {
                assert(m.skip(14)[0] == m.take(19)[0]);
            } else if p == 15 {
                assert(m.skip(15)[0] == m.take(18)[0]);
            } else if p == 16 {
                assert(m.skip(16)[0] == m.take(17)[0]);
            } else if p == 17 {
                assert(m.skip(17)[0] == m.take(16)[0]);
            } else if p == 18 {
                assert(m.skip(18)[0] == m.take(15)[0]);
            } else if p == 19 {
                assert(m.skip(19)[0] == m.take(14)[0]);
            } else if p == 20 {
                assert(m.skip(20)[0] == m.take(13)[0]);
            } else if p == 21 {
                assert(m.skip(21)[0] == m.take(12)[0]);
            } else if p == 22 {
                assert(m.skip(22)[0] == m.take(11)[0]);
            } else if p == 23 {
                assert(m.skip(23)[0] == m.take(10)[0]);
            } else if p == 24 {
                assert(m.skip(24)[0] == m.take(9)[0]);
            } else if p == 25 {
                assert(m.skip(25)[0] == m.take(8)[0]);
            } else if p == 26 {
                assert(m.skip(26)[0] == m.take(7)[0]);
            } else if p == 27 {
                assert(m.skip(27)[0] == m.take(6)[0]);
            } else if p == 28 {
                assert(m.skip(28)[0] == m.take(5)[0]);
            } else if p == 29 {
                assert(m.skip(29)[0] == m.take(4)[0]);
            } else if p == 30 {
                assert(m.skip(30)[0] == m.take(3)[0]);
            } else if p == 31 {
                assert(m.skip(31)[0] == m.take(2)[0]);
            } else if p == 32 {
                assert(m.skip(32)[0] == m.take(1)[0]);
            } else {
                assert(false);
            }
        }
    }
}

/// In `pre + pat + suf`, the explicit `pat` is the first occurrence of
/// `pat`, provided `pre` holds no occurrence and `pat` has no self-overlap.
proof fn lemma_first_in_concat(pre: Seq<char>, pat: Seq<char>, suf: Seq<char>)
    requires
        !has_sub(pre, pat),
        unbordered(pat),
        pat.len() >= 1,
    ensures
        is_first_at(pre + pat + suf, pat, pre.len() as int),
{
    let doc = pre + pat + suf;
    let n = pre.len() as int;
    let pl = pat.len() as int;
    assert(doc.subrange(n, n + pl) =~= pat);
    assert(contains_at(doc, pat, n));
    assert forall|k: int| 0 <= k < n implies !(#[trigger] contains_at(doc, pat, k)) by {
        if contains_at(doc, pat, k) {
            if k + pl <= n {
                assert(doc.subrange(k, k + pl) =~= pre.subrange(k, k + pl));
                assert(contains_at(pre, pat, k));
            } else {
                let p = n - k;
                assert(0 < p < pl);
                assert forall|i: int| 0 <= i < pl - p implies #[trigger] pat.skip(p)[i]
                    == pat.take(pl - p)[i] by {
                    assert(doc.subrange(k, k + pl)[p + i] == pat[p + i]);
                    assert(doc[n + i] == pat[i]);
                    assert(doc.subrange(k, k + pl)[p + i] == doc[n + i]);
                }
                assert(pat.skip(p) =~= pat.take(pl - p));
                assert(border_at(pat, p));
            }
        }
    }
}

/// Wrapping in line feeds cannot create an occurrence of a pattern that has
/// no line feed of its own.
proof fn lemma_pad_newlines(x: Seq<char>, pat: Seq<char>)
    requires
        !has_sub(x, pat),
        pat.len() >= 1,
        pat.first() != '\n',
        pat.last() != '\n',
    ensures
        !has_sub(seq!['\n'] + x + seq!['\n'], pat),
{
    let doc = seq!['\n'] + x + seq!['\n'];
    let pl = pat.len() as int;
    assert forall|k: int| !(#[trigger] contains_at(doc, pat, k)) by {
        if contains_at(doc, pat, k) {
            if k == 0 {
                assert(doc.subrange(k, k + pl)[0] == pat[0]);
                assert(doc[0] == '\n');
            } else if k + pl == doc.len() {
                assert(doc.subrange(k, k + pl)[pl - 1] == pat[pl - 1]);
                assert(doc[doc.len() - 1] == '\n');
            } else {
                assert(doc.subrange(k, k + pl) =~= x.subrange(k - 1, k - 1 + pl));
                assert(contains_at(x, pat, k - 1));
            }
        }
    }
}

/// Two leading line feeds cannot create an occurrence of a pattern whose
/// first character is no line feed.
proof fn lemma_pad_two_newlines(base: Seq<char>, pat: Seq<char>)
    requires
        !has_sub(base, pat),
        pat.len() >= 1,
        pat.first() != '\n',
    ensures
        !has_sub(seq!['\n', '\n'] + base, pat),
{
    let doc = seq!['\n', '\n'] + base;
    let pl = pat.len() as int;
    assert forall|k: int| !(#[trigger] contains_at(doc, pat, k)) by {
        if contains_at(doc, pat, k) {
            if k < 2 {
                assert(doc.subrange(k, k + pl)[0] == pat[0]);
                assert(pat[0] == '\n');
            } else {
                assert(doc.subrange(k, k + pl) =~= base.subrange(k - 2, k - 2 + pl));
                assert(contains_at(base, pat, k - 2));
            }
        }
    }
}

/// The rendered hosts-file content, as `Hosts::render` produces it.
pub open spec fn rendered(payload: Seq<char>, current: Seq<char>) -> Seq<char> {
    start_marker() + seq!['\n'] + trimmed(payload) + seq!['\n'] + end_marker() + seq!['\n', '\n']
        + trimmed(cleaned(current))
}

/// The merge is idempotent: cleaning what was rendered returns exactly the
/// unmanaged base that was preserved, and rendering the same payload again
/// reproduces the file byte for byte.  The payload must not carry the
/// closing marker, and the pre-existing unmanaged content must not carry
/// either marker.
pub proof fn lemma_hosts_merge_idempotent(payload: Seq<char>, current: Seq<char>)
    requires
        !has_sub(trimmed(payload), end_marker()),
        !has_sub(trimmed(cleaned(current)), start_marker()),
        !has_sub(trimmed(cleaned(current)), end_marker()),
    ensures
        trimmed(cleaned(rendered(payload, current))) == trimmed(cleaned(current)),
        rendered(payload, rendered(payload, current)) == rendered(payload, current),
{
    lemma_markers_unbordered();
    let tp = trimmed(payload);
    let base = trimmed(cleaned(current));
    let mid = seq!['\n'] + tp + seq!['\n'];
    let tail = seq!['\n', '\n'] + base;
    let out = rendered(payload, current);
    // the opening marker opens the document
    assert(out.subrange(0, 29) =~= start_marker());
    assert(contains_at(out, start_marker(), 0));
    assert(is_first_at(out, start_marker(), 0));
    crate::text::lemma_find_first_is(out, start_marker(), 0);
    // the closing marker first appears right after the payload
    lemma_pad_newlines(tp, end_marker());
    lemma_first_in_concat(mid, end_marker(), tail);
    let rest = out.skip(29);
    assert(rest =~= mid + end_marker() + tail);
    crate::text::lemma_find_first_is(rest, end_marker(), mid.len() as int);
    // one unfolding of `cleaned` cuts exactly the managed block
    let cut = 29 + mid.len() + 33;
    assert(cleaned(out) == out.take(0) + cleaned(out.skip(cut as int)));
    assert(out.skip(cut as int) =~= tail);
    assert(out.take(0) + cleaned(tail) =~= cleaned(tail));
    // what remains holds no opening marker, so cleaning leaves it alone
    lemma_pad_two_newlines(base, start_marker());
    crate::text::lemma_find_first_none(tail, start_marker());
    assert(cleaned(tail) == tail);
    assert(cleaned(out) == tail);
    crate::text::lemma_trimmed_drop_leading_newlines(base);
    crate::text::lemma_trimmed_idempotent(cleaned(current));
    assert(trimmed(cleaned(out)) == base);
    // a second render reproduces the same bytes
    assert(rendered(payload, out) =~= out);
}

/// Cleaning removes exactly the span from the opening marker to the
/// closing marker, both included, and keeps the surrounding content: the
/// text before the block verbatim, the text after it cleaned in turn.  The
/// body must not carry the closing marker, and the text before the block
/// must not carry the opening one.
pub proof fn lemma_clean_extracts_block(a: Seq<char>, b: Seq<char>, d: Seq<char>)
    requires
        !has_sub(a, start_marker()),
        !has_sub(b, end_marker()),
    ensures
        cleaned(a + start_marker() + b + end_marker() + d) == a + cleaned(d),
{
    lemma_markers_unbordered();
    let doc = a + start_marker() + b + end_marker() + d;
    let an = a.len() as int;
    let bn = b.len() as int;
    lemma_first_in_concat(a, start_marker(), b + end_marker() + d);
    assert(doc =~= a + start_marker() + (b + end_marker() + d));
    crate::text::lemma_find_first_is(doc, start_marker(), an);
    let rest = doc.skip(an + 29);
    assert(rest =~= b + end_marker() + d);
    lemma_first_in_concat(b, end_marker(), d);
    crate::text::lemma_find_first_is(rest, end_marker(), bn);
    let cut = an + 29 + bn + 33;
    assert(cleaned(doc) == doc.take(an) + cleaned(doc.skip(cut)));
    assert(doc.take(an) =~= a);
    assert(doc.skip(cut) =~= d);
}


/// Entries before any comment header land in the canonical default
/// category: a document whose block holds one entry line and no header
/// parses to exactly that entry under the default category.
pub proof fn lemma_default_bucket(e: Seq<char>)
    requires
        trimmed(e) == e,
        e.len() > 0,
        e.first() != '#',
        !seq_has_char(e, '\n'),
    ensures
        categories_of(start_marker() + seq!['\n'] + e + seq!['\n'] + end_marker()) == seq![
            (default_category(), seq![e]),
        ],
{
    lemma_markers_unbordered();
    let nl = seq!['\n'];
    let doc = start_marker() + nl + e + nl + end_marker();
    // the document splits into exactly three lines
    assert(doc[29] == '\n');
    assert(doc.subrange(29, 30) =~= nl);
    assert(contains_at(doc, nl, 29));
    assert forall|j: int| 0 <= j < 29 implies !(#[trigger] contains_at(doc, nl, j)) by {
        if contains_at(doc, nl, j) {
            assert(doc.subrange(j, j + 1)[0] == '\n');
            assert(start_marker()[j] == '\n');
            assert(seq_has_char(start_marker(), '\n'));
        }
    }
    crate::text::lemma_find_first_is(doc, nl, 29);
    assert(doc.take(29) =~= start_marker());
    assert(crate::text::strip_cr(start_marker()) == start_marker());
    let rest1 = doc.skip(30);
    assert(rest1 =~= e + nl + end_marker());
    let en = e.len() as int;
    assert(rest1[en] == '\n');
    assert(rest1.subrange(en, en + 1) =~= nl);
    assert(contains_at(rest1, nl, en));
    assert forall|j: int| 0 <= j < en implies !(#[trigger] contains_at(rest1, nl, j)) by {
        if contains_at(rest1, nl, j) {
            assert(rest1.subrange(j, j + 1)[0] == '\n');
            assert(e[j] == '\n');
            assert(seq_has_char(e, '\n'));
        }
    }
    crate::text::lemma_find_first_is(rest1, nl, en);
    assert(rest1.take(en) =~= e);
    crate::text::lemma_trimmed_fixpoint_ends(e);
    assert(e.last() != '\r') by {
        if e.last() == '\r' {
            assert(crate::text::is_space(e.last()));
        }
    }
    assert(crate::text::strip_cr(e) == e);
    let rest2 = rest1.skip(en + 1);
    assert(rest2 =~= end_marker());
    crate::text::lemma_no_char_no_sub(end_marker(), '\n');
    crate::text::lemma_find_first_none(rest2, nl);
    assert(lines_of(rest2) == seq![rest2]);
    assert(lines_of(rest1) == seq![e] + lines_of(rest2));
    assert(lines_of(doc) == seq![start_marker()] + lines_of(rest1));
    let ls = lines_of(doc);
    assert(ls =~= seq![start_marker(), e, end_marker()]);
    // the walk: the opening marker, the entry, the closing marker
    assert(!crate::text::is_space('#'));
    assert(!crate::text::is_space('e'));
    crate::text::lemma_trimmed_nospace_ends(start_marker());
    crate::text::lemma_trimmed_nospace_ends(end_marker());
    let acc0 = Seq::<(Seq<char>, Seq<Seq<char>>)>::empty();
    assert(ls[0] == start_marker());
    assert(ls.drop_first() =~= seq![e, end_marker()]);
    assert(cats_from_lines(ls, false, default_category(), acc0) == cats_from_lines(
        seq![e, end_marker()],
        true,
        default_category(),
        acc0,
    ));
    let ls1 = seq![e, end_marker()];
    assert(ls1[0] == e);
    assert(trimmed(e) == e);
    assert(e != start_marker());
    assert(e != end_marker());
    assert(e[0] != '#');
    let acc1 = add_entry(acc0, default_category(), e);
    assert(acc1 =~= seq![(default_category(), seq![e])]);
    assert(ls1.drop_first() =~= seq![end_marker()]);
    assert(cats_from_lines(ls1, true, default_category(), acc0) == cats_from_lines(
        seq![end_marker()],
        true,
        default_category(),
        acc1,
    ));
    let ls2 = seq![end_marker()];
    assert(ls2[0] == end_marker());
    assert(trimmed(end_marker()) == end_marker());
    assert(end_marker() != start_marker());
    assert(cats_from_lines(ls2, true, default_category(), acc1) == acc1);
}

} // verus!
