//! Character-sequence primitives shared by the whole crate: substring
//! search, whitespace trimming, token replacement and line splitting,
//! each with an exact mathematical specification.

use vstd::prelude::*;

verus! {

// ---------------------------------------------------------------------------
// Occurrences of a pattern inside a sequence
// ---------------------------------------------------------------------------

/// `pat` occurs in `s` at position `k`.
pub open spec fn contains_at(s: Seq<char>, pat: Seq<char>, k: int) -> bool {
    0 <= k && k + pat.len() <= s.len() && s.subrange(k, k + pat.len() as int) == pat
}

/// `pat` occurs somewhere in `s`.
pub open spec fn has_sub(s: Seq<char>, pat: Seq<char>) -> bool {
    exists|k: int| contains_at(s, pat, k)
}

/// `pat` occurs in `s` at `k` and nowhere earlier.
pub open spec fn is_first_at(s: Seq<char>, pat: Seq<char>, k: int) -> bool {
    contains_at(s, pat, k) && forall|j: int| 0 <= j < k ==> !contains_at(s, pat, j)
}

/// Position of the leftmost occurrence of `pat` in `s` at or after `k`.
pub open spec fn find_from(s: Seq<char>, pat: Seq<char>, k: int) -> Option<int>
    decreases s.len() - k,
{
    if k < 0 || k + pat.len() > s.len() {
        None
    } else if pat.len() == 0 {
        Some(k)
    } else if s.subrange(k, k + pat.len() as int) == pat {
        Some(k)
    } else {
        find_from(s, pat, k + 1)
    }
}

/// Position of the leftmost occurrence of `pat` in `s`.
pub open spec fn find_first(s: Seq<char>, pat: Seq<char>) -> Option<int> {
    find_from(s, pat, 0)
}

/// `find_from` returns exactly the first occurrence at or after `k`.
pub proof fn lemma_find_from(s: Seq<char>, pat: Seq<char>, k: int)
    requires
        0 <= k <= s.len(),
    ensures
        match find_from(s, pat, k) {
            Some(i) => contains_at(s, pat, i) && k <= i && forall|j: int|
                k <= j < i ==> !contains_at(s, pat, j),
            None => forall|j: int| k <= j ==> !contains_at(s, pat, j),
        },
    decreases s.len() - k,
{
    if k + pat.len() > s.len() {
        assert forall|j: int| k <= j implies !contains_at(s, pat, j) by {
            assert(j + pat.len() > s.len());
        }
    } else if s.subrange(k, k + pat.len() as int) == pat {
    } else {
        if pat.len() == 0 {
            assert(s.subrange(k, k) =~= pat);
        }
        lemma_find_from(s, pat, k + 1);
        assert(!contains_at(s, pat, k));
    }
}

/// The leftmost occurrence characterises `find_first`.
pub proof fn lemma_find_first_is(s: Seq<char>, pat: Seq<char>, k: int)
    requires
        is_first_at(s, pat, k),
    ensures
        find_first(s, pat) == Some(k),
{
    lemma_find_from(s, pat, 0);
    match find_from(s, pat, 0) {
        Some(i) => {
            if i < k {
                assert(!contains_at(s, pat, i));
            }
            if k < i {
                assert(!contains_at(s, pat, k));
            }
        },
        None => {
            assert(!contains_at(s, pat, k));
        },
    }
}

/// Absence of any occurrence characterises `find_first == None`.
pub proof fn lemma_find_first_none(s: Seq<char>, pat: Seq<char>)
    requires
        !has_sub(s, pat),
    ensures
        find_first(s, pat) is None,
{
    lemma_find_from(s, pat, 0);
    match find_from(s, pat, 0) {
        Some(i) => {
            assert(contains_at(s, pat, i));
        },
        None => {},
    }
}

// ---------------------------------------------------------------------------
// Executable search
// ---------------------------------------------------------------------------

/// Whether `pat` occurs in `s` at position `k`.
pub fn match_at(s: &Vec<char>, pat: &Vec<char>, k: usize) -> (r: bool)
    requires
        k + pat.len() <= s.len(),
    ensures
        r == contains_at(s@, pat@, k as int),
{
    let mut j: usize = 0;
    while j < pat.len()
        invariant
            0 <= j <= pat.len(),
            k + pat.len() <= s.len(),
            forall|t: int| 0 <= t < j ==> s@[k + t] == pat@[t],
        decreases pat.len() - j,
    {
        if s[k + j] != pat[j] {
            assert(s@.subrange(k as int, k + pat.len() as int)[j as int] != pat@[j as int]);
            return false;
        }
        j += 1;
    }
    assert(s@.subrange(k as int, k + pat.len() as int) =~= pat@);
    true
}

/// Leftmost occurrence of `pat` in `s` at or after position `from`.
pub fn find_sub_from(s: &Vec<char>, pat: &Vec<char>, from: usize) -> (r: Option<usize>)
    requires
        from <= s.len(),
    ensures
        match r {
            Some(i) => from <= i && contains_at(s@, pat@, i as int) && forall|j: int|
                from <= j < i ==> !contains_at(s@, pat@, j),
            None => forall|j: int| from <= j ==> !contains_at(s@, pat@, j),
        },
{
    if pat.len() > s.len() {
        assert forall|j: int| from <= j implies !contains_at(s@, pat@, j) by {
            assert(j + pat@.len() > s@.len());
        }
        return None;
    }
    if pat.len() == 0 {
        assert(s@.subrange(from as int, from as int) =~= pat@);
        return Some(from);
    }
    let last = s.len() - pat.len();
    let mut k: usize = from;
    while k <= last
        invariant
            from <= k,
            1 <= pat.len() <= s.len(),
            last == s.len() - pat.len(),
            forall|j: int| from <= j < k ==> !contains_at(s@, pat@, j),
        decreases last + 1 - k,
    {
        if match_at(s, pat, k) {
            return Some(k);
        }
        k += 1;
    }
    assert forall|j: int| from <= j implies !contains_at(s@, pat@, j) by {
        if j <= last {
            assert(!contains_at(s@, pat@, j));
        } else {
            assert(j + pat@.len() > s@.len());
        }
    }
    None
}

/// Leftmost occurrence of `pat` in `s`.
pub fn find_sub(s: &Vec<char>, pat: &Vec<char>) -> (r: Option<usize>)
    ensures
        match r {
            Some(i) => is_first_at(s@, pat@, i as int),
            None => !has_sub(s@, pat@),
        },
{
    let r = find_sub_from(s, pat, 0);
    proof {
        if r is None {
            assert forall|k: int| !contains_at(s@, pat@, k) by {
                if 0 <= k {
                    assert(!contains_at(s@, pat@, k));
                }
            }
        }
    }
    r
}

/// Whether `pat` occurs anywhere in `s`.
pub fn contains_sub(s: &Vec<char>, pat: &Vec<char>) -> (r: bool)
    ensures
        r == has_sub(s@, pat@),
{
    match find_sub(s, pat) {
        Some(_) => true,
        None => false,
    }
}

// ---------------------------------------------------------------------------
// Small executable building blocks on character vectors
// ---------------------------------------------------------------------------

/// Copy of `s[a..b]`.
pub fn subvec(s: &Vec<char>, a: usize, b: usize) -> (r: Vec<char>)
    requires
        a <= b <= s.len(),
    ensures
        r@ == s@.subrange(a as int, b as int),
{
    let mut out: Vec<char> = Vec::new();
    let mut i: usize = a;
    while i < b
        invariant
            a <= i <= b <= s.len(),
            out@ == s@.subrange(a as int, i as int),
        decreases b - i,
    {
        out.push(s[i]);
        i += 1;
        assert(out@ =~= s@.subrange(a as int, i as int));
    }
    out
}

/// Append all of `src` to `dst`.
pub fn push_all(dst: &mut Vec<char>, src: &Vec<char>)
    ensures
        final(dst)@ == old(dst)@ + src@,
{
    let mut i: usize = 0;
    while i < src.len()
        invariant
            0 <= i <= src.len(),
            dst@ == old(dst)@ + src@.subrange(0, i as int),
        decreases src.len() - i,
    {
        dst.push(src[i]);
        i += 1;
        assert(dst@ =~= old(dst)@ + src@.subrange(0, i as int));
    }
    assert(dst@ =~= old(dst)@ + src@);
}

/// Whether the two vectors hold the same characters.
pub fn chars_eq(a: &Vec<char>, b: &Vec<char>) -> (r: bool)
    ensures
        r == (a@ == b@),
{
    if a.len() != b.len() {
        return false;
    }
    if match_at(a, b, 0) {
        assert(a@.subrange(0, a@.len() as int) =~= a@);
        true
    } else {
        assert(a@.subrange(0, a@.len() as int) =~= a@);
        false
    }
}

/// Whether `s` begins with `pre`.
pub fn starts_with_chars(s: &Vec<char>, pre: &Vec<char>) -> (r: bool)
    ensures
        r == starts_with(s@, pre@),
{
    if pre.len() > s.len() {
        return false;
    }
    match_at(s, pre, 0)
}

/// Whether `s` ends with `suf`.
pub fn ends_with_chars(s: &Vec<char>, suf: &Vec<char>) -> (r: bool)
    ensures
        r == ends_with(s@, suf@),
{
    if suf.len() > s.len() {
        return false;
    }
    let r = match_at(s, suf, s.len() - suf.len());
    assert(s@.subrange(s@.len() - suf@.len(), s@.len() as int) =~= s@.skip(s@.len() - suf@.len()));
    r
}

/// `s` begins with `pre`.
pub open spec fn starts_with(s: Seq<char>, pre: Seq<char>) -> bool {
    pre.len() <= s.len() && s.subrange(0, pre.len() as int) == pre
}

/// `s` ends with `suf`.
pub open spec fn ends_with(s: Seq<char>, suf: Seq<char>) -> bool {
    suf.len() <= s.len() && s.skip(s.len() - suf.len()) == suf
}

// ---------------------------------------------------------------------------
// Conversions between strings and character vectors
// ---------------------------------------------------------------------------

/// The characters of `s` as a vector.
pub fn chars_of(s: &str) -> (r: Vec<char>)
    ensures
        r@ == s@,
{
    let n = s.unicode_len();
    let mut out: Vec<char> = Vec::new();
    let mut i: usize = 0;
    while i < n
        invariant
            0 <= i <= n,
            n == s@.len(),
            out@ == s@.subrange(0, i as int),
        decreases n - i,
    {
        out.push(s.get_char(i));
        i += 1;
        assert(out@ =~= s@.subrange(0, i as int));
    }
    assert(out@ =~= s@);
    out
}

/// Relies on `String::from_iter` over `Vec<char>`: the resulting string is
/// exactly the given characters, in order.
#[verifier::external_body]
pub(crate) fn string_from_chars(v: Vec<char>) -> (r: String)
    ensures
        r@ == v@,
{
    String::from_iter(v)
}

} // verus!

verus! {

// ---------------------------------------------------------------------------
// Whitespace trimming
// ---------------------------------------------------------------------------

/// The characters the standard library treats as whitespace
/// (the Unicode `White_Space` property).
pub open spec fn is_space(c: char) -> bool {
    c == ' ' || c == '\t' || c == '\n' || c == '\r' || c == '\u{b}' || c == '\u{c}'
        || c == '\u{85}' || c == '\u{a0}' || c == '\u{1680}' || c == '\u{2000}'
        || c == '\u{2001}' || c == '\u{2002}' || c == '\u{2003}' || c == '\u{2004}'
        || c == '\u{2005}' || c == '\u{2006}' || c == '\u{2007}' || c == '\u{2008}'
        || c == '\u{2009}' || c == '\u{200a}' || c == '\u{2028}' || c == '\u{2029}'
        || c == '\u{202f}' || c == '\u{205f}' || c == '\u{3000}'
}

/// `s` without its leading whitespace.
pub open spec fn trim_start_spec(s: Seq<char>) -> Seq<char>
    decreases s.len(),
{
    if s.len() > 0 && is_space(s[0]) {
        trim_start_spec(s.skip(1))
    } else {
        s
    }
}

/// `s` without its trailing whitespace.
pub open spec fn trim_end_spec(s: Seq<char>) -> Seq<char>
    decreases s.len(),
{
    if s.len() > 0 && is_space(s.last()) {
        trim_end_spec(s.take(s.len() - 1))
    } else {
        s
    }
}

/// `s` without leading and trailing whitespace.
pub open spec fn trimmed(s: Seq<char>) -> Seq<char> {
    trim_end_spec(trim_start_spec(s))
}

/// Whether `c` is whitespace.
pub fn is_space_char(c: char) -> (r: bool)
    ensures
        r == is_space(c),
{
    c == ' ' || c == '\t' || c == '\n' || c == '\r' || c == '\u{b}' || c == '\u{c}'
        || c == '\u{85}' || c == '\u{a0}' || c == '\u{1680}' || c == '\u{2000}'
        || c == '\u{2001}' || c == '\u{2002}' || c == '\u{2003}' || c == '\u{2004}'
        || c == '\u{2005}' || c == '\u{2006}' || c == '\u{2007}' || c == '\u{2008}'
        || c == '\u{2009}' || c == '\u{200a}' || c == '\u{2028}' || c == '\u{2029}'
        || c == '\u{202f}' || c == '\u{205f}' || c == '\u{3000}'
}

proof fn lemma_trim_start_at(s: Seq<char>, a: int)
    requires
        0 <= a <= s.len(),
        forall|j: int| 0 <= j < a ==> is_space(s[j]),
        a < s.len() ==> !is_space(s[a]),
    ensures
        trim_start_spec(s) == s.skip(a),
    decreases a,
{
    if a == 0 {
        assert(s.skip(0) =~= s);
    } else {
        assert(is_space(s[0]));
        lemma_trim_start_at(s.skip(1), a - 1);
        assert(s.skip(1).skip(a - 1) =~= s.skip(a));
    }
}

proof fn lemma_trim_end_at(s: Seq<char>, b: int)
    requires
        0 <= b <= s.len(),
        forall|j: int| b <= j < s.len() ==> is_space(s[j]),
        b > 0 ==> !is_space(s[b - 1]),
    ensures
        trim_end_spec(s) == s.take(b),
    decreases s.len(),
{
    if b == s.len() {
        if s.len() > 0 && is_space(s.last()) {
            assert(false);
        }
        assert(s.take(b) =~= s);
    } else {
        assert(is_space(s.last()));
        lemma_trim_end_at(s.take(s.len() - 1), b);
        assert(s.take(s.len() - 1).take(b) =~= s.take(b));
    }
}

/// `v` without leading and trailing whitespace.
pub fn trim_chars(v: &Vec<char>) -> (r: Vec<char>)
    ensures
        r@ == trimmed(v@),
{
    let n = v.len();
    let mut a: usize = 0;
    while a < n && is_space_char(v[a])
        invariant
            0 <= a <= n,
            n == v.len(),
            forall|j: int| 0 <= j < a ==> is_space(v@[j]),
        decreases n - a,
    {
        a += 1;
    }
    proof {
        lemma_trim_start_at(v@, a as int);
    }
    let mut b: usize = n;
    while b > a && is_space_char(v[b - 1])
        invariant
            a <= b <= n,
            n == v.len(),
            forall|j: int| b <= j < n ==> is_space(v@[j]),
        decreases b,
    {
        b -= 1;
    }
    proof {
        let t = v@.skip(a as int);
        assert forall|j: int| b - a <= j < t.len() implies is_space(t[j]) by {
            assert(t[j] == v@[j + a]);
        }
        if b > a {
            assert(t[b - a - 1] == v@[b as int - 1]);
        }
        lemma_trim_end_at(t, b - a);
        assert(t.take(b - a) =~= v@.subrange(a as int, b as int));
    }
    subvec(v, a, b)
}

/// Trimming cannot create an occurrence that was not in `s`.
pub proof fn lemma_has_sub_trimmed(s: Seq<char>, pat: Seq<char>)
    requires
        !has_sub(s, pat),
    ensures
        !has_sub(trimmed(s), pat),
{
    lemma_has_sub_trim_start(s, pat);
    lemma_has_sub_trim_end(trim_start_spec(s), pat);
}

proof fn lemma_has_sub_trim_start(s: Seq<char>, pat: Seq<char>)
    requires
        !has_sub(s, pat),
    ensures
        !has_sub(trim_start_spec(s), pat),
    decreases s.len(),
{
    if s.len() > 0 && is_space(s[0]) {
        assert forall|k: int| !(#[trigger] contains_at(s.skip(1), pat, k)) by {
            if contains_at(s.skip(1), pat, k) {
                assert(s.skip(1).subrange(k, k + pat.len() as int)
                    =~= s.subrange(k + 1, k + 1 + pat.len() as int));
                assert(contains_at(s, pat, k + 1));
            }
        }
        lemma_has_sub_trim_start(s.skip(1), pat);
    }
}

proof fn lemma_has_sub_trim_end(s: Seq<char>, pat: Seq<char>)
    requires
        !has_sub(s, pat),
    ensures
        !has_sub(trim_end_spec(s), pat),
    decreases s.len(),
{
    if s.len() > 0 && is_space(s.last()) {
        assert forall|k: int| !(#[trigger] contains_at(s.take(s.len() - 1), pat, k)) by {
            if contains_at(s.take(s.len() - 1), pat, k) {
                assert(s.take(s.len() - 1).subrange(k, k + pat.len() as int)
                    =~= s.subrange(k, k + pat.len() as int));
                assert(contains_at(s, pat, k));
            }
        }
        lemma_has_sub_trim_end(s.take(s.len() - 1), pat);
    }
}

proof fn lemma_trim_start_no_leading(s: Seq<char>)
    ensures
        trim_start_spec(s).len() > 0 ==> !is_space(trim_start_spec(s)[0]),
    decreases s.len(),
{
    if s.len() > 0 && is_space(s[0]) {
        lemma_trim_start_no_leading(s.skip(1));
    }
}

proof fn lemma_trim_end_no_trailing(s: Seq<char>)
    ensures
        trim_end_spec(s).len() > 0 ==> !is_space(trim_end_spec(s).last()),
    decreases s.len(),
{
    if s.len() > 0 && is_space(s.last()) {
        lemma_trim_end_no_trailing(s.take(s.len() - 1));
    }
}

proof fn lemma_trim_end_is_prefix(s: Seq<char>)
    ensures
        trim_end_spec(s).len() <= s.len(),
        forall|i: int| 0 <= i < trim_end_spec(s).len() ==> trim_end_spec(s)[i] == s[i],
    decreases s.len(),
{
    if s.len() > 0 && is_space(s.last()) {
        lemma_trim_end_is_prefix(s.take(s.len() - 1));
        assert forall|i: int| 0 <= i < trim_end_spec(s).len() implies trim_end_spec(s)[i]
            == s[i] by {
            assert(trim_end_spec(s) == trim_end_spec(s.take(s.len() - 1)));
            assert(trim_end_spec(s.take(s.len() - 1))[i] == s.take(s.len() - 1)[i]);
            assert(s.take(s.len() - 1)[i] == s[i]);
        }
    }
}

/// Trimming an already trimmed sequence changes nothing.
pub proof fn lemma_trimmed_idempotent(s: Seq<char>)
    ensures
        trimmed(trimmed(s)) == trimmed(s),
{
    let t = trim_start_spec(s);
    let u = trim_end_spec(t);
    lemma_trim_start_no_leading(s);
    lemma_trim_end_is_prefix(t);
    lemma_trim_end_no_trailing(t);
    if u.len() > 0 {
        assert(u[0] == t[0]);
    }
    assert(trim_start_spec(u) == u);
    assert(trim_end_spec(u) == u);
}

/// Leading newlines disappear under trimming.
pub proof fn lemma_trimmed_drop_leading_newlines(x: Seq<char>)
    ensures
        trimmed(seq!['\n', '\n'] + x) == trimmed(x),
{
    let s = seq!['\n', '\n'] + x;
    let s1 = seq!['\n'] + x;
    assert(s.len() > 0 && is_space(s[0]));
    assert(trim_start_spec(s) == trim_start_spec(s.skip(1)));
    assert(s.skip(1) =~= s1);
    assert(s1.len() > 0 && is_space(s1[0]));
    assert(trim_start_spec(s1) == trim_start_spec(s1.skip(1)));
    assert(s1.skip(1) =~= x);
    assert(trim_start_spec(s) == trim_start_spec(x));
}

} // verus!

verus! {

// ---------------------------------------------------------------------------
// Line splitting
// ---------------------------------------------------------------------------

/// `l` without one trailing carriage return, if any.
pub open spec fn strip_cr(l: Seq<char>) -> Seq<char> {
    if l.len() > 0 && l.last() == '\r' {
        l.take(l.len() - 1)
    } else {
        l
    }
}

/// The lines of `s`, split at line feeds, each without a trailing carriage
/// return; a trailing line terminator produces no final empty line.
pub open spec fn lines_of(s: Seq<char>) -> Seq<Seq<char>>
    decreases s.len(),
{
    if s.len() == 0 {
        Seq::empty()
    } else {
        match find_first(s, seq!['\n']) {
            None => seq![s],
            Some(i) => if 0 <= i < s.len() {
                seq![strip_cr(s.take(i))] + lines_of(s.skip(i + 1))
            } else {
                seq![s]
            },
        }
    }
}

/// The lines of `v`, as `lines_of` describes them.
pub fn split_lines(v: &Vec<char>) -> (r: Vec<Vec<char>>)
    ensures
        r.deep_view() == lines_of(v@),
{
    let nl: Vec<char> = vec!['\n'];
    proof {
        assert(nl@ =~= seq!['\n']);
    }
    let mut out: Vec<Vec<char>> = Vec::new();
    let mut rest: Vec<char> = subvec(v, 0, v.len());
    proof {
        assert(v@.subrange(0, v@.len() as int) =~= v@);
    }
    loop
        invariant
            nl@ == seq!['\n'],
            lines_of(v@) == out.deep_view() + lines_of(rest@),
        ensures
            lines_of(v@) == out.deep_view(),
        decreases rest.len(),
    {
        if rest.len() == 0 {
            proof {
                assert(lines_of(rest@) =~= Seq::<Seq<char>>::empty());
                assert(lines_of(v@) =~= out.deep_view());
            }
            break;
        }
        let ghost out0 = out.deep_view();
        match find_sub(&rest, &nl) {
            None => {
                proof {
                    lemma_find_first_none(rest@, nl@);
                    assert(lines_of(rest@) == seq![rest@]);
                }
                let ghost restv = rest@;
                let whole = subvec(&rest, 0, rest.len());
                proof {
                    assert(whole@ =~= restv);
                }
                out.push(whole);
                proof {
                    assert(out.deep_view() =~~= out0 + seq![restv]);
                    assert(lines_of(v@) =~= out.deep_view());
                }
                return out;
            },
            Some(i) => {
                proof {
                    lemma_find_first_is(rest@, nl@, i as int);
                }
                let mut line = subvec(&rest, 0, i);
                if line.len() > 0 && line[line.len() - 1] == '\r' {
                    let shorter = subvec(&line, 0, line.len() - 1);
                    proof {
                        assert(line@.last() == '\r');
                        assert(shorter@ =~= strip_cr(rest@.take(i as int)));
                    }
                    line = shorter;
                } else {
                    proof {
                        assert(line@ =~= strip_cr(rest@.take(i as int)));
                    }
                }
                let ghost linev = line@;
                out.push(line);
                let new_rest = subvec(&rest, i + 1, rest.len());
                proof {
                    assert(new_rest@ =~= rest@.skip(i + 1));
                    assert(lines_of(rest@) == seq![strip_cr(rest@.take(i as int))]
                        + lines_of(rest@.skip(i + 1)));
                    assert(out.deep_view() =~~= out0 + seq![linev]);
                    assert(out.deep_view() + lines_of(new_rest@)
                        =~= out0 + lines_of(rest@));
                }
                rest = new_rest;
            },
        }
    }
    out
}

// ---------------------------------------------------------------------------
// Replacement of a non-empty pattern, leftmost first, non-overlapping
// ---------------------------------------------------------------------------

/// `s` with every occurrence of `from` replaced by `to`, scanning left to
/// right and never rescanning replaced text, as the standard string
/// replacement does.
pub open spec fn replaced(s: Seq<char>, from: Seq<char>, to: Seq<char>) -> Seq<char>
    decreases s.len(),
{
    if from.len() == 0 || s.len() < from.len() {
        s
    } else if s.take(from.len() as int) == from {
        to + replaced(s.skip(from.len() as int), from, to)
    } else {
        seq![s[0]] + replaced(s.skip(1), from, to)
    }
}

/// `pat` holds the character `c` somewhere.
pub open spec fn seq_has_char(s: Seq<char>, c: char) -> bool {
    exists|k: int| 0 <= k < s.len() && s[k] == c
}

/// `pat` is shaped like a placeholder token: percent signs at both ends.
pub open spec fn token_shaped(pat: Seq<char>) -> bool {
    pat.len() >= 2 && pat.first() == '%' && pat.last() == '%'
}

/// Replacing `from` by `to` can neither keep nor create an occurrence of
/// the token `pat`: the token is the pattern being replaced, or was absent
/// from the input, and the replacement text is percent-free and no part of
/// the token.
pub open spec fn wipes_token(pat: Seq<char>, s: Seq<char>, from: Seq<char>, to: Seq<char>) -> bool {
    token_shaped(pat) && !seq_has_char(to, '%') && !has_sub(pat, to) && (pat == from || !has_sub(
        s,
        pat,
    ))
}

/// `q` is a suffix of `s`.
pub open spec fn tail_is(s: Seq<char>, q: Seq<char>) -> bool {
    q.len() <= s.len() && s.skip(s.len() - q.len()) == q
}

/// `v` with every occurrence of `from` replaced by `to`.  Tokens satisfying
/// `wipes_token` are guaranteed absent from the result.
pub fn replace_all(v: &Vec<char>, from: &Vec<char>, to: &Vec<char>) -> (r: Vec<char>)
    requires
        from.len() >= 1,
    ensures
        r@ == replaced(v@, from@, to@),
        forall|pat: Seq<char>|
            wipes_token(pat, v@, from@, to@) ==> !(#[trigger] has_sub(r@, pat)),
{
    let n = v.len();
    let fl = from.len();
    let mut out: Vec<char> = Vec::new();
    let mut i: usize = 0;
    proof {
        assert(v@.skip(0) =~= v@);
    }
    while i < n
        invariant
            0 <= i <= n,
            n == v.len(),
            fl == from.len(),
            1 <= fl,
            replaced(v@, from@, to@) == out@ + replaced(v@.skip(i as int), from@, to@),
            forall|pat: Seq<char>|
                wipes_token(pat, v@, from@, to@) ==> !(#[trigger] has_sub(out@, pat)),
            forall|pat: Seq<char>, j: int|
                wipes_token(pat, v@, from@, to@) && 1 <= j < pat.len() && #[trigger] tail_is(
                    out@,
                    pat.take(j),
                ) ==> j <= i && out@.skip(out@.len() - j) == v@.subrange(i - j, i as int) && (pat
                    == from@ ==> !contains_at(v@, from@, i - j)),
        decreases n - i,
    {
        let ghost pre = out@;
        let ghost i0 = i as int;
        let ghost rest = v@.skip(i as int);
        proof {
            assert(forall|pat: Seq<char>|
                wipes_token(pat, v@, from@, to@) ==> !(#[trigger] has_sub(pre, pat)));
            assert(forall|pat: Seq<char>, j: int|
                wipes_token(pat, v@, from@, to@) && 1 <= j < pat.len() && #[trigger] tail_is(
                    pre,
                    pat.take(j),
                ) ==> j <= i0 && pre.skip(pre.len() - j) == v@.subrange(i0 - j, i0) && (pat
                    == from@ ==> !contains_at(v@, from@, i0 - j)));
        }
        if fl <= n - i && match_at(v, from, i) {
            proof {
                assert(rest.take(fl as int) =~= v@.subrange(i as int, i + fl));
                assert(replaced(rest, from@, to@) == to@ + replaced(
                    rest.skip(fl as int),
                    from@,
                    to@,
                ));
                assert(rest.skip(fl as int) =~= v@.skip(i + fl));
            }
            push_all(&mut out, to);
            i += fl;
            proof {
                assert(out@ + replaced(v@.skip(i as int), from@, to@) =~= pre + replaced(
                    rest,
                    from@,
                    to@,
                ));
                let tl = to@.len() as int;
                assert forall|pat: Seq<char>, j: int|
                    wipes_token(pat, v@, from@, to@) && 1 <= j < pat.len() && #[trigger] tail_is(
                        out@,
                        pat.take(j),
                    ) implies j <= i && out@.skip(out@.len() - j) == v@.subrange(i - j, i as int)
                    && (pat == from@ ==> !contains_at(v@, from@, i - j)) by {
                    if tl == 0 {
                        assert(pat.subrange(0, 0) =~= to@);
                        assert(contains_at(pat, to@, 0));
                        assert(false);
                    } else if j <= tl {
                        assert(out@.skip(out@.len() - j)[0] == pat.take(j)[0]);
                        assert(out@[out@.len() - j] == to@[tl - j]);
                        assert(pat.take(j)[0] == pat[0]);
                        assert(to@[tl - j] == '%');
                        assert(seq_has_char(to@, '%'));
                        assert(false);
                    } else {
                        assert forall|u: int| 0 <= u < tl implies #[trigger] (pat.subrange(
                            j - tl,
                            j,
                        )[u]) == to@[u] by {
                            assert(pat.take(j)[j - tl + u] == out@.skip(out@.len() - j)[j - tl
                                + u]);
                            assert(out@[out@.len() - tl + u] == to@[u]);
                        }
                        assert(pat.subrange(j - tl, j) =~= to@);
                        assert(contains_at(pat, to@, j - tl));
                        assert(false);
                    }
                }
                assert forall|pat: Seq<char>|
                    wipes_token(pat, v@, from@, to@) implies !(#[trigger] has_sub(out@, pat)) by {
                    if has_sub(out@, pat) {
                        let k = choose|k: int| contains_at(out@, pat, k);
                        if k + pat.len() <= pre.len() {
                            assert(out@.subrange(k, k + pat.len() as int) =~= pre.subrange(
                                k,
                                k + pat.len() as int,
                            ));
                            assert(contains_at(pre, pat, k));
                            assert(has_sub(pre, pat));
                            assert(false);
                        } else {
                            let m = k + pat.len() - 1;
                            assert(out@.subrange(k, k + pat.len() as int)[pat.len() - 1]
                                == pat.last());
                            assert(out@[m] == pat.last());
                            assert(out@[m] == to@[m - pre.len()]);
                            assert(seq_has_char(to@, '%'));
                            assert(false);
                        }
                    }
                }
            }
        } else {
            proof {
                assert(!contains_at(v@, from@, i as int)) by {
                    if fl <= n - i {
                    } else {
                        assert(i + from@.len() > v@.len());
                    }
                }
                if rest.len() >= fl && rest.take(fl as int) == from@ {
                    assert(rest.take(fl as int) =~= v@.subrange(i as int, i + fl));
                    assert(contains_at(v@, from@, i as int));
                    assert(false);
                }
                if rest.len() >= fl {
                    assert(replaced(rest, from@, to@) == seq![rest[0]] + replaced(
                        rest.skip(1),
                        from@,
                        to@,
                    ));
                } else {
                    assert(replaced(rest, from@, to@) == rest);
                    assert(rest =~= seq![rest[0]] + rest.skip(1));
                    assert(replaced(rest.skip(1), from@, to@) == rest.skip(1));
                }
                assert(rest[0] == v@[i as int]);
                assert(rest.skip(1) =~= v@.skip(i + 1));
            }
            out.push(v[i]);
            i += 1;
            proof {
                assert(out@ + replaced(v@.skip(i as int), from@, to@) =~= pre + replaced(
                    rest,
                    from@,
                    to@,
                ));
                assert(out@ == pre.push(v@[i0]));
                assert forall|pat: Seq<char>, j: int|
                    wipes_token(pat, v@, from@, to@) && 1 <= j < pat.len() && #[trigger] tail_is(
                        out@,
                        pat.take(j),
                    ) implies j <= i && out@.skip(out@.len() - j) == v@.subrange(i - j, i as int)
                    && (pat == from@ ==> !contains_at(v@, from@, i - j)) by {
                    assert(pat.take(j).len() == j);
                    assert(out@.skip(out@.len() - j)[j - 1] == pat.take(j)[j - 1]);
                    assert(out@[out@.len() - 1] == v@[i0]);
                    assert(v@[i0] == pat[j - 1]);
                    if j == 1 {
                        assert(out@.skip(out@.len() - 1) =~= v@.subrange(i - 1, i as int));
                        if pat == from@ {
                            assert(!contains_at(v@, from@, i - 1));
                        }
                    } else {
                        assert forall|u: int| 0 <= u < j - 1 implies #[trigger] (pre.skip(
                            pre.len() - (j - 1),
                        )[u]) == pat.take(j - 1)[u] by {
                            assert(pre[pre.len() - (j - 1) + u] == out@[out@.len() - j + u]);
                            assert(out@.skip(out@.len() - j)[u] == pat.take(j)[u]);
                        }
                        assert(pre.skip(pre.len() - (j - 1)) =~= pat.take(j - 1));
                        assert(tail_is(pre, pat.take(j - 1)));
                        assert(j - 1 <= i0);
                        assert(pre.skip(pre.len() - (j - 1)) == v@.subrange(i0 - (j - 1), i0));
                        assert forall|u: int| 0 <= u < j implies #[trigger] (out@.skip(
                            out@.len() - j,
                        )[u]) == v@.subrange(i - j, i as int)[u] by {
                            if u < j - 1 {
                                assert(out@[out@.len() - j + u] == pre[pre.len() - (j - 1) + u]);
                                assert(pre.skip(pre.len() - (j - 1))[u] == v@.subrange(
                                    i0 - (j - 1),
                                    i0,
                                )[u]);
                            } else {
                                assert(out@[out@.len() - 1] == v@[i0]);
                            }
                        }
                        assert(out@.skip(out@.len() - j) =~= v@.subrange(i - j, i as int));
                    }
                }
                assert forall|pat: Seq<char>|
                    wipes_token(pat, v@, from@, to@) implies !(#[trigger] has_sub(out@, pat)) by {
                    if has_sub(out@, pat) {
                        let k = choose|k: int| contains_at(out@, pat, k);
                        if k + pat.len() <= pre.len() {
                            assert(out@.subrange(k, k + pat.len() as int) =~= pre.subrange(
                                k,
                                k + pat.len() as int,
                            ));
                            assert(contains_at(pre, pat, k));
                            assert(has_sub(pre, pat));
                            assert(false);
                        } else {
                            let pl = pat.len() as int;
                            assert(k + pl == out@.len());
                            assert forall|u: int| 0 <= u < pl - 1 implies #[trigger] (pre.skip(
                                pre.len() - (pl - 1),
                            )[u]) == pat.take(pl - 1)[u] by {
                                assert(pre[pre.len() - (pl - 1) + u] == out@[k + u]);
                                assert(out@.subrange(k, k + pl)[u] == pat[u]);
                            }
                            assert(pre.skip(pre.len() - (pl - 1)) =~= pat.take(pl - 1));
                            assert(tail_is(pre, pat.take(pl - 1)));
                            assert(pl - 1 <= i0);
                            assert(pre.skip(pre.len() - (pl - 1)) == v@.subrange(i0 - (pl - 1), i0));
                            assert(out@.subrange(k, k + pl)[pl - 1] == pat[pl - 1]);
                            assert(out@[out@.len() - 1] == v@[i0]);
                            assert forall|u: int| 0 <= u < pl implies #[trigger] (v@.subrange(
                                i0 - (pl - 1),
                                i0 + 1,
                            )[u]) == pat[u] by {
                                if u < pl - 1 {
                                    assert(pre.skip(pre.len() - (pl - 1))[u] == v@.subrange(
                                        i0 - (pl - 1),
                                        i0,
                                    )[u]);
                                    assert(pre[pre.len() - (pl - 1) + u] == out@[k + u]);
                                    assert(out@.subrange(k, k + pl)[u] == pat[u]);
                                } else {
                                    assert(v@[i0] == pat[pl - 1]);
                                }
                            }
                            assert(v@.subrange(i0 - (pl - 1), i0 + 1) =~= pat);
                            assert(contains_at(v@, pat, i0 - (pl - 1)));
                            if pat == from@ {
                                assert(!contains_at(v@, from@, i0 - (pl - 1)));
                                assert(false);
                            } else {
                                assert(false);
                            }
                        }
                    }
                }
            }
        }
    }
    proof {
        assert(v@.skip(n as int) =~= Seq::<char>::empty());
        assert(replaced(Seq::<char>::empty(), from@, to@) =~= Seq::<char>::empty());
        assert(out@ =~= replaced(v@, from@, to@));
    }
    out
}


/// Appending percent-free text cannot create an occurrence of a token.
pub proof fn lemma_append_keeps_token_out(a: Seq<char>, b: Seq<char>, pat: Seq<char>)
    requires
        token_shaped(pat),
        !seq_has_char(b, '%'),
        !has_sub(a, pat),
    ensures
        !has_sub(a + b, pat),
{
    assert forall|k: int| !(#[trigger] contains_at(a + b, pat, k)) by {
        if contains_at(a + b, pat, k) {
            if k + pat.len() <= a.len() {
                assert((a + b).subrange(k, k + pat.len() as int) =~= a.subrange(
                    k,
                    k + pat.len() as int,
                ));
                assert(contains_at(a, pat, k));
            } else {
                let m = k + pat.len() - 1;
                assert((a + b).subrange(k, k + pat.len() as int)[pat.len() - 1] == pat.last());
                assert((a + b)[m] == b[m - a.len()]);
                assert(seq_has_char(b, '%'));
            }
        }
    }
}


// ---------------------------------------------------------------------------
// Lowercasing and comment-hash stripping
// ---------------------------------------------------------------------------

/// The lowercase form of a character sequence, as the standard library's
/// Unicode lowercasing produces it.
pub uninterp spec fn lower_of(s: Seq<char>) -> Seq<char>;

/// Relies on `str::to_lowercase`: the result depends on the input
/// characters alone.
#[verifier::external_body]
pub(crate) fn lowercase(s: &str) -> (r: String)
    ensures
        r@ == lower_of(s@),
{
    s.to_lowercase()
}

/// `l` without its leading hash signs.
pub open spec fn strip_hashes(l: Seq<char>) -> Seq<char>
    decreases l.len(),
{
    if l.len() > 0 && l[0] == '#' {
        strip_hashes(l.skip(1))
    } else {
        l
    }
}

proof fn lemma_strip_hashes_at(l: Seq<char>, a: int)
    requires
        0 <= a <= l.len(),
        forall|j: int| 0 <= j < a ==> l[j] == '#',
        a < l.len() ==> l[a] != '#',
    ensures
        strip_hashes(l) == l.skip(a),
    decreases a,
{
    if a == 0 {
        assert(l.skip(0) =~= l);
    } else {
        lemma_strip_hashes_at(l.skip(1), a - 1);
        assert(l.skip(1).skip(a - 1) =~= l.skip(a));
    }
}

/// `v` without its leading hash signs.
pub fn strip_hashes_chars(v: &Vec<char>) -> (r: Vec<char>)
    ensures
        r@ == strip_hashes(v@),
{
    let n = v.len();
    let mut a: usize = 0;
    while a < n && v[a] == '#'
        invariant
            0 <= a <= n,
            n == v.len(),
            forall|j: int| 0 <= j < a ==> v@[j] == '#',
        decreases n - a,
    {
        a += 1;
    }
    proof {
        lemma_strip_hashes_at(v@, a as int);
    }
    subvec(v, a, n)
}


/// A sequence lacking a character holds no single-character pattern of it.
pub proof fn lemma_no_char_no_sub(s: Seq<char>, c: char)
    requires
        !seq_has_char(s, c),
    ensures
        !has_sub(s, seq![c]),
{
    if has_sub(s, seq![c]) {
        let k = choose|k: int| contains_at(s, seq![c], k);
        assert(s.subrange(k, k + 1)[0] == c);
        assert(s[k] == c);
    }
}

/// A non-empty sequence with non-whitespace ends is already trimmed.
pub proof fn lemma_trimmed_nospace_ends(s: Seq<char>)
    requires
        s.len() > 0,
        !is_space(s.first()),
        !is_space(s.last()),
    ensures
        trimmed(s) == s,
{
    lemma_trim_start_at(s, 0);
    assert(s.skip(0) =~= s);
    lemma_trim_end_at(s, s.len() as int);
    assert(s.take(s.len() as int) =~= s);
}

/// A non-empty sequence that trimming leaves alone has non-whitespace
/// ends.
pub proof fn lemma_trimmed_fixpoint_ends(s: Seq<char>)
    requires
        trimmed(s) == s,
        s.len() > 0,
    ensures
        !is_space(s.first()),
        !is_space(s.last()),
{
    let t = trim_start_spec(s);
    lemma_trim_end_is_prefix(t);
    assert(trim_end_spec(t).len() <= t.len());
    lemma_trim_start_len(s);
    assert(t.len() == s.len());
    assert forall|i: int| 0 <= i < s.len() implies t[i] == s[i] by {
        assert(trim_end_spec(t)[i] == t[i]);
    }
    assert(t =~= s);
    lemma_trim_start_no_leading(s);
    lemma_trim_end_no_trailing(t);
}

proof fn lemma_trim_start_len(s: Seq<char>)
    requires
        trim_end_spec(trim_start_spec(s)) == s,
    ensures
        trim_start_spec(s).len() == s.len(),
{
    lemma_trim_start_shorter(s);
    lemma_trim_end_is_prefix(trim_start_spec(s));
}

proof fn lemma_trim_start_shorter(s: Seq<char>)
    ensures
        trim_start_spec(s).len() <= s.len(),
    decreases s.len(),
{
    if s.len() > 0 && is_space(s[0]) {
        lemma_trim_start_shorter(s.skip(1));
    }
}

} // verus!
