//! The computations around the proxy probe and the ipset editor: parsing
//! the remote proxy list, shaping addresses into list entries, and the
//! names the resolver is queried with.

use vstd::prelude::*;

use crate::text::{
    chars_eq, chars_of, find_first, find_sub, lemma_find_first_is, lemma_find_first_none, lines_of,
    push_all, split_lines, string_from_chars, subvec, trim_chars, trimmed,
};

verus! {

/// The proxy-list fetcher's pure side.
pub struct Proxies;

/// One probed proxy: its round-trip time and its country code.
pub struct Proxy {
    /// Milliseconds until the connection was accepted.
    pub ping: u64,
    /// The two-letter country code, or a placeholder when unknown.
    pub country_code: String,
}

/// The lines of the proxy document, each trimmed, the empty ones dropped.
pub open spec fn proxy_lines(ls: Seq<Seq<char>>) -> Seq<Seq<char>>
    decreases ls.len(),
{
    if ls.len() == 0 {
        Seq::empty()
    } else {
        (if trimmed(ls[0]).len() > 0 {
            seq![trimmed(ls[0])]
        } else {
            Seq::<Seq<char>>::empty()
        }) + proxy_lines(ls.drop_first())
    }
}

impl Proxies {
    /// The proxy addresses of the fetched document: its non-empty lines,
    /// trimmed, in order.
    pub fn parse_proxy_list(text: &str) -> (r: Vec<String>)
        ensures
            r.deep_view() == proxy_lines(lines_of(text@)),
    {
        let v = chars_of(text);
        let lines = split_lines(&v);
        let ghost dv = lines.deep_view();
        let mut out: Vec<String> = Vec::new();
        let n = lines.len();
        let mut i: usize = 0;
        proof {
            assert(dv.skip(0) =~= dv);
            assert(out.deep_view() + proxy_lines(dv.skip(0)) =~= proxy_lines(dv));
        }
        while i < n
            invariant
                0 <= i <= n,
                n == lines@.len(),
                dv == lines.deep_view(),
                proxy_lines(dv) == out.deep_view() + proxy_lines(dv.skip(i as int)),
            decreases n - i,
        {
            let ghost pre = out.deep_view();
            let ghost rest = dv.skip(i as int);
            proof {
                assert(rest[0] == lines@[i as int]@);
                assert(rest.drop_first() =~= dv.skip(i + 1));
            }
            let t = trim_chars(&lines[i]);
            if t.len() > 0 {
                out.push(string_from_chars(t));
                proof {
                    assert(out.deep_view() =~~= pre + seq![trimmed(rest[0])]);
                }
            } else {
                proof {
                    assert(out.deep_view() + Seq::<Seq<char>>::empty() =~= pre);
                }
            }
            i += 1;
            proof {
                assert(proxy_lines(dv) =~= out.deep_view() + proxy_lines(dv.skip(i as int)));
            }
        }
        proof {
            assert(dv.skip(n as int) =~= Seq::<Seq<char>>::empty());
            assert(out.deep_view() =~= proxy_lines(dv));
        }
        out
    }
}

/// The digit character of a value below ten.
pub open spec fn digit_char(d: u8) -> char {
    if d == 0 {
        '0'
    } else if d == 1 {
        '1'
    } else if d == 2 {
        '2'
    } else if d == 3 {
        '3'
    } else if d == 4 {
        '4'
    } else if d == 5 {
        '5'
    } else if d == 6 {
        '6'
    } else if d == 7 {
        '7'
    } else if d == 8 {
        '8'
    } else {
        '9'
    }
}

/// The decimal text of a byte, without leading zeroes.
pub open spec fn u8_dec(n: u8) -> Seq<char> {
    if n < 10 {
        seq![digit_char(n)]
    } else if n < 100 {
        seq![digit_char(n / 10), digit_char(n % 10)]
    } else {
        seq![digit_char(n / 100), digit_char((n / 10) % 10), digit_char(n % 10)]
    }
}

fn digit_char_exec(d: u8) -> (r: char)
    requires
        d < 10,
    ensures
        r == digit_char(d),
{
    match d {
        0 => '0',
        1 => '1',
        2 => '2',
        3 => '3',
        4 => '4',
        5 => '5',
        6 => '6',
        7 => '7',
        8 => '8',
        _ => '9',
    }
}

fn push_u8_dec(out: &mut Vec<char>, n: u8)
    ensures
        final(out)@ == old(out)@ + u8_dec(n),
{
    if n < 10 {
        out.push(digit_char_exec(n));
        proof {
            assert(out@ =~= old(out)@ + u8_dec(n));
        }
    } else if n < 100 {
        out.push(digit_char_exec(n / 10));
        out.push(digit_char_exec(n % 10));
        proof {
            assert(out@ =~= old(out)@ + u8_dec(n));
        }
    } else {
        out.push(digit_char_exec(n / 100));
        out.push(digit_char_exec((n / 10) % 10));
        out.push(digit_char_exec(n % 10));
        proof {
            assert(out@ =~= old(out)@ + u8_dec(n));
        }
    }
}

/// The `/24` list entry covering the address whose first three octets are
/// given: the octets in decimal, a zero final octet, and the mask.
pub fn format_subnet(a: u8, b: u8, c: u8) -> (r: String)
    ensures
        r@ == u8_dec(a) + seq!['.'] + u8_dec(b) + seq!['.'] + u8_dec(c) + ".0/24"@,
{
    let mut out: Vec<char> = Vec::new();
    push_u8_dec(&mut out, a);
    out.push('.');
    push_u8_dec(&mut out, b);
    out.push('.');
    push_u8_dec(&mut out, c);
    let tailtext = chars_of(".0/24");
    push_all(&mut out, &tailtext);
    proof {
        assert(out@ =~= u8_dec(a) + seq!['.'] + u8_dec(b) + seq!['.'] + u8_dec(c) + ".0/24"@);
    }
    string_from_chars(out)
}

/// The segments of `s` between dots, empty segments kept.
pub open spec fn dot_segments(s: Seq<char>) -> Seq<Seq<char>>
    decreases s.len(),
{
    match find_first(s, seq!['.']) {
        None => seq![s],
        Some(i) => if 0 <= i < s.len() {
            seq![s.take(i)] + dot_segments(s.skip(i + 1))
        } else {
            seq![s]
        },
    }
}

/// The `/24` list entry derived from a dotted address: the first three of
/// its exactly four dot-separated parts, a zero final octet and the mask.
/// Anything but four parts is rejected with the malformed-address message.
pub fn format_ip_for_list(ip: &str) -> (r: Result<String, String>)
    ensures
        match r {
            Ok(out) => dot_segments(ip@).len() == 4 && out@ == dot_segments(ip@)[0] + seq!['.']
                + dot_segments(ip@)[1] + seq!['.'] + dot_segments(ip@)[2] + ".0/24"@,
            Err(msg) => dot_segments(ip@).len() != 4 && msg@
                == "Некорректный формат IP. Ожидалось x.x.x.x"@,
        },
{
    let v = chars_of(ip);
    let parts = split_dots(&v);
    if parts.len() != 4 {
        return Err(String::from_str("Некорректный формат IP. Ожидалось x.x.x.x"));
    }
    let mut out: Vec<char> = Vec::new();
    push_all(&mut out, &parts[0]);
    out.push('.');
    push_all(&mut out, &parts[1]);
    out.push('.');
    push_all(&mut out, &parts[2]);
    let tailtext = chars_of(".0/24");
    push_all(&mut out, &tailtext);
    proof {
        assert(parts.deep_view()[0] == parts@[0]@);
        assert(parts.deep_view()[1] == parts@[1]@);
        assert(parts.deep_view()[2] == parts@[2]@);
        assert(out@ =~= dot_segments(ip@)[0] + seq!['.'] + dot_segments(ip@)[1] + seq!['.']
            + dot_segments(ip@)[2] + ".0/24"@);
    }
    Ok(string_from_chars(out))
}

fn split_dots(v: &Vec<char>) -> (r: Vec<Vec<char>>)
    ensures
        r.deep_view() == dot_segments(v@),
{
    let dot: Vec<char> = vec!['.'];
    proof {
        assert(dot@ =~= seq!['.']);
    }
    let mut out: Vec<Vec<char>> = Vec::new();
    let mut rest: Vec<char> = subvec(v, 0, v.len());
    proof {
        assert(v@.subrange(0, v@.len() as int) =~= v@);
    }
    loop
        invariant
            dot@ == seq!['.'],
            dot_segments(v@) == out.deep_view() + dot_segments(rest@),
        ensures
            dot_segments(v@) == out.deep_view(),
        decreases rest.len(),
    {
        let ghost out0 = out.deep_view();
        match find_sub(&rest, &dot) {
            None => {
                proof {
                    lemma_find_first_none(rest@, dot@);
                    assert(dot_segments(rest@) == seq![rest@]);
                }
                let ghost restv = rest@;
                let whole = subvec(&rest, 0, rest.len());
                proof {
                    assert(whole@ =~= restv);
                }
                out.push(whole);
                proof {
                    assert(out.deep_view() =~~= out0 + seq![restv]);
                    assert(dot_segments(v@) =~= out.deep_view());
                }
                return out;
            },
            Some(i) => {
                proof {
                    lemma_find_first_is(rest@, dot@, i as int);
                }
                let seg = subvec(&rest, 0, i);
                let ghost segv = seg@;
                out.push(seg);
                let new_rest = subvec(&rest, i + 1, rest.len());
                proof {
                    assert(new_rest@ =~= rest@.skip(i + 1));
                    assert(segv =~= rest@.take(i as int));
                    assert(dot_segments(rest@) == seq![rest@.take(i as int)] + dot_segments(
                        rest@.skip(i + 1),
                    ));
                    assert(out.deep_view() =~~= out0 + seq![segv]);
                    assert(out.deep_view() + dot_segments(new_rest@) =~= out0 + dot_segments(
                        rest@,
                    ));
                }
                rest = new_rest;
            },
        }
    }
}

/// Where a new list entry goes: the named custom file when it exists, the
/// stock catch-all file otherwise, and nowhere for a missing custom name.
#[derive(Clone, Copy, Debug, PartialEq, Eq, Structural)]
pub enum AddIpTarget {
    /// The named file under the custom-configuration directory.
    CustomConfig,
    /// The catch-all ipset under the default lists directory.
    DefaultLists,
}

/// Resolve the file a new entry is appended to.  Only the catch-all name
/// may fall back to the default lists directory; any other missing file is
/// reported.
pub fn add_ip_target(file_name: &str, exists_in_configs: bool) -> (r: Result<
    AddIpTarget,
    String,
>)
    ensures
        exists_in_configs ==> r == Ok::<AddIpTarget, String>(AddIpTarget::CustomConfig),
        !exists_in_configs && file_name@ == "ipset-all.txt"@ ==> r == Ok::<
            AddIpTarget,
            String,
        >(AddIpTarget::DefaultLists),
        !exists_in_configs && file_name@ != "ipset-all.txt"@ ==> r is Err && r->Err_0@ == "Файл "@
            + file_name@ + " не найден"@,
{
    if exists_in_configs {
        return Ok(AddIpTarget::CustomConfig);
    }
    let name = chars_of(file_name);
    let all = chars_of("ipset-all.txt");
    if chars_eq(&name, &all) {
        Ok(AddIpTarget::DefaultLists)
    } else {
        let mut msg = chars_of("Файл ");
        push_all(&mut msg, &name);
        let tailtext = chars_of(" не найден");
        push_all(&mut msg, &tailtext);
        proof {
            assert(msg@ =~= "Файл "@ + file_name@ + " не найден"@);
        }
        Err(string_from_chars(msg))
    }
}

/// The service-record name queried before a host is resolved.
pub fn srv_query_name(host: &str) -> (r: String)
    ensures
        r@ == "_minecraft._tcp."@ + host@,
{
    let mut out = chars_of("_minecraft._tcp.");
    let h = chars_of(host);
    push_all(&mut out, &h);
    proof {
        assert(out@ =~= "_minecraft._tcp."@ + host@);
    }
    string_from_chars(out)
}

/// `s` without its trailing dots.
pub open spec fn without_trailing_dots(s: Seq<char>) -> Seq<char>
    decreases s.len(),
{
    if s.len() > 0 && s.last() == '.' {
        without_trailing_dots(s.take(s.len() - 1))
    } else {
        s
    }
}

/// The resolver's target with its trailing dots removed.
pub fn strip_trailing_dots(s: &str) -> (r: String)
    ensures
        r@ == without_trailing_dots(s@),
{
    let v = chars_of(s);
    let n = v.len();
    let mut b: usize = n;
    proof {
        assert(v@.take(n as int) =~= v@);
    }
    while b > 0 && v[b - 1] == '.'
        invariant
            0 <= b <= n,
            n == v@.len(),
            without_trailing_dots(v@) == without_trailing_dots(v@.take(b as int)),
        decreases b,
    {
        proof {
            assert(v@.take(b as int).last() == '.');
            assert(v@.take(b as int).take(b - 1int) =~= v@.take(b - 1int));
        }
        b -= 1;
    }
    proof {
        if b > 0 {
            assert(v@.take(b as int).last() == v@[b - 1int]);
        }
        assert(without_trailing_dots(v@.take(b as int)) == v@.take(b as int));
        assert(v@.take(b as int) =~= v@.subrange(0, b as int));
    }
    string_from_chars(subvec(&v, 0, b))
}

} // verus!
