//! Decoding of the proxy specification that a script returns, such as
//! `"PROXY 10.0.0.1:3128; SOCKS5 gw:1080; DIRECT"`.
use vstd::prelude::*;
use vstd::string::*;
use crate::text::{chars_of, find_char, has_prefix, index_of, lemma_index_of_bounds, starts_with, trim, trim_range};
use crate::types::{entries_view, EntryModel, Error, ProxyEntry, ProxyType};

verus! {

/// The token that introduces a directive of type `t`.
pub open spec fn token(t: ProxyType) -> Seq<char> {
    match t {
        ProxyType::Proxy => seq!['P', 'R', 'O', 'X', 'Y'],
        ProxyType::Socks => seq!['S', 'O', 'C', 'K', 'S'],
        ProxyType::Http => seq!['H', 'T', 'T', 'P'],
        ProxyType::Https => seq!['H', 'T', 'T', 'P', 'S'],
        ProxyType::Socks4 => seq!['S', 'O', 'C', 'K', 'S', '4'],
        ProxyType::Socks5 => seq!['S', 'O', 'C', 'K', 'S', '5'],
    }
}

pub open spec fn direct_token() -> Seq<char> {
    seq!['D', 'I', 'R', 'E', 'C', 'T']
}

/// The type whose token begins `p`. Where one token is a prefix of another
/// (`SOCKS` of `SOCKS4` and `SOCKS5`, `HTTP` of `HTTPS`), the longer one wins.
pub open spec fn leading_type(p: Seq<char>) -> Option<ProxyType> {
    if starts_with(p, token(ProxyType::Socks4)) {
        Some(ProxyType::Socks4)
    } else if starts_with(p, token(ProxyType::Socks5)) {
        Some(ProxyType::Socks5)
    } else if starts_with(p, token(ProxyType::Https)) {
        Some(ProxyType::Https)
    } else if starts_with(p, token(ProxyType::Proxy)) {
        Some(ProxyType::Proxy)
    } else if starts_with(p, token(ProxyType::Socks)) {
        Some(ProxyType::Socks)
    } else if starts_with(p, token(ProxyType::Http)) {
        Some(ProxyType::Http)
    } else {
        None
    }
}

/// One `;`-separated segment: its entry, or the reason it is malformed.
pub open spec fn decode_segment(seg: Seq<char>) -> Result<EntryModel, Seq<char>> {
    let p = trim(seg);
    if starts_with(p, direct_token()) {
        if p == direct_token() {
            Ok(EntryModel::Direct)
        } else {
            Err("DIRECT with trailing content"@)
        }
    } else {
        match leading_type(p) {
            None => Err("No type matched"@),
            Some(t) => {
                let rest = trim(p.subrange(token(t).len() as int, p.len() as int));
                match index_of(rest, ':') {
                    None => Err("No colon in entry"@),
                    Some(k) => Ok(
                        EntryModel::Proxied {
                            ty: t,
                            host: rest.subrange(0, k),
                            port: rest.subrange(k + 1, rest.len() as int),
                        },
                    ),
                }
            },
        }
    }
}

/// A whole specification: the entries of its segments in order, or the reason
/// of the first malformed segment.
pub open spec fn decode_model(s: Seq<char>) -> Result<Seq<EntryModel>, Seq<char>>
    decreases s.len(),
    via decode_model_decreases
{
    match index_of(s, ';') {
        None => match decode_segment(s) {
            Ok(e) => Ok(seq![e]),
            Err(m) => Err(m),
        },
        Some(i) => match decode_segment(s.subrange(0, i)) {
            Err(m) => Err(m),
            Ok(e) => match decode_model(s.subrange(i + 1, s.len() as int)) {
                Ok(rest) => Ok(seq![e] + rest),
                Err(m) => Err(m),
            },
        },
    }
}

#[via_fn]
proof fn decode_model_decreases(s: Seq<char>) {
    lemma_index_of_bounds(s, ';');
}

/// A segment whose trimmed text begins with `SOCKS4` or `SOCKS5` decodes, when
/// it decodes at all, to that versioned type and never to the generic `SOCKS`.
pub proof fn lemma_versioned_socks_not_generic(seg: Seq<char>)
    ensures
        starts_with(trim(seg), token(ProxyType::Socks4)) ==> (decode_segment(seg) matches Ok(e)
            ==> e matches EntryModel::Proxied { ty, .. } && ty == ProxyType::Socks4),
        starts_with(trim(seg), token(ProxyType::Socks5)) ==> (decode_segment(seg) matches Ok(e)
            ==> e matches EntryModel::Proxied { ty, .. } && ty == ProxyType::Socks5),
{
    let p = trim(seg);
    if starts_with(p, token(ProxyType::Socks4)) || starts_with(p, token(ProxyType::Socks5)) {
        assert(p.subrange(0, 6)[0] == 'S');
        assert(!starts_with(p, direct_token()));
        if starts_with(p, token(ProxyType::Socks5)) {
            assert(p.subrange(0, 6)[5] == '5');
            assert(!starts_with(p, token(ProxyType::Socks4)));
        }
    }
}

/// `r` is the executable form of the model outcome `m`.
pub open spec fn segment_decoded_as(
    r: Result<ProxyEntry, Error>,
    m: Result<EntryModel, Seq<char>>,
) -> bool {
    match (r, m) {
        (Ok(e), Ok(me)) => e@ == me,
        (Err(Error::MalformedProxyEntry(msg)), Err(mm)) => msg@ == mm,
        _ => false,
    }
}

/// `r` is the executable form of the model outcome `m`.
pub open spec fn decoded_as(
    r: Result<Vec<ProxyEntry>, Error>,
    m: Result<Seq<EntryModel>, Seq<char>>,
) -> bool {
    match (r, m) {
        (Ok(v), Ok(mv)) => entries_view(v@) == mv,
        (Err(Error::MalformedProxyEntry(msg)), Err(mm)) => msg@ == mm,
        _ => false,
    }
}

spec fn prepend(
    acc: Seq<EntryModel>,
    r: Result<Seq<EntryModel>, Seq<char>>,
) -> Result<Seq<EntryModel>, Seq<char>> {
    match r {
        Ok(rest) => Ok(acc + rest),
        Err(m) => Err(m),
    }
}

fn token_chars(t: ProxyType) -> (r: Vec<char>)
    ensures
        r@ == token(t),
{
    let r = match t {
        ProxyType::Proxy => vec!['P', 'R', 'O', 'X', 'Y'],
        ProxyType::Socks => vec!['S', 'O', 'C', 'K', 'S'],
        ProxyType::Http => vec!['H', 'T', 'T', 'P'],
        ProxyType::Https => vec!['H', 'T', 'T', 'P', 'S'],
        ProxyType::Socks4 => vec!['S', 'O', 'C', 'K', 'S', '4'],
        ProxyType::Socks5 => vec!['S', 'O', 'C', 'K', 'S', '5'],
    };
    assert(r@ =~= token(t));
    r
}

/// The type whose token begins `v[lo..hi]`, longest token first.
fn leading_type_at(v: &Vec<char>, lo: usize, hi: usize) -> (r: Option<ProxyType>)
    requires
        lo <= hi <= v@.len(),
    ensures
        r == leading_type(v@.subrange(lo as int, hi as int)),
{
    if has_prefix(v, lo, hi, &token_chars(ProxyType::Socks4)) {
        Some(ProxyType::Socks4)
    } else if has_prefix(v, lo, hi, &token_chars(ProxyType::Socks5)) {
        Some(ProxyType::Socks5)
    } else if has_prefix(v, lo, hi, &token_chars(ProxyType::Https)) {
        Some(ProxyType::Https)
    } else if has_prefix(v, lo, hi, &token_chars(ProxyType::Proxy)) {
        Some(ProxyType::Proxy)
    } else if has_prefix(v, lo, hi, &token_chars(ProxyType::Socks)) {
        Some(ProxyType::Socks)
    } else if has_prefix(v, lo, hi, &token_chars(ProxyType::Http)) {
        Some(ProxyType::Http)
    } else {
        None
    }
}

fn malformed(msg: &str) -> (e: Error)
    ensures
        e matches Error::MalformedProxyEntry(m) && m@ == msg@,
{
    Error::MalformedProxyEntry(String::from_str(msg))
}

impl ProxyType {
    /// The type whose token is exactly `name`.
    pub fn from_name(name: &str) -> (r: Result<ProxyType, Error>)
        ensures
            match r {
                Ok(t) => token(t) == name@,
                Err(e) => e matches Error::MalformedProxyEntry(_) && forall|t: ProxyType|
                    token(t) != name@,
            },
    {
        let v = chars_of(name);
        let n = v.len();
        let ghost all = v@.subrange(0, n as int);
        assert(all =~= name@);
        let t = match leading_type_at(&v, 0, n) {
            Some(t) => t,
            None => {
                proof {
                    assert forall|t: ProxyType| token(t) != name@ by {
                        if token(t) == name@ {
                            assert(all.subrange(0, all.len() as int) =~= all);
                        }
                    }
                }
                return Err(unknown_type(name));
            },
        };
        if token_chars(t).len() == n {
            assert(all.subrange(0, n as int) =~= all);
            Ok(t)
        } else {
            proof {
                assert forall|u: ProxyType| token(u) != name@ by {
                    if token(u) == name@ {
                        assert(all.subrange(0, all.len() as int) =~= all);
                        assert(all.subrange(0, token(t).len() as int) == token(t));
                        assert(token(t).len() < token(u).len());
                        assert(all.subrange(0, 5)[4] == token(u)[4]);
                        assert(all.subrange(0, 4)[3] == token(u)[3]);
                    }
                }
            }
            Err(unknown_type(name))
        }
    }
}

fn unknown_type(name: &str) -> (e: Error)
    ensures
        e matches Error::MalformedProxyEntry(_),
{
    Error::MalformedProxyEntry(String::from_str("Unknown type `").concat(name).concat("`"))
}

impl std::str::FromStr for ProxyType {
    type Err = Error;

    fn from_str(s: &str) -> Result<ProxyType, Error> {
        ProxyType::from_name(s)
    }
}

/// Decodes the segment `s[lo..hi]`; `v` holds the characters of `s`.
fn decode_segment_at(s: &str, v: &Vec<char>, lo: usize, hi: usize) -> (r: Result<
    ProxyEntry,
    Error,
>)
    requires
        v@ == s@,
        lo <= hi <= v@.len(),
    ensures
        segment_decoded_as(r, decode_segment(v@.subrange(lo as int, hi as int))),
{
    let ghost seg = v@.subrange(lo as int, hi as int);
    let (a, b) = trim_range(v, lo, hi);
    let ghost p = v@.subrange(a as int, b as int);
    let direct = vec!['D', 'I', 'R', 'E', 'C', 'T'];
    assert(direct@ =~= direct_token());
    if has_prefix(v, a, b, &direct) {
        if b - a == 6 {
            assert(p =~= p.subrange(0, 6));
            return Ok(ProxyEntry::Direct);
        } else {
            return Err(malformed("DIRECT with trailing content"));
        }
    }
    match leading_type_at(v, a, b) {
        None => Err(malformed("No type matched")),
        Some(t) => {
            let n = token_chars(t).len();
            assert(p.subrange(n as int, p.len() as int) =~= v@.subrange(a + n, b as int));
            let (c, e) = trim_range(v, a + n, b);
            let ghost rest = v@.subrange(c as int, e as int);
            match find_char(v, c, e, ':') {
                None => Err(malformed("No colon in entry")),
                Some(k) => {
                    assert(rest.subrange(0, k as int) =~= v@.subrange(c as int, c + k));
                    assert(rest.subrange(k + 1, rest.len() as int) =~= v@.subrange(
                        c + k + 1,
                        e as int,
                    ));
                    let host = String::from_str(s.substring_char(c, c + k));
                    let port = String::from_str(s.substring_char(c + k + 1, e));
                    Ok(ProxyEntry::Proxied { ty: t, host, port })
                },
            }
        },
    }
}

/// Decodes a proxy specification: `;`-separated segments, each `DIRECT` or a
/// type token followed by `host:port`. Decoding stops at the first malformed
/// segment, with no partial result.
pub fn decode(text: &str) -> (r: Result<Vec<ProxyEntry>, Error>)
    ensures
        decoded_as(r, decode_model(text@)),
{
    let v = chars_of(text);
    let n = v.len();
    let mut out: Vec<ProxyEntry> = Vec::new();
    let mut start: usize = 0;
    proof {
        assert(v@.subrange(0, n as int) =~= text@);
        assert(entries_view(out@) =~= Seq::<EntryModel>::empty());
        if let Ok(all) = decode_model(text@) {
            assert(entries_view(out@) + all =~= all);
        }
    }
    loop
        invariant
            v@ == text@,
            n == v@.len(),
            start <= n,
            decode_model(text@) == prepend(
                entries_view(out@),
                decode_model(v@.subrange(start as int, n as int)),
            ),
        decreases n - start,
    {
        let ghost rest = v@.subrange(start as int, n as int);
        let found = find_char(&v, start, n, ';');
        let hi = match found {
            Some(i) => start + i,
            None => n,
        };
        proof {
            if let Some(i) = found {
                assert(rest.subrange(0, i as int) =~= v@.subrange(start as int, hi as int));
                assert(rest.subrange(i + 1, rest.len() as int) =~= v@.subrange(
                    hi + 1,
                    n as int,
                ));
            } else {
                assert(rest =~= v@.subrange(start as int, hi as int));
            }
        }
        let entry = match decode_segment_at(text, &v, start, hi) {
            Err(e) => return Err(e),
            Ok(entry) => entry,
        };
        let ghost before = entries_view(out@);
        out.push(entry);
        assert(entries_view(out@) =~= before.push(entry@));
        match found {
            None => {
                assert(entries_view(out@) =~= before + seq![entry@]);
                return Ok(out);
            },
            Some(_) => {
                proof {
                    let next = decode_model(v@.subrange(hi + 1, n as int));
                    if let Ok(tail) = next {
                        assert(before + (seq![entry@] + tail) =~= entries_view(out@) + tail);
                    }
                }
                start = hi + 1;
            },
        }
    }
}

} // verus!
