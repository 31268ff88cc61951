//! The decisions behind the host functions that a proxy script may call:
//! suffix and prefix tests on host names, the plain-host test, network
//! membership of IPv4 addresses and the choice of a resolved address.
use vstd::prelude::*;
use vstd::string::*;
use crate::text::{chars_of, ends_with, find_char, index_of, starts_with};
use crate::types::Error;

verus! {

/// `dnsDomainIs(host, domain)`: `host` ends with `domain`, compared as raw text.
pub fn dns_domain_is(host: &str, domain: &str) -> (r: bool)
    ensures
        r == ends_with(host@, domain@),
{
    let h = chars_of(host);
    let d = chars_of(domain);
    if d.len() > h.len() {
        return false;
    }
    let hl = h.len();
    let off = hl - d.len();
    let mut k: usize = 0;
    while k < d.len()
        invariant
            h@ == host@,
            d@ == domain@,
            hl == h@.len(),
            off + d@.len() == hl,
            k <= d@.len(),
            forall|j: int| 0 <= j < k ==> h@[off + j] == d@[j],
        decreases d@.len() - k,
    {
        if h[off + k] != d[k] {
            assert(h@.subrange(off as int, h@.len() as int)[k as int] != d@[k as int]);
            return false;
        }
        k = k + 1;
    }
    assert(h@.subrange(off as int, h@.len() as int) =~= d@);
    true
}

/// `localHostOrDomainIs(host, fqdn)`: `fqdn` begins with `host`. The argument
/// order is the reverse of `dns_domain_is`.
pub fn local_host_or_domain_is(host: &str, fqdn: &str) -> (r: bool)
    ensures
        r == starts_with(fqdn@, host@),
{
    let h = chars_of(host);
    let f = chars_of(fqdn);
    if h.len() > f.len() {
        return false;
    }
    let mut k: usize = 0;
    while k < h.len()
        invariant
            h@ == host@,
            f@ == fqdn@,
            h@.len() <= f@.len(),
            k <= h@.len(),
            forall|j: int| 0 <= j < k ==> f@[j] == h@[j],
        decreases h@.len() - k,
    {
        if h[k] != f[k] {
            assert(f@.subrange(0, h@.len() as int)[k as int] != h@[k as int]);
            return false;
        }
        k = k + 1;
    }
    assert(f@.subrange(0, h@.len() as int) =~= h@);
    true
}

/// What `url::Url::parse` makes of `text`: `Ok` with the host that
/// `Url::host_str` reports, `Err(true)` for a relative URL without a base and
/// `Err(false)` for any other failure.
pub uninterp spec fn url_host_of(text: Seq<char>) -> Result<Option<Seq<char>>, bool>;

pub open spec fn parsed_view(p: Result<Option<String>, bool>) -> Result<Option<Seq<char>>, bool> {
    match p {
        Ok(Some(h)) => Ok(Some(h@)),
        Ok(None) => Ok(None),
        Err(relative) => Err(relative),
    }
}

/// Relies on `url::Url::parse`, and on `Url::host_str` for the host of what it
/// parsed; both depend on the text alone.
#[verifier::external_body]
fn parse_url_host(text: &str) -> (r: Result<Option<String>, bool>)
    ensures
        parsed_view(r) == url_host_of(text@),
{
    match url::Url::parse(text) {
        Ok(u) => Ok(u.host_str().map(|h| h.to_string())),
        Err(url::ParseError::RelativeUrlWithoutBase) => Err(true),
        Err(_) => Err(false),
    }
}

/// A name is plain when it holds no `.`: a bare name itself, or the host of a
/// URL. A URL without a host, or text that is neither, is not plain.
pub open spec fn plain_host(name: Seq<char>, parsed: Result<Option<Seq<char>>, bool>) -> bool {
    match parsed {
        Err(true) => index_of(name, '.') is None,
        Err(false) => false,
        Ok(Some(h)) => index_of(h, '.') is None,
        Ok(None) => false,
    }
}

fn has_no_dot(s: &str) -> (r: bool)
    ensures
        r == (index_of(s@, '.') is None),
{
    let v = chars_of(s);
    proof {
        assert(v@.subrange(0, v@.len() as int) =~= v@);
    }
    find_char(&v, 0, v.len(), '.').is_none()
}

/// The plain-host test on `name`, given what URL parsing made of it.
pub fn plain_host_from(name: &str, parsed: &Result<Option<String>, bool>) -> (r: bool)
    ensures
        r == plain_host(name@, parsed_view(*parsed)),
{
    match parsed {
        Err(true) => has_no_dot(name),
        Err(false) => false,
        Ok(Some(h)) => has_no_dot(h.as_str()),
        Ok(None) => false,
    }
}

/// `isPlainHostName(name)`.
pub fn is_plain_host_name(name: &str) -> (r: bool)
    ensures
        r == plain_host(name@, url_host_of(name@)),
{
    let parsed = parse_url_host(name);
    plain_host_from(name, &parsed)
}

/// The host of a request URL, given what URL parsing made of it.
pub fn host_from(parsed: &Result<Option<String>, bool>) -> (r: Result<String, Error>)
    ensures
        match parsed_view(*parsed) {
            Ok(Some(h)) => r matches Ok(s) && s@ == h,
            _ => r matches Err(Error::NoHost),
        },
{
    match parsed {
        Ok(Some(h)) => Ok(h.clone()),
        _ => Err(Error::NoHost),
    }
}

/// The host of a request URL; `NoHost` where it has none.
pub fn request_host(url: &str) -> (r: Result<String, Error>)
    ensures
        match url_host_of(url@) {
            Ok(Some(h)) => r matches Ok(s) && s@ == h,
            _ => r matches Err(Error::NoHost),
        },
{
    let parsed = parse_url_host(url);
    host_from(&parsed)
}

/// The number of set bits of `x`.
pub open spec fn ones(x: u32) -> nat
    decreases x,
{
    if x == 0 {
        0
    } else {
        (x % 2) as nat + ones(x / 2)
    }
}

/// `addr` lies in the network of `net` with a prefix of `len` bits: their
/// leading `len` bits agree.
pub open spec fn in_network(addr: u32, net: u32, len: nat) -> bool {
    len == 0 || (len <= 32 && addr >> ((32 - len) as u32) == net >> ((32 - len) as u32))
}

/// Prefix length of a netmask: the number of its set bits, taken as they are
/// even where they are not contiguous.
pub fn prefix_len(mask: u32) -> (n: u32)
    ensures
        n == ones(mask),
        n <= 32,
{
    let mut x = mask;
    let mut c: u32 = 0;
    let mut i: u32 = 0;
    proof {
        let xx = x as u64;
        assert(xx <= 0xffff_ffffu64 ==> xx < (1u64 << 32u64)) by (bit_vector);
    }
    while i < 32
        invariant
            i <= 32,
            c <= i,
            c + ones(x) == ones(mask),
            (x as u64) < (1u64 << ((32 - i) as u64)),
        decreases 32 - i,
    {
        let bit = x % 2;
        proof {
            let xx = x as u64;
            let k = (32 - i) as u64;
            assert(xx < (1u64 << k) && k >= 1 && k <= 32 ==> xx / 2 < (1u64 << ((k - 1) as u64)))
                by (bit_vector);
        }
        c = c + bit;
        x = x / 2;
        i = i + 1;
    }
    proof {
        assert((1u64 << 0u64) == 1) by (bit_vector);
    }
    c
}

/// `isInNet(addr, net, mask)` on numeric IPv4 addresses (most significant octet
/// first): `addr` lies in the network `net` whose prefix length is the number
/// of set bits of `mask`.
pub fn is_in_net(addr: u32, net: u32, mask: u32) -> (r: bool)
    ensures
        r == in_network(addr, net, ones(mask) as nat),
{
    let len = prefix_len(mask);
    if len == 0 {
        true
    } else {
        let shift = 32 - len;
        (addr >> shift) == (net >> shift)
    }
}

/// One address of a forward DNS lookup.
#[derive(Debug, Clone, Copy, PartialEq, Eq, Structural)]
pub enum ResolvedAddr {
    V4(u32),
    V6(u128),
}

/// The first IPv4 address among `addrs`.
pub open spec fn first_v4(addrs: Seq<ResolvedAddr>) -> Option<u32>
    decreases addrs.len(),
{
    if addrs.len() == 0 {
        None
    } else {
        match addrs[0] {
            ResolvedAddr::V4(a) => Some(a),
            ResolvedAddr::V6(_) => first_v4(addrs.drop_first()),
        }
    }
}

/// `dnsResolve(name)`, given the addresses that the lookup found: the first
/// IPv4 one. Where there is none, the answer would be an IPv6 address, which
/// is not supported and fails.
pub fn first_ipv4(addrs: &Vec<ResolvedAddr>) -> (r: Result<u32, Error>)
    ensures
        match first_v4(addrs@) {
            Some(a) => r == Ok::<u32, Error>(a),
            None => r matches Err(Error::JsError(_)),
        },
{
    let mut i: usize = 0;
    assert(addrs@.subrange(0, addrs@.len() as int) =~= addrs@);
    while i < addrs.len()
        invariant
            i <= addrs@.len(),
            first_v4(addrs@) == first_v4(addrs@.subrange(i as int, addrs@.len() as int)),
        decreases addrs@.len() - i,
    {
        proof {
            let rest = addrs@.subrange(i as int, addrs@.len() as int);
            assert(rest.drop_first() =~= addrs@.subrange(i + 1, addrs@.len() as int));
        }
        match addrs[i] {
            ResolvedAddr::V4(a) => return Ok(a),
            ResolvedAddr::V6(_) => {},
        }
        i = i + 1;
    }
    Err(Error::JsError(String::from_str("dns error: no IPv4 address, and IPv6 is not supported")))
}

} // verus!
