//! Addresses of remote pages, and the safety check that keeps fetches away
//! from the local network.
//!
//! Parsing an address is left to the `url` crate. What this library reads of
//! a parsed address, its text, its scheme and its host, is held in a type
//! of its own, and the safety check is decided on that.

use crate::text::{
    ascii_lowercase, chars_end_with, chars_eq_ignore_ascii_case, decimal, digit_char, ends_with,
    lemma_decimal_below_thousand, lemma_decimal_injective, str_eq, to_chars,
};
use vstd::prelude::*;

verus! {

/// The host of an address.
#[derive(Debug, Clone, PartialEq, Eq)]
pub enum UrlHost {
    /// A domain name.
    Domain(String),
    /// An IPv4 address, as one number.
    Ipv4(u32),
    /// An IPv6 address, as one number.
    Ipv6(u128),
}

/// The view of a [`UrlHost`].
pub enum HostView {
    Domain(Seq<char>),
    Ipv4(u32),
    Ipv6(u128),
}

impl View for UrlHost {
    type V = HostView;

    open spec fn view(&self) -> HostView {
        match *self {
            UrlHost::Domain(name) => HostView::Domain(name@),
            UrlHost::Ipv4(address) => HostView::Ipv4(address),
            UrlHost::Ipv6(address) => HostView::Ipv6(address),
        }
    }
}

/// What this library reads of a parsed address.
#[derive(Debug, Clone, PartialEq, Eq)]
pub struct ParsedUrl {
    /// The address in its normal form.
    pub href: String,
    /// The scheme, in lower case, without the colon.
    pub scheme: String,
    /// The host as it stands in the address, where there is one.
    pub host_text: Option<String>,
    /// The host, where there is one.
    pub host: Option<UrlHost>,
}

/// The view of a [`ParsedUrl`].
pub struct UrlView {
    pub href: Seq<char>,
    pub scheme: Seq<char>,
    pub host_text: Option<Seq<char>>,
    pub host: Option<HostView>,
}

impl View for ParsedUrl {
    type V = UrlView;

    open spec fn view(&self) -> UrlView {
        UrlView {
            href: self.href@,
            scheme: self.scheme@,
            host_text: match self.host_text {
                Some(text) => Some(text@),
                None => None,
            },
            host: match self.host {
                Some(host) => Some(host@),
                None => None,
            },
        }
    }
}

/// What `url::Url::parse` makes of a text: the parsed address, or `None`
/// where the text is no absolute address.
pub uninterp spec fn parsed_url(text: Seq<char>) -> Option<UrlView>;

/// What `url::Url::join` makes of a reference relative to the address that
/// `base` parses to: the resolved address, or `None` where either does not
/// parse.
pub uninterp spec fn joined_url(base: Seq<char>, reference: Seq<char>) -> Option<UrlView>;

/// Parses `text` with `url::Url::parse` and reads the result's text
/// (`as_str`), scheme (`scheme`) and host (`host_str`, `host`). The contract
/// names the outcome `parsed_url(text)` and claims nothing else of it.
#[verifier::external_body]
pub(crate) fn parse_url(text: &str) -> (parsed: Option<ParsedUrl>)
    ensures
        match parsed {
            Some(url) => parsed_url(text@) == Some(url@),
            None => parsed_url(text@) is None,
        },
{
    let url = url::Url::parse(text).ok()?;
    let host = match url.host() {
        Some(url::Host::Domain(name)) => Some(UrlHost::Domain(name.to_string())),
        Some(url::Host::Ipv4(address)) => Some(UrlHost::Ipv4(address.to_bits())),
        Some(url::Host::Ipv6(address)) => Some(UrlHost::Ipv6(address.to_bits())),
        None => None,
    };
    let host_text = url.host_str().map(|h| h.to_string());
    Some(ParsedUrl { href: url.as_str().to_string(), scheme: url.scheme().to_string(), host_text, host })
}

/// Parses `base` with `url::Url::parse`, resolves `reference` against it
/// with `url::Url::join`, and reads the result as `parse_url` does. The
/// contract names the outcome `joined_url(base, reference)` and claims
/// nothing else of it.
#[verifier::external_body]
pub(crate) fn join_url(base: &str, reference: &str) -> (joined: Option<ParsedUrl>)
    ensures
        match joined {
            Some(url) => joined_url(base@, reference@) == Some(url@),
            None => joined_url(base@, reference@) is None,
        },
{
    let url = url::Url::parse(base).ok()?.join(reference).ok()?;
    let host = match url.host() {
        Some(url::Host::Domain(name)) => Some(UrlHost::Domain(name.to_string())),
        Some(url::Host::Ipv4(address)) => Some(UrlHost::Ipv4(address.to_bits())),
        Some(url::Host::Ipv6(address)) => Some(UrlHost::Ipv6(address.to_bits())),
        None => None,
    };
    let host_text = url.host_str().map(|h| h.to_string());
    Some(ParsedUrl { href: url.as_str().to_string(), scheme: url.scheme().to_string(), host_text, host })
}

/// The first of the four parts of an IPv4 address.
pub open spec fn v4_first(address: u32) -> int {
    address as int / 0x100_0000
}

/// The second of the four parts of an IPv4 address.
pub open spec fn v4_second(address: u32) -> int {
    (address as int / 0x1_0000) % 0x100
}

/// The IPv4 addresses that lead to the local network: the private ranges
/// 10.0.0.0/8, 172.16.0.0/12 and 192.168.0.0/16, the loopback range
/// 127.0.0.0/8, the link-local range 169.254.0.0/16, and 0.0.0.0.
pub open spec fn is_local_v4(address: u32) -> bool {
    let a = v4_first(address);
    let b = v4_second(address);
    ||| a == 10
    ||| a == 172 && 16 <= b <= 31
    ||| a == 192 && b == 168
    ||| a == 127
    ||| a == 169 && b == 254
    ||| address == 0
}

/// The IPv6 addresses that lead to the local network: the loopback address
/// `::1`, the link-local range `fe80::/10`, the unique local range
/// `fc00::/7`, and `::`.
pub open spec fn is_local_v6(address: u128) -> bool {
    ||| address == 1
    ||| address == 0
    ||| address as int / 0x40_0000_0000_0000_0000_0000_0000_0000 == 0x3fa
    ||| address as int / 0x200_0000_0000_0000_0000_0000_0000_0000 == 0x7e
}

/// The domain names that lead to the local machine or network: `localhost`
/// in any case of letters, and every name that ends with `.local`.
pub open spec fn is_local_domain(name: Seq<char>) -> bool {
    ascii_lowercase(name) == ascii_lowercase("localhost"@) || ends_with(name, ".local"@)
}

/// The parts of `text` between its dots.
pub open spec fn dot_parts(text: Seq<char>) -> Seq<Seq<char>>
    decreases text.len(),
{
    if text.len() == 0 {
        seq![Seq::<char>::empty()]
    } else {
        let before = dot_parts(text.drop_last());
        if text.last() == '.' {
            before.push(Seq::<char>::empty())
        } else {
            before.update(before.len() - 1, before.last().push(text.last()))
        }
    }
}

/// The number up to 255 that `part` is the decimal notation of.
pub open spec fn octet_of(part: Seq<char>) -> Option<nat> {
    if exists|n: nat| n <= 255 && #[trigger] decimal(n) == part {
        Some(choose|n: nat| n <= 255 && #[trigger] decimal(n) == part)
    } else {
        None
    }
}

/// The IPv4 address that `text` writes out: four numbers up to 255 in
/// decimal notation without leading zeros, with dots between them. Any
/// other text writes out none.
pub open spec fn ipv4_of_text(text: Seq<char>) -> Option<u32> {
    let parts = dot_parts(text);
    if parts.len() == 4 && octet_of(parts[0]) is Some && octet_of(parts[1]) is Some && octet_of(
        parts[2],
    ) is Some && octet_of(parts[3]) is Some {
        Some(
            (octet_of(parts[0]).unwrap() * 0x100_0000 + octet_of(parts[1]).unwrap() * 0x1_0000
                + octet_of(parts[2]).unwrap() * 0x100 + octet_of(parts[3]).unwrap()) as u32,
        )
    } else {
        None
    }
}

/// Whether a host lies outside the local network. A host that the address
/// gives as a name is judged as a name, and as an IPv4 address as well
/// where the name writes one out.
pub open spec fn is_safe_host(host: Option<HostView>) -> bool {
    match host {
        None => false,
        Some(HostView::Domain(name)) => !is_local_domain(name) && match ipv4_of_text(name) {
            Some(address) => !is_local_v4(address),
            None => true,
        },
        Some(HostView::Ipv4(address)) => !is_local_v4(address),
        Some(HostView::Ipv6(address)) => !is_local_v6(address),
    }
}

/// Whether the scheme is `http` or `https`.
pub open spec fn is_web_scheme(scheme: Seq<char>) -> bool {
    scheme == "http"@ || scheme == "https"@
}

/// Whether `address` leads to the local network.
pub fn ipv4_is_local(address: u32) -> (local: bool)
    ensures
        local == is_local_v4(address),
{
    let a: u32 = address / 0x100_0000;
    let b: u32 = (address / 0x1_0000) % 0x100;
    a == 10 || (a == 172 && 16 <= b && b <= 31) || (a == 192 && b == 168) || a == 127 || (a == 169
        && b == 254) || address == 0
}

/// Whether `address` leads to the local network.
pub fn ipv6_is_local(address: u128) -> (local: bool)
    ensures
        local == is_local_v6(address),
{
    address == 1 || address == 0 || address / 0x40_0000_0000_0000_0000_0000_0000_0000 == 0x3fa
        || address / 0x200_0000_0000_0000_0000_0000_0000_0000 == 0x7e
}

/// Whether `name` leads to the local machine or network.
pub fn domain_is_local(name: &str) -> (local: bool)
    ensures
        local == is_local_domain(name@),
{
    let chars = to_chars(name);
    chars_eq_ignore_ascii_case(&chars, "localhost") || chars_end_with(&chars, ".local")
}

/// The value of a decimal digit; `None` for any other character.
fn digit_of(c: char) -> (digit: Option<u32>)
    ensures
        match digit {
            Some(d) => d < 10 && digit_char(d as nat) == c,
            None => forall|d: nat| d < 10 ==> #[trigger] digit_char(d) != c,
        },
{
    if '0' <= c && c <= '9' {
        Some(c as u32 - 48)
    } else {
        None
    }
}

/// The number up to 255 that `part` is the decimal notation of.
pub fn parse_octet(part: &Vec<char>) -> (octet: Option<u32>)
    ensures
        match octet {
            Some(v) => v <= 255 && octet_of(part@) == Some(v as nat),
            None => octet_of(part@) is None,
        },
{
    let n = part.len();
    proof {
        assert forall|m: nat| m <= 255 && #[trigger] decimal(m) == part@ implies 1 <= n <= 3 by {
            lemma_decimal_below_thousand(m);
        }
    }
    if n == 0 || n > 3 {
        return None;
    }
    let first = match digit_of(part[0]) {
        Some(d) => d,
        None => {
            proof {
                assert forall|m: nat| m <= 255 implies #[trigger] decimal(m) != part@ by {
                    lemma_decimal_below_thousand(m);
                    if decimal(m) == part@ {
                        assert(decimal(m)[0] == part@[0]);
                    }
                }
            }
            return None;
        },
    };
    if n == 1 {
        proof {
            lemma_decimal_below_thousand(first as nat);
            assert(decimal(first as nat) == part@);
            lemma_octet_is(part@, first as nat);
        }
        return Some(first);
    }
    let second = match digit_of(part[1]) {
        Some(d) => d,
        None => {
            proof {
                assert forall|m: nat| m <= 255 implies #[trigger] decimal(m) != part@ by {
                    lemma_decimal_below_thousand(m);
                    if decimal(m) == part@ {
                        assert(decimal(m)[1] == part@[1]);
                    }
                }
            }
            return None;
        },
    };
    if first == 0 {
        proof {
            assert forall|m: nat| m <= 255 implies #[trigger] decimal(m) != part@ by {
                lemma_decimal_below_thousand(m);
                if decimal(m) == part@ {
                    assert(decimal(m)[0] == part@[0]);
                }
            }
        }
        return None;
    }
    if n == 2 {
        let value: u32 = first * 10 + second;
        proof {
            lemma_decimal_below_thousand(value as nat);
            assert(decimal(value as nat) == part@);
            lemma_octet_is(part@, value as nat);
        }
        return Some(value);
    }
    let third = match digit_of(part[2]) {
        Some(d) => d,
        None => {
            proof {
                assert forall|m: nat| m <= 255 implies #[trigger] decimal(m) != part@ by {
                    lemma_decimal_below_thousand(m);
                    if decimal(m) == part@ {
                        assert(decimal(m)[2] == part@[2]);
                    }
                }
            }
            return None;
        },
    };
    let value: u32 = first * 100 + second * 10 + third;
    proof {
        lemma_decimal_below_thousand(value as nat);
        assert(decimal(value as nat) == part@);
    }
    if value > 255 {
        proof {
            assert forall|m: nat| m <= 255 implies #[trigger] decimal(m) != part@ by {
                if decimal(m) == part@ {
                    lemma_decimal_injective(m, value as nat);
                }
            }
        }
        return None;
    }
    proof {
        lemma_octet_is(part@, value as nat);
    }
    Some(value)
}

/// A part that is the decimal notation of `n` stands for `n` and for no
/// other number.
pub proof fn lemma_octet_is(part: Seq<char>, n: nat)
    requires
        n <= 255,
        decimal(n) == part,
    ensures
        octet_of(part) == Some(n),
{
    let m = choose|m: nat| m <= 255 && #[trigger] decimal(m) == part;
    lemma_decimal_injective(m, n);
}

/// The IPv4 address that `name` writes out, where it writes one out.
pub fn ipv4_from_text(name: &str) -> (address: Option<u32>)
    ensures
        address == ipv4_of_text(name@),
{
    let chars = to_chars(name);
    let mut done: Vec<u32> = Vec::new();
    let mut ok = true;
    let mut current: Vec<char> = Vec::new();
    let mut i: usize = 0;
    assert(chars@.take(0) == Seq::<char>::empty());
    while i < chars.len()
        invariant
            i <= chars.len(),
            dot_parts(chars@.take(i as int)).len() >= 1,
            current@ == dot_parts(chars@.take(i as int)).last(),
            ok ==> done.len() == dot_parts(chars@.take(i as int)).len() - 1,
            ok ==> forall|k: int|
                0 <= k < done.len() ==> done[k] <= 255 && octet_of(
                    #[trigger] dot_parts(chars@.take(i as int))[k],
                ) == Some(done[k] as nat),
            !ok ==> exists|k: int|
                0 <= k < dot_parts(chars@.take(i as int)).len() - 1 && octet_of(
                    #[trigger] dot_parts(chars@.take(i as int))[k],
                ) is None,
        decreases chars.len() - i,
    {
        let ghost before = dot_parts(chars@.take(i as int));
        let ghost after = dot_parts(chars@.take(i + 1));
        let ghost failed = if ok {
            0
        } else {
            choose|k: int| 0 <= k < before.len() - 1 && octet_of(#[trigger] before[k]) is None
        };
        proof {
            assert(chars@.take(i + 1).drop_last() == chars@.take(i as int));
            assert(chars@.take(i + 1).last() == chars@[i as int]);
        }
        if chars[i] == '.' {
            assert(after == before.push(Seq::<char>::empty()));
            let was_ok = ok;
            match parse_octet(&current) {
                Some(v) => {
                    if ok {
                        done.push(v);
                    }
                },
                None => {
                    ok = false;
                },
            }
            proof {
                if ok {
                    assert forall|k: int| 0 <= k < done.len() implies done[k] <= 255 && octet_of(
                        #[trigger] after[k],
                    ) == Some(done[k] as nat) by {
                        assert(after[k] == before[k]);
                    }
                } else if was_ok {
                    assert(after[before.len() - 1] == before.last());
                    assert(octet_of(after[before.len() - 1]) is None);
                } else {
                    assert(after[failed] == before[failed]);
                    assert(octet_of(after[failed]) is None);
                }
            }
            current = Vec::new();
        } else {
            current.push(chars[i]);
            proof {
                assert(after == before.update(
                    before.len() - 1,
                    before.last().push(chars@[i as int]),
                ));
                if ok {
                    assert forall|k: int| 0 <= k < done.len() implies done[k] <= 255 && octet_of(
                        #[trigger] after[k],
                    ) == Some(done[k] as nat) by {
                        assert(after[k] == before[k]);
                    }
                } else {
                    assert(after[failed] == before[failed]);
                    assert(octet_of(after[failed]) is None);
                }
            }
        }
        i += 1;
    }
    assert(chars@.take(i as int) == chars@);
    let ghost parts = dot_parts(name@);
    if !ok || done.len() != 3 {
        proof {
            if !ok && parts.len() == 4 {
                let k = choose|k: int| 0 <= k < parts.len() - 1 && octet_of(#[trigger] parts[k]) is None;
                assert(octet_of(parts[k]) is None);
            }
        }
        return None;
    }
    match parse_octet(&current) {
        Some(last) => {
            proof {
                assert(octet_of(parts[0]) == Some(done[0] as nat));
                assert(octet_of(parts[1]) == Some(done[1] as nat));
                assert(octet_of(parts[2]) == Some(done[2] as nat));
                assert(octet_of(parts[3]) == Some(last as nat));
            }
            Some(done[0] * 0x100_0000 + done[1] * 0x1_0000 + done[2] * 0x100 + last)
        },
        None => None,
    }
}

/// The safety check: whether a fetch of `url` stays away from the local
/// network. An address without a host does not pass.
pub fn is_safe_url(url: &ParsedUrl) -> (safe: bool)
    ensures
        safe == is_safe_host(url@.host),
{
    match &url.host {
        None => false,
        Some(UrlHost::Domain(name)) => !domain_is_local(name.as_str()) && match ipv4_from_text(
            name.as_str(),
        ) {
            Some(address) => !ipv4_is_local(address),
            None => true,
        },
        Some(UrlHost::Ipv4(address)) => !ipv4_is_local(*address),
        Some(UrlHost::Ipv6(address)) => !ipv6_is_local(*address),
    }
}

/// Whether the scheme of `url` is `http` or `https`.
pub fn has_web_scheme(url: &ParsedUrl) -> (web: bool)
    ensures
        web == is_web_scheme(url@.scheme),
{
    str_eq(url.scheme.as_str(), "http") || str_eq(url.scheme.as_str(), "https")
}

} // verus!
