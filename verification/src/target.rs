//! What a check is asked about: a domain, or an address written out.

use crate::addr::IpAddress;
use crate::text::optional_text;
use vstd::prelude::*;
use vstd::string::*;

verus! {

/// The subject of a check.
#[derive(Debug)]
pub enum Target {
    Domain(String),
    Ipv4(u32),
    Ipv6(u128),
}

/// A target as plain text and numbers.
pub enum TargetView {
    Domain(Seq<char>),
    Ipv4(u32),
    Ipv6(u128),
}

impl View for Target {
    type V = TargetView;

    open spec fn view(&self) -> TargetView {
        match self {
            Target::Domain(name) => TargetView::Domain(name@),
            Target::Ipv4(bits) => TargetView::Ipv4(*bits),
            Target::Ipv6(bits) => TargetView::Ipv6(*bits),
        }
    }
}

/// How the addresses of a target are come by.
#[derive(Debug)]
pub enum Resolution {
    /// The target is an address: these are its addresses.
    Addresses(Vec<IpAddress>),
    /// The target is a domain: its name has to be looked up.
    Lookup(String),
}

/// The host of a text read as an absolute URL, and `None` where the text is
/// no such URL or the URL has no host.
pub uninterp spec fn url_host(text: Seq<char>) -> Option<Seq<char>>;

/// `Url::parse` and, on the URL it gives, `Url::host_str`.
#[verifier::external_body]
fn read_url_host(text: &str) -> (r: Option<String>)
    ensures
        optional_text(r) == url_host(text@),
{
    match url::Url::parse(text) {
        Ok(parsed) => parsed.host_str().map(String::from),
        Err(_) => None,
    }
}

/// The target that an input stands for, given what it reads as: an IPv4
/// address before an IPv6 address, either before the host of a URL, and
/// the input itself as a domain where it reads as none of these.
pub open spec fn classified(
    input: Seq<char>,
    v4: Option<u32>,
    v6: Option<u128>,
    host: Option<Seq<char>>,
) -> TargetView {
    match (v4, v6, host) {
        (Some(bits), _, _) => TargetView::Ipv4(bits),
        (None, Some(bits), _) => TargetView::Ipv6(bits),
        (None, None, Some(host)) => TargetView::Domain(host),
        (None, None, None) => TargetView::Domain(input),
    }
}

impl Target {
    /// The target of `input`, where `v4` and `v6` say what `input` is when
    /// read as an address of either family, and `host` what host it names
    /// when read as a URL.
    pub fn classify(input: &str, v4: Option<u32>, v6: Option<u128>, host: Option<String>) -> (r:
        Target)
        ensures
            r@ == classified(input@, v4, v6, optional_text(host)),
    {
        match v4 {
            Some(bits) => Target::Ipv4(bits),
            None => match v6 {
                Some(bits) => Target::Ipv6(bits),
                None => match host {
                    Some(host) => Target::Domain(host),
                    None => Target::Domain(String::from_str(input)),
                },
            },
        }
    }

    /// The target of free-form `input`: an address where `input` is one, the
    /// host of the URL where `input` is a URL with a host, else `input`
    /// itself as a domain. `v4` and `v6` say what `input` is when read as an
    /// address of either family.
    pub fn from_input(input: &str, v4: Option<u32>, v6: Option<u128>) -> (r: Target)
        ensures
            r@ == classified(input@, v4, v6, url_host(input@)),
    {
        if v4.is_some() || v6.is_some() {
            Target::classify(input, v4, v6, None)
        } else {
            Target::classify(input, v4, v6, read_url_host(input))
        }
    }

    /// The kind of the target, for display.
    pub fn readable_type(&self) -> (r: &'static str)
        ensures
            r@ == match self {
                Target::Domain(_) => "Домен"@,
                Target::Ipv4(_) => "IPv4-адрес"@,
                Target::Ipv6(_) => "IPv6-адрес"@,
            },
    {
        match self {
            Target::Domain(_) => "Домен",
            Target::Ipv4(_) => "IPv4-адрес",
            Target::Ipv6(_) => "IPv6-адрес",
        }
    }

    /// How the addresses of the target are come by: an address is its own
    /// single address, a domain has to be looked up.
    pub fn resolve(&self) -> (r: Resolution)
        ensures
            match self {
                Target::Domain(name) => r matches Resolution::Lookup(asked) && asked@ == name@,
                Target::Ipv4(bits) => r matches Resolution::Addresses(ips) && ips@ == seq![
                    IpAddress::V4(*bits),
                ],
                Target::Ipv6(bits) => r matches Resolution::Addresses(ips) && ips@ == seq![
                    IpAddress::V6(*bits),
                ],
            },
    {
        match self {
            Target::Domain(name) => Resolution::Lookup(name.clone()),
            Target::Ipv4(bits) => {
                let mut ips = Vec::new();
                ips.push(IpAddress::V4(*bits));
                Resolution::Addresses(ips)
            },
            Target::Ipv6(bits) => {
                let mut ips = Vec::new();
                ips.push(IpAddress::V6(*bits));
                Resolution::Addresses(ips)
            },
        }
    }
}

} // verus!
