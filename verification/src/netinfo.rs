//! The addresses a server bound to every interface is reachable on: which
//! interface addresses are listed, and the URLs shown for them.
use vstd::prelude::*;
use crate::numeral::dec_chars;
use crate::text::{chars_eq_str, chars_of, dec, push_all, push_str, string_from_chars};

verus! {

/// An IP address: IPv4 as its 32-bit value, IPv6 as its 128-bit value.
#[derive(Clone, Copy, PartialEq, Eq, Debug, Structural)]
pub enum Ip {
    V4(u32),
    V6(u128),
}

/// Whether an address is a loopback address: `127.0.0.0/8` or `::1`.
pub open spec fn loopback(ip: Ip) -> bool {
    match ip {
        Ip::V4(x) => x / 0x100_0000 == 127,
        Ip::V6(x) => x == 1,
    }
}

/// Whether `ip` is a loopback address.
pub fn is_loopback(ip: Ip) -> (r: bool)
    ensures
        r == loopback(ip),
{
    match ip {
        Ip::V4(x) => x / 0x100_0000 == 127,
        Ip::V6(x) => x == 1,
    }
}

/// One address found on a network interface, with the interface's name.
pub struct IfaceAddr {
    pub name: String,
    pub ip: Ip,
}

/// Whether an address is the unspecified address (`0.0.0.0` or `::`).
pub open spec fn unspecified(ip: Ip) -> bool {
    match ip {
        Ip::V4(x) => x == 0,
        Ip::V6(x) => x == 0,
    }
}

/// Whether `ip` is the unspecified address.
pub fn is_unspecified(ip: Ip) -> (r: bool)
    ensures
        r == unspecified(ip),
{
    match ip {
        Ip::V4(x) => x == 0,
        Ip::V6(x) => x == 0,
    }
}

/// Whether an address can reach the machine from the network: it is
/// neither a loopback nor the unspecified address.
pub open spec fn reachable(ip: Ip) -> bool {
    !loopback(ip) && !unspecified(ip)
}

/// Whether an interface address is listed given those listed so far: not
/// on the loopback interface (`lo`, `lo0`), reachable, not already listed.
pub open spec fn admits(listed: Seq<Ip>, a: IfaceAddr) -> bool {
    a.name@ != "lo"@ && a.name@ != "lo0"@ && reachable(a.ip) && !listed.contains(a.ip)
}

/// The addresses listed: the default-route address found by probing, where
/// there is one and it is reachable (a failed probe reports `0.0.0.0`), then
/// each interface address in turn that is admitted.
pub open spec fn listed_ips(probe: Option<Ip>, ifaces: Seq<IfaceAddr>) -> Seq<Ip>
    decreases ifaces.len(),
{
    if ifaces.len() == 0 {
        match probe {
            Some(p) => if reachable(p) {
                seq![p]
            } else {
                Seq::empty()
            },
            None => Seq::empty(),
        }
    } else {
        let before = listed_ips(probe, ifaces.drop_last());
        if admits(before, ifaces.last()) {
            before.push(ifaces.last().ip)
        } else {
            before
        }
    }
}

/// Lists the machine's addresses on the network from the probed
/// default-route address and the interface addresses. The list holds no
/// address twice, and no loopback or unspecified address.
pub fn collect_local_ips(probe: Option<Ip>, ifaces: &Vec<IfaceAddr>) -> (r: Vec<Ip>)
    ensures
        r@ == listed_ips(probe, ifaces@),
        forall|i: int, j: int| 0 <= i < j < r@.len() ==> r@[i] != r@[j],
        forall|i: int| 0 <= i < r@.len() ==> reachable(#[trigger] r@[i]),
{
    let mut ips: Vec<Ip> = Vec::new();
    match probe {
        Some(p) => if !is_loopback(p) && !is_unspecified(p) {
            ips.push(p);
        },
        None => {},
    }
    proof {
        assert(ifaces@.subrange(0, 0) =~= Seq::<IfaceAddr>::empty());
        assert(ips@ == listed_ips(probe, ifaces@.subrange(0, 0)));
    }
    let mut k: usize = 0;
    while k < ifaces.len()
        invariant
            k <= ifaces@.len(),
            ips@ == listed_ips(probe, ifaces@.subrange(0, k as int)),
            forall|i: int, j: int| 0 <= i < j < ips@.len() ==> ips@[i] != ips@[j],
            forall|i: int| 0 <= i < ips@.len() ==> reachable(#[trigger] ips@[i]),
        decreases ifaces.len() - k,
    {
        let a = &ifaces[k];
        let nm = chars_of(a.name.as_str());
        let take = !chars_eq_str(nm.as_slice(), "lo") && !chars_eq_str(nm.as_slice(), "lo0")
            && !is_loopback(a.ip) && !is_unspecified(a.ip) && !contains_ip(&ips, a.ip);
        proof {
            let pre = ifaces@.subrange(0, k + 1);
            assert(pre.drop_last() == ifaces@.subrange(0, k as int));
            assert(pre.last() == ifaces@[k as int]);
            if take {
                assert(!ips@.contains(a.ip));
            }
        }
        if take {
            ips.push(a.ip);
        }
        k = k + 1;
    }
    proof {
        assert(ifaces@.subrange(0, ifaces@.len() as int) == ifaces@);
    }
    ips
}

fn contains_ip(v: &Vec<Ip>, ip: Ip) -> (r: bool)
    ensures
        r == v@.contains(ip),
{
    let mut j: usize = 0;
    while j < v.len()
        invariant
            j <= v@.len(),
            forall|m: int| 0 <= m < j ==> v@[m] != ip,
        decreases v.len() - j,
    {
        if v[j] == ip {
            return true;
        }
        j = j + 1;
    }
    false
}

/// The dotted-quad text of an IPv4 address.
pub open spec fn v4_text(x: u32) -> Seq<char> {
    dec((x / 0x100_0000) as nat) + "."@ + dec(((x / 0x1_0000) % 256) as nat) + "."@ + dec(
        ((x / 0x100) % 256) as nat,
    ) + "."@ + dec((x % 256) as nat)
}

/// An address with the text that shows an IPv6 address (`Ipv6Addr`'s
/// `Display`, which the caller supplies; it is not read for IPv4).
pub struct ShownIp {
    pub ip: Ip,
    pub v6_text: String,
}

/// `http://{host}:{port}`, an IPv6 host in brackets.
pub open spec fn url_for(a: ShownIp, port: u16) -> Seq<char> {
    match a.ip {
        Ip::V4(x) => "http://"@ + v4_text(x) + ":"@ + dec(port as nat),
        Ip::V6(_) => "http://["@ + a.v6_text@ + "]:"@ + dec(port as nat),
    }
}

/// The URL of a server on an address and `port`.
pub fn ip_url(a: &ShownIp, port: u16) -> (s: String)
    ensures
        s@ == url_for(*a, port),
{
    let ip = a.ip;
    let mut v: Vec<char> = Vec::new();
    match ip {
        Ip::V4(x) => {
            push_str(&mut v, "http://");
            push_all(&mut v, dec_chars((x / 0x100_0000) as u64).as_slice());
            push_str(&mut v, ".");
            push_all(&mut v, dec_chars(((x / 0x1_0000) % 256) as u64).as_slice());
            push_str(&mut v, ".");
            push_all(&mut v, dec_chars(((x / 0x100) % 256) as u64).as_slice());
            push_str(&mut v, ".");
            push_all(&mut v, dec_chars((x % 256) as u64).as_slice());
            push_str(&mut v, ":");
        },
        Ip::V6(x) => {
            push_str(&mut v, "http://[");
            push_str(&mut v, a.v6_text.as_str());
            push_str(&mut v, "]:");
        },
    }
    push_all(&mut v, dec_chars(port as u64).as_slice());
    string_from_chars(v.as_slice())
}

/// The URLs a server is reachable on: for a wildcard bind, the loopback URL
/// and one per listed address; else the URL of the bind address itself.
pub open spec fn listen_urls_spec(bind: Seq<char>, port: u16, ips: Seq<ShownIp>) -> Seq<Seq<char>> {
    if bind == "0.0.0.0"@ || bind == "::"@ {
        seq!["http://127.0.0.1:"@ + dec(port as nat)] + Seq::new(
            ips.len(),
            |i: int| url_for(ips[i], port),
        )
    } else {
        seq!["http://"@ + bind + ":"@ + dec(port as nat)]
    }
}

/// Lists the URLs a server bound to `bind` and listening on `port` is
/// reachable on, given the machine's listed addresses.
pub fn listen_urls(bind: &str, port: u16, ips: &Vec<ShownIp>) -> (r: Vec<String>)
    ensures
        r@.len() == listen_urls_spec(bind@, port, ips@).len(),
        forall|i: int| 0 <= i < r@.len() ==> #[trigger] r@[i]@ == listen_urls_spec(bind@, port, ips@)[i],
{
    let b = chars_of(bind);
    let mut out: Vec<String> = Vec::new();
    let pd = dec_chars(port as u64);
    if chars_eq_str(b.as_slice(), "0.0.0.0") || chars_eq_str(b.as_slice(), "::") {
        let mut v: Vec<char> = Vec::new();
        push_str(&mut v, "http://127.0.0.1:");
        push_all(&mut v, pd.as_slice());
        out.push(string_from_chars(v.as_slice()));
        let mut k: usize = 0;
        while k < ips.len()
            invariant
                k <= ips@.len(),
                bind@ == "0.0.0.0"@ || bind@ == "::"@,
                out@.len() == k + 1,
                out@[0]@ == "http://127.0.0.1:"@ + dec(port as nat),
                forall|i: int| 1 <= i <= k ==> #[trigger] out@[i]@ == url_for(ips@[i - 1], port),
            decreases ips.len() - k,
        {
            out.push(ip_url(&ips[k], port));
            k = k + 1;
        }
    } else {
        let mut v: Vec<char> = Vec::new();
        push_str(&mut v, "http://");
        push_str(&mut v, bind);
        push_str(&mut v, ":");
        push_all(&mut v, pd.as_slice());
        out.push(string_from_chars(v.as_slice()));
    }
    out
}

} // verus!
