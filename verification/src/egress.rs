//! Where the guest may connect to: address ranges, host names, and the
//! resolvers that the names are asked of.

use vstd::prelude::*;
use vstd::string::{StrSliceExecFns, StringExecFns};

use crate::config::{texts_in, IpAddr, Settings, VsockConfig};
use crate::contexts::{
    array_of, array_texts, changed, refused, utf8, utf8_text, utf8_texts, Contexts, Ctxs, Outcome,
    MAX_ARGS,
};
use crate::control::{number_of, parse_number};
use crate::errno::Errno;
use crate::guest::slice_in;
use crate::snapshot::{find_code, position};

verus! {

/// The items that are looked at: [`MAX_ARGS`] at most.
pub open spec fn capped<T>(s: Seq<T>) -> Seq<T> {
    s.take(if s.len() < MAX_ARGS { s.len() as int } else { MAX_ARGS as int })
}

/// The number of items that are looked at.
fn cap(n: usize) -> (r: usize)
    ensures
        r == if n < MAX_ARGS { n } else { MAX_ARGS },
{
    if n < MAX_ARGS {
        n
    } else {
        MAX_ARGS
    }
}

// ---------------------------------------------------------------------------
// Address ranges.
// ---------------------------------------------------------------------------

/// The part of a range that is its address: all up to a slash.
pub open spec fn address_part_of(text: Seq<char>) -> Seq<char> {
    text.subrange(0, find_code(text, 0x2f, 0))
}

/// The part of a range that is its address, where the range is text.
pub fn address_part(range: &[u8]) -> (r: Option<String>)
    ensures
        match utf8_text(range@) {
            Some(text) => r is Some && r->0@ == address_part_of(text),
            None => r is None,
        },
{
    match utf8(range) {
        Some(text) => {
            let s = text.as_str();
            let n: usize = s.unicode_len();
            let e: usize = position(s, 0x2f, 0, n);
            Some(String::from_str(s.substring_char(0, e)))
        },
        None => None,
    }
}

/// The bits of the address.
pub open spec fn width(ip: IpAddr) -> u8 {
    match ip {
        IpAddr::V4(_) => 32,
        IpAddr::V6(_) => 128,
    }
}

fn bits_of(ip: IpAddr) -> (r: u8)
    ensures
        r == width(ip),
{
    match ip {
        IpAddr::V4(_) => 32,
        IpAddr::V6(_) => 128,
    }
}

/// A range: an address, and the number of its bits that count. Without a
/// number all of them do. `address` is what the address part reads as.
pub open spec fn cidr_of(text: Seq<char>, address: Option<IpAddr>) -> Option<(IpAddr, u8)> {
    match address {
        None => None,
        Some(ip) => {
            let e = find_code(text, 0x2f, 0);
            if e >= text.len() {
                Some((ip, width(ip)))
            } else {
                match number_of(text.skip(e + 1), u8::MAX as nat) {
                    Some(prefix) => if prefix <= width(ip) {
                        Some((ip, prefix as u8))
                    } else {
                        None
                    },
                    None => None,
                }
            }
        },
    }
}

fn read_cidr(s: &str, address: Option<IpAddr>) -> (r: Option<(IpAddr, u8)>)
    ensures
        r == cidr_of(s@, address),
{
    let n: usize = s.unicode_len();
    let e: usize = position(s, 0x2f, 0, n);
    let ip: IpAddr = match address {
        Some(ip) => ip,
        None => return None,
    };
    if e >= n {
        return Some((ip, bits_of(ip)));
    }
    let rest = s.substring_char(e + 1, n);
    assert(rest@ =~= s@.skip(e + 1));
    match parse_number(rest, 255) {
        Some(prefix) => if prefix <= bits_of(ip) as u64 {
            Some((ip, prefix as u8))
        } else {
            None
        },
        None => None,
    }
}

/// A range as it was written, and the address that its address part reads as.
pub open spec fn range_of(item: (Vec<u8>, Option<IpAddr>)) -> Option<(IpAddr, u8)> {
    match utf8_text(item.0@) {
        Some(text) => cidr_of(text, item.1),
        None => None,
    }
}

/// The ranges, where all of them are valid.
pub open spec fn ranges_of(items: Seq<(Vec<u8>, Option<IpAddr>)>) -> Option<Seq<(IpAddr, u8)>> {
    if forall|i: int| 0 <= i < items.len() ==> range_of(#[trigger] items[i]) is Some {
        Some(items.map_values(|item: (Vec<u8>, Option<IpAddr>)| range_of(item)->0))
    } else {
        None
    }
}

/// The ranges of a list, where all of them are valid.
pub fn parse_egress_cidrs(items: &[(Vec<u8>, Option<IpAddr>)]) -> (r: Option<Vec<(IpAddr, u8)>>)
    ensures
        match ranges_of(capped(items@)) {
            Some(ranges) => r is Some && r->0@ == ranges,
            None => r is None,
        },
{
    let n: usize = cap(items.len());
    let ghost all = capped(items@);
    let mut out: Vec<(IpAddr, u8)> = Vec::new();
    let mut i: usize = 0;
    while i < n
        invariant
            i <= n == all.len(),
            n <= items@.len(),
            all == capped(items@),
            forall|k: int| 0 <= k < n ==> #[trigger] all[k] == items@[k],
            out@.len() == i,
            forall|k: int| 0 <= k < i ==> range_of(#[trigger] all[k]) == Some(out@[k]),
        decreases n - i,
    {
        let range = match utf8(items[i].0.as_slice()) {
            Some(text) => read_cidr(text.as_str(), items[i].1),
            None => None,
        };
        assert(range == range_of(all[i as int]));
        match range {
            Some(v) => out.push(v),
            None => return None,
        }
        i += 1;
    }
    assert(out@ =~= all.map_values(|item: (Vec<u8>, Option<IpAddr>)| range_of(item)->0));
    Some(out)
}

// ---------------------------------------------------------------------------
// Host names.
// ---------------------------------------------------------------------------

/// The text without the dots at its end.
pub open spec fn undotted(s: Seq<char>) -> Seq<char>
    decreases s.len(),
{
    if s.len() > 0 && s.last() as u32 == 0x2e {
        undotted(s.drop_last())
    } else {
        s
    }
}

/// The character, in lower case where it is an ASCII letter.
pub open spec fn lower(c: char) -> char {
    if 0x41 <= c as u32 <= 0x5a {
        "abcdefghijklmnopqrstuvwxyz"@[c as u32 - 0x41]
    } else {
        c
    }
}

/// A host name: lower case, without dots at its end. It is not empty, and has
/// no colon.
pub open spec fn host_of(text: Seq<char>) -> Option<Seq<char>> {
    let name = undotted(text).map_values(|c: char| lower(c));
    if name.len() == 0 || find_code(name, 0x3a, 0) < name.len() {
        None
    } else {
        Some(name)
    }
}

/// The names, where all of them are valid.
pub open spec fn hosts_of(texts: Seq<Seq<char>>) -> Option<Seq<Seq<char>>> {
    if forall|i: int| 0 <= i < texts.len() ==> host_of(#[trigger] texts[i]) is Some {
        Some(texts.map_values(|t: Seq<char>| host_of(t)->0))
    } else {
        None
    }
}

fn lowered(s: &str, n: usize) -> (r: String)
    requires
        n <= s@.len(),
    ensures
        r@ == s@.take(n as int).map_values(|c: char| lower(c)),
{
    let letters = "abcdefghijklmnopqrstuvwxyz";
    proof {
        reveal_strlit("abcdefghijklmnopqrstuvwxyz");
        reveal_strlit("");
    }
    let mut out = String::from_str("");
    let mut i: usize = 0;
    while i < n
        invariant
            i <= n <= s@.len(),
            letters@ == "abcdefghijklmnopqrstuvwxyz"@,
            letters@.len() == 26,
            out@.len() == i,
            forall|k: int| 0 <= k < i ==> #[trigger] out@[k] == lower(s@[k]),
        decreases n - i,
    {
        let c: u32 = s.get_char(i) as u32;
        let ghost before = out@;
        if 0x41 <= c && c <= 0x5a {
            let k: usize = (c - 0x41) as usize;
            let piece = letters.substring_char(k, k + 1);
            out.append(piece);
            assert(out@ =~= before.push(lower(s@[i as int])));
        } else {
            let piece = s.substring_char(i, i + 1);
            out.append(piece);
            assert(out@ =~= before.push(lower(s@[i as int])));
        }
        i += 1;
    }
    assert(out@ =~= s@.take(n as int).map_values(|c: char| lower(c)));
    out
}

fn read_host(s: &str) -> (r: Option<String>)
    ensures
        match host_of(s@) {
            Some(name) => r is Some && r->0@ == name,
            None => r is None,
        },
{
    let mut n: usize = s.unicode_len();
    assert(s@.take(n as int) =~= s@);
    while n > 0 && s.get_char(n - 1) as u32 == 0x2e
        invariant
            n <= s@.len(),
            undotted(s@) == undotted(s@.take(n as int)),
        decreases n,
    {
        assert(s@.take(n as int).drop_last() =~= s@.take(n - 1));
        n -= 1;
    }
    assert(undotted(s@) == s@.take(n as int));
    let name = lowered(s, n);
    if n == 0 || position(name.as_str(), 0x3a, 0, n) < n {
        return None;
    }
    Some(name)
}

/// The names of a list, where all of them are valid.
pub fn parse_egress_hosts(items: &[Vec<u8>]) -> (r: Option<Vec<String>>)
    ensures
        match utf8_texts(array_of(items@)) {
            Some(texts) => match hosts_of(texts) {
                Some(names) => r is Some && texts_in(r->0@) == names,
                None => r is None,
            },
            None => r is None,
        },
{
    let texts: Vec<String> = match array_texts(items) {
        Some(v) => v,
        None => return None,
    };
    let ghost all = texts_in(texts@);
    let mut out: Vec<String> = Vec::new();
    let mut i: usize = 0;
    while i < texts.len()
        invariant
            i <= texts@.len() == all.len(),
            all == texts_in(texts@),
            utf8_texts(array_of(items@)) == Some(all),
            out@.len() == i,
            forall|k: int| 0 <= k < i ==> host_of(#[trigger] all[k]) == Some(out@[k]@),
        decreases texts@.len() - i,
    {
        match read_host(texts[i].as_str()) {
            Some(name) => out.push(name),
            None => {
                assert(host_of(all[i as int]) is None);
                return None;
            },
        }
        i += 1;
    }
    assert(texts_in(out@) =~= all.map_values(|t: Seq<char>| host_of(t)->0));
    Some(out)
}

// ---------------------------------------------------------------------------
// Resolvers.
// ---------------------------------------------------------------------------

/// The addresses, where all of them could be read.
pub open spec fn addresses_of(items: Seq<Option<IpAddr>>) -> Option<Seq<IpAddr>> {
    if forall|i: int| 0 <= i < items.len() ==> #[trigger] items[i] is Some {
        Some(items.map_values(|a: Option<IpAddr>| a->0))
    } else {
        None
    }
}

/// The resolvers of a list, each given as what it reads as.
pub fn parse_egress_resolvers(items: &[Option<IpAddr>]) -> (r: Option<Vec<IpAddr>>)
    ensures
        match addresses_of(capped(items@)) {
            Some(addresses) => r is Some && r->0@ == addresses,
            None => r is None,
        },
{
    let n: usize = cap(items.len());
    let ghost all = capped(items@);
    let mut out: Vec<IpAddr> = Vec::new();
    let mut i: usize = 0;
    while i < n
        invariant
            i <= n == all.len(),
            n <= items@.len(),
            all == capped(items@),
            forall|k: int| 0 <= k < n ==> #[trigger] all[k] == items@[k],
            out@.len() == i,
            forall|k: int| 0 <= k < i ==> #[trigger] all[k] == Some(out@[k]),
        decreases n - i,
    {
        match items[i] {
            Some(a) => out.push(a),
            None => {
                assert(all[i as int] is None);
                return None;
            },
        }
        i += 1;
    }
    assert(out@ =~= all.map_values(|a: Option<IpAddr>| a->0));
    Some(out)
}

// ---------------------------------------------------------------------------
// The policy.
// ---------------------------------------------------------------------------

/// A list, where one was given, is valid as a whole or not at all.
pub open spec fn listed<T, U>(items: Option<Seq<T>>, f: spec_fn(Seq<T>) -> Option<Seq<U>>) -> Option<
    Option<Seq<U>>,
> {
    match items {
        None => Some(None),
        Some(s) => match f(s) {
            Some(v) => Some(Some(v)),
            None => None,
        },
    }
}

/// Whether there is something in the list.
pub open spec fn present<T>(list: Option<Seq<T>>) -> bool {
    list matches Some(v) && v.len() > 0
}

pub open spec fn egress_policy_set(
    c: Ctxs,
    id: u32,
    cidrs: Option<Seq<(Vec<u8>, Option<IpAddr>)>>,
    hosts: Option<Seq<Vec<u8>>>,
    resolvers: Option<Seq<Option<IpAddr>>>,
) -> Outcome {
    match (
        listed(cidrs, |s: Seq<(Vec<u8>, Option<IpAddr>)>| ranges_of(capped(s))),
        listed(
            hosts,
            |s: Seq<Vec<u8>>|
                match utf8_texts(array_of(s)) {
                    Some(texts) => hosts_of(texts),
                    None => None,
                },
        ),
        listed(resolvers, |s: Seq<Option<IpAddr>>| addresses_of(capped(s))),
    ) {
        (Some(cidrs), Some(hosts), Some(resolvers)) => if cidrs is None && hosts is None {
            refused(c, Errno::Inval)
        } else if present(hosts) && !present(resolvers) {
            refused(c, Errno::Inval)
        } else {
            changed(
                c,
                id,
                |s: Settings|
                    if s.vsock_config == VsockConfig::Disabled {
                        Err(Errno::NoDev)
                    } else {
                        Ok(
                            (
                                Settings {
                                    egress_cidrs: cidrs,
                                    egress_hosts: hosts,
                                    egress_resolvers: resolvers,
                                    ..s
                                },
                                0i32,
                            ),
                        )
                    },
            )
        },
        _ => refused(c, Errno::Inval),
    }
}

/// The ranges, where a list was given.
pub open spec fn cidrs_in(o: Option<&[(Vec<u8>, Option<IpAddr>)]>) -> Option<
    Seq<(Vec<u8>, Option<IpAddr>)>,
> {
    match o {
        Some(s) => Some(s@),
        None => None,
    }
}

/// The addresses, where a list was given.
pub open spec fn addresses_in(o: Option<&[Option<IpAddr>]>) -> Option<Seq<Option<IpAddr>>> {
    match o {
        Some(s) => Some(s@),
        None => None,
    }
}

/// Set where the guest may connect to: ranges, each with what its address part
/// reads as; host names; and resolvers, each as what it reads as. Names are
/// allowed only together with resolvers to ask them of, as the guest could
/// otherwise say what a name stands for.
pub fn krun_set_egress_policy(
    ctxs: &mut Contexts,
    ctx_id: u32,
    cidrs: Option<&[(Vec<u8>, Option<IpAddr>)]>,
    hosts: Option<&[Vec<u8>]>,
    resolvers: Option<&[Option<IpAddr>]>,
) -> (r: Result<i32, Errno>)
    ensures
        (final(ctxs)@, r) == egress_policy_set(
            old(ctxs)@,
            ctx_id,
            cidrs_in(cidrs),
            slice_in(hosts),
            addresses_in(resolvers),
        ),
{
    let cidrs: Option<Vec<(IpAddr, u8)>> = match cidrs {
        Some(items) => match parse_egress_cidrs(items) {
            Some(v) => Some(v),
            None => return Err(Errno::Inval),
        },
        None => None,
    };
    let hosts: Option<Vec<String>> = match hosts {
        Some(items) => match parse_egress_hosts(items) {
            Some(v) => Some(v),
            None => return Err(Errno::Inval),
        },
        None => None,
    };
    let resolvers: Option<Vec<IpAddr>> = match resolvers {
        Some(items) => match parse_egress_resolvers(items) {
            Some(v) => Some(v),
            None => return Err(Errno::Inval),
        },
        None => None,
    };
    if cidrs.is_none() && hosts.is_none() {
        return Err(Errno::Inval);
    }
    let hosts_present: bool = match &hosts {
        Some(v) => v.len() > 0,
        None => false,
    };
    let resolvers_present: bool = match &resolvers {
        Some(v) => v.len() > 0,
        None => false,
    };
    if hosts_present && !resolvers_present {
        return Err(Errno::Inval);
    }
    match ctxs.find(ctx_id) {
        Some(c) => {
            if c.vsock_config == VsockConfig::Disabled {
                return Err(Errno::NoDev);
            }
            c.egress_cidrs = cidrs;
            c.egress_hosts = hosts;
            c.egress_resolvers = resolvers;
            Ok(0)
        },
        None => Err(Errno::NoEnt),
    }
}

/// A policy that was accepted allows no name without a resolver, and no range
/// with more bits than its address.
pub proof fn accepted_policies_are_safe(
    c: Ctxs,
    id: u32,
    cidrs: Option<Seq<(Vec<u8>, Option<IpAddr>)>>,
    hosts: Option<Seq<Vec<u8>>>,
    resolvers: Option<Seq<Option<IpAddr>>>,
)
    ensures
        ({
            let r = egress_policy_set(c, id, cidrs, hosts, resolvers);
            let s = r.0.settings[id];
            r.1 is Ok ==> {
                &&& present(s.egress_hosts) ==> present(s.egress_resolvers)
                &&& s.egress_cidrs matches Some(v) ==> forall|i: int|
                    0 <= i < v.len() ==> (#[trigger] v[i]).1 <= width(v[i].0)
            }
        }),
{
    if let Some(items) = cidrs {
        let all = capped(items);
        if let Some(v) = ranges_of(all) {
            assert forall|i: int| 0 <= i < v.len() implies (#[trigger] v[i]).1 <= width(v[i].0) by {
                assert(range_of(all[i]) is Some);
            }
        }
    }
}

} // verus!
