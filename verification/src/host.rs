//! The host side: public addresses of an interface, whether they follow the
//! advertised prefix, and the texts of `ip` commands and radvd settings.

use crate::ipv6::{
    address_bit, is_link_local_address, is_unique_local_address, lemma_starts_with_prefix_bits,
    link_local_prefix, starts_with_prefix, unique_local_prefix,
};
use vstd::prelude::*;
use vstd::string::StringExecFns;

verus! {

/// An address that an interface carries, as far as the helper looks at it.
#[derive(Clone, Copy, Debug)]
pub enum InterfaceAddress {
    V4,
    V6 { address: [u16; 8], prefix_length: u8 },
}

/// Whether the IPv6 address is public: neither link-local nor unique local.
pub open spec fn is_public(address: Seq<u16>) -> bool {
    !starts_with_prefix(address, link_local_prefix(), 10) && !starts_with_prefix(
        address,
        unique_local_prefix(),
        7,
    )
}

/// The public IPv6 addresses among `addresses`, with their prefix lengths, in
/// their order.
pub open spec fn public_ipv6_addresses(addresses: Seq<InterfaceAddress>) -> Seq<([u16; 8], u8)>
    decreases addresses.len(),
{
    if addresses.len() == 0 {
        Seq::empty()
    } else {
        let rest = public_ipv6_addresses(addresses.drop_last());
        match addresses.last() {
            InterfaceAddress::V6 { address, prefix_length } => {
                if is_public(address@) {
                    rest.push((address, prefix_length))
                } else {
                    rest
                }
            },
            InterfaceAddress::V4 => rest,
        }
    }
}

/// Lists the public IPv6 addresses of an interface, given the addresses that
/// the interface carries, or `None` when no interface of the name exists.
pub fn get_public_ipv6_addr(interface_addresses: Option<&Vec<InterfaceAddress>>) -> (r: Result<
    Vec<([u16; 8], u8)>,
    String,
>)
    ensures
        match interface_addresses {
            None => r matches Err(e) && e@ == "未找到以太网接口"@,
            Some(ips) => r matches Ok(v) && v@ == public_ipv6_addresses(ips@),
        },
{
    let ips = match interface_addresses {
        None => {
            return Err("未找到以太网接口".to_string());
        },
        Some(ips) => ips,
    };
    let mut ipv6s: Vec<([u16; 8], u8)> = Vec::new();
    let mut i: usize = 0;
    while i < ips.len()
        invariant
            i <= ips.len(),
            ipv6s@ == public_ipv6_addresses(ips@.take(i as int)),
        decreases ips.len() - i,
    {
        assert(ips@.take(i + 1).drop_last() =~= ips@.take(i as int));
        match ips[i] {
            InterfaceAddress::V6 { address, prefix_length } => {
                if !is_link_local_address(&address) && !is_unique_local_address(&address) {
                    ipv6s.push((address, prefix_length));
                }
            },
            InterfaceAddress::V4 => {},
        }
        i = i + 1;
    }
    assert(ips@.take(ips.len() as int) =~= ips@);
    Ok(ipv6s)
}

/// The downstream interface needs a new address when it has no public address
/// or one of them lies outside the advertised prefix.
pub open spec fn needs_update(
    addresses: Seq<([u16; 8], u8)>,
    prefix: Seq<u16>,
    prefix_length: int,
) -> bool {
    addresses.len() == 0 || exists|i: int|
        0 <= i < addresses.len() && !starts_with_prefix(
            (#[trigger] addresses[i]).0@,
            prefix,
            prefix_length,
        )
}

/// The downstream interface needs renumbering exactly when it has no public
/// address, or one of its addresses differs from the advertised prefix in one
/// of the first `prefix_length` bits (all 128 for longer lengths): an address
/// outside the advertised network always asks for an update, and one inside
/// it never does.
pub proof fn lemma_needs_update_bits(
    addresses: Seq<([u16; 8], u8)>,
    prefix: Seq<u16>,
    prefix_length: int,
)
    requires
        prefix.len() == 8,
    ensures
        needs_update(addresses, prefix, prefix_length) <==> (addresses.len() == 0 || exists|
            i: int,
            k: int,
        |
            0 <= i < addresses.len() && 0 <= k < prefix_length && k < 128 && address_bit(
                (#[trigger] addresses[i]).0@,
                k,
            ) != #[trigger] address_bit(prefix, k)),
{
    assert forall|i: int| 0 <= i < addresses.len() implies (!starts_with_prefix(
        (#[trigger] addresses[i]).0@,
        prefix,
        prefix_length,
    ) <==> exists|k: int|
        0 <= k < prefix_length && k < 128 && address_bit(addresses[i].0@, k)
            != #[trigger] address_bit(prefix, k)) by {
        lemma_starts_with_prefix_bits(addresses[i].0@, prefix, prefix_length);
    }
}

/// Decides whether the public addresses of the downstream interface must be
/// replaced to follow the advertised prefix.
pub fn need_update(addresses: &Vec<([u16; 8], u8)>, prefix: &[u16; 8], prefix_length: u8) -> (r:
    bool)
    ensures
        r == needs_update(addresses@, prefix@, prefix_length as int),
{
    let mut need_update = true;
    let mut i: usize = 0;
    while i < addresses.len()
        invariant_except_break
            i <= addresses.len(),
            forall|j: int|
                0 <= j < i ==> starts_with_prefix(
                    (#[trigger] addresses@[j]).0@,
                    prefix@,
                    prefix_length as int,
                ),
            need_update == (i == 0),
        ensures
            need_update == needs_update(addresses@, prefix@, prefix_length as int),
        decreases addresses.len() - i,
    {
        need_update = false;
        if !crate::ipv6::ipv6_start_with_prefix(&addresses[i].0, prefix, prefix_length) {
            need_update = true;
            assert(!starts_with_prefix(addresses@[i as int].0@, prefix@, prefix_length as int));
            break;
        }
        i = i + 1;
    }
    need_update
}


/// The decimal digit character of `d`.
pub open spec fn digit_char(d: nat) -> char {
    (48 + d) as char
}

/// The decimal notation of `n`, without leading zeros.
pub open spec fn decimal(n: nat) -> Seq<char>
    decreases n,
{
    if n < 10 {
        seq![digit_char(n)]
    } else {
        decimal(n / 10).push(digit_char(n % 10))
    }
}

/// The decimal notation of the signed number `n`.
pub open spec fn signed_decimal(n: int) -> Seq<char> {
    if n < 0 {
        seq!['-'] + decimal((-n) as nat)
    } else {
        decimal(n as nat)
    }
}

/// Calls `String::push`, which appends the character `c` to `s`.
#[verifier::external_body]
pub(crate) fn push_char(s: &mut String, c: char)
    ensures
        final(s)@ == old(s)@.push(c),
{
    s.push(c)
}

/// Appends the decimal notation of `n`.
pub(crate) fn push_decimal(s: &mut String, n: u64)
    ensures
        final(s)@ == old(s)@ + decimal(n as nat),
    decreases n,
{
    if n >= 10 {
        push_decimal(s, n / 10);
    }
    let d = (n % 10) as u8;
    push_char(s, (48u8 + d) as char);
    assert(digit_char((n % 10) as nat) == (48u8 + d) as char);
}

/// The text `address/prefix_length` naming a network, given the address
/// already written out.
pub open spec fn cidr(address_text: Seq<char>, prefix_length: u8) -> Seq<char> {
    address_text + "/"@ + decimal(prefix_length as nat)
}

/// Writes `address/prefix_length`.
pub fn cidr_text(address_text: &str, prefix_length: u8) -> (r: String)
    ensures
        r@ == cidr(address_text@, prefix_length),
{
    let mut s = address_text.to_string();
    s.append("/");
    push_decimal(&mut s, prefix_length as u64);
    s
}

/// The radvd configuration that advertises `prefix_text/prefix_length` on
/// `interface_name`, with managed addressing.
pub open spec fn radvd_config(interface_name: Seq<char>, prefix_text: Seq<char>, prefix_length: u8) -> Seq<char> {
    "interface "@ + interface_name
        + "\n{\n    MinRtrAdvInterval 3;\n    MaxRtrAdvInterval 4;\n    AdvSendAdvert on;\n    AdvManagedFlag on;\n    prefix "@
        + cidr(prefix_text, prefix_length)
        + " \n    {\n        AdvValidLifetime 14300; \n        AdvPreferredLifetime 14200; \n    };\n};"@
}

/// Writes the radvd configuration for the given interface and prefix.
pub fn radvd_config_text(interface_name: &str, prefix: &str, prefix_length: u8) -> (r: String)
    ensures
        r@ == radvd_config(interface_name@, prefix@, prefix_length),
{
    let mut config = "interface ".to_string();
    config.append(interface_name);
    config.append(
        "\n{\n    MinRtrAdvInterval 3;\n    MaxRtrAdvInterval 4;\n    AdvSendAdvert on;\n    AdvManagedFlag on;\n    prefix ",
    );
    let network = cidr_text(prefix, prefix_length);
    config.append(network.as_str());
    config.append(
        " \n    {\n        AdvValidLifetime 14300; \n        AdvPreferredLifetime 14200; \n    };\n};",
    );
    config
}

/// Judges the exit of `systemctl restart radvd`: success only on exit code 0.
pub fn radvd_restart_result(code: Option<i32>) -> (r: Result<(), String>)
    ensures
        match code {
            Some(0) => r is Ok,
            Some(c) => r matches Err(e) && e@ == "systemctl restart radvd failed: "@ + signed_decimal(
                c as int,
            ),
            None => r matches Err(e) && e@ == "systemctl restart radvd failed"@,
        },
{
    match code {
        Some(0) => Ok(()),
        Some(c) => {
            let mut e = "systemctl restart radvd failed: ".to_string();
            if c < 0 {
                push_char(&mut e, '-');
                let magnitude: u64 = (-(c as i64)) as u64;
                push_decimal(&mut e, magnitude);
            } else {
                push_decimal(&mut e, c as u64);
            }
            Err(e)
        },
        None => Err("systemctl restart radvd failed".to_string()),
    }
}

/// What an `ip -6` command acts on.
#[derive(Clone, Copy, Debug)]
pub enum IpObject {
    Addr,
    Route,
}

/// What an `ip -6` command does.
#[derive(Clone, Copy, Debug)]
pub enum IpAction {
    Add,
    Del,
}

/// The arguments of `ip -6 <object> <action> <network> dev <interface>`;
/// added routes get metric 100.
pub open spec fn ip_args(object: IpObject, action: IpAction, network: Seq<char>, interface: Seq<char>) -> Seq<Seq<char>> {
    let head = seq![
        "-6"@,
        match object {
            IpObject::Addr => "addr"@,
            IpObject::Route => "route"@,
        },
        match action {
            IpAction::Add => "add"@,
            IpAction::Del => "del"@,
        },
        network,
        "dev"@,
        interface,
    ];
    if object is Route && action is Add {
        head + seq!["metric"@, "100"@]
    } else {
        head
    }
}

/// Builds the argument list of an `ip -6` command on the network
/// `network` (written `address/length`) and the interface `interface`.
pub fn ip_command_args(object: IpObject, action: IpAction, network: &str, interface: &str) -> (r: Vec<String>)
    ensures
        r@.len() == ip_args(object, action, network@, interface@).len(),
        forall|i: int| 0 <= i < r@.len() ==> #[trigger] r@[i]@ == ip_args(object, action, network@, interface@)[i],
{
    let mut args: Vec<String> = Vec::new();
    args.push("-6".to_string());
    match object {
        IpObject::Addr => args.push("addr".to_string()),
        IpObject::Route => args.push("route".to_string()),
    }
    match action {
        IpAction::Add => args.push("add".to_string()),
        IpAction::Del => args.push("del".to_string()),
    }
    args.push(network.to_string());
    args.push("dev".to_string());
    args.push(interface.to_string());
    match (object, action) {
        (IpObject::Route, IpAction::Add) => {
            args.push("metric".to_string());
            args.push("100".to_string());
        },
        _ => {},
    }
    args
}


/// Judges how a command went: `Ok((success, status, stderr))` when it ran,
/// with whether it succeeded, its exit status written out and its error
/// output; `Err(e)` when it could not be started.
pub fn command_result(ran: Result<(bool, String, String), String>) -> (r: Result<(), String>)
    ensures
        match ran {
            Ok((true, _, _)) => r is Ok,
            Ok((false, status, stderr)) => r matches Err(e) && e@ == "Command failed with status "@
                + status@ + ": "@ + stderr@,
            Err(e) => r matches Err(m) && m@ == "Failed to execute process: "@ + e@,
        },
{
    match ran {
        Ok((true, _, _)) => Ok(()),
        Ok((false, status, stderr)) => {
            let mut e = "Command failed with status ".to_string();
            e.append(status.as_str());
            e.append(": ");
            e.append(stderr.as_str());
            Err(e)
        },
        Err(e) => {
            let mut m = "Failed to execute process: ".to_string();
            m.append(e.as_str());
            Err(m)
        },
    }
}

/// The addresses to remove from an interface, given the listing of its
/// public addresses; a failed listing is reported as such.
pub fn deletion_targets(listed: Result<Vec<([u16; 8], u8)>, String>) -> (r: Result<
    Vec<([u16; 8], u8)>,
    String,
>)
    ensures
        match listed {
            Ok(v) => r == Ok::<Vec<([u16; 8], u8)>, String>(v),
            Err(e) => r matches Err(m) && m@ == "获取IPv6地址失败: "@ + e@,
        },
{
    match listed {
        Ok(v) => Ok(v),
        Err(e) => {
            let mut m = "获取IPv6地址失败: ".to_string();
            m.append(e.as_str());
            Err(m)
        },
    }
}

} // verus!
