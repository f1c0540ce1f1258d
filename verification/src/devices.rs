//! Bridge/veth provisioning over an explicit device-table model of the
//! host: a bridge per logical network is created or reused, a veth pair is
//! wired between host and namespace, and addressing is assigned from the
//! network's subnet. This is the only component that mutates device state.

use crate::hash::{
    digest_of, format_mac, mac_of, pair_bytes_of, pair_digest, pair_token, pair_token_of, token_of,
};
use crate::ip::{
    addr_bytes, addr_bytes_s, check_ips, fmt_cidr, fmt_cidr_s, ips_ok_s, parse_cidr, parse_cidr_s,
    parse_ipv4, parse_ipv4_s, pick_addr, pick_addr_s, Subnet,
};
use crate::types::{
    InterfaceStatus, InterfaceStatusV, NetAddress, NetAddressV, NetworkDefinition,
    NetworkDefinitionV, PerNetworkOptions, PerNetworkOptionsV, ProvisionFailure, SetupError,
    SetupErrorV, StatusBlock, StatusBlockV,
};
use vstd::prelude::*;
use vstd::string::*;

verus! {

/// The bytes of a character sequence, as `str::as_bytes` yields them.
pub open spec fn chars_bytes_s(s: Seq<char>) -> Seq<u8> {
    vstd::utf8::encode_utf8(s)
}

/// The identity token of the network called `name`.
pub open spec fn name_token_s(name: Seq<char>) -> Seq<char> {
    token_of(chars_bytes_s(name))
}

/// The token naming a container's host-side veth end.
pub open spec fn veth_token_s(cid: Seq<char>, name: Seq<char>) -> Seq<char> {
    pair_token_of(chars_bytes_s(cid), chars_bytes_s(name))
}

/// What a created device is.
#[derive(Clone, Copy, Debug, PartialEq, Eq, Structural)]
pub enum DeviceKind {
    Bridge,
    Veth,
}

/// Which side of the namespace boundary a device sits on.
#[derive(Clone, Copy, Debug, PartialEq, Eq, Structural)]
pub enum Location {
    Host,
    Namespace,
}

/// One kernel network device in the model: name, kind, where it sits, its
/// assigned (address, prefix) pairs, MAC, the bridge it is attached to,
/// administrative state and MTU.
#[derive(Clone, Debug, PartialEq)]
pub struct Device {
    pub name: String,
    pub kind: DeviceKind,
    pub location: Location,
    pub addresses: Vec<(u32, u8)>,
    pub mac: String,
    pub master: Option<String>,
    pub up: bool,
    pub mtu: u32,
}

pub struct DeviceV {
    pub name: Seq<char>,
    pub kind: DeviceKind,
    pub location: Location,
    pub addresses: Seq<(u32, u8)>,
    pub mac: Seq<char>,
    pub master: Option<Seq<char>>,
    pub up: bool,
    pub mtu: u32,
}

impl View for Device {
    type V = DeviceV;

    open spec fn view(&self) -> DeviceV {
        DeviceV {
            name: self.name@,
            kind: self.kind,
            location: self.location,
            addresses: self.addresses@,
            mac: self.mac@,
            master: match self.master {
                Option::Some(m) => Option::Some(m@),
                Option::None => Option::None,
            },
            up: self.up,
            mtu: self.mtu,
        }
    }
}

/// The mutable host state an invocation works against: the device table
/// and the IPv4-forwarding sysctl.
pub struct HostState {
    pub devices: Vec<Device>,
    pub ip_forward: bool,
}

pub struct HostStateV {
    pub devices: Seq<DeviceV>,
    pub ip_forward: bool,
}

impl View for HostState {
    type V = HostStateV;

    open spec fn view(&self) -> HostStateV {
        HostStateV { devices: devs_view(self.devices@), ip_forward: self.ip_forward }
    }
}

impl HostState {
    /// A host with no devices and forwarding disabled.
    pub fn new() -> (r: Self)
        ensures
            r@.devices == Seq::<DeviceV>::empty(),
            !r@.ip_forward,
    {
        let r = HostState { devices: Vec::new(), ip_forward: false };
        proof {
            assert(r@.devices =~= Seq::<DeviceV>::empty());
        }
        r
    }
}

pub open spec fn devs_view(devs: Seq<Device>) -> Seq<DeviceV> {
    devs.map_values(|d: Device| d@)
}

/// First device with the given name on the given side, if any.
pub open spec fn find_dev_s(devs: Seq<DeviceV>, name: Seq<char>, loc: Location) -> Option<DeviceV>
    decreases devs.len(),
{
    if devs.len() == 0 {
        None
    } else if devs[0].name == name && devs[0].location == loc {
        Some(devs[0])
    } else {
        find_dev_s(devs.drop_first(), name, loc)
    }
}

/// Looks up the first device with this name on the given side.
pub fn find_device<'a>(devs: &'a Vec<Device>, name: &String, loc: Location) -> (r: Option<
    &'a Device,
>)
    ensures
        match r {
            Some(d) => find_dev_s(devs_view(devs@), name@, loc) == Some(d@),
            None => find_dev_s(devs_view(devs@), name@, loc) is None,
        },
{
    let n = devs.len();
    let mut i: usize = 0;
    proof {
        assert(devs_view(devs@).skip(0) =~= devs_view(devs@));
    }
    while i < n
        invariant
            i <= n == devs@.len(),
            find_dev_s(devs_view(devs@), name@, loc) == find_dev_s(
                devs_view(devs@).skip(i as int),
                name@,
                loc,
            ),
        decreases n - i,
    {
        proof {
            assert(devs_view(devs@).skip(i as int)[0] == devs_view(devs@)[i as int]);
            assert(devs_view(devs@).skip(i as int).drop_first() =~= devs_view(devs@).skip(i + 1));
        }
        if devs[i].name.eq(name) && devs[i].location == loc {
            return Some(&devs[i]);
        }
        i = i + 1;
    }
    proof {
        assert(devs_view(devs@).skip(n as int) =~= Seq::<DeviceV>::empty());
    }
    None
}

/// The addresses of one device, without their prefixes.
pub open spec fn dev_addrs_s(d: DeviceV) -> Seq<u32> {
    d.addresses.map_values(|pa: (u32, u8)| pa.0)
}

/// Whether a device's addresses count as visible on the bridge: the
/// bridge itself or anything attached to it.
pub open spec fn on_bridge_s(d: DeviceV, bridge: Seq<char>) -> bool {
    d.name == bridge || d.master == Some(bridge)
}

/// All addresses visible as assigned on the bridge.
pub open spec fn used_addrs_s(devs: Seq<DeviceV>, bridge: Seq<char>) -> Seq<u32>
    decreases devs.len(),
{
    if devs.len() == 0 {
        Seq::empty()
    } else if on_bridge_s(devs[0], bridge) {
        dev_addrs_s(devs[0]) + used_addrs_s(devs.drop_first(), bridge)
    } else {
        used_addrs_s(devs.drop_first(), bridge)
    }
}

/// Collects every address visible as assigned on the named bridge.
pub fn used_addrs(devs: &Vec<Device>, bridge: &String) -> (r: Vec<u32>)
    ensures
        r@ == used_addrs_s(devs_view(devs@), bridge@),
{
    let n = devs.len();
    let mut out: Vec<u32> = Vec::new();
    let mut i: usize = 0;
    proof {
        assert(devs_view(devs@).skip(0) =~= devs_view(devs@));
        assert(out@ + used_addrs_s(devs_view(devs@), bridge@) =~= used_addrs_s(
            devs_view(devs@),
            bridge@,
        ));
    }
    while i < n
        invariant
            i <= n == devs@.len(),
            used_addrs_s(devs_view(devs@), bridge@) == out@ + used_addrs_s(
                devs_view(devs@).skip(i as int),
                bridge@,
            ),
        decreases n - i,
    {
        proof {
            assert(devs_view(devs@).skip(i as int)[0] == devs_view(devs@)[i as int]);
            assert(devs_view(devs@).skip(i as int).drop_first() =~= devs_view(devs@).skip(i + 1));
        }
        let d = &devs[i];
        let on_bridge = d.name.eq(bridge) || match &d.master {
            Option::Some(m) => m.eq(bridge),
            Option::None => false,
        };
        if on_bridge {
            let ghost out_start = out@;
            let m = d.addresses.len();
            let mut j: usize = 0;
            proof {
                assert(dev_addrs_s(d@).take(0) =~= Seq::<u32>::empty());
                assert(out@ =~= out_start + dev_addrs_s(d@).take(0));
            }
            while j < m
                invariant
                    j <= m == d.addresses@.len(),
                    dev_addrs_s(d@).len() == m,
                    out@ == out_start + dev_addrs_s(d@).take(j as int),
                decreases m - j,
            {
                out.push(d.addresses[j].0);
                proof {
                    assert(dev_addrs_s(d@).take(j + 1) =~= dev_addrs_s(d@).take(j as int).push(
                        dev_addrs_s(d@)[j as int],
                    ));
                    assert(out@ =~= out_start + dev_addrs_s(d@).take(j + 1));
                }
                j = j + 1;
            }
            proof {
                assert(dev_addrs_s(d@).take(m as int) =~= dev_addrs_s(d@));
                assert(out@ + used_addrs_s(devs_view(devs@).skip(i + 1), bridge@) =~= (out_start
                    + dev_addrs_s(devs_view(devs@)[i as int])) + used_addrs_s(
                    devs_view(devs@).skip(i + 1),
                    bridge@,
                ));
            }
        }
        i = i + 1;
    }
    proof {
        assert(devs_view(devs@).skip(n as int) =~= Seq::<DeviceV>::empty());
        assert(out@ + Seq::<u32>::empty() =~= out@);
    }
    out
}

/// Static addresses parsed in request order; `None` when any is malformed.
pub open spec fn parse_ips_s(l: Seq<Seq<char>>) -> Option<Seq<u32>>
    decreases l.len(),
{
    if l.len() == 0 {
        Some(Seq::empty())
    } else {
        match parse_ips_s(l.drop_last()) {
            None => None,
            Some(rest) => match parse_ipv4_s(chars_bytes_s(l.last())) {
                None => None,
                Some(v) => Some(rest.push(v)),
            },
        }
    }
}

proof fn lemma_parse_ips_none_extends(l: Seq<Seq<char>>, j: int)
    requires
        0 <= j <= l.len(),
        parse_ips_s(l.take(j)) is None,
    ensures
        parse_ips_s(l) is None,
    decreases l.len() - j,
{
    if j == l.len() {
        assert(l.take(j) =~= l);
    } else {
        assert(l.take(j + 1).drop_last() =~= l.take(j));
        lemma_parse_ips_none_extends(l, j + 1);
    }
}

/// Parses the requested static addresses; `None` when any is malformed.
fn parse_static_ips(ips: &Vec<String>) -> (r: Option<Vec<u32>>)
    ensures
        match r {
            Some(v) => parse_ips_s(ips@.map_values(|s: String| s@)) == Some(v@) && v@.len()
                == ips@.len(),
            None => parse_ips_s(ips@.map_values(|s: String| s@)) is None,
        },
{
    let ghost l = ips@.map_values(|s: String| s@);
    let n = ips.len();
    let mut out: Vec<u32> = Vec::new();
    let mut i: usize = 0;
    proof {
        assert(l.take(0) =~= Seq::<Seq<char>>::empty());
        assert(out@ =~= Seq::<u32>::empty());
    }
    while i < n
        invariant
            i <= n == ips@.len(),
            l == ips@.map_values(|s: String| s@),
            parse_ips_s(l.take(i as int)) == Some(out@),
            out@.len() == i,
        decreases n - i,
    {
        proof {
            assert(l.take(i + 1).drop_last() =~= l.take(i as int));
            assert(l.take(i + 1).last() == l[i as int]);
        }
        match parse_ipv4(ips[i].as_str()) {
            Some(v) => {
                out.push(v);
            },
            None => {
                proof {
                    lemma_parse_ips_none_extends(l, i + 1);
                }
                return None;
            },
        }
        i = i + 1;
    }
    proof {
        assert(l.take(n as int) =~= l);
    }
    Some(out)
}

/// The device MTU a definition asks for, with the conventional default.
pub open spec fn mtu_s(def: NetworkDefinitionV) -> u32 {
    match def.mtu {
        Some(m) => m,
        None => 1500u32,
    }
}

/// The bridge device name: the definition's hint, or derived from the
/// network's token.
pub open spec fn bridge_name_s(def: NetworkDefinitionV, tok: Seq<char>) -> Seq<char> {
    match def.bridge_name {
        Some(n) => n,
        None => "vk-"@ + tok,
    }
}

/// The host-side veth device name, derived from container and network.
pub open spec fn veth_name_s(cid: Seq<char>, name: Seq<char>) -> Seq<char> {
    "ve-"@ + veth_token_s(cid, name)
}

/// The MAC rendered for a device owning `a`: a fixed locally-administered
/// leading byte, the four address bytes, and a role byte.
pub open spec fn addr_mac_s(a: u32, tail: u8) -> Seq<char> {
    mac_of(seq![0x5au8] + addr_bytes_s(a) + seq![tail])
}

/// The MAC of a host-side veth end, from the pair digest.
pub open spec fn veth_mac_s(cid: Seq<char>, name: Seq<char>) -> Seq<char> {
    mac_of(digest_of(pair_bytes_of(chars_bytes_s(cid), chars_bytes_s(name))))
}

/// Renders the MAC for a device owning address `a` with role byte `tail`.
fn mac_from_addr(a: u32, tail: u8) -> (r: String)
    ensures
        r@ == addr_mac_s(a, tail),
{
    let ab = addr_bytes(a);
    let mut mb: Vec<u8> = Vec::new();
    mb.push(0x5a);
    mb.push(ab[0]);
    mb.push(ab[1]);
    mb.push(ab[2]);
    mb.push(ab[3]);
    mb.push(tail);
    proof {
        assert(mb@ =~= seq![0x5au8] + addr_bytes_s(a) + seq![tail]);
    }
    format_mac(&mb)
}

/// The bridge created for a network: it owns the gateway address.
pub open spec fn bridge_dev_s(bridge_name: Seq<char>, gw: u32, sub: Subnet, mtu: u32) -> DeviceV {
    DeviceV {
        name: bridge_name,
        kind: DeviceKind::Bridge,
        location: Location::Host,
        addresses: seq![(gw, sub.prefix)],
        mac: addr_mac_s(gw, 0),
        master: None,
        up: true,
        mtu,
    }
}

/// The host-side veth end, attached to the bridge, no addresses.
pub open spec fn host_veth_s(
    veth_name: Seq<char>,
    bridge_name: Seq<char>,
    cid: Seq<char>,
    name: Seq<char>,
    mtu: u32,
) -> DeviceV {
    DeviceV {
        name: veth_name,
        kind: DeviceKind::Veth,
        location: Location::Host,
        addresses: Seq::empty(),
        mac: veth_mac_s(cid, name),
        master: Some(bridge_name),
        up: true,
        mtu,
    }
}

/// The namespace-side veth end, renamed to the requested interface name,
/// owning the assigned addresses.
pub open spec fn ns_veth_s(iface: Seq<char>, addrs: Seq<u32>, prefix: u8, mtu: u32) -> DeviceV {
    DeviceV {
        name: iface,
        kind: DeviceKind::Veth,
        location: Location::Namespace,
        addresses: addrs.map_values(|a: u32| (a, prefix)),
        mac: addr_mac_s(addrs[0], 1),
        master: None,
        up: true,
        mtu,
    }
}

/// The status block reported for one provisioned network.
pub open spec fn status_s(
    pno: PerNetworkOptionsV,
    addrs: Seq<u32>,
    sub: Subnet,
    gwtext: Seq<char>,
) -> StatusBlockV {
    StatusBlockV {
        interfaces: seq![
            InterfaceStatusV {
                name: pno.interface_name,
                mac: addr_mac_s(addrs[0], 1),
                subnets: addrs.map_values(
                    |a: u32| NetAddressV { address: fmt_cidr_s(a, sub.prefix), gateway: gwtext },
                ),
            },
        ],
        dns_server_ips: Seq::empty(),
    }
}

pub open spec fn addr_err_s() -> SetupErrorV {
    SetupErrorV::DeviceProvisioningFailure(ProvisionFailure::Addressing)
}

/// The addresses assigned to the namespace interface: the validated
/// static request, or the first free address of the subnet.
pub open spec fn addrs_result_s(
    pno: PerNetworkOptionsV,
    sub: Subnet,
    gw: u32,
    used: Seq<u32>,
) -> Option<Seq<u32>> {
    if pno.static_ips.len() > 0 {
        match parse_ips_s(pno.static_ips) {
            None => None,
            Some(a) => if ips_ok_s(a, sub, gw, used) {
                Some(a)
            } else {
                None
            },
        }
    } else {
        match pick_addr_s(sub, gw, used, sub.base as int + 1) {
            None => None,
            Some(a) => Some(seq![a]),
        }
    }
}

/// Provisioning once names are checked: assign addresses, then append the
/// (possibly reused) bridge and the veth pair.
#[verifier::opaque]
pub open spec fn provision_checked_s(
    devs: Seq<DeviceV>,
    def: NetworkDefinitionV,
    pno: PerNetworkOptionsV,
    name: Seq<char>,
    cid: Seq<char>,
    sub: Subnet,
    gw: u32,
    bridge_name: Seq<char>,
    veth_name: Seq<char>,
    bridge_exists: bool,
) -> (Seq<DeviceV>, Result<(StatusBlockV, u32, Subnet), SetupErrorV>) {
    if find_dev_s(devs, veth_name, Location::Host) is Some {
        (devs, Err(SetupErrorV::DeviceProvisioningFailure(ProvisionFailure::Creation)))
    } else if find_dev_s(devs, pno.interface_name, Location::Namespace) is Some {
        (devs, Err(SetupErrorV::DeviceProvisioningFailure(ProvisionFailure::NamespaceMove)))
    } else {
        let used = used_addrs_s(devs, bridge_name);
        match addrs_result_s(pno, sub, gw, used) {
            None => (devs, Err(addr_err_s())),
            Some(addrs) => {
                let mtu = mtu_s(def);
                let devs2 = devs + (if bridge_exists {
                    Seq::<DeviceV>::empty()
                } else {
                    seq![bridge_dev_s(bridge_name, gw, sub, mtu)]
                }) + seq![
                    host_veth_s(veth_name, bridge_name, cid, name, mtu),
                    ns_veth_s(pno.interface_name, addrs, sub.prefix, mtu),
                ];
                (devs2, Ok((status_s(pno, addrs, sub, def.gateway), addrs[0], sub)))
            },
        }
    }
}

/// Provisioning once the subnet and gateway parse: reuse or plan the
/// bridge, then check names.
#[verifier::opaque]
pub open spec fn provision_named_s(
    devs: Seq<DeviceV>,
    def: NetworkDefinitionV,
    pno: PerNetworkOptionsV,
    name: Seq<char>,
    cid: Seq<char>,
    tok: Seq<char>,
    sub: Subnet,
    gw: u32,
) -> (Seq<DeviceV>, Result<(StatusBlockV, u32, Subnet), SetupErrorV>) {
    let bridge_name = bridge_name_s(def, tok);
    let veth_name = veth_name_s(cid, name);
    match find_dev_s(devs, bridge_name, Location::Host) {
        Some(d) => if !(d.kind == DeviceKind::Bridge) {
            (devs, Err(SetupErrorV::DeviceProvisioningFailure(ProvisionFailure::Creation)))
        } else {
            provision_checked_s(devs, def, pno, name, cid, sub, gw, bridge_name, veth_name, true)
        },
        None => provision_checked_s(
            devs,
            def,
            pno,
            name,
            cid,
            sub,
            gw,
            bridge_name,
            veth_name,
            false,
        ),
    }
}

/// What provisioning one network does to the device table, and what it
/// returns: the status block, the primary assigned address, and the
/// parsed subnet — or the first failure, leaving the table unchanged.
#[verifier::opaque]
pub open spec fn provision_s(
    devs: Seq<DeviceV>,
    def: NetworkDefinitionV,
    pno: PerNetworkOptionsV,
    name: Seq<char>,
    cid: Seq<char>,
    tok: Seq<char>,
) -> (Seq<DeviceV>, Result<(StatusBlockV, u32, Subnet), SetupErrorV>) {
    match parse_cidr_s(chars_bytes_s(def.subnet)) {
        None => (devs, Err(addr_err_s())),
        Some(sub) => match parse_ipv4_s(chars_bytes_s(def.gateway)) {
            None => (devs, Err(addr_err_s())),
            Some(gw) => if !sub.contains_s(gw) {
                (devs, Err(addr_err_s()))
            } else {
                provision_named_s(devs, def, pno, name, cid, tok, sub, gw)
            },
        },
    }
}

proof fn lemma_checked_preserves_existing(
    devs: Seq<DeviceV>,
    def: NetworkDefinitionV,
    pno: PerNetworkOptionsV,
    name: Seq<char>,
    cid: Seq<char>,
    sub: Subnet,
    gw: u32,
    bridge_name: Seq<char>,
    veth_name: Seq<char>,
    bridge_exists: bool,
)
    ensures
        ({
            let (d2, res) = provision_checked_s(
                devs,
                def,
                pno,
                name,
                cid,
                sub,
                gw,
                bridge_name,
                veth_name,
                bridge_exists,
            );
            d2.len() >= devs.len() && forall|i: int| 0 <= i < devs.len() ==> d2[i] == devs[i]
        }),
{
    reveal(provision_checked_s);
}

/// Law: provisioning only ever appends devices — every device present
/// before, the reused bridge and its addressing included, is unchanged,
/// whether provisioning succeeds or fails.
pub proof fn lemma_provision_preserves_existing(
    devs: Seq<DeviceV>,
    def: NetworkDefinitionV,
    pno: PerNetworkOptionsV,
    name: Seq<char>,
    cid: Seq<char>,
    tok: Seq<char>,
)
    ensures
        ({
            let (d2, res) = provision_s(devs, def, pno, name, cid, tok);
            d2.len() >= devs.len() && forall|i: int| 0 <= i < devs.len() ==> d2[i] == devs[i]
        }),
{
    reveal(provision_s);
    reveal(provision_named_s);
    match parse_cidr_s(chars_bytes_s(def.subnet)) {
        None => {},
        Some(sub) => match parse_ipv4_s(chars_bytes_s(def.gateway)) {
            None => {},
            Some(gw) => {
                if sub.contains_s(gw) {
                    let bridge_name = bridge_name_s(def, tok);
                    let veth_name = veth_name_s(cid, name);
                    match find_dev_s(devs, bridge_name, Location::Host) {
                        Some(d) => {
                            if d.kind == DeviceKind::Bridge {
                                lemma_checked_preserves_existing(
                                    devs, def, pno, name, cid, sub, gw, bridge_name, veth_name,
                                    true,
                                );
                            }
                        },
                        None => {
                            lemma_checked_preserves_existing(
                                devs, def, pno, name, cid, sub, gw, bridge_name, veth_name, false,
                            );
                        },
                    }
                }
            },
        },
    }
}

/// Provisions one logical network: ensures the bridge exists (reusing an
/// existing one untouched), creates the veth pair, assigns addressing,
/// and reports the created interface. On failure the device table is
/// left unchanged and a distinct error names the failed stage.
#[verifier::rlimit(100)]
pub fn provision(
    host: &mut HostState,
    def: &NetworkDefinition,
    pno: &PerNetworkOptions,
    name: &String,
    cid: &String,
    tok: &String,
) -> (r: Result<(StatusBlock, u32, Subnet), SetupError>)
    ensures
        ({
            let (devs2, res) = provision_s(
                old(host)@.devices,
                def@,
                pno@,
                name@,
                cid@,
                tok@,
            );
            &&& final(host)@.devices == devs2
            &&& final(host)@.ip_forward == old(host)@.ip_forward
            &&& (match r {
                Ok(ok) => res == Ok::<(StatusBlockV, u32, Subnet), SetupErrorV>((ok.0@, ok.1, ok.2)),
                Err(e) => res == Err::<(StatusBlockV, u32, Subnet), SetupErrorV>(e@),
            })
        }),
{
    let sub = match parse_cidr(def.subnet.as_str()) {
        Some(s) => s,
        None => {
            proof {
                reveal(provision_s);
            }
            return Err(SetupError::DeviceProvisioningFailure(ProvisionFailure::Addressing));
        },
    };
    let gw = match parse_ipv4(def.gateway.as_str()) {
        Some(g) => g,
        None => {
            proof {
                reveal(provision_s);
            }
            return Err(SetupError::DeviceProvisioningFailure(ProvisionFailure::Addressing));
        },
    };
    if !sub.contains(gw) {
        proof {
            reveal(provision_s);
        }
        return Err(SetupError::DeviceProvisioningFailure(ProvisionFailure::Addressing));
    }
    let ghost devs0 = devs_view(host.devices@);
    proof {
        assert(provision_s(devs0, def@, pno@, name@, cid@, tok@) == provision_named_s(
            devs0,
            def@,
            pno@,
            name@,
            cid@,
            tok@,
            sub,
            gw,
        )) by {
            reveal(provision_s);
        }
    }
    let bridge_name: String = match &def.bridge_name {
        Option::Some(n) => n.clone(),
        Option::None => {
            let mut b = String::new();
            b.append("vk-");
            b.append(tok.as_str());
            proof {
                assert(b@ =~= bridge_name_s(def@, tok@));
            }
            b
        },
    };
    let mut veth_name = String::new();
    veth_name.append("ve-");
    let pt = pair_token(cid.as_str(), name.as_str());
    veth_name.append(pt.as_str());
    proof {
        assert(veth_name@ =~= veth_name_s(cid@, name@));
    }
    let bridge_exists: bool = match find_device(&host.devices, &bridge_name, Location::Host) {
        Some(d) => {
            if !(d.kind == DeviceKind::Bridge) {
                proof {
                    reveal(provision_named_s);
                }
                return Err(SetupError::DeviceProvisioningFailure(ProvisionFailure::Creation));
            }
            true
        },
        None => false,
    };
    proof {
        assert(provision_named_s(devs0, def@, pno@, name@, cid@, tok@, sub, gw)
            == provision_checked_s(
            devs0,
            def@,
            pno@,
            name@,
            cid@,
            sub,
            gw,
            bridge_name@,
            veth_name@,
            bridge_exists,
        )) by {
            reveal(provision_named_s);
        }
    }
    if find_device(&host.devices, &veth_name, Location::Host).is_some() {
        proof {
            reveal(provision_checked_s);
        }
        return Err(SetupError::DeviceProvisioningFailure(ProvisionFailure::Creation));
    }
    if find_device(&host.devices, &pno.interface_name, Location::Namespace).is_some() {
        proof {
            reveal(provision_checked_s);
        }
        return Err(SetupError::DeviceProvisioningFailure(ProvisionFailure::NamespaceMove));
    }
    let used = used_addrs(&host.devices, &bridge_name);
    let addrs: Vec<u32>;
    if pno.static_ips.len() > 0 {
        match parse_static_ips(&pno.static_ips) {
            None => {
                proof {
                    reveal(provision_checked_s);
                }
                return Err(SetupError::DeviceProvisioningFailure(ProvisionFailure::Addressing));
            },
            Some(v) => {
                if !check_ips(&v, &sub, gw, &used) {
                    proof {
                        reveal(provision_checked_s);
                    }
                    return Err(
                        SetupError::DeviceProvisioningFailure(ProvisionFailure::Addressing),
                    );
                }
                addrs = v;
            },
        }
    } else {
        match pick_addr(&sub, gw, &used) {
            None => {
                proof {
                    reveal(provision_checked_s);
                }
                return Err(SetupError::DeviceProvisioningFailure(ProvisionFailure::Addressing));
            },
            Some(a) => {
                let mut v: Vec<u32> = Vec::new();
                v.push(a);
                proof {
                    assert(v@ =~= seq![a]);
                }
                addrs = v;
            },
        }
    }
    proof {
        assert(addrs_result_s(pno@, sub, gw, used_addrs_s(devs0, bridge_name@)) == Some(addrs@));
    }
    let ghost addrsv = addrs@;
    let (status, primary) = provision_commit(
        host,
        def,
        pno,
        name,
        cid,
        &bridge_name,
        &veth_name,
        bridge_exists,
        sub,
        gw,
        &addrs,
    );
    proof {
        reveal(provision_checked_s);
        assert(provision_checked_s(
            devs0,
            def@,
            pno@,
            name@,
            cid@,
            sub,
            gw,
            bridge_name@,
            veth_name@,
            bridge_exists,
        ) == (devs_view(host.devices@), Ok::<(StatusBlockV, u32, Subnet), SetupErrorV>((
            status@,
            primary,
            sub,
        ))));
    }
    Ok((status, primary, sub))
}

/// Appends the planned devices — the bridge when absent, then the veth
/// pair — and builds the status block for the created interface.
#[verifier::rlimit(100)]
fn provision_commit(
    host: &mut HostState,
    def: &NetworkDefinition,
    pno: &PerNetworkOptions,
    name: &String,
    cid: &String,
    bridge_name: &String,
    veth_name: &String,
    bridge_exists: bool,
    sub: Subnet,
    gw: u32,
    addrs: &Vec<u32>,
) -> (r: (StatusBlock, u32))
    requires
        addrs@.len() > 0,
    ensures
        ({
            let mtu = mtu_s(def@);
            let bridgeopt = if bridge_exists {
                Seq::<DeviceV>::empty()
            } else {
                seq![bridge_dev_s(bridge_name@, gw, sub, mtu)]
            };
            &&& final(host)@.devices == old(host)@.devices + bridgeopt + seq![
                host_veth_s(veth_name@, bridge_name@, cid@, name@, mtu),
                ns_veth_s(pno@.interface_name, addrs@, sub.prefix, mtu),
            ]
            &&& final(host)@.ip_forward == old(host)@.ip_forward
            &&& r.0@ == status_s(pno@, addrs@, sub, def@.gateway)
            &&& r.1 == addrs@[0]
        }),
{
    let mtu: u32 = match def.mtu {
        Option::Some(m) => m,
        Option::None => 1500,
    };
    let ghost devs_before = devs_view(host.devices@);
    if !bridge_exists {
        let mut baddrs: Vec<(u32, u8)> = Vec::new();
        baddrs.push((gw, sub.prefix));
        let bdev = Device {
            name: bridge_name.clone(),
            kind: DeviceKind::Bridge,
            location: Location::Host,
            addresses: baddrs,
            mac: mac_from_addr(gw, 0),
            master: Option::None,
            up: true,
            mtu,
        };
        proof {
            assert(bdev@.addresses =~= seq![(gw, sub.prefix)]);
        }
        host.devices.push(bdev);
        proof {
            assert(devs_view(host.devices@) =~= devs_before + seq![
                bridge_dev_s(bridge_name@, gw, sub, mtu),
            ]);
        }
    }
    let ghost devs_mid = devs_view(host.devices@);
    let hdev = Device {
        name: veth_name.clone(),
        kind: DeviceKind::Veth,
        location: Location::Host,
        addresses: Vec::new(),
        mac: format_mac(&pair_digest(cid.as_str(), name.as_str())),
        master: Option::Some(bridge_name.clone()),
        up: true,
        mtu,
    };
    proof {
        assert(hdev@.addresses =~= Seq::<(u32, u8)>::empty());
        assert(hdev@ == host_veth_s(veth_name@, bridge_name@, cid@, name@, mtu));
    }
    host.devices.push(hdev);
    let mut naddrs: Vec<(u32, u8)> = Vec::new();
    let na = addrs.len();
    let mut k: usize = 0;
    proof {
        assert(naddrs@ =~= addrs@.map_values(|a: u32| (a, sub.prefix)).take(0));
    }
    while k < na
        invariant
            k <= na == addrs@.len(),
            naddrs@ == addrs@.map_values(|a: u32| (a, sub.prefix)).take(k as int),
        decreases na - k,
    {
        naddrs.push((addrs[k], sub.prefix));
        proof {
            let m = addrs@.map_values(|a: u32| (a, sub.prefix));
            assert(m.take(k + 1) =~= m.take(k as int).push(m[k as int]));
        }
        k = k + 1;
    }
    proof {
        let m = addrs@.map_values(|a: u32| (a, sub.prefix));
        assert(m.take(na as int) =~= m);
    }
    let nmac = mac_from_addr(addrs[0], 1);
    let ndev = Device {
        name: pno.interface_name.clone(),
        kind: DeviceKind::Veth,
        location: Location::Namespace,
        addresses: naddrs,
        mac: nmac.clone(),
        master: Option::None,
        up: true,
        mtu,
    };
    proof {
        assert(ndev@ == ns_veth_s(pno@.interface_name, addrs@, sub.prefix, mtu));
    }
    host.devices.push(ndev);
    proof {
        assert(devs_view(host.devices@) =~= devs_mid + seq![
            host_veth_s(veth_name@, bridge_name@, cid@, name@, mtu),
            ns_veth_s(pno@.interface_name, addrs@, sub.prefix, mtu),
        ]);
        if bridge_exists {
            assert(devs_mid =~= devs_before + Seq::<DeviceV>::empty());
        }
        assert(devs_view(host.devices@) =~= devs_before + (if bridge_exists {
            Seq::<DeviceV>::empty()
        } else {
            seq![bridge_dev_s(bridge_name@, gw, sub, mtu)]
        }) + seq![
            host_veth_s(veth_name@, bridge_name@, cid@, name@, mtu),
            ns_veth_s(pno@.interface_name, addrs@, sub.prefix, mtu),
        ]);
    }
    let mut subnets: Vec<NetAddress> = Vec::new();
    let ghost snm = addrs@.map_values(
        |a: u32| NetAddressV { address: fmt_cidr_s(a, sub.prefix), gateway: def@.gateway },
    );
    let mut q: usize = 0;
    proof {
        assert(subnets@.map_values(|x: NetAddress| x@) =~= snm.take(0));
    }
    while q < na
        invariant
            q <= na == addrs@.len(),
            snm == addrs@.map_values(
                |a: u32| NetAddressV { address: fmt_cidr_s(a, sub.prefix), gateway: def@.gateway },
            ),
            snm.len() == na,
            subnets@.map_values(|x: NetAddress| x@) == snm.take(q as int),
        decreases na - q,
    {
        let entry = NetAddress {
            address: fmt_cidr(addrs[q], sub.prefix),
            gateway: def.gateway.clone(),
        };
        proof {
            assert(entry@ == snm[q as int]);
        }
        subnets.push(entry);
        proof {
            assert(snm.take(q + 1) =~= snm.take(q as int).push(snm[q as int]));
            assert(subnets@.map_values(|x: NetAddress| x@) =~= snm.take(q + 1));
        }
        q = q + 1;
    }
    proof {
        assert(snm.take(na as int) =~= snm);
    }
    let iface = InterfaceStatus { name: pno.interface_name.clone(), mac: nmac, subnets };
    let mut interfaces: Vec<InterfaceStatus> = Vec::new();
    interfaces.push(iface);
    let status = StatusBlock { interfaces, dns_server_ips: Vec::new() };
    proof {
        assert(status@.interfaces =~= seq![
            InterfaceStatusV {
                name: pno@.interface_name,
                mac: addr_mac_s(addrs@[0], 1),
                subnets: snm,
            },
        ]);
        assert(status@.dns_server_ips =~= Seq::<Seq<char>>::empty());
        assert(status@ == status_s(pno@, addrs@, sub, def@.gateway));
    }
    let primary = addrs[0];
    (status, primary)
}

} // verus!
