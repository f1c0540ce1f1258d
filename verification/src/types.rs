//! The request and result data model: network definitions, per-network
//! runtime options, port mappings, status blocks, and the error taxonomy.
//! Each type has a mathematical view over sequences of characters.

use vstd::prelude::*;
use vstd::string::*;

verus! {

/// Transport protocol of a published port.
#[derive(Clone, Copy, Debug, PartialEq, Eq, Structural)]
pub enum Protocol {
    Tcp,
    Udp,
}

/// One published port: host port to container port.
#[derive(Clone, Debug, PartialEq)]
pub struct PortMapping {
    /// Optional host address the forward is bound to, dotted quad.
    pub host_ip: Option<String>,
    pub host_port: u16,
    pub container_port: u16,
    pub protocol: Protocol,
}

pub struct PortMappingV {
    pub host_ip: Option<Seq<char>>,
    pub host_port: u16,
    pub container_port: u16,
    pub protocol: Protocol,
}

impl View for PortMapping {
    type V = PortMappingV;

    open spec fn view(&self) -> PortMappingV {
        PortMappingV {
            host_ip: match self.host_ip {
                Option::Some(s) => Option::Some(s@),
                Option::None => Option::None,
            },
            host_port: self.host_port,
            container_port: self.container_port,
            protocol: self.protocol,
        }
    }
}

/// The per-container request for one network: the interface name wanted
/// inside the namespace and any static addresses, dotted quads.
#[derive(Clone, Debug, PartialEq)]
pub struct PerNetworkOptions {
    pub interface_name: String,
    pub static_ips: Vec<String>,
}

pub struct PerNetworkOptionsV {
    pub interface_name: Seq<char>,
    pub static_ips: Seq<Seq<char>>,
}

impl View for PerNetworkOptions {
    type V = PerNetworkOptionsV;

    open spec fn view(&self) -> PerNetworkOptionsV {
        PerNetworkOptionsV {
            interface_name: self.interface_name@,
            static_ips: self.static_ips@.map_values(|s: String| s@),
        }
    }
}

/// One logical network, immutable once loaded: a driver identifier, one
/// subnet in CIDR text, its gateway as a dotted quad, and driver options.
#[derive(Clone, Debug, PartialEq)]
pub struct NetworkDefinition {
    pub driver: String,
    pub subnet: String,
    pub gateway: String,
    /// Bridge device name hint; a token-derived name is used when absent.
    pub bridge_name: Option<String>,
    /// Requested device MTU; a default applies when absent.
    pub mtu: Option<u32>,
    /// Inter-network isolation, default on.
    pub isolate: bool,
}

pub struct NetworkDefinitionV {
    pub driver: Seq<char>,
    pub subnet: Seq<char>,
    pub gateway: Seq<char>,
    pub bridge_name: Option<Seq<char>>,
    pub mtu: Option<u32>,
    pub isolate: bool,
}

impl View for NetworkDefinition {
    type V = NetworkDefinitionV;

    open spec fn view(&self) -> NetworkDefinitionV {
        NetworkDefinitionV {
            driver: self.driver@,
            subnet: self.subnet@,
            gateway: self.gateway@,
            bridge_name: match self.bridge_name {
                Option::Some(s) => Option::Some(s@),
                Option::None => Option::None,
            },
            mtu: self.mtu,
            isolate: self.isolate,
        }
    }
}

/// The full request of one invocation: container identifier, per-network
/// runtime options, network definitions in input order, and optional port
/// mappings.
#[derive(Clone, Debug, PartialEq)]
pub struct NetworkOptions {
    pub container_id: String,
    pub networks: Vec<(String, PerNetworkOptions)>,
    pub network_info: Vec<(String, NetworkDefinition)>,
    pub port_mappings: Option<Vec<PortMapping>>,
}

pub struct NetworkOptionsV {
    pub container_id: Seq<char>,
    pub networks: Seq<(Seq<char>, PerNetworkOptionsV)>,
    pub network_info: Seq<(Seq<char>, NetworkDefinitionV)>,
    pub port_mappings: Option<Seq<PortMappingV>>,
}

impl View for NetworkOptions {
    type V = NetworkOptionsV;

    open spec fn view(&self) -> NetworkOptionsV {
        NetworkOptionsV {
            container_id: self.container_id@,
            networks: self.networks@.map_values(
                |p: (String, PerNetworkOptions)| (p.0@, p.1@),
            ),
            network_info: self.network_info@.map_values(
                |p: (String, NetworkDefinition)| (p.0@, p.1@),
            ),
            port_mappings: match self.port_mappings {
                Option::Some(ms) => Option::Some(ms@.map_values(|m: PortMapping| m@)),
                Option::None => Option::None,
            },
        }
    }
}

/// First per-network options entry recorded under `name`, if any.
pub open spec fn lookup_pno_s(
    l: Seq<(Seq<char>, PerNetworkOptionsV)>,
    name: Seq<char>,
) -> Option<PerNetworkOptionsV>
    decreases l.len(),
{
    if l.len() == 0 {
        None
    } else if l[0].0 == name {
        Some(l[0].1)
    } else {
        lookup_pno_s(l.drop_first(), name)
    }
}

impl NetworkOptions {
    /// Looks up the per-network options recorded for `name`.
    pub fn lookup_network(&self, name: &String) -> (r: Option<&PerNetworkOptions>)
        ensures
            match r {
                Some(p) => lookup_pno_s(self@.networks, name@) == Some(p@),
                None => lookup_pno_s(self@.networks, name@) is None,
            },
    {
        let n = self.networks.len();
        let mut i: usize = 0;
        proof {
            assert(self@.networks.skip(0) =~= self@.networks);
        }
        while i < n
            invariant
                i <= n == self.networks@.len(),
                lookup_pno_s(self@.networks, name@) == lookup_pno_s(
                    self@.networks.skip(i as int),
                    name@,
                ),
            decreases n - i,
        {
            proof {
                assert(self@.networks.skip(i as int)[0] == self@.networks[i as int]);
                assert(self@.networks.skip(i as int).drop_first() =~= self@.networks.skip(
                    i + 1,
                ));
            }
            if self.networks[i].0.eq(name) {
                return Some(&self.networks[i].1);
            }
            i = i + 1;
        }
        proof {
            assert(self@.networks.skip(n as int) =~= Seq::<(
                Seq<char>,
                PerNetworkOptionsV,
            )>::empty());
        }
        None
    }
}

/// Whether the definitions list a network called `name`.
pub open spec fn defines_network_s(
    info: Seq<(Seq<char>, NetworkDefinitionV)>,
    name: Seq<char>,
) -> bool
    decreases info.len(),
{
    if info.len() == 0 {
        false
    } else if info[0].0 == name {
        true
    } else {
        defines_network_s(info.drop_first(), name)
    }
}

/// The first per-network-options entry whose network has no definition,
/// if any: such an entry is a fatal configuration error, not skipped.
pub open spec fn first_undefined_s(
    networks: Seq<(Seq<char>, PerNetworkOptionsV)>,
    info: Seq<(Seq<char>, NetworkDefinitionV)>,
) -> Option<Seq<char>>
    decreases networks.len(),
{
    if networks.len() == 0 {
        None
    } else if !defines_network_s(info, networks[0].0) {
        Some(networks[0].0)
    } else {
        first_undefined_s(networks.drop_first(), info)
    }
}

impl NetworkOptions {
    /// Whether a definition exists for the network called `name`.
    fn defines_network(&self, name: &String) -> (r: bool)
        ensures
            r == defines_network_s(self@.network_info, name@),
    {
        let n = self.network_info.len();
        let mut i: usize = 0;
        proof {
            assert(self@.network_info.skip(0) =~= self@.network_info);
        }
        while i < n
            invariant
                i <= n == self.network_info@.len(),
                defines_network_s(self@.network_info, name@) == defines_network_s(
                    self@.network_info.skip(i as int),
                    name@,
                ),
            decreases n - i,
        {
            proof {
                assert(self@.network_info.skip(i as int)[0] == self@.network_info[i as int]);
                assert(self@.network_info.skip(i as int).drop_first() =~= self@.network_info.skip(
                    i + 1,
                ));
            }
            if self.network_info[i].0.eq(name) {
                return true;
            }
            i = i + 1;
        }
        proof {
            assert(self@.network_info.skip(n as int) =~= Seq::<(
                Seq<char>,
                NetworkDefinitionV,
            )>::empty());
        }
        false
    }

    /// The first per-network-options entry naming a network absent from
    /// the definitions, if any.
    pub fn first_undefined_network(&self) -> (r: Option<&String>)
        ensures
            match r {
                Some(n) => first_undefined_s(self@.networks, self@.network_info) == Some(n@),
                None => first_undefined_s(self@.networks, self@.network_info) is None,
            },
    {
        let n = self.networks.len();
        let mut i: usize = 0;
        proof {
            assert(self@.networks.skip(0) =~= self@.networks);
        }
        while i < n
            invariant
                i <= n == self.networks@.len(),
                first_undefined_s(self@.networks, self@.network_info) == first_undefined_s(
                    self@.networks.skip(i as int),
                    self@.network_info,
                ),
            decreases n - i,
        {
            proof {
                assert(self@.networks.skip(i as int)[0] == self@.networks[i as int]);
                assert(self@.networks.skip(i as int).drop_first() =~= self@.networks.skip(i + 1));
            }
            if !self.defines_network(&self.networks[i].0) {
                return Some(&self.networks[i].0);
            }
            i = i + 1;
        }
        proof {
            assert(self@.networks.skip(n as int) =~= Seq::<(
                Seq<char>,
                PerNetworkOptionsV,
            )>::empty());
        }
        None
    }
}

/// The description carried by the configuration error for a per-network
/// options entry without a definition.
pub open spec fn undefined_options_msg_s(name: Seq<char>) -> Seq<char> {
    "no network definition for "@ + name
}

/// One address assigned to an interface: the address in CIDR text and the
/// subnet's gateway as a dotted quad.
#[derive(Clone, Debug, PartialEq)]
pub struct NetAddress {
    pub address: String,
    pub gateway: String,
}

pub struct NetAddressV {
    pub address: Seq<char>,
    pub gateway: Seq<char>,
}

impl View for NetAddress {
    type V = NetAddressV;

    open spec fn view(&self) -> NetAddressV {
        NetAddressV { address: self.address@, gateway: self.gateway@ }
    }
}

/// One created interface reported back to the caller.
#[derive(Clone, Debug, PartialEq)]
pub struct InterfaceStatus {
    pub name: String,
    pub mac: String,
    pub subnets: Vec<NetAddress>,
}

pub struct InterfaceStatusV {
    pub name: Seq<char>,
    pub mac: Seq<char>,
    pub subnets: Seq<NetAddressV>,
}

impl View for InterfaceStatus {
    type V = InterfaceStatusV;

    open spec fn view(&self) -> InterfaceStatusV {
        InterfaceStatusV {
            name: self.name@,
            mac: self.mac@,
            subnets: self.subnets@.map_values(|a: NetAddress| a@),
        }
    }
}

/// The per-network provisioning result returned to the caller.
#[derive(Clone, Debug, PartialEq)]
pub struct StatusBlock {
    pub interfaces: Vec<InterfaceStatus>,
    pub dns_server_ips: Vec<String>,
}

pub struct StatusBlockV {
    pub interfaces: Seq<InterfaceStatusV>,
    pub dns_server_ips: Seq<Seq<char>>,
}

impl View for StatusBlock {
    type V = StatusBlockV;

    open spec fn view(&self) -> StatusBlockV {
        StatusBlockV {
            interfaces: self.interfaces@.map_values(|i: InterfaceStatus| i@),
            dns_server_ips: self.dns_server_ips@.map_values(|s: String| s@),
        }
    }
}

/// The stage of device provisioning that failed.
#[derive(Clone, Copy, Debug, PartialEq, Eq, Structural)]
pub enum ProvisionFailure {
    Creation,
    NamespaceMove,
    Addressing,
}

/// Everything that can abort an invocation; the first error encountered
/// aborts the remaining networks.
#[derive(Clone, Debug, PartialEq)]
pub enum SetupError {
    InvalidNamespace,
    ConfigLoadFailure(String),
    UnsupportedDriver(String),
    MissingNetworkOptions(String),
    SysctlFailure,
    DeviceProvisioningFailure(ProvisionFailure),
    FirewallBackendUnavailable,
    FirewallRuleInstallFailure,
}

pub enum SetupErrorV {
    InvalidNamespace,
    ConfigLoadFailure(Seq<char>),
    UnsupportedDriver(Seq<char>),
    MissingNetworkOptions(Seq<char>),
    SysctlFailure,
    DeviceProvisioningFailure(ProvisionFailure),
    FirewallBackendUnavailable,
    FirewallRuleInstallFailure,
}

impl View for SetupError {
    type V = SetupErrorV;

    open spec fn view(&self) -> SetupErrorV {
        match self {
            SetupError::InvalidNamespace => SetupErrorV::InvalidNamespace,
            SetupError::ConfigLoadFailure(s) => SetupErrorV::ConfigLoadFailure(s@),
            SetupError::UnsupportedDriver(s) => SetupErrorV::UnsupportedDriver(s@),
            SetupError::MissingNetworkOptions(s) => SetupErrorV::MissingNetworkOptions(s@),
            SetupError::SysctlFailure => SetupErrorV::SysctlFailure,
            SetupError::DeviceProvisioningFailure(k) => SetupErrorV::DeviceProvisioningFailure(
                *k,
            ),
            SetupError::FirewallBackendUnavailable => SetupErrorV::FirewallBackendUnavailable,
            SetupError::FirewallRuleInstallFailure => SetupErrorV::FirewallRuleInstallFailure,
        }
    }
}

/// The human-readable description of an error.
pub open spec fn message_s(e: SetupErrorV) -> Seq<char> {
    match e {
        SetupErrorV::InvalidNamespace => "invalid namespace path"@,
        SetupErrorV::ConfigLoadFailure(s) => "failed to load network options: "@ + s,
        SetupErrorV::UnsupportedDriver(s) => "unknown network driver "@ + s,
        SetupErrorV::MissingNetworkOptions(s) => "network options for network "@ + s
            + " not found"@,
        SetupErrorV::SysctlFailure => "failed to enable ip forwarding"@,
        SetupErrorV::DeviceProvisioningFailure(ProvisionFailure::Creation) => "failed to create network device"@,
        SetupErrorV::DeviceProvisioningFailure(ProvisionFailure::NamespaceMove) => "failed to move device into namespace"@,
        SetupErrorV::DeviceProvisioningFailure(ProvisionFailure::Addressing) => "failed to assign address"@,
        SetupErrorV::FirewallBackendUnavailable => "no supported firewall backend"@,
        SetupErrorV::FirewallRuleInstallFailure => "failed to install firewall rule"@,
    }
}

impl SetupError {
    /// Renders the single error description surfaced on the error channel.
    pub fn message(&self) -> (r: String)
        ensures
            r@ == message_s(self@),
    {
        match self {
            SetupError::InvalidNamespace => "invalid namespace path".to_owned(),
            SetupError::ConfigLoadFailure(s) => {
                let mut m = "failed to load network options: ".to_owned();
                m.append(s.as_str());
                m
            },
            SetupError::UnsupportedDriver(s) => {
                let mut m = "unknown network driver ".to_owned();
                m.append(s.as_str());
                m
            },
            SetupError::MissingNetworkOptions(s) => {
                let mut m = "network options for network ".to_owned();
                m.append(s.as_str());
                m.append(" not found");
                m
            },
            SetupError::SysctlFailure => "failed to enable ip forwarding".to_owned(),
            SetupError::DeviceProvisioningFailure(ProvisionFailure::Creation) => "failed to create network device".to_owned(),
            SetupError::DeviceProvisioningFailure(ProvisionFailure::NamespaceMove) => "failed to move device into namespace".to_owned(),
            SetupError::DeviceProvisioningFailure(ProvisionFailure::Addressing) => "failed to assign address".to_owned(),
            SetupError::FirewallBackendUnavailable => "no supported firewall backend".to_owned(),
            SetupError::FirewallRuleInstallFailure => "failed to install firewall rule".to_owned(),
        }
    }
}

} // verus!
