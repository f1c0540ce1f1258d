use netsetup::devices::{Device, DeviceKind, HostState, Location};
use netsetup::firewall::IptablesDriver;
use netsetup::hash::token;
use netsetup::ip::parse_ipv4;
use netsetup::setup::Setup;
use netsetup::types::{
    NetworkDefinition, NetworkOptions, PerNetworkOptions, PortMapping, Protocol, ProvisionFailure,
    SetupError,
};

fn err_def(subnet: &str, gw: &str) -> NetworkDefinition {
    NetworkDefinition {
        driver: "bridge".to_string(),
        subnet: subnet.to_string(),
        gateway: gw.to_string(),
        bridge_name: None,
        mtu: None,
        isolate: true,
    }
}

fn err_opts(nets: Vec<(&str, NetworkDefinition)>, ports: Option<Vec<PortMapping>>) -> NetworkOptions {
    let networks = nets
        .iter()
        .map(|(n, _)| {
            (
                n.to_string(),
                PerNetworkOptions { interface_name: "eth0".to_string(), static_ips: Vec::new() },
            )
        })
        .collect();
    NetworkOptions {
        container_id: "c1".to_string(),
        networks,
        network_info: nets.into_iter().map(|(n, d)| (n.to_string(), d)).collect(),
        port_mappings: ports,
    }
}

fn run(opts: &NetworkOptions) -> (Result<Vec<(String, netsetup::types::StatusBlock)>, SetupError>, HostState) {
    let setup = Setup::new("/run/netns/e".to_string());
    let mut host = HostState::new();
    let mut drv = IptablesDriver::new();
    let r = setup.exec(opts, true, &mut host, &mut drv);
    (r, host)
}

#[test]
fn absent_namespace_is_rejected_first() {
    let opts = err_opts(vec![("mynet", err_def("10.0.0.0/24", "10.0.0.1"))], None);
    let setup = Setup::new("/run/netns/e0".to_string());
    let mut host = HostState::new();
    let mut drv = IptablesDriver::new();
    let r = setup.exec(&opts, false, &mut host, &mut drv);
    assert_eq!(r, Err(SetupError::InvalidNamespace));
    assert!(host.devices.is_empty());
    assert!(!host.ip_forward);
}

#[test]
fn empty_namespace_path_is_rejected() {
    let opts = err_opts(vec![("mynet", err_def("10.0.0.0/24", "10.0.0.1"))], None);
    let setup = Setup::new(String::new());
    let mut host = HostState::new();
    let mut drv = IptablesDriver::new();
    let r = setup.exec(&opts, true, &mut host, &mut drv);
    assert_eq!(r, Err(SetupError::InvalidNamespace));
}

#[test]
fn options_entry_without_definition_is_fatal() {
    let mut opts = err_opts(vec![("mynet", err_def("10.0.0.0/24", "10.0.0.1"))], None);
    opts.networks.push((
        "ghost".to_string(),
        PerNetworkOptions { interface_name: "eth9".to_string(), static_ips: Vec::new() },
    ));
    let setup = Setup::new("/run/netns/e4".to_string());
    let mut host = HostState::new();
    let mut drv = IptablesDriver::new();
    let r = setup.exec(&opts, true, &mut host, &mut drv);
    assert_eq!(
        r,
        Err(SetupError::ConfigLoadFailure("no network definition for ghost".to_string()))
    );
    // rejected before any device is created or sysctl applied
    assert!(host.devices.is_empty());
    assert!(!host.ip_forward);
    assert!(drv.rules.is_empty());
}

#[test]
fn first_undefined_options_entry_is_reported() {
    let mut opts = err_opts(vec![("mynet", err_def("10.0.0.0/24", "10.0.0.1"))], None);
    opts.networks.insert(
        0,
        (
            "lost".to_string(),
            PerNetworkOptions { interface_name: "eth8".to_string(), static_ips: Vec::new() },
        ),
    );
    opts.networks.push((
        "ghost".to_string(),
        PerNetworkOptions { interface_name: "eth9".to_string(), static_ips: Vec::new() },
    ));
    let (r, _) = run(&opts);
    assert_eq!(
        r,
        Err(SetupError::ConfigLoadFailure("no network definition for lost".to_string()))
    );
}

#[test]
fn missing_network_options_is_a_distinct_error() {
    let mut opts = err_opts(vec![("mynet", err_def("10.0.0.0/24", "10.0.0.1"))], None);
    opts.networks.clear();
    let (r, host) = run(&opts);
    assert_eq!(r, Err(SetupError::MissingNetworkOptions("mynet".to_string())));
    assert!(host.devices.is_empty());
}

#[test]
fn invalid_gateway_is_an_addressing_error() {
    let opts = err_opts(vec![("mynet", err_def("10.0.0.0/24", "10.0.0"))], None);
    let (r, host) = run(&opts);
    assert_eq!(r, Err(SetupError::DeviceProvisioningFailure(ProvisionFailure::Addressing)));
    assert!(host.devices.is_empty());
}

#[test]
fn gateway_outside_subnet_is_an_addressing_error() {
    let opts = err_opts(vec![("mynet", err_def("10.0.0.0/24", "10.0.1.1"))], None);
    let (r, _) = run(&opts);
    assert_eq!(r, Err(SetupError::DeviceProvisioningFailure(ProvisionFailure::Addressing)));
}

#[test]
fn name_collision_with_non_bridge_device_is_a_creation_error() {
    let opts = err_opts(vec![("mynet", err_def("10.0.0.0/24", "10.0.0.1"))], None);
    let setup = Setup::new("/run/netns/e1".to_string());
    let mut host = HostState::new();
    host.devices.push(Device {
        name: format!("vk-{}", token("mynet")),
        kind: DeviceKind::Veth,
        location: Location::Host,
        addresses: Vec::new(),
        mac: "aa:aa:aa:aa:aa:aa".to_string(),
        master: None,
        up: true,
        mtu: 1500,
    });
    let mut drv = IptablesDriver::new();
    let r = setup.exec(&opts, true, &mut host, &mut drv);
    assert_eq!(r, Err(SetupError::DeviceProvisioningFailure(ProvisionFailure::Creation)));
    assert_eq!(host.devices.len(), 1);
}

#[test]
fn occupied_interface_name_is_a_namespace_move_error() {
    let opts = err_opts(vec![("mynet", err_def("10.0.0.0/24", "10.0.0.1"))], None);
    let setup = Setup::new("/run/netns/e2".to_string());
    let mut host = HostState::new();
    host.devices.push(Device {
        name: "eth0".to_string(),
        kind: DeviceKind::Veth,
        location: Location::Namespace,
        addresses: Vec::new(),
        mac: "aa:aa:aa:aa:aa:ab".to_string(),
        master: None,
        up: true,
        mtu: 1500,
    });
    let mut drv = IptablesDriver::new();
    let r = setup.exec(&opts, true, &mut host, &mut drv);
    assert_eq!(r, Err(SetupError::DeviceProvisioningFailure(ProvisionFailure::NamespaceMove)));
    assert_eq!(host.devices.len(), 1);
}

#[test]
fn exhausted_range_is_an_addressing_error() {
    let opts = err_opts(vec![("mynet", err_def("10.0.0.0/30", "10.0.0.1"))], None);
    let setup = Setup::new("/run/netns/e3".to_string());
    let mut host = HostState::new();
    host.devices.push(Device {
        name: format!("vk-{}", token("mynet")),
        kind: DeviceKind::Bridge,
        location: Location::Host,
        addresses: vec![(parse_ipv4("10.0.0.1").unwrap(), 30), (parse_ipv4("10.0.0.2").unwrap(), 30)],
        mac: "aa:aa:aa:aa:aa:ac".to_string(),
        master: None,
        up: true,
        mtu: 1500,
    });
    let mut drv = IptablesDriver::new();
    let r = setup.exec(&opts, true, &mut host, &mut drv);
    assert_eq!(r, Err(SetupError::DeviceProvisioningFailure(ProvisionFailure::Addressing)));
}

#[test]
fn static_address_outside_subnet_is_rejected() {
    let mut opts = err_opts(vec![("mynet", err_def("10.0.0.0/24", "10.0.0.1"))], None);
    opts.networks[0].1.static_ips = vec!["10.0.1.50".to_string()];
    let (r, _) = run(&opts);
    assert_eq!(r, Err(SetupError::DeviceProvisioningFailure(ProvisionFailure::Addressing)));
}

#[test]
fn static_address_equal_to_gateway_is_rejected() {
    let mut opts = err_opts(vec![("mynet", err_def("10.0.0.0/24", "10.0.0.1"))], None);
    opts.networks[0].1.static_ips = vec!["10.0.0.1".to_string()];
    let (r, _) = run(&opts);
    assert_eq!(r, Err(SetupError::DeviceProvisioningFailure(ProvisionFailure::Addressing)));
}

#[test]
fn bad_port_bind_address_is_a_rule_install_error() {
    let ports = vec![PortMapping {
        host_ip: Some("nope".to_string()),
        host_port: 8080,
        container_port: 80,
        protocol: Protocol::Tcp,
    }];
    let opts = err_opts(vec![("mynet", err_def("10.0.0.0/24", "10.0.0.1"))], Some(ports));
    let (r, host) = run(&opts);
    assert_eq!(r, Err(SetupError::FirewallRuleInstallFailure));
    // the devices were created before the rule failure; no rollback
    assert_eq!(host.devices.len(), 3);
}

#[test]
fn error_messages_are_stable() {
    assert_eq!(SetupError::InvalidNamespace.message(), "invalid namespace path");
    assert_eq!(
        SetupError::ConfigLoadFailure("oops".to_string()).message(),
        "failed to load network options: oops"
    );
    assert_eq!(
        SetupError::UnsupportedDriver("macvlan".to_string()).message(),
        "unknown network driver macvlan"
    );
    assert_eq!(
        SetupError::MissingNetworkOptions("mynet".to_string()).message(),
        "network options for network mynet not found"
    );
    assert_eq!(SetupError::SysctlFailure.message(), "failed to enable ip forwarding");
    assert_eq!(
        SetupError::DeviceProvisioningFailure(ProvisionFailure::Creation).message(),
        "failed to create network device"
    );
    assert_eq!(
        SetupError::DeviceProvisioningFailure(ProvisionFailure::NamespaceMove).message(),
        "failed to move device into namespace"
    );
    assert_eq!(
        SetupError::DeviceProvisioningFailure(ProvisionFailure::Addressing).message(),
        "failed to assign address"
    );
    assert_eq!(
        SetupError::FirewallBackendUnavailable.message(),
        "no supported firewall backend"
    );
    assert_eq!(
        SetupError::FirewallRuleInstallFailure.message(),
        "failed to install firewall rule"
    );
}
