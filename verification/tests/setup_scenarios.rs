use netsetup::devices::{Device, DeviceKind, HostState, Location};
use netsetup::firewall::{IptablesDriver, RuleKind};
use netsetup::hash::token;
use netsetup::ip::{parse_cidr, parse_ipv4};
use netsetup::setup::Setup;
use netsetup::types::{
    NetworkDefinition, NetworkOptions, PerNetworkOptions, PortMapping, Protocol, ProvisionFailure,
    SetupError,
};

fn scenario_def(subnet: &str, gw: &str) -> NetworkDefinition {
    NetworkDefinition {
        driver: "bridge".to_string(),
        subnet: subnet.to_string(),
        gateway: gw.to_string(),
        bridge_name: None,
        mtu: None,
        isolate: true,
    }
}

fn scenario_opts(nets: Vec<(&str, NetworkDefinition)>, ports: Option<Vec<PortMapping>>) -> NetworkOptions {
    let networks = nets
        .iter()
        .enumerate()
        .map(|(i, (n, _))| {
            (
                n.to_string(),
                PerNetworkOptions {
                    interface_name: format!("eth{}", i),
                    static_ips: Vec::new(),
                },
            )
        })
        .collect();
    NetworkOptions {
        container_id: "c1".to_string(),
        networks,
        network_info: nets.into_iter().map(|(n, d)| (n.to_string(), d)).collect(),
        port_mappings: ports,
    }
}

#[test]
fn one_bridge_network_gets_one_address_inside_subnet() {
    let opts = scenario_opts(vec![("mynet", scenario_def("10.0.0.0/24", "10.0.0.1"))], None);
    let setup = Setup::new("/run/netns/t1".to_string());
    let mut host = HostState::new();
    let mut drv = IptablesDriver::new();
    let resp = setup.exec(&opts, true, &mut host, &mut drv).unwrap();
    assert_eq!(resp.len(), 1);
    assert_eq!(resp[0].0, "mynet");
    let st = &resp[0].1;
    assert_eq!(st.interfaces.len(), 1);
    assert_eq!(st.interfaces[0].name, "eth0");
    assert_eq!(st.interfaces[0].subnets.len(), 1);
    assert_eq!(st.interfaces[0].subnets[0].address, "10.0.0.2/24");
    assert_eq!(st.interfaces[0].subnets[0].gateway, "10.0.0.1");
    assert!(st.dns_server_ips.is_empty());
    // the assigned address lies inside the subnet and is not the gateway
    let sub = parse_cidr("10.0.0.0/24").unwrap();
    let got = parse_ipv4("10.0.0.2").unwrap();
    assert!(sub.contains(got));
    assert_ne!(got, parse_ipv4("10.0.0.1").unwrap());
    // bridge, host veth, namespace veth
    assert_eq!(host.devices.len(), 3);
    assert!(host.ip_forward);
}

#[test]
fn port_mapping_yields_dnat_to_assigned_address() {
    let ports = vec![PortMapping {
        host_ip: None,
        host_port: 8080,
        container_port: 80,
        protocol: Protocol::Tcp,
    }];
    let opts = scenario_opts(
        vec![("mynet", scenario_def("10.0.0.0/24", "10.0.0.1"))],
        Some(ports),
    );
    let setup = Setup::new("/run/netns/t2".to_string());
    let mut host = HostState::new();
    let mut drv = IptablesDriver::new();
    let resp = setup.exec(&opts, true, &mut host, &mut drv).unwrap();
    assert_eq!(resp[0].1.interfaces[0].subnets[0].address, "10.0.0.2/24");
    let assigned = parse_ipv4("10.0.0.2").unwrap();
    let tok = token("mynet");
    let dnat = drv
        .rules
        .iter()
        .find(|r| matches!(r.kind, RuleKind::Dnat { .. }))
        .expect("a DNAT rule must exist");
    assert_eq!(dnat.token, tok);
    assert_eq!(dnat.kind, RuleKind::Dnat {
        host_ip: None,
        host_port: 8080,
        protocol: Protocol::Tcp,
        dest: assigned,
        dest_port: 80,
    });
}

#[test]
fn unsupported_driver_fails_without_side_effects() {
    let mut def = scenario_def("10.0.0.0/24", "10.0.0.1");
    def.driver = "macvlan".to_string();
    let opts = scenario_opts(vec![("mynet", def)], None);
    let setup = Setup::new("/run/netns/t3".to_string());
    let mut host = HostState::new();
    let mut drv = IptablesDriver::new();
    let r = setup.exec(&opts, true, &mut host, &mut drv);
    assert_eq!(r, Err(SetupError::UnsupportedDriver("macvlan".to_string())));
    assert!(host.devices.is_empty());
    assert!(drv.rules.is_empty());
}

#[test]
fn second_network_invalid_subnet_aborts_but_keeps_first() {
    let opts = scenario_opts(
        vec![
            ("neta", scenario_def("10.0.0.0/24", "10.0.0.1")),
            ("netb", scenario_def("10.0.1.0/33", "10.0.1.1")),
        ],
        None,
    );
    let setup = Setup::new("/run/netns/t4".to_string());
    let mut host = HostState::new();
    let mut drv = IptablesDriver::new();
    let r = setup.exec(&opts, true, &mut host, &mut drv);
    assert_eq!(
        r,
        Err(SetupError::DeviceProvisioningFailure(ProvisionFailure::Addressing))
    );
    // the first network's devices and rules remain; nothing was emitted
    assert_eq!(host.devices.len(), 3);
    assert_eq!(drv.rules.len(), 2);
    assert!(drv.rules.iter().all(|rl| rl.token == token("neta")));
}

#[test]
fn existing_bridge_is_reused_and_not_rewritten() {
    let tok = token("mynet");
    let bridge_name = format!("vk-{}", tok);
    let gw = parse_ipv4("10.0.0.1").unwrap();
    let pre = Device {
        name: bridge_name.clone(),
        kind: DeviceKind::Bridge,
        location: Location::Host,
        addresses: vec![(gw, 24), (parse_ipv4("10.0.0.2").unwrap(), 24), (parse_ipv4("10.0.0.3").unwrap(), 24)],
        mac: "aa:bb:cc:dd:ee:ff".to_string(),
        mtu: 9000,
        master: None,
        up: false,
    };
    let mut host = HostState::new();
    host.devices.push(pre.clone());
    let opts = scenario_opts(vec![("mynet", scenario_def("10.0.0.0/24", "10.0.0.1"))], None);
    let setup = Setup::new("/run/netns/t5".to_string());
    let mut drv = IptablesDriver::new();
    let resp = setup.exec(&opts, true, &mut host, &mut drv).unwrap();
    // the pre-existing bridge is untouched, addressing included
    assert_eq!(host.devices[0], pre);
    assert_eq!(
        host.devices.iter().filter(|d| d.name == bridge_name).count(),
        1
    );
    // address assignment skipped the gateway and both assigned addresses
    assert_eq!(resp[0].1.interfaces[0].subnets[0].address, "10.0.0.4/24");
}

#[test]
fn bridge_name_hint_is_used() {
    let mut def = scenario_def("10.0.0.0/24", "10.0.0.1");
    def.bridge_name = Some("br0".to_string());
    let opts = scenario_opts(vec![("mynet", def)], None);
    let setup = Setup::new("/run/netns/t6".to_string());
    let mut host = HostState::new();
    let mut drv = IptablesDriver::new();
    setup.exec(&opts, true, &mut host, &mut drv).unwrap();
    assert!(host.devices.iter().any(|d| d.name == "br0" && d.kind == DeviceKind::Bridge));
}

#[test]
fn static_addresses_are_used_verbatim() {
    let mut opts = scenario_opts(vec![("mynet", scenario_def("10.0.0.0/24", "10.0.0.1"))], None);
    opts.networks[0].1.static_ips = vec!["10.0.0.50".to_string(), "10.0.0.60".to_string()];
    let setup = Setup::new("/run/netns/t7".to_string());
    let mut host = HostState::new();
    let mut drv = IptablesDriver::new();
    let resp = setup.exec(&opts, true, &mut host, &mut drv).unwrap();
    let subnets = &resp[0].1.interfaces[0].subnets;
    assert_eq!(subnets.len(), 2);
    assert_eq!(subnets[0].address, "10.0.0.50/24");
    assert_eq!(subnets[1].address, "10.0.0.60/24");
}

#[test]
fn networks_are_provisioned_in_input_order() {
    let opts = scenario_opts(
        vec![
            ("beta", scenario_def("10.0.1.0/24", "10.0.1.1")),
            ("alpha", scenario_def("10.0.2.0/24", "10.0.2.1")),
        ],
        None,
    );
    let setup = Setup::new("/run/netns/t8".to_string());
    let mut host = HostState::new();
    let mut drv = IptablesDriver::new();
    let resp = setup.exec(&opts, true, &mut host, &mut drv).unwrap();
    assert_eq!(resp[0].0, "beta");
    assert_eq!(resp[1].0, "alpha");
}
