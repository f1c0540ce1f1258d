use netsetup::firewall::{FirewallDriver, IptablesDriver, Rule, RuleKind};
use netsetup::hash::token;
use netsetup::ip::parse_cidr;
use netsetup::types::{PortMapping, Protocol};

#[test]
fn setup_network_installs_masquerade_and_isolation() {
    let sub = parse_cidr("10.0.0.0/24").unwrap();
    let tok = token("podman");
    let mut d = IptablesDriver::new();
    d.setup_network(sub, true, &tok).unwrap();
    assert_eq!(d.rules.len(), 2);
    assert_eq!(d.rules[0], Rule {
        token: tok.clone(),
        owner: String::new(),
        kind: RuleKind::Masquerade { subnet: sub },
    });
    assert_eq!(d.rules[1], Rule {
        token: tok.clone(),
        owner: String::new(),
        kind: RuleKind::Isolation { subnet: sub },
    });
}

#[test]
fn setup_network_without_isolation() {
    let sub = parse_cidr("10.0.0.0/24").unwrap();
    let tok = token("podman");
    let mut d = IptablesDriver::new();
    d.setup_network(sub, false, &tok).unwrap();
    assert_eq!(d.rules.len(), 1);
    assert!(matches!(d.rules[0].kind, RuleKind::Masquerade { .. }));
}

#[test]
fn setup_network_twice_equals_once() {
    let sub = parse_cidr("10.0.0.0/24").unwrap();
    let tok = token("podman");
    let mut once = IptablesDriver::new();
    once.setup_network(sub, true, &tok).unwrap();
    let mut twice = IptablesDriver::new();
    twice.setup_network(sub, true, &tok).unwrap();
    twice.setup_network(sub, true, &tok).unwrap();
    assert_eq!(once.rules, twice.rules);
}

#[test]
fn setup_network_keeps_other_tokens() {
    let sub_a = parse_cidr("10.0.0.0/24").unwrap();
    let sub_b = parse_cidr("10.0.1.0/24").unwrap();
    let tok_a = token("neta");
    let tok_b = token("netb");
    let mut d = IptablesDriver::new();
    d.setup_network(sub_a, true, &tok_a).unwrap();
    d.setup_network(sub_b, true, &tok_b).unwrap();
    // re-running network A replaces only its own rules
    d.setup_network(sub_a, true, &tok_a).unwrap();
    assert_eq!(d.rules.len(), 4);
    assert_eq!(d.rules.iter().filter(|r| r.token == tok_a).count(), 2);
    assert_eq!(d.rules.iter().filter(|r| r.token == tok_b).count(), 2);
}

#[test]
fn port_forward_rules_come_after_network_rules() {
    let sub = parse_cidr("10.0.0.0/24").unwrap();
    let tok = token("podman");
    let cid = "c1".to_string();
    let dest = (10 << 24) + 2;
    let mut d = IptablesDriver::new();
    d.setup_network(sub, true, &tok).unwrap();
    let maps = vec![PortMapping {
        host_ip: None,
        host_port: 8080,
        container_port: 80,
        protocol: Protocol::Tcp,
    }];
    d.setup_port_forward(&maps, &tok, &cid, sub, dest).unwrap();
    let masq_at = d
        .rules
        .iter()
        .position(|r| r.token == tok && matches!(r.kind, RuleKind::Masquerade { .. }))
        .unwrap();
    let dnat_at = d
        .rules
        .iter()
        .position(|r| r.token == tok && matches!(r.kind, RuleKind::Dnat { .. }))
        .unwrap();
    assert!(masq_at < dnat_at);
}

#[test]
fn ordering_holds_across_several_networks() {
    let sub_a = parse_cidr("10.0.0.0/24").unwrap();
    let sub_b = parse_cidr("10.0.1.0/24").unwrap();
    let tok_a = token("neta");
    let tok_b = token("netb");
    let cid = "c1".to_string();
    let maps = vec![PortMapping {
        host_ip: None,
        host_port: 8080,
        container_port: 80,
        protocol: Protocol::Tcp,
    }];
    let mut d = IptablesDriver::new();
    d.setup_network(sub_a, true, &tok_a).unwrap();
    d.setup_port_forward(&maps, &tok_a, &cid, sub_a, (10 << 24) + 2).unwrap();
    d.setup_network(sub_b, true, &tok_b).unwrap();
    d.setup_port_forward(&maps, &tok_b, &cid, sub_b, (10 << 24) + (1 << 8) + 2).unwrap();
    for tok in [&tok_a, &tok_b] {
        let masq_at = d
            .rules
            .iter()
            .position(|r| r.token == *tok && matches!(r.kind, RuleKind::Masquerade { .. }))
            .unwrap();
        for (i, r) in d.rules.iter().enumerate() {
            if r.token == *tok && matches!(r.kind, RuleKind::Dnat { .. }) {
                assert!(masq_at < i);
            }
        }
    }
}

#[test]
fn port_forward_installs_dnat_and_hairpin() {
    let sub = parse_cidr("10.0.0.0/24").unwrap();
    let tok = token("podman");
    let cid = "c1".to_string();
    let dest = (10 << 24) + 2;
    let mut d = IptablesDriver::new();
    let maps = vec![
        PortMapping { host_ip: None, host_port: 8080, container_port: 80, protocol: Protocol::Tcp },
        PortMapping {
            host_ip: Some("127.0.0.1".to_string()),
            host_port: 53,
            container_port: 5353,
            protocol: Protocol::Udp,
        },
    ];
    d.setup_port_forward(&maps, &tok, &cid, sub, dest).unwrap();
    assert_eq!(d.rules.len(), 4);
    assert_eq!(d.rules[0].kind, RuleKind::Dnat {
        host_ip: None,
        host_port: 8080,
        protocol: Protocol::Tcp,
        dest,
        dest_port: 80,
    });
    assert_eq!(d.rules[1].kind, RuleKind::Hairpin {
        subnet: sub,
        host_port: 8080,
        protocol: Protocol::Tcp,
        dest,
        dest_port: 80,
    });
    assert_eq!(d.rules[2].kind, RuleKind::Dnat {
        host_ip: Some(0x7f000001),
        host_port: 53,
        protocol: Protocol::Udp,
        dest,
        dest_port: 5353,
    });
    assert_eq!(d.rules[2].owner, "c1");
}

#[test]
fn port_forward_rejects_bad_bind_address() {
    let sub = parse_cidr("10.0.0.0/24").unwrap();
    let tok = token("podman");
    let cid = "c1".to_string();
    let mut d = IptablesDriver::new();
    let maps = vec![PortMapping {
        host_ip: Some("not-an-address".to_string()),
        host_port: 8080,
        container_port: 80,
        protocol: Protocol::Tcp,
    }];
    let r = d.setup_port_forward(&maps, &tok, &cid, sub, (10 << 24) + 2);
    assert_eq!(r, Err(netsetup::types::SetupError::FirewallRuleInstallFailure));
    assert!(d.rules.is_empty());
}
