use netsetup::hash::{format_mac, token, MAX_TOKEN_LEN};

#[test]
fn token_is_deterministic() {
    let a = token("podman");
    let b = token("podman");
    assert_eq!(a, b);
    let c = token("podman1");
    let d = token("podman1");
    assert_eq!(c, d);
}

#[test]
fn token_length_is_bounded() {
    let long = "x".repeat(300);
    let names = ["a", "net", "my-bridge-network", long.as_str()];
    for n in names {
        let t = token(n);
        assert!(t.len() <= MAX_TOKEN_LEN);
        assert_eq!(t.len(), 12);
    }
}

#[test]
fn token_is_lower_hex() {
    let t = token("podman");
    assert!(t.chars().all(|c| c.is_ascii_hexdigit() && !c.is_ascii_uppercase()));
}

#[test]
fn token_corpus_has_no_collisions() {
    let mut names: Vec<String> = Vec::new();
    for base in [
        "podman", "bridge", "default", "frontend", "backend", "db", "cache", "web", "api",
        "ingress", "egress", "mgmt", "internal", "external", "dmz", "test", "dev", "prod",
        "staging", "ci",
    ] {
        names.push(base.to_string());
        for i in 0..5 {
            names.push(format!("{}-{}", base, i));
            names.push(format!("{}_{}", base, i));
        }
    }
    let mut tokens: Vec<String> = names.iter().map(|n| token(n)).collect();
    let total = tokens.len();
    tokens.sort();
    tokens.dedup();
    assert_eq!(tokens.len(), total);
}

#[test]
fn token_is_not_the_name_itself() {
    // were the digest the identity on its input, this name's token would
    // be the hex of its own first six bytes
    let t = token("abcdef");
    assert_ne!(t, "616263646566");
}

#[test]
fn format_mac_renders_pairs() {
    let b = vec![0x5a, 0x0a, 0x00, 0x00, 0x02, 0x01];
    assert_eq!(format_mac(&b), "5a:0a:00:00:02:01");
}
