//! The firewall rule engine: every rule a network owns is tagged with the
//! network's identity token, so re-running setup first removes the rules
//! bearing the token and teardown can locate them later. Backends are
//! interchangeable implementations of one rule-installation contract.

use crate::devices::chars_bytes_s;
use crate::ip::{parse_ipv4, parse_ipv4_s, Subnet};
use crate::types::{PortMapping, PortMappingV, Protocol, SetupError};
use vstd::prelude::*;
use vstd::string::*;

verus! {

/// What one firewall rule does. Addresses are plain `u32` values.
#[derive(Clone, Copy, Debug, PartialEq, Eq)]
pub enum RuleKind {
    /// Source NAT for traffic leaving the network's subnet.
    Masquerade { subnet: Subnet },
    /// Drops traffic between this subnet and every other network's.
    Isolation { subnet: Subnet },
    /// Destination NAT from a host port to a container address and port.
    Dnat { host_ip: Option<u32>, host_port: u16, protocol: Protocol, dest: u32, dest_port: u16 },
    /// Lets the container reach its own published port via the host.
    Hairpin { subnet: Subnet, host_port: u16, protocol: Protocol, dest: u32, dest_port: u16 },
}

/// One installed rule: the owning network's token, the owning container
/// (empty for network-scoped rules), and what the rule does.
#[derive(Debug, PartialEq)]
pub struct Rule {
    pub token: String,
    pub owner: String,
    pub kind: RuleKind,
}

pub struct RuleV {
    pub token: Seq<char>,
    pub owner: Seq<char>,
    pub kind: RuleKind,
}

impl View for Rule {
    type V = RuleV;

    open spec fn view(&self) -> RuleV {
        RuleV { token: self.token@, owner: self.owner@, kind: self.kind }
    }
}

fn clone_rule(r: &Rule) -> (c: Rule)
    ensures
        c@ == r@,
{
    Rule { token: r.token.clone(), owner: r.owner.clone(), kind: r.kind }
}

pub open spec fn rules_view(rs: Seq<Rule>) -> Seq<RuleV> {
    rs.map_values(|r: Rule| r@)
}

pub open spec fn pms_view(ms: Seq<PortMapping>) -> Seq<PortMappingV> {
    ms.map_values(|m: PortMapping| m@)
}

/// The rule set with every rule bearing `t` removed.
pub open spec fn strip_token_s(rules: Seq<RuleV>, t: Seq<char>) -> Seq<RuleV> {
    rules.filter(|r: RuleV| r.token != t)
}

pub proof fn lemma_strip_push(s: Seq<RuleV>, x: RuleV, t: Seq<char>)
    ensures
        strip_token_s(s.push(x), t) == strip_token_s(s, t) + (if x.token != t {
            seq![x]
        } else {
            Seq::<RuleV>::empty()
        }),
{
    reveal_with_fuel(Seq::filter, 2);
    assert(s.push(x).drop_last() =~= s);
    assert(s.push(x).last() == x);
    if x.token != t {
        assert(strip_token_s(s.push(x), t) =~= strip_token_s(s, t) + seq![x]);
    } else {
        assert(strip_token_s(s.push(x), t) =~= strip_token_s(s, t) + Seq::<RuleV>::empty());
    }
}

/// Stripping a token leaves nothing of a sequence whose rules all bear it.
pub proof fn lemma_strip_all(s: Seq<RuleV>, t: Seq<char>)
    requires
        forall|i: int| 0 <= i < s.len() ==> (#[trigger] s[i]).token == t,
    ensures
        strip_token_s(s, t) == Seq::<RuleV>::empty(),
    decreases s.len(),
{
    reveal_with_fuel(Seq::filter, 2);
    if s.len() == 0 {
        assert(strip_token_s(s, t) =~= Seq::<RuleV>::empty());
    } else {
        lemma_strip_all(s.drop_last(), t);
        assert(s.drop_last().push(s.last()) =~= s);
        lemma_strip_push(s.drop_last(), s.last(), t);
        assert(strip_token_s(s, t) =~= Seq::<RuleV>::empty());
    }
}

/// Stripping a token is idempotent.
pub proof fn lemma_strip_idempotent(s: Seq<RuleV>, t: Seq<char>)
    ensures
        strip_token_s(strip_token_s(s, t), t) == strip_token_s(s, t),
    decreases s.len(),
{
    reveal_with_fuel(Seq::filter, 2);
    if s.len() == 0 {
        assert(strip_token_s(s, t) =~= Seq::<RuleV>::empty());
        assert(strip_token_s(strip_token_s(s, t), t) =~= strip_token_s(s, t));
    } else {
        lemma_strip_idempotent(s.drop_last(), t);
        assert(s.drop_last().push(s.last()) =~= s);
        lemma_strip_push(s.drop_last(), s.last(), t);
        if s.last().token != t {
            lemma_strip_push(strip_token_s(s.drop_last(), t), s.last(), t);
            assert(strip_token_s(strip_token_s(s, t), t) =~= strip_token_s(s, t));
        } else {
            assert(strip_token_s(s, t) =~= strip_token_s(s.drop_last(), t));
        }
    }
}

/// The masquerade rule a network's token owns.
pub open spec fn masq_rule_s(t: Seq<char>, sub: Subnet) -> RuleV {
    RuleV { token: t, owner: Seq::empty(), kind: RuleKind::Masquerade { subnet: sub } }
}

/// The isolation rule a network's token owns.
pub open spec fn iso_rule_s(t: Seq<char>, sub: Subnet) -> RuleV {
    RuleV { token: t, owner: Seq::empty(), kind: RuleKind::Isolation { subnet: sub } }
}

/// The network-scoped rules setup installs: masquerade, and isolation
/// unless the definition disables it.
pub open spec fn network_rules_s(t: Seq<char>, sub: Subnet, isolate: bool) -> Seq<RuleV> {
    if isolate {
        seq![masq_rule_s(t, sub), iso_rule_s(t, sub)]
    } else {
        seq![masq_rule_s(t, sub)]
    }
}

/// What `setup_network` does to a rule table: remove every rule bearing
/// the token, then install the network-scoped rules fresh.
pub open spec fn setup_network_s(
    rules: Seq<RuleV>,
    t: Seq<char>,
    sub: Subnet,
    isolate: bool,
) -> Seq<RuleV> {
    strip_token_s(rules, t) + network_rules_s(t, sub, isolate)
}

/// Law: re-running `setup_network` with the same definition and token
/// yields the same final rule set as running it once — no duplicate
/// masquerade or isolation rules accumulate.
pub proof fn lemma_setup_network_idempotent(
    rules: Seq<RuleV>,
    t: Seq<char>,
    sub: Subnet,
    isolate: bool,
)
    ensures
        setup_network_s(setup_network_s(rules, t, sub, isolate), t, sub, isolate)
            == setup_network_s(rules, t, sub, isolate),
{
    broadcast use vstd::seq_lib::group_filter_ensures;

    let s1 = strip_token_s(rules, t);
    let nr = network_rules_s(t, sub, isolate);
    assert(strip_token_s(s1 + nr, t) =~= strip_token_s(s1, t) + strip_token_s(nr, t)) by {
        Seq::filter_distributes_over_add(s1, nr, |r: RuleV| r.token != t);
    }
    lemma_strip_idempotent(rules, t);
    assert(forall|i: int| 0 <= i < nr.len() ==> (#[trigger] nr[i]).token == t);
    lemma_strip_all(nr, t);
    assert(strip_token_s(s1 + nr, t) =~= s1);
    assert(setup_network_s(setup_network_s(rules, t, sub, isolate), t, sub, isolate)
        =~= setup_network_s(rules, t, sub, isolate));
}

/// The DNAT and hairpin pair for one port mapping.
pub open spec fn pf_pair_s(
    t: Seq<char>,
    cid: Seq<char>,
    m: PortMappingV,
    sub: Subnet,
    dest: u32,
    hip: Option<u32>,
) -> Seq<RuleV> {
    seq![
        RuleV {
            token: t,
            owner: cid,
            kind: RuleKind::Dnat {
                host_ip: hip,
                host_port: m.host_port,
                protocol: m.protocol,
                dest,
                dest_port: m.container_port,
            },
        },
        RuleV {
            token: t,
            owner: cid,
            kind: RuleKind::Hairpin {
                subnet: sub,
                host_port: m.host_port,
                protocol: m.protocol,
                dest,
                dest_port: m.container_port,
            },
        },
    ]
}

/// The port-forward rules for a container on one network: a DNAT and a
/// hairpin rule per mapping, in input order; `None` when any bind
/// address is malformed.
pub open spec fn pf_rules_s(
    t: Seq<char>,
    cid: Seq<char>,
    ms: Seq<PortMappingV>,
    sub: Subnet,
    dest: u32,
) -> Option<Seq<RuleV>>
    decreases ms.len(),
{
    if ms.len() == 0 {
        Some(Seq::empty())
    } else {
        match pf_rules_s(t, cid, ms.drop_last(), sub, dest) {
            None => None,
            Some(rest) => {
                let m = ms.last();
                match m.host_ip {
                    Some(hs) => match parse_ipv4_s(chars_bytes_s(hs)) {
                        None => None,
                        Some(h) => Some(rest + pf_pair_s(t, cid, m, sub, dest, Some(h))),
                    },
                    None => Some(rest + pf_pair_s(t, cid, m, sub, dest, None)),
                }
            },
        }
    }
}

proof fn lemma_pf_none_extends(
    t: Seq<char>,
    cid: Seq<char>,
    ms: Seq<PortMappingV>,
    sub: Subnet,
    dest: u32,
    j: int,
)
    requires
        0 <= j <= ms.len(),
        pf_rules_s(t, cid, ms.take(j), sub, dest) is None,
    ensures
        pf_rules_s(t, cid, ms, sub, dest) is None,
    decreases ms.len() - j,
{
    if j == ms.len() {
        assert(ms.take(j) =~= ms);
    } else {
        assert(ms.take(j + 1).drop_last() =~= ms.take(j));
        lemma_pf_none_extends(t, cid, ms, sub, dest, j + 1);
    }
}

pub open spec fn is_masq_for(r: RuleV, t: Seq<char>) -> bool {
    r.token == t && r.kind matches RuleKind::Masquerade { .. }
}

pub open spec fn is_dnat_for(r: RuleV, t: Seq<char>) -> bool {
    r.token == t && r.kind matches RuleKind::Dnat { .. }
}

/// Law: in a rule table formed by `setup_network` followed by any
/// appended port-forward rules, every DNAT rule bearing the token comes
/// after a masquerade rule bearing it — the network rules exist before
/// any port-forward rule references them.
pub proof fn lemma_port_forwards_follow_network_rules(
    rules: Seq<RuleV>,
    t: Seq<char>,
    sub: Subnet,
    isolate: bool,
    pf: Seq<RuleV>,
)
    ensures
        ({
            let out = setup_network_s(rules, t, sub, isolate) + pf;
            forall|j: int|
                0 <= j < out.len() && is_dnat_for(#[trigger] out[j], t) ==> exists|k: int|
                    0 <= k < j && is_masq_for(#[trigger] out[k], t)
        }),
{
    broadcast use vstd::seq_lib::group_filter_ensures;

    let s1 = strip_token_s(rules, t);
    let nr = network_rules_s(t, sub, isolate);
    let out = setup_network_s(rules, t, sub, isolate) + pf;
    let b = s1.len() as int;
    assert(out[b] == nr[0]);
    assert(is_masq_for(out[b], t));
    assert forall|j: int|
        0 <= j < out.len() && is_dnat_for(#[trigger] out[j], t) implies exists|k: int|
        0 <= k < j && is_masq_for(#[trigger] out[k], t) by {
        if j < b {
            assert(out[j] == s1[j]);
            assert(s1[j].token != t);
            assert(false);
        } else if j < b + nr.len() {
            assert(out[j] == nr[j - b]);
            assert(!(is_dnat_for(nr[j - b], t)));
            assert(false);
        } else {
            assert(0 <= b < j && is_masq_for(out[b], t));
        }
    }
}

/// The rule-table shape the ordering law speaks of: every DNAT rule is
/// preceded by a masquerade rule bearing the same token.
pub open spec fn ordered_s(rules: Seq<RuleV>) -> bool {
    forall|j: int|
        0 <= j < rules.len() && #[trigger] is_dnat_for(rules[j], rules[j].token) ==> exists|k: int|
            0 <= k < j && #[trigger] is_masq_for(rules[k], rules[j].token)
}

proof fn lemma_ordered_drop_last(s: Seq<RuleV>, x: RuleV)
    requires
        ordered_s(s.push(x)),
    ensures
        ordered_s(s),
{
    assert forall|j: int|
        0 <= j < s.len() && #[trigger] is_dnat_for(s[j], s[j].token) implies exists|k: int|
        0 <= k < j && #[trigger] is_masq_for(s[k], s[j].token) by {
        assert(s.push(x)[j] == s[j]);
        assert(is_dnat_for(s.push(x)[j], s.push(x)[j].token));
        let k = choose|k: int| 0 <= k < j && #[trigger] is_masq_for(s.push(x)[k], s.push(x)[j].token);
        assert(s.push(x)[k] == s[k]);
        assert(0 <= k < j && is_masq_for(s[k], s[j].token));
    }
}

/// Removing one token's rules keeps every remaining DNAT rule behind a
/// masquerade rule of its own token.
pub proof fn lemma_strip_keeps_ordered(s: Seq<RuleV>, t0: Seq<char>)
    requires
        ordered_s(s),
    ensures
        ordered_s(strip_token_s(s, t0)),
    decreases s.len(),
{
    broadcast use vstd::seq_lib::group_filter_ensures;

    if s.len() == 0 {
        assert(strip_token_s(s, t0) =~= Seq::<RuleV>::empty());
    } else {
        let s1 = s.drop_last();
        let x = s.last();
        assert(s1.push(x) =~= s);
        lemma_ordered_drop_last(s1, x);
        lemma_strip_keeps_ordered(s1, t0);
        lemma_strip_push(s1, x, t0);
        let f1 = strip_token_s(s1, t0);
        let f = strip_token_s(s, t0);
        if x.token != t0 {
            assert(f =~= f1.push(x));
            assert forall|j: int|
                0 <= j < f.len() && #[trigger] is_dnat_for(f[j], f[j].token) implies exists|k: int|
                0 <= k < j && #[trigger] is_masq_for(f[k], f[j].token) by {
                if j < f1.len() {
                    assert(f[j] == f1[j]);
                    assert(is_dnat_for(f1[j], f1[j].token));
                    let k = choose|k: int|
                        0 <= k < j && #[trigger] is_masq_for(f1[k], f1[j].token);
                    assert(f[k] == f1[k]);
                    assert(0 <= k < j && is_masq_for(f[k], f[j].token));
                } else {
                    // the last element: its witness in `s` bears its token,
                    // which is not t0, so the filter keeps it
                    assert(f[j] == x);
                    assert(s[s.len() - 1] == x);
                    assert(is_dnat_for(s[s.len() - 1], s[s.len() - 1].token));
                    let k = choose|k: int|
                        0 <= k < s.len() - 1 && #[trigger] is_masq_for(
                            s[k],
                            s[s.len() - 1].token,
                        );
                    assert(s1[k] == s[k]);
                    assert(s1[k].token == x.token);
                    assert(s1[k].token != t0);
                    assert(f1.contains(s1[k]));
                    let kk = choose|kk: int| 0 <= kk < f1.len() && f1[kk] == s1[k];
                    assert(f[kk] == f1[kk]);
                    assert(0 <= kk < j && is_masq_for(f[kk], f[j].token));
                }
            }
        } else {
            assert(f =~= f1);
        }
    }
}

/// Every port-forward rule bears the token it was installed under.
pub proof fn lemma_pf_rules_tokens(
    t: Seq<char>,
    cid: Seq<char>,
    ms: Seq<PortMappingV>,
    sub: Subnet,
    dest: u32,
    pr: Seq<RuleV>,
)
    requires
        pf_rules_s(t, cid, ms, sub, dest) == Some(pr),
    ensures
        forall|i: int| 0 <= i < pr.len() ==> (#[trigger] pr[i]).token == t,
    decreases ms.len(),
{
    if ms.len() == 0 {
    } else {
        match pf_rules_s(t, cid, ms.drop_last(), sub, dest) {
            None => {},
            Some(rest) => {
                lemma_pf_rules_tokens(t, cid, ms.drop_last(), sub, dest, rest);
            },
        }
    }
}

/// Law (ordering, arbitrary tables): one `setup_network`, followed by
/// any port-forward rules bearing the same token, keeps the shape in
/// which every DNAT rule stands behind a masquerade rule of its token.
pub proof fn lemma_setup_keeps_ordered(
    rules: Seq<RuleV>,
    t0: Seq<char>,
    sub: Subnet,
    isolate: bool,
    pf: Seq<RuleV>,
)
    requires
        ordered_s(rules),
        forall|i: int| 0 <= i < pf.len() ==> (#[trigger] pf[i]).token == t0,
    ensures
        ordered_s(setup_network_s(rules, t0, sub, isolate) + pf),
{
    broadcast use vstd::seq_lib::group_filter_ensures;

    lemma_strip_keeps_ordered(rules, t0);
    let s1 = strip_token_s(rules, t0);
    let nr = network_rules_s(t0, sub, isolate);
    let out = setup_network_s(rules, t0, sub, isolate) + pf;
    let b = s1.len() as int;
    assert(out[b] == nr[0]);
    assert(is_masq_for(out[b], t0));
    assert forall|j: int|
        0 <= j < out.len() && #[trigger] is_dnat_for(out[j], out[j].token) implies exists|k: int|
        0 <= k < j && #[trigger] is_masq_for(out[k], out[j].token) by {
        if j < b {
            assert(out[j] == s1[j]);
            assert(is_dnat_for(s1[j], s1[j].token));
            let k = choose|k: int| 0 <= k < j && #[trigger] is_masq_for(s1[k], s1[j].token);
            assert(out[k] == s1[k]);
            assert(0 <= k < j && is_masq_for(out[k], out[j].token));
        } else if j < b + nr.len() {
            assert(out[j] == nr[j - b]);
            assert(!is_dnat_for(nr[j - b], nr[j - b].token));
        } else {
            assert(out[j] == pf[j - (b + nr.len())]);
            assert(out[j].token == t0);
            assert(0 <= b < j && is_masq_for(out[b], out[j].token));
        }
    }
}

/// The rule-installation contract every backend presents: rules are
/// scoped by the identity token over the backend's rule-table model.
pub trait FirewallDriver: Sized {
    spec fn rules_model(&self) -> Seq<RuleV>;

    /// Whether this backend's installations always succeed — a capability
    /// the backend asserts, fixed for its lifetime, letting callers
    /// conclude success of a whole run.
    spec fn infallible(&self) -> bool;

    /// Installs masquerade/NAT and isolation rules for one network,
    /// first removing any rules already bearing the token, so a re-run
    /// after a crash is safe. A backend may report failure — always as
    /// the rule-install error — and rules it had installed by then are
    /// not rolled back, so nothing is promised of the table in that case.
    fn setup_network(&mut self, sub: Subnet, isolate: bool, token: &String) -> (r: Result<
        (),
        SetupError,
    >)
        ensures
            r is Ok ==> final(self).rules_model() == setup_network_s(
                old(self).rules_model(),
                token@,
                sub,
                isolate,
            ),
            r matches Err(e) ==> e == SetupError::FirewallRuleInstallFailure,
            old(self).infallible() ==> r is Ok,
            final(self).infallible() == old(self).infallible(),
    ;

    /// Installs the DNAT and hairpin rules for each port mapping,
    /// scoped under the same token. A malformed bind address rejects the
    /// whole request and installs nothing; a backend may report failure
    /// — always as the rule-install error — and what it had installed by
    /// then is not rolled back.
    fn setup_port_forward(
        &mut self,
        mappings: &Vec<PortMapping>,
        token: &String,
        cid: &String,
        sub: Subnet,
        dest: u32,
    ) -> (r: Result<(), SetupError>)
        ensures
            match pf_rules_s(token@, cid@, pms_view(mappings@), sub, dest) {
                Some(pr) => (r is Ok ==> final(self).rules_model() == old(self).rules_model()
                    + pr) && (old(self).infallible() ==> r is Ok),
                None => final(self).rules_model() == old(self).rules_model() && r == Err::<
                    (),
                    SetupError,
                >(SetupError::FirewallRuleInstallFailure),
            },
            r matches Err(e) ==> e == SetupError::FirewallRuleInstallFailure,
            final(self).infallible() == old(self).infallible(),
    ;
}

/// The iptables-style backend: its rule-table model is a sequence of
/// tagged rules.
pub struct IptablesDriver {
    pub rules: Vec<Rule>,
}

impl IptablesDriver {
    /// A backend with an empty rule table.
    pub fn new() -> (r: Self)
        ensures
            r.rules_model() == Seq::<RuleV>::empty(),
    {
        let r = IptablesDriver { rules: Vec::new() };
        proof {
            assert(r.rules_model() =~= Seq::<RuleV>::empty());
        }
        r
    }
}

impl FirewallDriver for IptablesDriver {
    open spec fn rules_model(&self) -> Seq<RuleV> {
        rules_view(self.rules@)
    }

    open spec fn infallible(&self) -> bool {
        true
    }

    fn setup_network(&mut self, sub: Subnet, isolate: bool, token: &String) -> (r: Result<
        (),
        SetupError,
    >)
        ensures
            r is Ok,
    {
        let n = self.rules.len();
        let mut kept: Vec<Rule> = Vec::new();
        let mut i: usize = 0;
        proof {
            assert(rules_view(self.rules@).take(0) =~= Seq::<RuleV>::empty());
            assert(strip_token_s(Seq::<RuleV>::empty(), token@) =~= Seq::<RuleV>::empty());
            assert(rules_view(kept@) =~= Seq::<RuleV>::empty());
        }
        while i < n
            invariant
                i <= n == self.rules@.len(),
                self.rules@ == old(self).rules@,
                rules_view(kept@) == strip_token_s(
                    rules_view(self.rules@).take(i as int),
                    token@,
                ),
            decreases n - i,
        {
            proof {
                let rv = rules_view(self.rules@);
                assert(rv.take(i + 1) =~= rv.take(i as int).push(rv[i as int]));
                lemma_strip_push(rv.take(i as int), rv[i as int], token@);
            }
            if !self.rules[i].token.eq(token) {
                kept.push(clone_rule(&self.rules[i]));
                proof {
                    let rv = rules_view(self.rules@);
                    assert(rules_view(kept@) =~= strip_token_s(rv.take(i as int), token@) + seq![
                        rv[i as int],
                    ]);
                }
            } else {
                proof {
                    let rv = rules_view(self.rules@);
                    assert(strip_token_s(rv.take(i + 1), token@) =~= strip_token_s(
                        rv.take(i as int),
                        token@,
                    ));
                }
            }
            i = i + 1;
        }
        proof {
            assert(rules_view(self.rules@).take(n as int) =~= rules_view(self.rules@));
        }
        self.rules = kept;
        let masq = Rule {
            token: token.clone(),
            owner: String::new(),
            kind: RuleKind::Masquerade { subnet: sub },
        };
        proof {
            assert(masq@ == masq_rule_s(token@, sub));
        }
        self.rules.push(masq);
        if isolate {
            let iso = Rule {
                token: token.clone(),
                owner: String::new(),
                kind: RuleKind::Isolation { subnet: sub },
            };
            proof {
                assert(iso@ == iso_rule_s(token@, sub));
            }
            self.rules.push(iso);
        }
        proof {
            assert(rules_view(self.rules@) =~= setup_network_s(
                rules_view(old(self).rules@),
                token@,
                sub,
                isolate,
            ));
        }
        Ok(())
    }

    fn setup_port_forward(
        &mut self,
        mappings: &Vec<PortMapping>,
        token: &String,
        cid: &String,
        sub: Subnet,
        dest: u32,
    ) -> (r: Result<(), SetupError>)
        ensures
            pf_rules_s(token@, cid@, pms_view(mappings@), sub, dest) is Some ==> r is Ok,
    {
        let ghost msv = pms_view(mappings@);
        let n = mappings.len();
        let mut adds: Vec<Rule> = Vec::new();
        let mut i: usize = 0;
        proof {
            assert(msv.take(0) =~= Seq::<PortMappingV>::empty());
            assert(rules_view(adds@) =~= Seq::<RuleV>::empty());
        }
        while i < n
            invariant
                i <= n == mappings@.len(),
                msv == pms_view(mappings@),
                pf_rules_s(token@, cid@, msv.take(i as int), sub, dest) == Some(
                    rules_view(adds@),
                ),
                self.rules@ == old(self).rules@,
            decreases n - i,
        {
            proof {
                assert(msv.take(i + 1).drop_last() =~= msv.take(i as int));
                assert(msv.take(i + 1).last() == msv[i as int]);
            }
            let m = &mappings[i];
            let hip: Option<u32> = match &m.host_ip {
                Option::Some(hs) => {
                    match parse_ipv4(hs.as_str()) {
                        Some(h) => Option::Some(h),
                        None => {
                            proof {
                                lemma_pf_none_extends(token@, cid@, msv, sub, dest, i + 1);
                            }
                            return Err(SetupError::FirewallRuleInstallFailure);
                        },
                    }
                },
                Option::None => Option::None,
            };
            let ghost adds_before = rules_view(adds@);
            adds.push(
                Rule {
                    token: token.clone(),
                    owner: cid.clone(),
                    kind: RuleKind::Dnat {
                        host_ip: hip,
                        host_port: m.host_port,
                        protocol: m.protocol,
                        dest,
                        dest_port: m.container_port,
                    },
                },
            );
            adds.push(
                Rule {
                    token: token.clone(),
                    owner: cid.clone(),
                    kind: RuleKind::Hairpin {
                        subnet: sub,
                        host_port: m.host_port,
                        protocol: m.protocol,
                        dest,
                        dest_port: m.container_port,
                    },
                },
            );
            proof {
                assert(rules_view(adds@) =~= adds_before + pf_pair_s(
                    token@,
                    cid@,
                    msv[i as int],
                    sub,
                    dest,
                    hip,
                ));
            }
            i = i + 1;
        }
        proof {
            assert(msv.take(n as int) =~= msv);
        }
        let ghost adds_final = rules_view(adds@);
        self.rules.append(&mut adds);
        proof {
            assert(rules_view(self.rules@) =~= rules_view(old(self).rules@) + adds_final);
        }
        Ok(())
    }
}

} // verus!
