//! The setup orchestrator: validates the namespace, enables forwarding,
//! then provisions each logical network in input order — devices first,
//! then network-scoped firewall rules, then port forwards — aggregating
//! one status block per network. The first error aborts the remaining
//! networks and nothing is emitted on the success channel.

use crate::devices::{name_token_s, provision, provision_s, DeviceV, HostState};
use crate::firewall::{pf_rules_s, pms_view, setup_network_s, FirewallDriver, RuleV};
use crate::hash::token;
use crate::types::{
    first_undefined_s, lookup_pno_s, undefined_options_msg_s, NetworkDefinitionV, NetworkOptions,
    NetworkOptionsV, SetupError, SetupErrorV, StatusBlock, StatusBlockV,
};
use vstd::prelude::*;
use vstd::string::*;

verus! {

/// The view of an aggregated response.
pub open spec fn resp_view(v: Seq<(String, StatusBlock)>) -> Seq<(Seq<char>, StatusBlockV)> {
    v.map_values(|p: (String, StatusBlock)| (p.0@, p.1@))
}

/// One network's step of the state machine: reject an unsupported driver
/// or missing per-network options before touching any device, then
/// provision devices, install network rules, and install port forwards.
pub open spec fn step_net_s(
    name: Seq<char>,
    def: NetworkDefinitionV,
    opts: NetworkOptionsV,
    devs: Seq<DeviceV>,
    rules: Seq<RuleV>,
) -> (Seq<DeviceV>, Seq<RuleV>, Result<StatusBlockV, SetupErrorV>) {
    if !(def.driver == "bridge"@) {
        (devs, rules, Err(SetupErrorV::UnsupportedDriver(def.driver)))
    } else {
        match lookup_pno_s(opts.networks, name) {
            None => (devs, rules, Err(SetupErrorV::MissingNetworkOptions(name))),
            Some(pno) => {
                let t = name_token_s(name);
                let (devs2, pres) = provision_s(devs, def, pno, name, opts.container_id, t);
                match pres {
                    Err(e) => (devs2, rules, Err(e)),
                    Ok(ok) => {
                        let rules2 = setup_network_s(rules, t, ok.2, def.isolate);
                        match opts.port_mappings {
                            None => (devs2, rules2, Ok(ok.0)),
                            Some(ms) => match pf_rules_s(t, opts.container_id, ms, ok.2, ok.1) {
                                None => (
                                    devs2,
                                    rules2,
                                    Err(SetupErrorV::FirewallRuleInstallFailure),
                                ),
                                Some(pr) => (devs2, rules2 + pr, Ok(ok.0)),
                            },
                        }
                    },
                }
            },
        }
    }
}

/// The per-invocation state machine over the networks in input order:
/// the first error aborts the remaining networks; on success one status
/// block per network is aggregated, in order.
pub open spec fn setup_networks_s(
    nets: Seq<(Seq<char>, NetworkDefinitionV)>,
    opts: NetworkOptionsV,
    devs: Seq<DeviceV>,
    rules: Seq<RuleV>,
) -> (Seq<DeviceV>, Seq<RuleV>, Result<Seq<(Seq<char>, StatusBlockV)>, SetupErrorV>)
    decreases nets.len(),
{
    if nets.len() == 0 {
        (devs, rules, Ok(Seq::empty()))
    } else {
        let prev = setup_networks_s(nets.drop_last(), opts, devs, rules);
        match prev.2 {
            Err(e) => prev,
            Ok(resps) => {
                let last = nets.last();
                let step = step_net_s(last.0, last.1, opts, prev.0, prev.1);
                match step.2 {
                    Err(e) => (step.0, step.1, Err(e)),
                    Ok(st) => (step.0, step.1, Ok(resps.push((last.0, st)))),
                }
            },
        }
    }
}

/// Once a prefix of the networks has failed, the whole run is that
/// failure: no later network is attempted.
pub proof fn lemma_networks_err_stable(
    nets: Seq<(Seq<char>, NetworkDefinitionV)>,
    opts: NetworkOptionsV,
    devs: Seq<DeviceV>,
    rules: Seq<RuleV>,
    j: int,
)
    requires
        0 <= j <= nets.len(),
        setup_networks_s(nets.take(j), opts, devs, rules).2 is Err,
    ensures
        setup_networks_s(nets, opts, devs, rules) == setup_networks_s(
            nets.take(j),
            opts,
            devs,
            rules,
        ),
    decreases nets.len() - j,
{
    if j == nets.len() {
        assert(nets.take(j) =~= nets);
    } else {
        assert(nets.take(j + 1).drop_last() =~= nets.take(j));
        lemma_networks_err_stable(nets, opts, devs, rules, j + 1);
    }
}

/// Law: a request naming a driver other than the supported one is
/// rejected before any device is created or rule installed for that
/// network — the step leaves devices and rules exactly as they were.
pub proof fn lemma_unsupported_driver_no_side_effects(
    name: Seq<char>,
    def: NetworkDefinitionV,
    opts: NetworkOptionsV,
    devs: Seq<DeviceV>,
    rules: Seq<RuleV>,
)
    requires
        def.driver != "bridge"@,
    ensures
        step_net_s(name, def, opts, devs, rules) == (
            devs,
            rules,
            Err::<StatusBlockV, SetupErrorV>(SetupErrorV::UnsupportedDriver(def.driver)),
        ),
{
}

/// Law: a network present in the definitions but absent from the
/// per-network options is rejected with the missing-options error before
/// any device is created for it.
pub proof fn lemma_missing_options_rejected(
    name: Seq<char>,
    def: NetworkDefinitionV,
    opts: NetworkOptionsV,
    devs: Seq<DeviceV>,
    rules: Seq<RuleV>,
)
    requires
        def.driver == "bridge"@,
        lookup_pno_s(opts.networks, name) is None,
    ensures
        step_net_s(name, def, opts, devs, rules) == (
            devs,
            rules,
            Err::<StatusBlockV, SetupErrorV>(SetupErrorV::MissingNetworkOptions(name)),
        ),
{
}

/// One step keeps the rule-table shape in which every DNAT rule stands
/// behind a masquerade rule bearing its token.
pub proof fn lemma_step_net_keeps_ordered(
    name: Seq<char>,
    def: NetworkDefinitionV,
    opts: NetworkOptionsV,
    devs: Seq<DeviceV>,
    rules: Seq<RuleV>,
)
    requires
        crate::firewall::ordered_s(rules),
    ensures
        crate::firewall::ordered_s(step_net_s(name, def, opts, devs, rules).1),
{
    if def.driver == "bridge"@ {
        match lookup_pno_s(opts.networks, name) {
            None => {},
            Some(pno) => {
                let t = name_token_s(name);
                let (devs2, pres) = provision_s(devs, def, pno, name, opts.container_id, t);
                match pres {
                    Err(e) => {},
                    Ok(ok) => {
                        let rules2 = setup_network_s(rules, t, ok.2, def.isolate);
                        let empty_pf = Seq::<RuleV>::empty();
                        match opts.port_mappings {
                            None => {
                                crate::firewall::lemma_setup_keeps_ordered(
                                    rules,
                                    t,
                                    ok.2,
                                    def.isolate,
                                    empty_pf,
                                );
                                assert(rules2 + empty_pf =~= rules2);
                            },
                            Some(ms) => {
                                match pf_rules_s(t, opts.container_id, ms, ok.2, ok.1) {
                                    None => {
                                        crate::firewall::lemma_setup_keeps_ordered(
                                            rules,
                                            t,
                                            ok.2,
                                            def.isolate,
                                            empty_pf,
                                        );
                                        assert(rules2 + empty_pf =~= rules2);
                                    },
                                    Some(pr) => {
                                        crate::firewall::lemma_pf_rules_tokens(
                                            t,
                                            opts.container_id,
                                            ms,
                                            ok.2,
                                            ok.1,
                                            pr,
                                        );
                                        crate::firewall::lemma_setup_keeps_ordered(
                                            rules,
                                            t,
                                            ok.2,
                                            def.isolate,
                                            pr,
                                        );
                                    },
                                }
                            },
                        }
                    },
                }
            },
        }
    }
}

/// Law (ordering, whole runs): a run over any number of networks —
/// coinciding tokens included — started from a rule table where every
/// DNAT rule stands behind a masquerade rule bearing its token (the
/// empty table included) ends in a table of the same shape: a network's
/// rules exist before any port-forward rule that references them.
pub proof fn lemma_run_keeps_port_forwards_after_network_rules(
    nets: Seq<(Seq<char>, NetworkDefinitionV)>,
    opts: NetworkOptionsV,
    devs: Seq<DeviceV>,
    rules: Seq<RuleV>,
)
    requires
        crate::firewall::ordered_s(rules),
    ensures
        crate::firewall::ordered_s(setup_networks_s(nets, opts, devs, rules).1),
    decreases nets.len(),
{
    if nets.len() == 0 {
    } else {
        lemma_run_keeps_port_forwards_after_network_rules(nets.drop_last(), opts, devs, rules);
        let prev = setup_networks_s(nets.drop_last(), opts, devs, rules);
        match prev.2 {
            Err(e) => {},
            Ok(resps) => {
                let last = nets.last();
                lemma_step_net_keeps_ordered(last.0, last.1, opts, prev.0, prev.1);
            },
        }
    }
}

/// The state left behind when a backend reports failure on the network
/// at position `i`: the networks before it are fully provisioned, that
/// network's devices are in place, nothing later was attempted. The rule
/// table is whatever the backend left — partial installation is not
/// rolled back.
pub open spec fn aborted_at_s(
    opts: NetworkOptionsV,
    devs0: Seq<DeviceV>,
    rules0: Seq<RuleV>,
    final_devs: Seq<DeviceV>,
    i: int,
) -> bool {
    let pre = setup_networks_s(opts.network_info.take(i), opts, devs0, rules0);
    let name = opts.network_info[i].0;
    let def = opts.network_info[i].1;
    let pno = lookup_pno_s(opts.networks, name);
    &&& pre.2 is Ok
    &&& def.driver == "bridge"@
    &&& pno is Some
    &&& provision_s(pre.0, def, pno->Some_0, name, opts.container_id, name_token_s(name)).1 is Ok
    &&& final_devs == provision_s(
        pre.0,
        def,
        pno->Some_0,
        name,
        opts.container_id,
        name_token_s(name),
    ).0
}

/// A backend refused to install rules for some network mid-run.
pub open spec fn backend_aborted_s(
    opts: NetworkOptionsV,
    devs0: Seq<DeviceV>,
    rules0: Seq<RuleV>,
    final_devs: Seq<DeviceV>,
) -> bool {
    exists|i: int|
        0 <= i < opts.network_info.len() && #[trigger] aborted_at_s(
            opts,
            devs0,
            rules0,
            final_devs,
            i,
        )
}

/// The setup command: configures the given network namespace with the
/// given configuration, creating the interfaces and firewall rules
/// necessary.
pub struct Setup {
    network_namespace_path: String,
}

impl Setup {
    /// The target namespace path this command was invoked with.
    pub closed spec fn path_view(&self) -> Seq<char> {
        self.network_namespace_path@
    }

    /// The setup command configures the given network namespace with the
    /// given configuration, creating any interfaces and firewall rules
    /// necessary.
    pub fn new(network_namespace_path: String) -> (s: Self)
        ensures
            s.path_view() == network_namespace_path@,
    {
        Self { network_namespace_path }
    }

    /// Runs one invocation against the host: namespace validation, the
    /// forwarding sysctl, then the per-network state machine. On success
    /// the aggregate status — one block per network, in input order — is
    /// returned exactly once; on failure only the first error is.
    /// `ns_present` is the caller's check that the namespace path refers
    /// to an existing namespace.
    pub fn exec<D: FirewallDriver>(
        &self,
        opts: &NetworkOptions,
        ns_present: bool,
        host: &mut HostState,
        driver: &mut D,
    ) -> (r: Result<Vec<(String, StatusBlock)>, SetupError>)
        ensures
            ({
                let full = setup_networks_s(
                    opts@.network_info,
                    opts@,
                    old(host)@.devices,
                    old(driver).rules_model(),
                );
                let undef = first_undefined_s(opts@.networks, opts@.network_info);
                if !ns_present || self.path_view().len() == 0 {
                    &&& *final(host) == *old(host)
                    &&& *final(driver) == *old(driver)
                    &&& (r matches Err(e) && e@ == SetupErrorV::InvalidNamespace)
                } else if undef is Some {
                    &&& *final(host) == *old(host)
                    &&& *final(driver) == *old(driver)
                    &&& (r matches Err(e) && e@ == SetupErrorV::ConfigLoadFailure(
                        undefined_options_msg_s(undef->Some_0),
                    ))
                } else {
                    &&& final(host)@.ip_forward
                    &&& (match r {
                        Ok(resp) => final(host)@.devices == full.0 && final(driver).rules_model() == full.1 && full.2 == Ok::<
                            Seq<(Seq<char>, StatusBlockV)>,
                            SetupErrorV,
                        >(resp_view(resp@)),
                        Err(e) => (final(host)@.devices == full.0 && final(driver).rules_model() == full.1 && full.2 == Err::<
                            Seq<(Seq<char>, StatusBlockV)>,
                            SetupErrorV,
                        >(e@)) || (e@ == SetupErrorV::FirewallRuleInstallFailure && !old(driver).infallible() && backend_aborted_s(
                            opts@,
                            old(host)@.devices,
                            old(driver).rules_model(),
                            final(host)@.devices,
                        )),
                    })
                }
            }),
    {
        if !ns_present || self.network_namespace_path.as_str().is_empty() {
            return Err(SetupError::InvalidNamespace);
        }
        if let Some(bad) = opts.first_undefined_network() {
            let mut m = "no network definition for ".to_owned();
            m.append(bad.as_str());
            proof {
                assert(m@ == undefined_options_msg_s(
                    first_undefined_s(opts@.networks, opts@.network_info)->Some_0,
                ));
            }
            return Err(SetupError::ConfigLoadFailure(m));
        }
        host.ip_forward = true;
        let ghost devs0 = old(host)@.devices;
        let ghost rules0 = old(driver).rules_model();
        let ghost ninfo = opts@.network_info;
        let bridge_driver_name: String = "bridge".to_owned();
        let mut response: Vec<(String, StatusBlock)> = Vec::new();
        let n = opts.network_info.len();
        let mut i: usize = 0;
        proof {
            assert(ninfo.take(0) =~= Seq::<(Seq<char>, NetworkDefinitionV)>::empty());
            assert(resp_view(response@) =~= Seq::<(Seq<char>, StatusBlockV)>::empty());
        }
        while i < n
            invariant
                i <= n == opts.network_info@.len(),
                ns_present,
                self.path_view().len() > 0,
                first_undefined_s(opts@.networks, opts@.network_info) is None,
                ninfo == opts@.network_info,
                devs0 == old(host)@.devices,
                rules0 == old(driver).rules_model(),
                driver.infallible() == old(driver).infallible(),
                bridge_driver_name@ == "bridge"@,
                host@.ip_forward,
                setup_networks_s(ninfo.take(i as int), opts@, devs0, rules0) == (
                    host@.devices,
                    driver.rules_model(),
                    Ok::<Seq<(Seq<char>, StatusBlockV)>, SetupErrorV>(resp_view(response@)),
                ),
            decreases n - i,
        {
            proof {
                assert(ninfo.take(i + 1).drop_last() =~= ninfo.take(i as int));
                assert(ninfo.take(i + 1).last() == ninfo[i as int]);
                let p = opts.network_info@[i as int];
                assert(ninfo[i as int] == (p.0@, p.1@));
            }
            let ghost dv = host@.devices;
            let ghost rv = driver.rules_model();
            let net_name = &opts.network_info[i].0;
            let def = &opts.network_info[i].1;
            if !def.driver.eq(&bridge_driver_name) {
                proof {
                    let stepr = step_net_s(net_name@, def@, opts@, dv, rv);
                    assert(stepr == (
                        dv,
                        rv,
                        Err::<StatusBlockV, SetupErrorV>(
                            SetupErrorV::UnsupportedDriver(def@.driver),
                        ),
                    ));
                    assert(setup_networks_s(ninfo.take(i + 1), opts@, devs0, rules0) == (
                        dv,
                        rv,
                        Err::<Seq<(Seq<char>, StatusBlockV)>, SetupErrorV>(
                            SetupErrorV::UnsupportedDriver(def@.driver),
                        ),
                    ));
                    lemma_networks_err_stable(ninfo, opts@, devs0, rules0, i + 1);
                }
                return Err(SetupError::UnsupportedDriver(def.driver.clone()));
            }
            let pno = match opts.lookup_network(net_name) {
                Some(p) => p,
                None => {
                    proof {
                        let stepr = step_net_s(net_name@, def@, opts@, dv, rv);
                        assert(stepr == (
                            dv,
                            rv,
                            Err::<StatusBlockV, SetupErrorV>(
                                SetupErrorV::MissingNetworkOptions(net_name@),
                            ),
                        ));
                        assert(setup_networks_s(ninfo.take(i + 1), opts@, devs0, rules0) == (
                            dv,
                            rv,
                            Err::<Seq<(Seq<char>, StatusBlockV)>, SetupErrorV>(
                                SetupErrorV::MissingNetworkOptions(net_name@),
                            ),
                        ));
                        lemma_networks_err_stable(ninfo, opts@, devs0, rules0, i + 1);
                    }
                    return Err(SetupError::MissingNetworkOptions(net_name.clone()));
                },
            };
            let t = token(net_name.as_str());
            proof {
                assert(t@ == name_token_s(net_name@));
            }
            let (st, primary, sub) = match provision(
                host,
                def,
                pno,
                net_name,
                &opts.container_id,
                &t,
            ) {
                Ok(ok) => ok,
                Err(e) => {
                    proof {
                        let stepr = step_net_s(net_name@, def@, opts@, dv, rv);
                        assert(stepr == (
                            host@.devices,
                            rv,
                            Err::<StatusBlockV, SetupErrorV>(e@),
                        ));
                        assert(setup_networks_s(ninfo.take(i + 1), opts@, devs0, rules0) == (
                            host@.devices,
                            rv,
                            Err::<Seq<(Seq<char>, StatusBlockV)>, SetupErrorV>(e@),
                        ));
                        lemma_networks_err_stable(ninfo, opts@, devs0, rules0, i + 1);
                    }
                    return Err(e);
                },
            };
            match driver.setup_network(sub, def.isolate, &t) {
                Ok(()) => {},
                Err(e) => {
                    proof {
                        assert(aborted_at_s(opts@, devs0, rules0, host@.devices, i as int));
                        assert(backend_aborted_s(opts@, devs0, rules0, host@.devices));
                    }
                    return Err(e);
                },
            }
            let ghost rules2 = driver.rules_model();
            proof {
                assert(rules2 == setup_network_s(rv, t@, sub, def@.isolate));
            }
            match &opts.port_mappings {
                Option::Some(ms) => {
                    proof {
                        assert(pms_view(ms@) =~= opts@.port_mappings->Some_0);
                    }
                    match driver.setup_port_forward(ms, &t, &opts.container_id, sub, primary) {
                        Ok(()) => {},
                        Err(e) => {
                            proof {
                                if pf_rules_s(t@, opts@.container_id, pms_view(ms@), sub, primary)
                                    is None {
                                    let stepr = step_net_s(net_name@, def@, opts@, dv, rv);
                                    assert(stepr == (
                                        host@.devices,
                                        rules2,
                                        Err::<StatusBlockV, SetupErrorV>(e@),
                                    ));
                                    assert(setup_networks_s(
                                        ninfo.take(i + 1),
                                        opts@,
                                        devs0,
                                        rules0,
                                    ) == (
                                        host@.devices,
                                        rules2,
                                        Err::<Seq<(Seq<char>, StatusBlockV)>, SetupErrorV>(e@),
                                    ));
                                    lemma_networks_err_stable(ninfo, opts@, devs0, rules0, i + 1);
                                } else {
                                    assert(aborted_at_s(
                                        opts@,
                                        devs0,
                                        rules0,
                                        host@.devices,
                                        i as int,
                                    ));
                                    assert(backend_aborted_s(opts@, devs0, rules0, host@.devices));
                                }
                            }
                            return Err(e);
                        },
                    }
                },
                Option::None => {},
            }
            let ghost resps_before = resp_view(response@);
            proof {
                let stepr = step_net_s(net_name@, def@, opts@, dv, rv);
                assert(stepr == (host@.devices, driver.rules_model(), Ok::<
                    StatusBlockV,
                    SetupErrorV,
                >(st@)));
                assert(setup_networks_s(ninfo.take(i + 1), opts@, devs0, rules0) == (
                    host@.devices,
                    driver.rules_model(),
                    Ok::<Seq<(Seq<char>, StatusBlockV)>, SetupErrorV>(
                        resps_before.push((net_name@, st@)),
                    ),
                ));
            }
            response.push((net_name.clone(), st));
            proof {
                assert(resp_view(response@) =~= resps_before.push((net_name@, st@)));
            }
            i = i + 1;
        }
        proof {
            assert(ninfo.take(n as int) =~= ninfo);
        }
        Ok(response)
    }
}

} // verus!
