use pypes::analyzer::capability_map;
use pypes::blueprint::{validate_blueprint, Blueprint, ConfigError, Connection};
use pypes::capability::{infer_capabilities, CapSet, Capability};
use pypes::rules::{verify, ViolationType};

fn bp(components: &[&str], wiring: &[(&str, &str)]) -> Blueprint {
    Blueprint {
        components: components.iter().map(|c| (c.to_string(), format!("modules/{}.wasm", c))).collect(),
        wiring: wiring.iter().map(|(c, p)| (c.to_string(), Connection::Simple(p.to_string()))).collect(),
        workflow: None,
    }
}

fn caps(list: &[Capability]) -> CapSet {
    let mut s = CapSet::empty();
    for c in list {
        match c {
            Capability::UntrustedInput => s.untrusted_input = true,
            Capability::InternalData => s.internal_data = true,
            Capability::Exfiltration => s.exfiltration = true,
            Capability::Destructive => s.destructive = true,
            Capability::Proposal => s.proposal = true,
        }
    }
    s
}

#[test]
fn benign_read_only_is_safe() {
    let b = bp(&["reader"], &[("reader.read", "host.calendar/read")]);
    assert_eq!(capability_map(&b), vec![caps(&[Capability::InternalData])]);
    assert!(verify(&b).is_ok());
}

#[test]
fn lethal_trifecta_direct() {
    let b = bp(
        &["agent"],
        &[
            ("agent.r", "host.calendar/read"),
            ("agent.s", "host.http/search"),
            ("agent.u", "host.user/prompt-untrusted"),
        ],
    );
    let m = capability_map(&b);
    assert!(m[0].untrusted_input && m[0].internal_data && m[0].exfiltration);
    let v = verify(&b).unwrap_err();
    assert_eq!(v.len(), 1);
    assert_eq!(v[0].component, "agent");
    assert_eq!(v[0].violation, ViolationType::LethalTrifecta);
    assert_eq!(
        v[0].details,
        "Component 'agent' has access to Untrusted Input, Internal Data, and Exfiltration."
    );
}

#[test]
fn lethal_trifecta_transitive() {
    let b = bp(
        &["orc", "cal", "web"],
        &[
            ("orc.c", "cal.calendar/read"),
            ("orc.w", "web.search/query"),
            ("cal.fs", "host.filesystem/read"),
            ("web.net", "host.http/outgoing"),
        ],
    );
    let m = capability_map(&b);
    assert!(m[0].internal_data && m[0].exfiltration && m[0].untrusted_input);
    let v = verify(&b).unwrap_err();
    assert_eq!(v.len(), 1);
    assert_eq!(v[0].component, "orc");
    assert_eq!(v[0].violation, ViolationType::LethalTrifecta);
}

#[test]
fn proposal_downgrade_is_safe() {
    let b = bp(
        &["agent"],
        &[("agent.d", "host.calendar/propose_delete"), ("agent.u", "host.http/search")],
    );
    assert_eq!(
        capability_map(&b),
        vec![caps(&[Capability::Proposal, Capability::Exfiltration, Capability::UntrustedInput])]
    );
    assert!(verify(&b).is_ok());
}

#[test]
fn deadly_duo_reported() {
    let b = bp(&["agent"], &[("agent.d", "host.fs/delete"), ("agent.u", "host.http/search")]);
    let v = verify(&b).unwrap_err();
    assert_eq!(v.len(), 1);
    assert_eq!(v[0].violation, ViolationType::DeadlyDuo);
    assert_eq!(v[0].details, "Component 'agent' has access to Untrusted Input and Destructive Capabilities.");
}

#[test]
fn zero_components_is_safe() {
    let b = bp(&[], &[]);
    assert!(capability_map(&b).is_empty());
    assert!(verify(&b).is_ok());
}

#[test]
fn unwired_component_has_no_capabilities() {
    let b = bp(&["a", "idle"], &[("a.x", "host.http/get")]);
    let m = capability_map(&b);
    assert_eq!(m[1], CapSet::empty());
    assert!(m[0].exfiltration);
}

#[test]
fn cycle_terminates_with_equal_sets() {
    let b = bp(
        &["a", "b"],
        &[("a.x", "b.y"), ("b.z", "a.w"), ("a.h", "host.http/x"), ("b.f", "host.filesystem/read")],
    );
    let m = capability_map(&b);
    assert_eq!(m[0], m[1]);
    assert!(m[0].exfiltration && m[0].internal_data && m[0].untrusted_input);
}

#[test]
fn host_provider_still_contributes() {
    let b = bp(&["a"], &[("a.x", "host.anything-search")]);
    let m = capability_map(&b);
    assert!(m[0].exfiltration && m[0].untrusted_input);
    let plain = bp(&["a"], &[("a.x", "host.anything")]);
    assert_eq!(capability_map(&plain)[0], CapSet::empty());
}

#[test]
fn report_is_ordered_and_deterministic() {
    let b = bp(
        &["zeta", "alpha"],
        &[
            ("zeta.a", "host.http/x"),
            ("zeta.b", "host.calendar/read"),
            ("zeta.c", "host.fs/delete"),
            ("alpha.a", "host.network/x"),
            ("alpha.b", "host.filesystem/read"),
            ("alpha.c", "host.db/modify"),
        ],
    );
    let v = verify(&b).unwrap_err();
    let keys: Vec<(String, ViolationType)> = v.iter().map(|x| (x.component.clone(), x.violation)).collect();
    assert_eq!(
        keys,
        vec![
            ("alpha".to_string(), ViolationType::DeadlyDuo),
            ("alpha".to_string(), ViolationType::LethalTrifecta),
            ("zeta".to_string(), ViolationType::DeadlyDuo),
            ("zeta".to_string(), ViolationType::LethalTrifecta),
        ]
    );
    let again = verify(&b).unwrap_err();
    let keys2: Vec<(String, ViolationType)> = again.iter().map(|x| (x.component.clone(), x.violation)).collect();
    assert_eq!(keys, keys2);
}

#[test]
fn inference_table() {
    assert_eq!(
        infer_capabilities("host.wasi:http/outgoing-handler"),
        caps(&[Capability::Exfiltration, Capability::UntrustedInput])
    );
    assert_eq!(infer_capabilities("x.calendar/read"), caps(&[Capability::InternalData]));
    assert_eq!(infer_capabilities("x.fs/write"), caps(&[Capability::Destructive]));
    assert_eq!(infer_capabilities("x.calendar/propose_delete"), caps(&[Capability::Proposal]));
    assert_eq!(infer_capabilities("x.llm/predict"), CapSet::empty());
    assert_eq!(infer_capabilities("x.search"), infer_capabilities("x.search"));
}

#[test]
fn propose_blocks_destructive_and_internal() {
    let c = infer_capabilities("host.filesystem/propose_write_read_delete");
    assert!(!c.destructive && !c.internal_data && c.proposal);
}

#[test]
fn validation_rejects_unknown_and_duplicate_names() {
    assert!(validate_blueprint(&bp(&["a"], &[("a.x", "host.y")])).is_ok());
    assert_eq!(validate_blueprint(&bp(&["a"], &[("a.x", "ghost.y")])), Err(ConfigError::ConfigSchema));
    assert_eq!(validate_blueprint(&bp(&["a"], &[("nobody.x", "host.y")])), Err(ConfigError::ConfigSchema));
    assert_eq!(validate_blueprint(&bp(&["a", "a"], &[])), Err(ConfigError::ConfigSchema));
    assert_eq!(validate_blueprint(&bp(&[""], &[])), Err(ConfigError::ConfigSchema));
}

#[test]
fn configured_connection_counts_like_simple() {
    let b = Blueprint {
        components: vec![("agent".to_string(), "a.wasm".to_string())],
        wiring: vec![(
            "agent.r".to_string(),
            Connection::Configured { provider: "host.calendar/read".to_string(), middleware: vec!["logging".to_string()] },
        )],
        workflow: None,
    };
    assert_eq!(capability_map(&b), vec![caps(&[Capability::InternalData])]);
}
