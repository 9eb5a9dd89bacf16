use inferlab::process_group::CommandOutput;
use inferlab::server::network::{
    first_common_in_order, is_routable_interface, parse_probe, probe_places, probing_goes_on,
    resolve, select_interface, NetworkMachinePlan, NetworkSelectionReason, ProbeOutcome, NETWORK_MARKER,
};
use inferlab::server::targets::resolve_network;

fn probe_text(route: &str, addresses: &[(&str, &str)], rdma: &[(&str, &str)]) -> String {
    let mut text = format!("{NETWORK_MARKER}ROUTE\t{route}\n");
    for (interface, address) in addresses {
        text.push_str(&format!("{NETWORK_MARKER}ADDR\t{interface}\t{address}\n"));
    }
    for (interface, device) in rdma {
        text.push_str(&format!("{NETWORK_MARKER}RDMA\t{interface}\t{device}\n"));
    }
    text
}

fn probe(
    route: &str,
    addresses: &[(&str, &str)],
    rdma: &[(&str, &str)],
) -> Result<NetworkMachinePlan, String> {
    parse_probe(&probe_text(route, addresses, rdma)).map_err(|error| error.message())
}

#[test]
fn common_rdma_interface_wins_over_a_link_local_default_route() -> Result<(), String> {
    let probes = vec![
        (
            "node-a".to_owned(),
            probe(
                "enx-link-local",
                &[
                    ("enx-link-local", "169.254.3.1/24"),
                    ("ens-rdma", "192.0.2.10/24"),
                ],
                &[("ens-rdma", "mlx5_0")],
            )?,
        ),
        (
            "node-b".to_owned(),
            probe(
                "enx-link-local",
                &[
                    ("enx-link-local", "169.254.3.1/24"),
                    ("ens-rdma", "192.0.2.11/24"),
                ],
                &[("ens-rdma", "mlx5_0")],
            )?,
        ),
    ];

    let Some((interface, reason)) = select_interface(&probes) else {
        return Err("expected a common interface".to_owned());
    };
    assert_eq!(interface, "ens-rdma");
    assert!(matches!(reason, NetworkSelectionReason::Rdma));
    Ok(())
}

#[test]
fn selection_falls_back_to_a_common_routable_interface() -> Result<(), String> {
    let probes = vec![
        (
            "node-a".to_owned(),
            probe(
                "eth-a",
                &[("eth-a", "192.0.2.10/24"), ("fabric", "198.51.100.10/24")],
                &[],
            )?,
        ),
        (
            "node-b".to_owned(),
            probe(
                "eth-b",
                &[("eth-b", "192.0.2.11/24"), ("fabric", "198.51.100.11/24")],
                &[],
            )?,
        ),
    ];

    let Some((interface, reason)) = select_interface(&probes) else {
        return Err("expected a common interface".to_owned());
    };
    assert_eq!(interface, "fabric");
    assert!(matches!(reason, NetworkSelectionReason::Routable));
    Ok(())
}

#[test]
fn link_local_only_probes_have_no_candidate() -> Result<(), String> {
    let probes = vec![
        (
            "node-a".to_owned(),
            probe(
                "enx-link-local",
                &[("enx-link-local", "169.254.3.1/24")],
                &[],
            )?,
        ),
        (
            "node-b".to_owned(),
            probe(
                "enx-link-local",
                &[("enx-link-local", "169.254.3.1/24")],
                &[],
            )?,
        ),
    ];

    assert!(select_interface(&probes).is_none());
    Ok(())
}

fn two() -> [String; 2] {
    ["a".to_owned(), "b".to_owned()]
}

fn ran(stdout: String) -> ProbeOutcome {
    ProbeOutcome::Ran {
        output: CommandOutput {
            exit_code: Some(0),
            success: true,
            status: "exit status: 0".to_owned(),
            stdout: stdout.into_bytes(),
            stderr: Vec::new(),
        },
    }
}

#[test]
fn a_common_default_route_is_preferred_to_another_routable_interface() -> Result<(), String> {
    let one = probe_text("eth", &[("aux", "192.0.2.1/24"), ("eth", "192.0.2.2/24")], &[]);
    let other = probe_text("eth", &[("aux", "192.0.2.3/24"), ("eth", "192.0.2.4/24")], &[]);
    let plan = resolve(&two(), &[("a".to_owned(), ran(one)), ("b".to_owned(), ran(other))])
        .map_err(|error| error.message())?
        .ok_or("two machines need an interface")?;
    assert_eq!(plan.selected_interface, "eth");
    assert_eq!(plan.reason, NetworkSelectionReason::DefaultRoute);
    assert_eq!(plan.machines.len(), 2);
    let shown = plan.machines.get("b").expect("the machine was probed");
    assert_eq!(shown.addresses.get("eth").map(Vec::as_slice), Some(&["192.0.2.4/24".to_owned()][..]));
    assert_eq!(shown.candidates, ["aux", "eth"]);
    Ok(())
}

#[test]
fn probing_ends_with_a_probe_that_fails() {
    assert!(probing_goes_on("a", &ran(probe_text("eth", &[], &[]))));
    assert!(!probing_goes_on("a", &ran("no evidence".to_owned())));
    let unrun = ProbeOutcome::SshFailed {
        source: "no route".to_owned(),
    };
    assert!(!probing_goes_on("a", &unrun));
}

#[test]
fn one_machine_needs_no_interface() {
    assert!(matches!(resolve(&["a".to_owned(), "a".to_owned()], &[]), Ok(None)));
    assert!(matches!(resolve(&[], &[]), Ok(None)));
    assert!(probe_places(&["a".to_owned(), "a".to_owned()]).is_empty());
    assert_eq!(
        probe_places(&["b".to_owned(), "a".to_owned(), "b".to_owned()]),
        [0, 1]
    );
}

#[test]
fn failed_probes_are_told() {
    let good = || ran(probe_text("eth", &[("eth", "192.0.2.2/24")], &[]));
    let told = |outcome: ProbeOutcome| {
        resolve_network(&two(), &[("a".to_owned(), good()), ("b".to_owned(), outcome)])
            .err()
            .map(|error| error.message())
    };
    assert_eq!(
        told(ProbeOutcome::SshFailed {
            source: "no route".to_owned()
        }),
        Some(
            "network resolution failed: failed to launch network probe for machine \"b\": no route"
                .to_owned()
        )
    );
    assert_eq!(
        told(ProbeOutcome::Ran {
            output: CommandOutput {
                exit_code: Some(3),
                success: false,
                status: "exit status: 3".to_owned(),
                stdout: Vec::new(),
                stderr: b"broken\n".to_vec(),
            }
        }),
        Some(
            "network resolution failed: network probe for machine \"b\" exited with exit status: 3: broken"
                .to_owned()
        )
    );
    assert!(told(ran(probe_text("eth1", &[("eth1", "192.0.2.9/24")], &[])))
        .is_some_and(|text| text.contains("no common routable communication interface across machines [a, b]")));
}

#[test]
fn bytes_that_are_no_text_are_told() {
    let outcome = resolve(
        &two(),
        &[(
            "a".to_owned(),
            ProbeOutcome::Ran {
                output: CommandOutput {
                    exit_code: Some(0),
                    success: true,
                    status: "exit status: 0".to_owned(),
                    stdout: vec![0xff, 0xfe],
                    stderr: Vec::new(),
                },
            },
        )],
    );
    assert!(outcome.err().is_some_and(|error| error
        .message()
        .starts_with("network probe for machine \"a\" returned non-UTF-8 output: invalid utf-8")));
}

#[test]
fn virtual_interfaces_are_not_routable() {
    let address = vec!["192.0.2.1/24".to_owned()];
    for name in ["lo", "br-1", "docker0", "veth9", "virbr0"] {
        assert!(!is_routable_interface(name, &address), "{name}");
    }
    assert!(is_routable_interface("ens1", &address));
    assert!(!is_routable_interface("ens1", &["169.254.0.1/16".to_owned()]));
}

#[test]
fn the_first_value_that_all_share_is_chosen() {
    let lists = vec![
        vec!["a".to_owned(), "b".to_owned(), "c".to_owned()],
        vec!["c".to_owned(), "b".to_owned()],
    ];
    assert_eq!(first_common_in_order(&lists), Some("b".to_owned()));
    assert_eq!(first_common_in_order(&[]), None);
}
