use inferlab::dict::Dict;
use inferlab::protocol::{
    AcceptanceLength, EndpointProtocol, EndpointRequirement, FrontendCoRendering, FrontendHandoff,
    FrontendProcessRole, GatewayPlan, GatewayTarget, IntegrationIdentity, KvTransferMechanism,
    Parallelism, PdRouterPlan, PdRoutingPolicies, PlanServeResult, ReadinessProbe, RenderSource,
    ServeReplicaRequirement, ServeRoleInput, ServeRoleKind, ServeRoleLink, ServeRoleResult,
    ServeTopology, ServerMetricsEndpointRequirement, SyntheticAcceptanceCurveInput,
    SyntheticAcceptanceInput, SyntheticAcceptanceOutcome, TargetEndpointScheme,
};
use inferlab::resolve::topology::{
    is_absolute_origin_path, role_all_have_port, validate_integration_identity,
    validate_serve_graph, validate_synthetic_acceptance_outcome, validate_workload_endpoint,
};

fn no_parallelism() -> Parallelism {
    Parallelism {
        outer: None,
        attention: None,
        experts: None,
    }
}

fn length(value: f64) -> AcceptanceLength {
    AcceptanceLength {
        bits: value.to_bits(),
        text: value.to_string(),
    }
}

// The outcome is required with the declaration, forbidden without it, and
// always a finite value of at least one; the curve form additionally requires
// the determined draft count and the explicit form forbids it.
#[test]
fn synthetic_acceptance_outcome_matches_the_declaration_and_is_valid() {
    let outcome = |value: f64, draft_count: Option<u32>| SyntheticAcceptanceOutcome {
        acceptance_length: length(value),
        draft_count,
    };
    let explicit = SyntheticAcceptanceInput::Explicit {
        acceptance_length: length(2.0),
    };
    let curve = SyntheticAcceptanceInput::Curve(SyntheticAcceptanceCurveInput {
        model_key: "model".to_owned(),
        thinking_mode: None,
        text: "model:\n  - 4: 3.5\n".to_owned(),
        sha256: "a".repeat(64),
    });

    assert!(validate_synthetic_acceptance_outcome(
        "fixture",
        Some(&explicit),
        Some(&outcome(2.0, None))
    )
    .is_ok());
    assert!(validate_synthetic_acceptance_outcome(
        "fixture",
        Some(&curve),
        Some(&outcome(3.5, Some(4)))
    )
    .is_ok());
    assert!(validate_synthetic_acceptance_outcome("fixture", None, None).is_ok());

    for (request, value, expected) in [
        (
            Some(&explicit),
            None,
            "omitted the synthetic acceptance outcome",
        ),
        (None, Some(outcome(2.0, None)), "carried no declaration"),
        (
            Some(&explicit),
            Some(outcome(f64::NAN, None)),
            "finite number of at least one",
        ),
        (
            Some(&curve),
            Some(outcome(f64::INFINITY, Some(4))),
            "finite number of at least one",
        ),
        (
            Some(&explicit),
            Some(outcome(0.5, None)),
            "finite number of at least one",
        ),
        (
            Some(&curve),
            Some(outcome(3.5, None)),
            "omitted the determined draft count",
        ),
        (
            Some(&explicit),
            Some(outcome(2.0, Some(4))),
            "returned a draft count",
        ),
    ] {
        let error = validate_synthetic_acceptance_outcome("fixture", request, value.as_ref())
            .err()
            .map(|error| error.message());
        assert!(
            error
                .as_deref()
                .is_some_and(|error| error.contains(expected)),
            "{expected}: {error:?}"
        );
    }
}

fn endpoint(chat: &str, metrics: Option<ServerMetricsEndpointRequirement>) -> EndpointRequirement {
    EndpointRequirement {
        protocol: EndpointProtocol::Http,
        completions_path: "/v1/completions".to_owned(),
        chat_completions_path: chat.to_owned(),
        server_metrics: metrics,
        prefix_cache_reset: None,
        prefix_cache_conditioning: None,
        prompt_cache_read_zero_representation: None,
    }
}

#[test]
fn rejects_an_integration_that_rebinds_a_named_workload_path() -> Result<(), String> {
    let endpoint = endpoint("/v1/completions", None);

    let error = validate_workload_endpoint("fixture", &endpoint, &[])
        .err()
        .ok_or("rebound chat-completions path was accepted")?
        .message();

    assert!(error.contains("chat_completions_path"));
    assert!(error.contains("/v1/chat/completions"));
    Ok(())
}

#[test]
fn server_metrics_capability_is_an_origin_path_not_a_concrete_url() -> Result<(), String> {
    let offered = |path: &str| {
        endpoint(
            "/v1/chat/completions",
            Some(ServerMetricsEndpointRequirement {
                path: path.to_owned(),
                port: None,
            }),
        )
    };

    validate_workload_endpoint("fixture", &offered("/metrics"), &[])
        .map_err(|error| error.message())?;
    let error = validate_workload_endpoint(
        "fixture",
        &offered("http://private.example/metrics"),
        &[],
    )
    .err()
    .ok_or("concrete server-metrics URL was accepted")?
    .message();

    assert!(error.contains("absolute origin path"));
    let whitespace_error = validate_workload_endpoint("fixture", &offered("/metrics bad"), &[])
        .err()
        .ok_or("server-metrics path with whitespace was accepted")?
        .message();
    assert!(
        whitespace_error.contains("absolute origin path"),
        "{whitespace_error}"
    );
    Ok(())
}

#[test]
fn server_metrics_named_port_must_belong_to_the_public_process() -> Result<(), String> {
    let endpoint = endpoint(
        "/v1/chat/completions",
        Some(ServerMetricsEndpointRequirement {
            path: "/metrics".to_owned(),
            port: Some("prometheus".to_owned()),
        }),
    );

    validate_workload_endpoint("fixture", &endpoint, &["prometheus".to_owned()])
        .map_err(|error| error.message())?;
    let error = validate_workload_endpoint("fixture", &endpoint, &[])
        .err()
        .ok_or("unknown server-metrics port was accepted")?
        .message();

    assert!(error.contains("public process"), "{error}");
    Ok(())
}

fn bootstrap_prefill_decode_plan(framework: &str) -> (Vec<ServeRoleInput>, PlanServeResult) {
    let role = |id: &str, kind| ServeRoleInput {
        id: id.to_owned(),
        kind,
        replica_count: 1,
        parallelism: no_parallelism(),
        settings: Dict::new(),
    };
    let requested_roles = vec![
        role("prefill", ServeRoleKind::Prefill),
        role("decode", ServeRoleKind::Decode),
    ];
    let roles = requested_roles
        .iter()
        .map(|role| ServeRoleResult {
            id: role.id.clone(),
            kind: role.kind,
            declared_replica_count: role.replica_count,
            effective_replica_count: role.replica_count,
            effective_settings: Dict::new(),
            effective_parallelism: no_parallelism(),
            public_endpoint: None,
            render_inputs: Vec::new(),
        })
        .collect();
    let replicas = requested_roles
        .iter()
        .map(|role| ServeReplicaRequirement {
            id: role.id.clone(),
            role_id: role.id.clone(),
            replica_index: 0,
            device_count: 1,
            ports: if role.kind == ServeRoleKind::Prefill {
                vec!["bootstrap".to_owned()]
            } else {
                Vec::new()
            },
            primary_ports: vec!["master".to_owned()],
            primary_readiness: ReadinessProbe::Http {
                path: "/v1/models".to_owned(),
            },
            worker_readiness: ReadinessProbe::ProcessAlive,
            capture_target: None,
        })
        .collect();
    let implementation = match framework {
        "sglang" => "sglang",
        "tensorrt-llm" => "trtllm",
        _ => "vllm_nixl",
    };
    let co_rendering = FrontendCoRendering {
        process_role: FrontendProcessRole::Gateway,
    };
    let readiness = ReadinessProbe::Http {
        path: "/healthcheck".to_owned(),
    };
    let plan = PlanServeResult {
        integration: IntegrationIdentity {
            adapter_id: format!("inferlab-{framework}"),
            adapter_version: "1".to_owned(),
            framework: framework.to_owned(),
            framework_version: "test".to_owned(),
        },
        synthetic_acceptance: None,
        roles,
        replicas,
        links: vec![
            ServeRoleLink::RequestRouting {
                source: "gateway".to_owned(),
                targets: vec!["pd_router".to_owned()],
            },
            ServeRoleLink::RequestRouting {
                source: "pd_router".to_owned(),
                targets: vec!["prefill".to_owned(), "decode".to_owned()],
            },
            ServeRoleLink::KvTransfer {
                source: "prefill".to_owned(),
                target: "decode".to_owned(),
                mechanism: KvTransferMechanism::Nixl,
            },
            ServeRoleLink::Bootstrap {
                source: "pd_router".to_owned(),
                target: "prefill".to_owned(),
                port: "bootstrap".to_owned(),
            },
        ],
        gateway: Some(GatewayPlan {
            backend: "builtin".to_owned(),
            implementation: implementation.to_owned(),
            implementation_version: "1".to_owned(),
            effective_settings: Dict::new(),
            endpoint: endpoint("/v1/chat/completions", None),
            readiness: readiness.clone(),
            ports: Vec::new(),
            targets: vec![GatewayTarget::PdRouter],
            render_inputs: Vec::new(),
            render_source: RenderSource::ControlPlane,
            co_rendering,
        }),
        pd_router: Some(PdRouterPlan {
            backend: "builtin".to_owned(),
            implementation: implementation.to_owned(),
            implementation_version: "1".to_owned(),
            effective_settings: Dict::new(),
            policies: PdRoutingPolicies {
                prefill: "round_robin".to_owned(),
                decode: "round_robin".to_owned(),
            },
            prefill_role: "prefill".to_owned(),
            decode_role: "decode".to_owned(),
            target_scheme: TargetEndpointScheme::Http,
            ports: Vec::new(),
            readiness,
            handoff: FrontendHandoff::InProcess,
            render_inputs: Vec::new(),
            render_source: RenderSource::ControlPlane,
            co_rendering,
        }),
    };
    (requested_roles, plan)
}

fn native_trtllm_prefill_decode_plan() -> (Vec<ServeRoleInput>, PlanServeResult) {
    let (requested_roles, mut plan) = bootstrap_prefill_decode_plan("tensorrt-llm");
    plan.links
        .retain(|link| !matches!(link, ServeRoleLink::Bootstrap { .. }));
    for replica in &mut plan.replicas {
        replica.ports.clear();
    }
    if let Some(gateway) = &mut plan.gateway {
        gateway.backend = "trtllm-disaggregated".to_owned();
        gateway.implementation = "trtllm-disaggregated".to_owned();
        gateway.render_source = RenderSource::Integration;
    }
    if let Some(pd_router) = &mut plan.pd_router {
        pd_router.backend = "trtllm-disaggregated".to_owned();
        pd_router.implementation = "trtllm-disaggregated".to_owned();
        pd_router.render_source = RenderSource::Integration;
    }
    (requested_roles, plan)
}

#[test]
fn gateway_and_pd_router_backend_facts_are_validated_independently() {
    let (roles, mut plan) = bootstrap_prefill_decode_plan("sglang");
    if let Some(gateway) = &mut plan.gateway {
        gateway.backend = "gateway-provider".to_owned();
    }
    if let Some(pd_router) = &mut plan.pd_router {
        pd_router.backend = "pd-provider".to_owned();
    }

    assert!(validate_serve_graph(
        "sglang",
        ServeTopology::PrefillDecode,
        &roles,
        Some("gateway-provider"),
        Some("pd-provider"),
        Some(KvTransferMechanism::Nixl),
        &plan,
    )
    .is_ok());
    assert!(validate_serve_graph(
        "sglang",
        ServeTopology::PrefillDecode,
        &roles,
        Some("pd-provider"),
        Some("gateway-provider"),
        Some(KvTransferMechanism::Nixl),
        &plan,
    )
    .is_err());
}

fn add_second_replica(
    requested_roles: &mut [ServeRoleInput],
    plan: &mut PlanServeResult,
    role_id: &str,
    ports: Vec<String>,
) -> Result<(), String> {
    requested_roles
        .iter_mut()
        .find(|role| role.id == role_id)
        .ok_or_else(|| format!("missing requested role {role_id:?}"))?
        .replica_count = 2;
    let planned = plan
        .roles
        .iter_mut()
        .find(|role| role.id == role_id)
        .ok_or_else(|| format!("missing planned role {role_id:?}"))?;
    planned.declared_replica_count = 2;
    planned.effective_replica_count = 2;
    let mut replica = plan
        .replicas
        .iter()
        .find(|replica| replica.role_id == role_id)
        .cloned()
        .ok_or_else(|| format!("missing planned replica for role {role_id:?}"))?;
    replica.id = format!("{role_id}-001");
    replica.replica_index = 1;
    replica.ports = ports;
    plan.replicas.push(replica);
    Ok(())
}

fn add_first_replica_port(
    plan: &mut PlanServeResult,
    role_id: &str,
    port: &str,
) -> Result<(), String> {
    plan.replicas
        .iter_mut()
        .find(|replica| replica.role_id == role_id && replica.replica_index == 0)
        .ok_or_else(|| format!("missing first replica for role {role_id:?}"))?
        .ports
        .push(port.to_owned());
    Ok(())
}

#[test]
fn nixl_transport_link_is_framework_specific() -> Result<(), String> {
    let (sglang_roles, sglang_plan) = bootstrap_prefill_decode_plan("sglang");
    assert!(validate_serve_graph(
        "sglang",
        ServeTopology::PrefillDecode,
        &sglang_roles,
        Some("builtin"),
        Some("builtin"),
        Some(KvTransferMechanism::Nixl),
        &sglang_plan,
    )
    .is_ok());

    let (vllm_roles, vllm_plan) = bootstrap_prefill_decode_plan("vllm");
    let result = validate_serve_graph(
        "vllm",
        ServeTopology::PrefillDecode,
        &vllm_roles,
        Some("builtin"),
        Some("builtin"),
        Some(KvTransferMechanism::Nixl),
        &vllm_plan,
    );
    assert!(result.is_err());
    assert!(result
        .err()
        .is_some_and(|error| error.message().contains("required KV transport link")));

    let (trtllm_roles, trtllm_plan) = native_trtllm_prefill_decode_plan();
    assert!(validate_serve_graph(
        "tensorrt-llm",
        ServeTopology::PrefillDecode,
        &trtllm_roles,
        Some("trtllm-disaggregated"),
        Some("trtllm-disaggregated"),
        Some(KvTransferMechanism::Nixl),
        &trtllm_plan,
    )
    .is_ok());

    let (_, mut endpoint_link_plan) = native_trtllm_prefill_decode_plan();
    add_first_replica_port(&mut endpoint_link_plan, "prefill", "bootstrap")?;
    endpoint_link_plan.links.push(ServeRoleLink::Bootstrap {
        source: "pd_router".to_owned(),
        target: "prefill".to_owned(),
        port: "bootstrap".to_owned(),
    });
    let result = validate_serve_graph(
        "tensorrt-llm",
        ServeTopology::PrefillDecode,
        &trtllm_roles,
        Some("trtllm-disaggregated"),
        Some("trtllm-disaggregated"),
        Some(KvTransferMechanism::Nixl),
        &endpoint_link_plan,
    );
    assert!(result.is_err_and(|error| error.message().contains("in-band NIXL")));
    Ok(())
}

#[test]
fn bootstrap_link_requires_every_target_replica_endpoint() -> Result<(), String> {
    let (mut roles, mut plan) = bootstrap_prefill_decode_plan("sglang");
    add_first_replica_port(&mut plan, "decode", "diagnostic")?;
    add_second_replica(&mut roles, &mut plan, "decode", Vec::new())?;
    plan.links.push(ServeRoleLink::Bootstrap {
        source: "pd_router".to_owned(),
        target: "decode".to_owned(),
        port: "diagnostic".to_owned(),
    });

    let result = validate_serve_graph(
        "sglang",
        ServeTopology::PrefillDecode,
        &roles,
        Some("builtin"),
        Some("builtin"),
        Some(KvTransferMechanism::Nixl),
        &plan,
    );

    assert!(result.is_err_and(|error| error.message().contains("unknown component")));
    Ok(())
}

#[test]
fn side_channel_link_requires_every_source_and_target_replica_endpoint() -> Result<(), String> {
    for missing_role in ["prefill", "decode"] {
        let (mut roles, mut plan) = bootstrap_prefill_decode_plan("sglang");
        add_first_replica_port(&mut plan, "prefill", "diagnostic")?;
        add_first_replica_port(&mut plan, "decode", "diagnostic")?;
        let second_ports = if missing_role == "prefill" {
            vec!["bootstrap".to_owned()]
        } else {
            Vec::new()
        };
        add_second_replica(&mut roles, &mut plan, missing_role, second_ports)?;
        plan.links.push(ServeRoleLink::SideChannel {
            source: "prefill".to_owned(),
            target: "decode".to_owned(),
            port: "diagnostic".to_owned(),
        });

        let result = validate_serve_graph(
            "sglang",
            ServeTopology::PrefillDecode,
            &roles,
            Some("builtin"),
            Some("builtin"),
            Some(KvTransferMechanism::Nixl),
            &plan,
        );

        assert!(
            result.is_err_and(|error| error.message().contains("unknown component")),
            "side channel accepted a missing {missing_role} replica endpoint"
        );
    }
    Ok(())
}

#[test]
fn accepted_plans_hold_the_replicas_that_their_roles_declare() {
    let (roles, mut plan) = bootstrap_prefill_decode_plan("sglang");
    plan.replicas.pop();
    assert!(validate_serve_graph(
        "sglang",
        ServeTopology::PrefillDecode,
        &roles,
        Some("builtin"),
        Some("builtin"),
        Some(KvTransferMechanism::Nixl),
        &plan,
    )
    .is_err());
}

#[test]
fn accepted_ids_are_unique() -> Result<(), String> {
    let (mut roles, mut plan) = bootstrap_prefill_decode_plan("sglang");
    add_second_replica(&mut roles, &mut plan, "decode", Vec::new())?;
    if let Some(replica) = plan.replicas.last_mut() {
        replica.id = "decode".to_owned();
    }
    assert!(validate_serve_graph(
        "sglang",
        ServeTopology::PrefillDecode,
        &roles,
        Some("builtin"),
        Some("builtin"),
        Some(KvTransferMechanism::Nixl),
        &plan,
    )
    .is_err());
    Ok(())
}

#[test]
fn every_replica_of_a_role_needs_the_port() {
    let (_, plan) = bootstrap_prefill_decode_plan("sglang");
    assert!(role_all_have_port(&plan.replicas, "prefill", "bootstrap"));
    assert!(!role_all_have_port(&plan.replicas, "decode", "bootstrap"));
    assert!(!role_all_have_port(&plan.replicas, "absent", "bootstrap"));
}

#[test]
fn origin_paths_begin_at_the_root_of_the_host() {
    assert!(is_absolute_origin_path("/metrics"));
    assert!(!is_absolute_origin_path("metrics"));
    assert!(!is_absolute_origin_path("//host/metrics"));
    assert!(!is_absolute_origin_path(""));
}

#[test]
fn the_framework_is_the_one_that_was_asked() {
    assert!(validate_integration_identity("vllm", "vllm").is_ok());
    assert_eq!(
        validate_integration_identity("vllm", "sglang")
            .err()
            .map(|error| error.message()),
        Some("integration \"vllm\" returned framework identity \"sglang\"".to_owned())
    );
}
