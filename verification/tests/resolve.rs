use inferlab::dict::Dict;
use inferlab::protocol::{
    AttentionParallelism, EndpointProtocol, EndpointRequirement, ExpertParallelism,
    IntegrationIdentity, OuterParallelism, Parallelism, PlanServeResult,
    ProcessSpec, ReadinessProbe, RenderServeResult, RenderedServeProcess, ServeReplicaRequirement,
    ServeRoleInput, ServeRoleKind, ServeRoleResult, ServeTopology,
};
use inferlab::resolve::allocation::{
    allocate_processes, runtime_cache_plan, AllocationContext, ReadinessPlan,
    ResolvedProcessAllocation, RuntimeCacheRootSource,
};
use inferlab::resolve::composition::{apply_network, image_identity, CheckRealization};
use inferlab::resolve::execution::{
    current_environment, realize, resolve, serving_shapes, EnvironmentVariable, ExecutionRequest,
};
use inferlab::resolve::planning::{plan_integration, PlanRequest, PlannedServeStage};
use inferlab::resolve::realization::RealizationContext;
use inferlab::resolve::rendering::{
    local_process, render_allocations, renders_own_frontend,
};
use inferlab::resolve::requirements::{process_id, EffectiveEscapes};
use inferlab::resolve::workflow::Workflow;
use inferlab::server::checks::PlannedEnvironmentCheck;
use inferlab::server::targets::{preflight_plan, probe_targets, remote_check_hosts};
use inferlab::workspace::{
    LaunchBinding, MachineBinding, ModelWeightBinding, NsysEscapes, PlacementBinding,
};

fn no_parallelism() -> Parallelism {
    Parallelism {
        outer: None,
        attention: None,
        experts: None,
    }
}

fn effective_parallelism() -> Parallelism {
    Parallelism {
        outer: Some(OuterParallelism {
            tensor_parallel_size: Some(2),
            pipeline_parallel_size: Some(1),
        }),
        attention: Some(AttentionParallelism {
            tensor_parallel_size: Some(2),
            data_parallel_size: Some(3),
            context_parallel_size: Some(1),
        }),
        experts: Some(ExpertParallelism {
            tensor_parallel_size: Some(2),
            data_parallel_size: Some(1),
            expert_parallel_size: Some(1),
            dense_tensor_parallel_size: Some(2),
        }),
    }
}

fn escapes() -> EffectiveEscapes {
    EffectiveEscapes {
        common: NsysEscapes {
            executable: None,
            launch_options: Vec::new(),
            start_options: Vec::new(),
            trace: Vec::new(),
            sampling: None,
            context_switch: None,
            env: Dict::new(),
        },
        roles: Dict::new(),
    }
}

fn endpoint() -> EndpointRequirement {
    EndpointRequirement {
        protocol: EndpointProtocol::Http,
        completions_path: "/v1/completions".to_owned(),
        chat_completions_path: "/v1/chat/completions".to_owned(),
        server_metrics: None,
        prefix_cache_reset: None,
        prefix_cache_conditioning: None,
        prompt_cache_read_zero_representation: None,
    }
}

fn identity() -> IntegrationIdentity {
    IntegrationIdentity {
        adapter_id: "inferlab-vllm".to_owned(),
        adapter_version: "1".to_owned(),
        framework: "vllm".to_owned(),
        framework_version: "test".to_owned(),
    }
}

fn inputs() -> Vec<ServeRoleInput> {
    vec![ServeRoleInput {
        id: "serve".to_owned(),
        kind: ServeRoleKind::Serve,
        replica_count: 1,
        parallelism: no_parallelism(),
        settings: Dict::new(),
    }]
}

fn plan() -> PlanServeResult {
    PlanServeResult {
        integration: identity(),
        synthetic_acceptance: None,
        roles: vec![ServeRoleResult {
            id: "serve".to_owned(),
            kind: ServeRoleKind::Serve,
            declared_replica_count: 1,
            effective_replica_count: 1,
            effective_settings: Dict::new(),
            effective_parallelism: effective_parallelism(),
            public_endpoint: Some(endpoint()),
            render_inputs: Vec::new(),
        }],
        replicas: vec![ServeReplicaRequirement {
            id: "serve".to_owned(),
            role_id: "serve".to_owned(),
            replica_index: 0,
            device_count: 2,
            ports: vec!["aux".to_owned()],
            primary_ports: Vec::new(),
            primary_readiness: ReadinessProbe::Http {
                path: "/v1/models".to_owned(),
            },
            worker_readiness: ReadinessProbe::ProcessAlive,
            capture_target: None,
        }],
        links: Vec::new(),
        gateway: None,
        pd_router: None,
    }
}

fn machine(launch: LaunchBinding, devices: Vec<u32>) -> MachineBinding {
    MachineBinding {
        host: "10.0.0.1".to_owned(),
        launch,
        devices,
        ports: vec![9000, 9001, 9002],
        cache_root: None,
        workspace: Some("/remote/workspace".to_owned()),
    }
}

fn machines(devices: Vec<u32>) -> Dict<MachineBinding> {
    let mut out: Dict<MachineBinding> = Dict::new();
    out.insert("node-a".to_owned(), machine(LaunchBinding::Local, devices));
    out
}

fn placement() -> PlacementBinding {
    PlacementBinding {
        machines: vec!["node-a".to_owned()],
        roles: Dict::new(),
    }
}

fn weight(locator: Option<&str>) -> ModelWeightBinding {
    ModelWeightBinding {
        locator: locator.map(str::to_owned),
        machine_locators: Dict::new(),
    }
}

fn stage<'a>(
    plan: &'a PlanServeResult,
    inputs: &[ServeRoleInput],
    escapes: &'a EffectiveEscapes,
) -> Result<PlannedServeStage<'a>, String> {
    let mut render_inputs = Dict::new();
    render_inputs.insert("serve".to_owned(), Vec::new());
    plan_integration(
        "vllm",
        &PlanRequest {
            topology: ServeTopology::Single,
            gateway_backend: None,
            pd_router_backend: None,
            kv_transfer: None,
            roles: inputs,
            profiling: None,
        },
        plan,
        &placement(),
        escapes,
        &render_inputs,
        &[],
        &[],
    )
    .map_err(|error| error.message())
}

fn allocate(
    stage: &PlannedServeStage,
    machines: &Dict<MachineBinding>,
    weight: &ModelWeightBinding,
) -> Result<Vec<ResolvedProcessAllocation>, String> {
    allocate_processes(
        &AllocationContext {
            workspace_root: "/workspace",
            source_digest: "source",
            machines,
            placement_id: "default",
            placement: &placement(),
            weight,
            pixi_environment: "vllm",
            image_identity: None,
            local_process: None,
        },
        &stage.requirements,
    )
    .map_err(|error| error.message())
}

fn rendered(process: &str) -> RenderServeResult {
    RenderServeResult {
        integration: identity(),
        processes: vec![RenderedServeProcess::ModelRank {
            process: process.to_owned(),
            role: "serve".to_owned(),
            replica: 0,
            rank: 0,
            rank_count: 1,
            command: ProcessSpec {
                argv: vec!["vllm".to_owned(), "serve".to_owned()],
                env: Dict::new(),
            },
            launch_files: Vec::new(),
        }],
    }
}

#[test]
fn a_server_resolves_to_its_processes() -> Result<(), String> {
    let inputs = inputs();
    let plan = plan();
    let escapes = escapes();
    let machines = machines(vec![0, 1, 2]);
    let weight = weight(Some("/models/m"));
    let stage = stage(&plan, &inputs, &escapes)?;
    assert_eq!(stage.public_process, "serve");
    let allocations = allocate(&stage, &machines, &weight)?;
    assert_eq!(allocations[0].devices, [0, 1]);
    let public = allocations[0].endpoint.as_ref().ok_or("no endpoint")?;
    let aux = allocations[0].ports.get("aux").ok_or("no port")?;
    assert_eq!(public.host, "10.0.0.1");
    assert_ne!(public.port, aux.port);
    assert_eq!(render_allocations(&stage, &allocations), [0]);
    let environment = Dict::new();
    let ctx = RealizationContext {
        integration: "vllm",
        pixi_environment: "vllm",
        workspace_root: "/workspace",
        machines: &machines,
        current_env: &environment,
        readiness_timeout_seconds: 60,
        readiness_attempt_timeout_seconds: 5,
        capture_armed: false,
        public_process: "serve",
        gateway_process_id: None,
    };
    let request = ExecutionRequest {
        workflow: Workflow::RecipeRun,
        has_suite: true,
        server_id: "server",
        weight: &weight,
        image: false,
        external: false,
        executable: "inferlab",
        transport: None,
    };
    let requirement = endpoint();
    let realized = |answer: &str| {
        realize(
            &request,
            &ctx,
            &plan,
            &stage,
            &allocations,
            rendered(answer),
            &requirement,
        )
        .map_err(|error| error.message())
    };
    let execution = resolve(
        &request,
        "vllm",
        &inputs,
        &plan,
        &stage.requirements,
        &allocations,
        realized("serve")?,
    )
    .map_err(|error| error.message())?;
    assert_eq!(execution.processes.len(), 1);
    assert_eq!(execution.device_count, 2);
    assert_eq!(execution.machines, ["node-a"]);
    assert_eq!(execution.endpoint.port, public.port);
    assert_eq!(execution.model_locator.as_deref(), Some("/models/m"));
    assert_eq!(execution.realization, CheckRealization::LocalWorkspace);
    assert_eq!(execution.roles.len(), 1);
    assert!(execution.frontend.is_none());
    let argv = &execution.processes[0].command.argv;
    assert_eq!(argv[argv.len() - 2..], ["vllm", "serve"]);
    assert!(matches!(
        execution.processes[0].readiness,
        ReadinessPlan::Http {
            timeout_seconds: Some(60),
            ..
        }
    ));
    assert!(remote_check_hosts(&execution.processes).is_empty());
    assert_eq!(probe_targets(&execution.processes).len(), 1);
    let check = PlannedEnvironmentCheck {
        id: "cuda".to_owned(),
        script: "true".to_owned(),
        repair_hint: None,
    };
    let preflight = preflight_plan(
        CheckRealization::LocalWorkspace,
        &[check],
        &execution.processes,
    );
    assert!(preflight.checks && preflight.hosts.is_empty());
    assert_eq!(preflight.targets, ["node-a"]);
    assert!(!preflight_plan(CheckRealization::LocalWorkspace, &[], &execution.processes).checks);

    assert!(realized("other").is_err());
    let unsuited = resolve(
        &ExecutionRequest {
            has_suite: false,
            ..request
        },
        "vllm",
        &inputs,
        &plan,
        &stage.requirements,
        &allocations,
        realized("serve")?,
    );
    assert_eq!(
        unsuited.err().map(|error| error.message()),
        Some("recipe workflow has no workload suite".to_owned())
    );
    assert!(!renders_own_frontend(&plan));
    assert_eq!(local_process(&plan, &stage), None);
    assert_eq!(image_identity(Some("image"), Some("digest")), Some("image"));
    assert_eq!(image_identity(None, Some("digest")), Some("digest"));
    assert_eq!(image_identity(None, None), None);
    let bound = apply_network(execution.processes, "ens1");
    assert_eq!(bound[0].communication_interface.as_deref(), Some("ens1"));
    Ok(())
}

#[test]
fn an_integration_is_given_what_it_renders() -> Result<(), String> {
    let inputs = inputs();
    let plan = plan();
    let escapes = escapes();
    let machines = machines(vec![0, 1]);
    let weight = weight(Some("/models/m"));
    let mut stage = stage(&plan, &inputs, &escapes)?;
    let mut allocations = Vec::new();
    for process in ["prefill", "gateway", "decode"] {
        let mut allocated = allocate(&stage, &machines, &weight)?;
        allocated[0].process = process.to_owned();
        allocations.append(&mut allocated);
    }
    stage.integration_rendered_process_ids = vec!["decode".to_owned(), "prefill".to_owned()];
    assert_eq!(render_allocations(&stage, &allocations), [0, 2]);
    stage.integration_rendered_process_ids.clear();
    assert!(render_allocations(&stage, &allocations).is_empty());
    Ok(())
}

#[test]
fn a_machine_with_too_few_devices_refuses() -> Result<(), String> {
    let inputs = inputs();
    let plan = plan();
    let escapes = escapes();
    let stage = stage(&plan, &inputs, &escapes)?;
    let weight = weight(Some("/models/m"));
    assert!(allocate(&stage, &machines(vec![0]), &weight).is_err());
    Ok(())
}

#[test]
fn a_process_without_a_model_is_refused() -> Result<(), String> {
    let inputs = inputs();
    let plan = plan();
    let escapes = escapes();
    let stage = stage(&plan, &inputs, &escapes)?;
    assert!(allocate(&stage, &machines(vec![0, 1]), &weight(None)).is_err());
    Ok(())
}

#[test]
fn a_plan_of_another_framework_is_refused() {
    let inputs = inputs();
    let mut plan = plan();
    plan.integration.framework = "sglang".to_owned();
    let escapes = escapes();
    assert_eq!(
        stage(&plan, &inputs, &escapes).err(),
        Some("integration \"vllm\" returned framework identity \"sglang\"".to_owned())
    );
}

#[test]
fn a_plan_that_changes_the_parallelism_is_refused() {
    let mut inputs = inputs();
    inputs[0].parallelism.outer = Some(OuterParallelism {
        tensor_parallel_size: Some(4),
        pipeline_parallel_size: None,
    });
    let plan = plan();
    let escapes = escapes();
    assert!(stage(&plan, &inputs, &escapes).is_err());
}

#[test]
fn ranks_are_numbered_where_there_are_several() {
    assert_eq!(process_id("serve", 0, 1), "serve");
    assert_ne!(process_id("serve", 0, 2), process_id("serve", 1, 2));
}

#[test]
fn caches_are_kept_apart_by_what_runs() {
    let local = machine(LaunchBinding::Local, vec![0]);
    let of = |process: &str, image: Option<&str>| {
        runtime_cache_plan("/w", "source", &local, "node-a", process, "vllm", image)
    };
    let one = of("a", None);
    assert_eq!(one.storage_root_source, RuntimeCacheRootSource::WorkspaceDefault);
    assert_ne!(one.path, of("b", None).path);
    assert_ne!(one.path, of("a", Some("sha256:1")).path);
    assert_eq!(one.path, of("a", None).path);
}

#[test]
fn the_environment_is_text() {
    let variable = |name: Option<&str>, value: Option<&str>| EnvironmentVariable {
        name: name.map(str::to_owned),
        value: value.map(str::to_owned),
    };
    let taken = current_environment(&[
        variable(Some("B"), Some("1")),
        variable(Some("A"), Some("2")),
        variable(Some("B"), Some("3")),
    ])
    .ok()
    .unwrap();
    assert_eq!(taken.get("B").map(String::as_str), Some("3"));
    assert_eq!(taken.entries[0].0, "A");
    assert_eq!(
        current_environment(&[variable(None, Some("1"))])
            .err()
            .map(|error| error.message()),
        Some("process environment contains a non-UTF-8 variable name".to_owned())
    );
    assert_eq!(
        current_environment(&[variable(Some("A"), None)])
            .err()
            .map(|error| error.message()),
        Some("process environment variable \"A\" is not valid UTF-8".to_owned())
    );
}

#[test]
fn serving_shapes_default_to_one_rank() {
    let mut plan = plan();
    assert_eq!(serving_shapes(&plan), [(true, 3)]);
    plan.roles[0].effective_parallelism = no_parallelism();
    plan.roles[0].public_endpoint = None;
    assert_eq!(serving_shapes(&plan), [(false, 1)]);
}
