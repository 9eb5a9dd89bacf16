use inferlab::dict::Dict;
use inferlab::protocol::{
    CaptureMechanism, KvTransferMechanism, Parallelism, ServeRoleKind, ServeTopology,
};
use inferlab::resolve::effective::{
    compose_server_definition, resolve_effective_server_input, server_declarations,
    server_overrides, DeclarationSource, ServerDefaults, ServerOverridePatch,
};
use inferlab::resolve::requirements::{
    profiler_escapes_plan, resolved_gateway_process_id, DeclaredEscapes,
};
use inferlab::resolve::workflow::{
    select_workflow, CaseSelectionSource, ExecutionTarget, PlacementSelectionSource,
    ResolveRequest, Workflow,
};
use inferlab::toml_override::InvocationOverride;
use inferlab::toml_value::{read_document, TomlValue};
use inferlab::workspace::{
    LoadedWorkspace, ModelDefinition, ModelWeightBinding, NsysEscapes, PlacementBinding,
    ProfilerDefinition, RecipeDefinition, ServerCaseDefinition, ServerDefinition, StackDefinition,
};

fn no_parallelism() -> Parallelism {
    Parallelism {
        outer: None,
        attention: None,
        experts: None,
    }
}

fn table(text: &str) -> TomlValue {
    TomlValue::Table(read_document(text).unwrap())
}

fn case(readiness: Option<u64>) -> ServerCaseDefinition {
    ServerCaseDefinition {
        readiness_timeout_seconds: readiness,
        readiness_attempt_timeout_seconds: None,
        capture_arm_deadline_seconds: None,
        capture_control_deadline_seconds: None,
        capture_finalization_deadline_seconds: None,
        gateway_backend: None,
        pd_router_backend: None,
        kv_transfer: None,
        profiling: None,
        parallelism: no_parallelism(),
        settings: table(""),
        roles: Dict::new(),
    }
}

fn server() -> ServerDefinition {
    ServerDefinition {
        model: "m".to_owned(),
        stack: "vllm".to_owned(),
        topology: ServeTopology::Single,
        readiness_timeout_seconds: 600,
        readiness_attempt_timeout_seconds: None,
        capture_arm_deadline_seconds: Some(7),
        capture_control_deadline_seconds: None,
        capture_finalization_deadline_seconds: None,
        gateway_backend: None,
        pd_router_backend: None,
        kv_transfer: None,
        profiling: None,
        parallelism: no_parallelism(),
        settings: table("max = 1"),
        roles: Dict::new(),
        cases: Dict::new(),
        default_case: None,
    }
}

fn placement() -> PlacementBinding {
    PlacementBinding {
        machines: vec!["node-a".to_owned()],
        roles: Dict::new(),
    }
}

fn workspace(server: ServerDefinition) -> LoadedWorkspace {
    let mut workspace = LoadedWorkspace {
        recipes: Dict::new(),
        servers: Dict::new(),
        models: Dict::new(),
        stacks: Dict::new(),
        workload_suites: Dict::new(),
        model_weights: Dict::new(),
        placements: Dict::new(),
        default_placement: None,
    };
    workspace.servers.insert("s".to_owned(), server);
    workspace.models.insert(
        "m".to_owned(),
        ModelDefinition {
            served_name: "model".to_owned(),
        },
    );
    workspace.stacks.insert(
        "vllm".to_owned(),
        StackDefinition {
            integration: "vllm".to_owned(),
            pixi_environment: Some("vllm".to_owned()),
            source_paths: Vec::new(),
        },
    );
    workspace.model_weights.insert(
        "m".to_owned(),
        ModelWeightBinding {
            locator: Some("/models/m".to_owned()),
            machine_locators: Dict::new(),
        },
    );
    workspace.placements.insert("near".to_owned(), placement());
    workspace
}

fn request<'a>(case: Option<&'a str>, placement: Option<&'a str>) -> ResolveRequest<'a> {
    ResolveRequest {
        workflow: Workflow::ServeStart,
        target: ExecutionTarget::Server("s"),
        case,
        placement,
    }
}

fn refusal(workspace: &LoadedWorkspace, request: &ResolveRequest) -> Option<String> {
    select_workflow(workspace, request, &Dict::new())
        .err()
        .map(|error| error.message())
}

#[test]
fn what_is_declared_once_is_selected() {
    let mut definition = server();
    definition.cases.insert("only".to_owned(), case(Some(5)));
    let workspace = workspace(definition);
    let selection = select_workflow(&workspace, &request(None, None), &Dict::new()).unwrap();
    let case = selection.case.unwrap();
    assert_eq!(case.id, "only");
    assert_eq!(case.selection, CaseSelectionSource::Sole);
    assert_eq!(selection.placement_id, "near");
    assert_eq!(selection.placement_selection, PlacementSelectionSource::Sole);
    assert_eq!(selection.model.served_name, "model");
    assert!(selection.recipe.is_none());
    assert!(selection.suite.is_none());
}

#[test]
fn several_cases_need_a_choice() {
    let mut definition = server();
    definition.cases.insert("b".to_owned(), case(None));
    definition.cases.insert("a".to_owned(), case(None));
    let mut workspace = workspace(definition);
    workspace.placements.insert("far".to_owned(), placement());
    assert_eq!(
        refusal(&workspace, &request(None, Some("near"))).as_deref(),
        Some("server \"s\" declares multiple cases [\"a\", \"b\"]; select one with --case or set default_case")
    );
    assert_eq!(
        refusal(&workspace, &request(Some("c"), None)).as_deref(),
        Some("unknown case \"c\" for server \"s\"")
    );
    assert_eq!(
        refusal(&workspace, &request(Some("a"), None)).as_deref(),
        Some("local bindings declare multiple placements [\"far\", \"near\"]; select one with --placement or set default_placement")
    );
    assert_eq!(
        refusal(&workspace, &request(Some("a"), Some("off"))).as_deref(),
        Some("unknown placement \"off\"")
    );
}

#[test]
fn a_workflow_is_aimed_at_its_own_target() {
    let mut workspace = workspace(server());
    let mut aimed = request(None, None);
    aimed.target = ExecutionTarget::Recipe("r");
    assert_eq!(
        refusal(&workspace, &aimed).as_deref(),
        Some("serve start requires a server target")
    );
    aimed.workflow = Workflow::RecipeRun;
    assert!(refusal(&workspace, &aimed).is_some_and(|text| text.contains("recipe")));
    workspace.recipes.insert(
        "r".to_owned(),
        RecipeDefinition {
            server: "s".to_owned(),
            workload_suite: "w".to_owned(),
        },
    );
    workspace
        .workload_suites
        .insert("w".to_owned(), table("gate = \"e\""));
    let selection = select_workflow(&workspace, &aimed, &Dict::new()).unwrap();
    assert_eq!(selection.recipe.map(|recipe| recipe.id).as_deref(), Some("r"));
    assert!(selection.suite.is_some());
    aimed.target = ExecutionTarget::Server("s");
    assert_eq!(
        refusal(&workspace, &aimed).as_deref(),
        Some("recipe run requires a recipe target")
    );
}

#[test]
fn a_stack_that_cannot_be_checked_is_refused() {
    let workspace = workspace(server());
    let mut faults = Dict::new();
    faults.insert("vllm".to_owned(), "no such check".to_owned());
    let refused = select_workflow(&workspace, &request(None, None), &faults);
    assert_eq!(
        refused.err().map(|error| error.message()).as_deref(),
        Some("no such check")
    );
}

fn overrides(texts: &[&str]) -> Vec<InvocationOverride> {
    let texts: Vec<String> = texts.iter().map(|text| (*text).to_owned()).collect();
    InvocationOverride::parse_all(&texts).unwrap()
}

fn patch(readiness: Option<u64>) -> Result<ServerOverridePatch, String> {
    Ok(ServerOverridePatch {
        topology: None,
        change: case(readiness),
    })
}

#[test]
fn overrides_of_measurements_are_not_the_servers() {
    let items = overrides(&["server.readiness_timeout_seconds=9", "evals.e.limit=1"]);
    let parsed = [patch(Some(9)), patch(None)];
    let taken = server_overrides(&server(), "s", Workflow::RecipeRun, &items, &parsed).unwrap();
    assert_eq!(taken.len(), 1);
    assert_eq!(taken[0].patch.change.readiness_timeout_seconds, Some(9));
    assert!(server_overrides(&server(), "s", Workflow::ServeStart, &items, &parsed).is_err());
}

#[test]
fn the_last_declaration_of_a_server_stands() {
    let items = overrides(&[
        "server.readiness_timeout_seconds=9",
        "server.readiness_timeout_seconds=11",
    ]);
    let parsed = [patch(Some(9)), patch(Some(11))];
    let taken = server_overrides(&server(), "s", Workflow::ServeStart, &items, &parsed).unwrap();
    let composed = compose_server_definition(
        table("readiness_timeout_seconds = 1\nprofiling = true"),
        Some(&table("readiness_timeout_seconds = 5")),
        &taken,
    )
    .unwrap();
    let TomlValue::Table(entries) = composed else {
        panic!("not a table");
    };
    let value = |key: &str| {
        entries
            .iter()
            .find(|(name, _)| name == key)
            .map(|(_, value)| format!("{value:?}"))
    };
    assert_eq!(
        value("readiness_timeout_seconds").as_deref(),
        Some("Integer(11)")
    );
    assert_eq!(value("profiling").as_deref(), Some("Boolean(true)"));
}

#[test]
fn declarations_are_told_in_their_order() {
    let definition = server();
    let chosen = case(Some(5));
    let items = overrides(&["server.readiness_timeout_seconds=9"]);
    let parsed = [patch(Some(9))];
    let taken = server_overrides(&definition, "s", Workflow::ServeStart, &items, &parsed).unwrap();
    let told = server_declarations("s", &definition, Some(("only", &chosen)), &taken);
    assert_eq!(told.len(), 3);
    assert!(matches!(told[0].source, DeclarationSource::Server { id: "s" }));
    assert!(matches!(told[1].source, DeclarationSource::Case { id: "only" }));
    assert!(matches!(
        told[2].source,
        DeclarationSource::Invocation { index: 0 }
    ));
    let seconds: Vec<Option<u64>> = told
        .iter()
        .map(|declaration| declaration.common.readiness_timeout_seconds)
        .collect();
    assert_eq!(seconds, [Some(600), Some(5), Some(9)]);
}

fn defaults() -> ServerDefaults {
    ServerDefaults {
        readiness_attempt_timeout_seconds: 1,
        capture_arm_deadline_seconds: 2,
        capture_control_deadline_seconds: 3,
        capture_finalization_deadline_seconds: 4,
    }
}

#[test]
fn undeclared_deadlines_have_their_defaults() {
    let input =
        resolve_effective_server_input(ServeTopology::Single, &server(), &defaults(), false)
            .unwrap();
    assert_eq!(input.readiness_timeout_seconds, 600);
    assert_eq!(input.readiness_attempt_timeout_seconds, 1);
    assert_eq!(input.capture_arm_deadline_seconds, 7);
    assert_eq!(input.capture_control_deadline_seconds, 3);
    assert_eq!(input.capture_finalization_deadline_seconds, 4);
    assert!(!input.profiling);
    assert_eq!(input.role_inputs.len(), 1);
    assert_eq!(input.role_inputs[0].kind, ServeRoleKind::Serve);
    assert_eq!(input.role_inputs[0].replica_count, 1);
}

#[test]
fn a_requested_capture_profiles_the_server() {
    let profiling = |declared: Option<bool>, requested: bool| {
        let mut definition = server();
        definition.profiling = declared;
        resolve_effective_server_input(ServeTopology::Single, &definition, &defaults(), requested)
            .unwrap()
            .profiling
    };
    assert!(profiling(None, true));
    assert!(profiling(Some(true), false));
    assert!(!profiling(Some(false), false));
}

#[test]
fn a_single_topology_transfers_nothing() {
    let mut definition = server();
    definition.kv_transfer = Some(KvTransferMechanism::Nixl);
    assert!(resolve_effective_server_input(
        ServeTopology::Single,
        &definition,
        &defaults(),
        false
    )
    .is_err());
}

fn nsys(executable: Option<&str>) -> NsysEscapes {
    let mut escapes = NsysEscapes::default();
    escapes.executable = executable.map(str::to_owned);
    escapes
}

#[test]
fn only_declared_escapes_are_planned() {
    let mut declared = DeclaredEscapes {
        profiler: ProfilerDefinition {
            mechanism: None,
            nsys: nsys(None),
        },
        roles: Dict::new(),
    };
    assert!(profiler_escapes_plan(&declared).is_none());
    declared.profiler.mechanism = Some(CaptureMechanism::Nsys);
    declared.roles.insert(
        "decode".to_owned(),
        ProfilerDefinition {
            mechanism: None,
            nsys: nsys(Some("nsys-decode")),
        },
    );
    declared.roles.insert(
        "prefill".to_owned(),
        ProfilerDefinition {
            mechanism: None,
            nsys: nsys(None),
        },
    );
    let plan = profiler_escapes_plan(&declared).unwrap();
    assert_eq!(plan.mechanism, Some(CaptureMechanism::Nsys));
    assert_eq!(plan.roles.len(), 1);
    assert_eq!(plan.roles[0].0, "decode");
    assert!(resolved_gateway_process_id(&[]).unwrap().is_none());
}
