//! Workflow selection: the definitions and bindings that one invocation names.

use crate::dict::Dict;
use crate::error::{invalid_config, refuses, InferlabError};
use crate::resolve::selection::lookup;
use crate::text::{cat2, cat3, cat4, cat5, debug, debug_text, join, joined, texts};
use crate::toml_value::TomlValue;
use crate::workspace::{
    LoadedWorkspace, ModelDefinition, ModelWeightBinding, PlacementBinding, RecipeDefinition,
    ServerCaseDefinition, ServerDefinition, StackDefinition,
};
use vstd::prelude::*;
use vstd::string::*;

verus! {

/// What an invocation does.
#[derive(Clone, Copy, Debug, PartialEq, Eq, Structural)]
pub enum Workflow {
    ServeStart,
    RecipeRun,
}

/// What an invocation is aimed at.
#[derive(Clone, Copy, Debug)]
pub enum ExecutionTarget<'a> {
    Server(&'a str),
    Recipe(&'a str),
}

/// How a case came to be selected.
#[derive(Clone, Copy, Debug, PartialEq, Eq, Structural)]
pub enum CaseSelectionSource {
    Explicit,
    Default,
    Sole,
}

/// How a placement came to be selected.
#[derive(Clone, Copy, Debug, PartialEq, Eq, Structural)]
pub enum PlacementSelectionSource {
    Explicit,
    Default,
    Sole,
}

/// What an invocation asks to resolve.
pub struct ResolveRequest<'a> {
    pub workflow: Workflow,
    pub target: ExecutionTarget<'a>,
    pub case: Option<&'a str>,
    pub placement: Option<&'a str>,
}

/// A recipe of the plan.
#[derive(Debug)]
pub struct RecipePlan {
    pub id: String,
    pub workload_suite: String,
}

/// A selected case.
pub struct SelectedCase<'a> {
    pub id: String,
    pub definition: &'a ServerCaseDefinition,
    pub selection: CaseSelectionSource,
}

/// The definitions and bindings of a workflow. Selection never reconstructs
/// what loading has validated.
pub struct WorkflowSelection<'a> {
    pub server_id: String,
    pub recipe: Option<RecipePlan>,
    pub server: &'a ServerDefinition,
    pub model: &'a ModelDefinition,
    pub stack: &'a StackDefinition,
    pub suite: Option<&'a TomlValue>,
    pub case: Option<SelectedCase<'a>>,
    pub weight: &'a ModelWeightBinding,
    pub placement_id: String,
    pub placement_selection: PlacementSelectionSource,
    pub placement: &'a PlacementBinding,
}

/// What a selection holds.
pub struct Selected {
    pub server_id: Seq<char>,
    pub recipe: Option<(Seq<char>, Seq<char>)>,
    pub server: ServerDefinition,
    pub model: ModelDefinition,
    pub stack: StackDefinition,
    pub suite: Option<TomlValue>,
    pub case: Option<(Seq<char>, ServerCaseDefinition, CaseSelectionSource)>,
    pub weight: ModelWeightBinding,
    pub placement_id: Seq<char>,
    pub placement_selection: PlacementSelectionSource,
    pub placement: PlacementBinding,
}

impl<'a> View for WorkflowSelection<'a> {
    type V = Selected;

    open spec fn view(&self) -> Selected {
        Selected {
            server_id: self.server_id@,
            recipe: match self.recipe {
                Some(recipe) => Some((recipe.id@, recipe.workload_suite@)),
                None => None,
            },
            server: *self.server,
            model: *self.model,
            stack: *self.stack,
            suite: match self.suite {
                Some(suite) => Some(*suite),
                None => None,
            },
            case: match self.case {
                Some(case) => Some((case.id@, *case.definition, case.selection)),
                None => None,
            },
            weight: *self.weight,
            placement_id: self.placement_id@,
            placement_selection: self.placement_selection,
            placement: *self.placement,
        }
    }
}

/// The names, each quoted, in brackets.
pub open spec fn quoted_list(names: Seq<Seq<char>>) -> Seq<char> {
    "["@ + joined(names.map_values(|name: Seq<char>| debug_text(name)), ", "@) + "]"@
}

/// The keys of a dictionary, in order.
pub open spec fn keys_of<T>(dict: Dict<T>) -> Seq<Seq<char>> {
    Seq::new(dict.entries@.len(), |i: int| dict.entries@[i].0@)
}

fn quote_keys<T>(dict: &Dict<T>) -> (r: String)
    ensures
        r@ == quoted_list(keys_of(*dict)),
{
    let ghost names = keys_of(*dict);
    let mut quoted: Vec<String> = Vec::new();
    let mut i: usize = 0;
    while i < dict.entries.len()
        invariant
            i <= dict.entries@.len(),
            names == keys_of(*dict),
            quoted@.len() == i,
            forall|j: int| 0 <= j < i ==> (#[trigger] quoted@[j])@ == debug_text(names[j]),
        decreases dict.entries@.len() - i,
    {
        quoted.push(debug(dict.entries[i].0.as_str()));
        i += 1;
    }
    assert(texts(quoted@) =~= names.map_values(|name: Seq<char>| debug_text(name)));
    cat3("[", join(quoted.as_slice(), ", ").as_str(), "]")
}

/// The server that an invocation is aimed at, with its recipe where it runs one.
pub open spec fn aimed_at(workflow: Workflow, target: ExecutionTarget, recipes: Dict<RecipeDefinition>) ->
    Result<(Seq<char>, Option<(Seq<char>, RecipeDefinition)>), Seq<char>> {
    match target {
        ExecutionTarget::Server(server) => if workflow is ServeStart {
            Ok((server@, None))
        } else {
            Err("recipe run requires a recipe target"@)
        },
        ExecutionTarget::Recipe(recipe) => if workflow is RecipeRun {
            match recipes.at(recipe@) {
                Some(definition) => Ok((definition.server@, Some((recipe@, definition)))),
                None => Err(unknown_text("recipe"@, recipe@)),
            }
        } else {
            Err("serve start requires a server target"@)
        },
    }
}

/// No definition has the id.
pub open spec fn unknown_text(label: Seq<char>, id: Seq<char>) -> Seq<char> {
    "unknown "@ + label + " "@ + debug_text(id)
}

/// The case of a server that an invocation runs: the named one, else the
/// default, else the only one.
pub open spec fn chosen_case(
    server: ServerDefinition,
    server_id: Seq<char>,
    named: Option<&str>,
) -> Result<Option<(Seq<char>, ServerCaseDefinition, CaseSelectionSource)>, Seq<char>> {
    match named {
        Some(id) => match server.cases.at(id@) {
            Some(case) => Ok(Some((id@, case, CaseSelectionSource::Explicit))),
            None => Err("unknown case "@ + debug_text(id@) + " for server "@ + debug_text(server_id)),
        },
        None => match server.default_case {
            Some(id) => Ok(
                Some((id@, server.cases.at(id@)->0, CaseSelectionSource::Default)),
            ),
            None => if server.cases.entries@.len() == 0 {
                Ok(None)
            } else if server.cases.entries@.len() == 1 {
                Ok(
                    Some(
                        (
                            server.cases.entries@[0].0@,
                            server.cases.entries@[0].1,
                            CaseSelectionSource::Sole,
                        ),
                    ),
                )
            } else {
                Err(
                    "server "@ + debug_text(server_id) + " declares multiple cases "@ + quoted_list(
                        keys_of(server.cases),
                    ) + "; select one with --case or set default_case"@,
                )
            },
        },
    }
}

/// The placement that an invocation uses: the named one, else the default, else
/// the only one.
pub open spec fn chosen_placement(
    placements: Dict<PlacementBinding>,
    default: Option<String>,
    named: Option<&str>,
) -> Result<(Seq<char>, PlacementSelectionSource), Seq<char>> {
    match named {
        Some(id) => Ok((id@, PlacementSelectionSource::Explicit)),
        None => match default {
            Some(id) => Ok((id@, PlacementSelectionSource::Default)),
            None => if placements.entries@.len() == 0 {
                Err("no local placement is declared"@)
            } else if placements.entries@.len() == 1 {
                Ok((placements.entries@[0].0@, PlacementSelectionSource::Sole))
            } else {
                Err(
                    "local bindings declare multiple placements "@ + quoted_list(
                        keys_of(placements),
                    ) + "; select one with --placement or set default_placement"@,
                )
            },
        },
    }
}

/// The workload suite that a recipe names.
pub open spec fn suite_of(recipe: Option<(Seq<char>, RecipeDefinition)>) -> Option<Seq<char>> {
    match recipe {
        Some((_, definition)) => Some(definition.workload_suite@),
        None => None,
    }
}

/// The selection that an invocation makes, or the text of the refusal.
/// `environment_faults` holds the stacks whose environment checks cannot be
/// planned, with the reason.
pub open spec fn selected(
    workspace: LoadedWorkspace,
    request: ResolveRequest,
    environment_faults: Dict<String>,
) -> Result<Selected, Seq<char>> {
    match aimed_at(request.workflow, request.target, workspace.recipes) {
        Err(text) => Err(text),
        Ok((server_id, recipe)) => match workspace.servers.at(server_id) {
            None => Err(unknown_text("server"@, server_id)),
            Some(server) => match workspace.models.at(server.model@) {
                None => Err(unknown_text("model"@, server.model@)),
                Some(model) => match workspace.stacks.at(server.stack@) {
                    None => Err(unknown_text("stack"@, server.stack@)),
                    Some(stack) => match environment_faults.at(server.stack@) {
                        Some(text) => Err(text@),
                        None => if suite_of(recipe) is Some && workspace.workload_suites.at(
                            suite_of(recipe)->0,
                        ) is None {
                            Err(unknown_text("workload suite"@, suite_of(recipe)->0))
                        } else {
                            match chosen_case(server, server_id, request.case) {
                                Err(text) => Err(text),
                                Ok(case) => match workspace.model_weights.at(server.model@) {
                                    None => Err(
                                        "missing model weight binding "@ + debug_text(
                                            server.model@,
                                        ),
                                    ),
                                    Some(weight) => match chosen_placement(
                                        workspace.placements,
                                        workspace.default_placement,
                                        request.placement,
                                    ) {
                                        Err(text) => Err(text),
                                        Ok((placement_id, placement_selection)) => match workspace.placements.at(
                                            placement_id,
                                        ) {
                                            None => Err(
                                                "unknown placement "@ + debug_text(placement_id),
                                            ),
                                            Some(placement) => Ok(
                                                Selected {
                                                    server_id,
                                                    recipe: match recipe {
                                                        Some((id, definition)) => Some(
                                                            (id, definition.workload_suite@),
                                                        ),
                                                        None => None,
                                                    },
                                                    server,
                                                    model,
                                                    stack,
                                                    suite: match recipe {
                                                        Some((_, definition)) => workspace.workload_suites.at(
                                                            definition.workload_suite@,
                                                        ),
                                                        None => None,
                                                    },
                                                    case,
                                                    weight,
                                                    placement_id,
                                                    placement_selection,
                                                    placement,
                                                },
                                            ),
                                        },
                                    },
                                },
                            }
                        },
                    },
                },
            },
        },
    }
}

fn choose_case<'a>(server: &'a ServerDefinition, server_id: &str, named: Option<&str>) -> (r: Result<
    Option<SelectedCase<'a>>,
    InferlabError,
>)
    requires
        server.default_case is Some ==> server.cases.at(server.default_case->0@) is Some,
    ensures
        match chosen_case(*server, server_id@, named) {
            Err(text) => refuses(r, text),
            Ok(None) => r matches Ok(None),
            Ok(Some((id, definition, selection))) => r matches Ok(Some(case)) && case.id@ == id
                && *case.definition == definition && case.selection == selection,
        },
{
    match named {
        Some(id) => match server.cases.get(id) {
            Some(definition) => Ok(
                Some(
                    SelectedCase {
                        id: id.to_owned(),
                        definition,
                        selection: CaseSelectionSource::Explicit,
                    },
                ),
            ),
            None => invalid_config(
                cat4(
                    "unknown case ",
                    debug(id).as_str(),
                    " for server ",
                    debug(server_id).as_str(),
                ),
            ),
        },
        None => match &server.default_case {
            Some(id) => match server.cases.get(id.as_str()) {
                Some(definition) => Ok(
                    Some(
                        SelectedCase {
                            id: id.clone(),
                            definition,
                            selection: CaseSelectionSource::Default,
                        },
                    ),
                ),
                None => Ok(None),
            },
            None => if server.cases.entries.len() == 0 {
                Ok(None)
            } else if server.cases.entries.len() == 1 {
                let (id, definition) = &server.cases.entries[0];
                Ok(
                    Some(
                        SelectedCase {
                            id: id.clone(),
                            definition,
                            selection: CaseSelectionSource::Sole,
                        },
                    ),
                )
            } else {
                invalid_config(
                    cat5(
                        "server ",
                        debug(server_id).as_str(),
                        " declares multiple cases ",
                        quote_keys(&server.cases).as_str(),
                        "; select one with --case or set default_case",
                    ),
                )
            },
        },
    }
}

fn choose_placement(
    placements: &Dict<PlacementBinding>,
    default: &Option<String>,
    named: Option<&str>,
) -> (r: Result<(String, PlacementSelectionSource), InferlabError>)
    ensures
        match chosen_placement(*placements, *default, named) {
            Err(text) => refuses(r, text),
            Ok((id, selection)) => r matches Ok(found) && found.0@ == id && found.1 == selection,
        },
{
    match named {
        Some(id) => Ok((id.to_owned(), PlacementSelectionSource::Explicit)),
        None => match default {
            Some(id) => Ok((id.clone(), PlacementSelectionSource::Default)),
            None => if placements.entries.len() == 0 {
                invalid_config("no local placement is declared".to_owned())
            } else if placements.entries.len() == 1 {
                Ok((placements.entries[0].0.clone(), PlacementSelectionSource::Sole))
            } else {
                invalid_config(
                    cat3(
                        "local bindings declare multiple placements ",
                        quote_keys(placements).as_str(),
                        "; select one with --placement or set default_placement",
                    ),
                )
            },
        },
    }
}

/// Selects the definitions and bindings of an invocation.
pub fn select_workflow<'a>(
    workspace: &'a LoadedWorkspace,
    request: &ResolveRequest,
    environment_faults: &Dict<String>,
) -> (r: Result<WorkflowSelection<'a>, InferlabError>)
    requires
        workspace.wf(),
    ensures
        match selected(*workspace, *request, *environment_faults) {
            Err(text) => refuses(r, text),
            Ok(expected) => r matches Ok(selection) && selection@ == expected,
        },
{
    let (server_id, recipe): (&str, Option<(&str, &'a RecipeDefinition)>) = match request.target {
        ExecutionTarget::Server(server) => match request.workflow {
            Workflow::ServeStart => (server, None),
            Workflow::RecipeRun => return invalid_config(
                "recipe run requires a recipe target".to_owned(),
            ),
        },
        ExecutionTarget::Recipe(id) => match request.workflow {
            Workflow::RecipeRun => match lookup("recipe", id, &workspace.recipes) {
                Ok(definition) => (definition.server.as_str(), Some((id, definition))),
                Err(error) => return Err(error),
            },
            Workflow::ServeStart => return invalid_config(
                "serve start requires a server target".to_owned(),
            ),
        },
    };
    let server = match lookup("server", server_id, &workspace.servers) {
        Ok(server) => server,
        Err(error) => return Err(error),
    };
    let model = match lookup("model", server.model.as_str(), &workspace.models) {
        Ok(model) => model,
        Err(error) => return Err(error),
    };
    let stack = match lookup("stack", server.stack.as_str(), &workspace.stacks) {
        Ok(stack) => stack,
        Err(error) => return Err(error),
    };
    if let Some(text) = environment_faults.get(server.stack.as_str()) {
        return invalid_config(text.clone());
    }
    let suite = match recipe {
        Some((_, definition)) => match lookup(
            "workload suite",
            definition.workload_suite.as_str(),
            &workspace.workload_suites,
        ) {
            Ok(suite) => Some(suite),
            Err(error) => return Err(error),
        },
        None => None,
    };
    assert(workspace.servers.at(server_id@) == Some(*server));
    let case = match choose_case(server, server_id, request.case) {
        Ok(case) => case,
        Err(error) => return Err(error),
    };
    let weight = match workspace.model_weights.get(server.model.as_str()) {
        Some(weight) => weight,
        None => return invalid_config(
            cat2("missing model weight binding ", debug(server.model.as_str()).as_str()),
        ),
    };
    let (placement_id, placement_selection) = match choose_placement(
        &workspace.placements,
        &workspace.default_placement,
        request.placement,
    ) {
        Ok(found) => found,
        Err(error) => return Err(error),
    };
    let placement = match workspace.placements.get(placement_id.as_str()) {
        Some(placement) => placement,
        None => return invalid_config(
            cat2("unknown placement ", debug(placement_id.as_str()).as_str()),
        ),
    };
    let recipe_plan = match recipe {
        Some((id, definition)) => Some(
            RecipePlan { id: id.to_owned(), workload_suite: definition.workload_suite.clone() },
        ),
        None => None,
    };
    Ok(
        WorkflowSelection {
            server_id: server_id.to_owned(),
            recipe: recipe_plan,
            server,
            model,
            stack,
            suite,
            case,
            weight,
            placement_id,
            placement_selection,
            placement,
        },
    )
}

// ---------------------------------------------------------------------------
// Laws

/// A case that is named is the one that runs, and the default one runs where none is
/// named; without either the only case runs. Whatever runs is declared by the server.
pub proof fn law_named_case_prevails(
    server: ServerDefinition,
    server_id: Seq<char>,
    named: Option<&str>,
    id: Seq<char>,
    case: ServerCaseDefinition,
    source: CaseSelectionSource,
)
    requires
        server.cases.wf(),
        chosen_case(server, server_id, named) == Ok::<
            Option<(Seq<char>, ServerCaseDefinition, CaseSelectionSource)>,
            Seq<char>,
        >(Some((id, case, source))),
        server.default_case matches Some(own) ==> server.cases.at(own@) is Some,
    ensures
        server.cases.at(id) == Some(case),
        named matches Some(name) ==> id == name@ && source == CaseSelectionSource::Explicit,
        named is None ==> (server.default_case matches Some(own) ==> id == own@ && source
            == CaseSelectionSource::Default),
        named is None && server.default_case is None ==> server.cases.entries@.len() == 1 && source
            == CaseSelectionSource::Sole,
{
    if named is None && server.default_case is None {
        crate::dict::lemma_lookup_at(server.cases.entries@, 0);
    }
}

/// A case that is not declared is refused, and so is a choice among several without a
/// name or a default.
pub proof fn law_case_is_never_guessed(
    server: ServerDefinition,
    server_id: Seq<char>,
    named: Option<&str>,
)
    ensures
        named matches Some(name) ==> (chosen_case(server, server_id, named) is Err
            <==> server.cases.at(name@) is None),
        named is None && server.default_case is None ==> (chosen_case(server, server_id, named)
            is Err <==> server.cases.entries@.len() > 1),
        named is None && server.default_case is None && server.cases.entries@.len() == 0
            ==> chosen_case(server, server_id, named) == Ok::<
            Option<(Seq<char>, ServerCaseDefinition, CaseSelectionSource)>,
            Seq<char>,
        >(None),
        named is None && server.default_case is Some ==> chosen_case(server, server_id, named)
            is Ok,
{
}

/// A placement that is named is the one that is used, and the default one is used where
/// none is named; without either the only placement is used, and several are refused.
pub proof fn law_named_placement_prevails(
    placements: Dict<PlacementBinding>,
    default: Option<String>,
    named: Option<&str>,
)
    ensures
        named matches Some(name) ==> (chosen_placement(placements, default, named) matches Ok(chosen)
            && chosen.0 == name@ && chosen.1 == PlacementSelectionSource::Explicit),
        named is None ==> (default matches Some(own) ==> (chosen_placement(
            placements,
            default,
            named,
        ) matches Ok(chosen) && chosen.0 == own@ && chosen.1 == PlacementSelectionSource::Default)),
        named is None && default is None ==> (chosen_placement(placements, default, named) is Ok
            <==> placements.entries@.len() == 1),
        named is None && default is None && placements.entries@.len() == 1 ==> (chosen_placement(
            placements,
            default,
            named,
        ) matches Ok(chosen) && chosen.0 == placements.entries@[0].0@ && chosen.1
            == PlacementSelectionSource::Sole),
{
}

/// What an invocation selects belongs together: the server that it is aimed at, or the
/// one of its recipe, with the model, stack and weights that this server names, the
/// suite that the recipe names, and the placement that was chosen.
pub proof fn law_selection_belongs_together(
    workspace: LoadedWorkspace,
    request: ResolveRequest,
    environment_faults: Dict<String>,
    found: Selected,
)
    requires
        selected(workspace, request, environment_faults) == Ok::<Selected, Seq<char>>(found),
    ensures
        workspace.servers.at(found.server_id) == Some(found.server),
        workspace.models.at(found.server.model@) == Some(found.model),
        workspace.stacks.at(found.server.stack@) == Some(found.stack),
        workspace.model_weights.at(found.server.model@) == Some(found.weight),
        workspace.placements.at(found.placement_id) == Some(found.placement),
        environment_faults.at(found.server.stack@) is None,
        request.placement matches Some(name) ==> found.placement_id == name@,
        request.case matches Some(name) ==> (found.case matches Some(case) && case.0 == name@
            && found.server.cases.at(name@) == Some(case.1)),
        match request.target {
            ExecutionTarget::Server(server) => request.workflow is ServeStart && found.server_id
                == server@ && found.recipe is None && found.suite is None,
            ExecutionTarget::Recipe(recipe) => request.workflow is RecipeRun && (
            workspace.recipes.at(recipe@) matches Some(definition) && found.server_id
                == definition.server@ && found.recipe == Some(
                (recipe@, definition.workload_suite@),
            ) && found.suite is Some && found.suite == workspace.workload_suites.at(
                definition.workload_suite@,
            )),
        },
{
}

} // verus!
