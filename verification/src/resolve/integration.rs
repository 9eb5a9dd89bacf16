//! Integration: from an integration's answers to required and rendered
//! processes.

use crate::dict::Dict;
use crate::digest::{is_lowercase_sha256, lowercase_sha256, sha256_hex, sha256_text};
use crate::error::{invalid_config, or_fault, refuses, InferlabError};
use crate::paths::{debug_path, debug_path_text, join_path, joined_path};
use crate::protocol::{
    EndpointAssignment, FrontendComponents, FrontendProcessRole, GatewayPlan, KvTransferMechanism,
    LaunchFileDeclaration, PdRouterPlan, ProcessSpec, RenderInputDeclaration, RenderSource,
    RenderedServeProcess, SuppliedRenderInput,
};
use crate::resolve::allocation::{AllocationIdentity, ResolvedProcessAllocation};
use crate::resolve::topology::{endpoint_url, endpoint_url_text};
use crate::search::{
    first_index, first_some, lemma_first_index, lemma_first_index_is, lemma_first_some_stays,
};
use crate::text::{
    after_prefix, cat2, cat3, cat5, cat6, cat7, contains_char, debug, debug_text, decimal,
    decode_bytes, list_contains, lists, same, strip_prefix, texts, to_decimal,
};
use vstd::prelude::*;
use vstd::string::*;
use vstd::slice::slice_to_vec;
use vstd::utf8::{encode_utf8, valid_utf8};

verus! {

// ---------------------------------------------------------------------------
// The built-in proxy

/// The proxy that the control plane runs itself.
#[derive(Clone, Copy, Debug, PartialEq, Eq, Structural)]
pub enum BuiltinProxyKind {
    VllmMooncake,
    VllmNixl,
    Sglang,
    Trtllm,
}

impl BuiltinProxyKind {
    /// The name under which the proxy is run.
    pub open spec fn command_text(self) -> Seq<char> {
        match self {
            BuiltinProxyKind::VllmMooncake => "vllm-mooncake"@,
            BuiltinProxyKind::VllmNixl => "vllm-nixl"@,
            BuiltinProxyKind::Sglang => "sglang"@,
            BuiltinProxyKind::Trtllm => "trtllm"@,
        }
    }

    /// The name under which the proxy is run.
    pub fn command_name(self) -> (r: &'static str)
        ensures
            r@ == self.command_text(),
    {
        match self {
            BuiltinProxyKind::VllmMooncake => "vllm-mooncake",
            BuiltinProxyKind::VllmNixl => "vllm-nixl",
            BuiltinProxyKind::Sglang => "sglang",
            BuiltinProxyKind::Trtllm => "trtllm",
        }
    }

    /// The proxy asks prefill engines for a bootstrap endpoint.
    pub open spec fn bootstraps(self) -> bool {
        self == BuiltinProxyKind::VllmMooncake || self == BuiltinProxyKind::Sglang
    }

    /// The proxy is told the data-parallel size of its prefill engines.
    pub open spec fn needs_ranks(self) -> bool {
        self == BuiltinProxyKind::VllmNixl || self == BuiltinProxyKind::Sglang
    }
}

/// The proxy of a framework and a transport, where there is one.
pub open spec fn proxy_of(framework: Seq<char>, transport: Option<KvTransferMechanism>) -> Option<
    BuiltinProxyKind,
> {
    match transport {
        None => None,
        Some(mechanism) => if framework == "vllm"@ {
            Some(
                match mechanism {
                    KvTransferMechanism::Mooncake => BuiltinProxyKind::VllmMooncake,
                    KvTransferMechanism::Nixl => BuiltinProxyKind::VllmNixl,
                },
            )
        } else if framework == "sglang"@ {
            Some(BuiltinProxyKind::Sglang)
        } else if framework == "tensorrt-llm"@ && mechanism == KvTransferMechanism::Nixl {
            Some(BuiltinProxyKind::Trtllm)
        } else {
            None
        },
    }
}

/// Why there is no proxy for a framework and a transport.
pub open spec fn no_proxy(framework: Seq<char>, transport: Option<KvTransferMechanism>) -> Seq<
    char,
> {
    match transport {
        None => "built-in prefill/decode proxy requires a KV-transfer mechanism"@,
        Some(_) => "framework "@ + debug_text(framework)
            + " does not support the built-in prefill/decode proxy"@,
    }
}

/// The proxy of a framework and a transport.
pub fn builtin_proxy_kind(framework: &str, transport: Option<KvTransferMechanism>) -> (r: Result<
    BuiltinProxyKind,
    InferlabError,
>)
    ensures
        match proxy_of(framework@, transport) {
            Some(kind) => r == Ok::<BuiltinProxyKind, InferlabError>(kind),
            None => refuses(r, no_proxy(framework@, transport)),
        },
{
    let mechanism = match transport {
        None => {
            return invalid_config(
                "built-in prefill/decode proxy requires a KV-transfer mechanism".to_owned(),
            );
        },
        Some(mechanism) => mechanism,
    };
    let vllm = same(framework, "vllm");
    let sglang = same(framework, "sglang");
    let tensorrt = same(framework, "tensorrt-llm");
    match mechanism {
        KvTransferMechanism::Mooncake => {
            if vllm {
                return Ok(BuiltinProxyKind::VllmMooncake);
            }
            if sglang {
                return Ok(BuiltinProxyKind::Sglang);
            }
        },
        KvTransferMechanism::Nixl => {
            if vllm {
                return Ok(BuiltinProxyKind::VllmNixl);
            }
            if sglang {
                return Ok(BuiltinProxyKind::Sglang);
            }
            if tensorrt {
                return Ok(BuiltinProxyKind::Trtllm);
            }
        },
    }
    invalid_config(
        cat3(
            "framework ",
            debug(framework).as_str(),
            " does not support the built-in prefill/decode proxy",
        ),
    )
}

/// The proxy that an implementation name declares.
pub open spec fn declared_proxy(implementation: Seq<char>) -> Option<BuiltinProxyKind> {
    if implementation == "vllm_mooncake"@ {
        Some(BuiltinProxyKind::VllmMooncake)
    } else if implementation == "vllm_nixl"@ {
        Some(BuiltinProxyKind::VllmNixl)
    } else if implementation == "sglang"@ {
        Some(BuiltinProxyKind::Sglang)
    } else if implementation == "trtllm"@ {
        Some(BuiltinProxyKind::Trtllm)
    } else {
        None
    }
}

fn find_declared_proxy(implementation: &str) -> (r: Option<BuiltinProxyKind>)
    ensures
        r == declared_proxy(implementation@),
{
    if same(implementation, "vllm_mooncake") {
        Some(BuiltinProxyKind::VllmMooncake)
    } else if same(implementation, "vllm_nixl") {
        Some(BuiltinProxyKind::VllmNixl)
    } else if same(implementation, "sglang") {
        Some(BuiltinProxyKind::Sglang)
    } else if same(implementation, "trtllm") {
        Some(BuiltinProxyKind::Trtllm)
    } else {
        None
    }
}

/// What `format!("{:?}", transport)` renders.
pub open spec fn debug_transport_text(transport: Option<KvTransferMechanism>) -> Seq<char> {
    match transport {
        None => "None"@,
        Some(KvTransferMechanism::Mooncake) => "Some(Mooncake)"@,
        Some(KvTransferMechanism::Nixl) => "Some(Nixl)"@,
    }
}

fn debug_transport(transport: Option<KvTransferMechanism>) -> (r: &'static str)
    ensures
        r@ == debug_transport_text(transport),
{
    match transport {
        None => "None",
        Some(KvTransferMechanism::Mooncake) => "Some(Mooncake)",
        Some(KvTransferMechanism::Nixl) => "Some(Nixl)",
    }
}

/// The allocation is the first rank of a replica of the role.
pub open spec fn enters(allocation: ResolvedProcessAllocation, role: Seq<char>) -> bool {
    allocation.identity matches AllocationIdentity::ModelRank { role: of, rank, .. } && rank == 0
        && of@ == role
}

/// The entry points of a role, in their order.
pub open spec fn entries_of(allocations: Seq<ResolvedProcessAllocation>, role: Seq<char>) -> Seq<
    ResolvedProcessAllocation,
>
    decreases allocations.len(),
{
    if allocations.len() == 0 {
        Seq::empty()
    } else {
        let before = entries_of(allocations.drop_last(), role);
        if enters(allocations.last(), role) {
            before.push(allocations.last())
        } else {
            before
        }
    }
}

fn find_entries(allocations: &[ResolvedProcessAllocation], role: &str) -> (r: Vec<usize>)
    ensures
        forall|i: int| 0 <= i < r@.len() ==> (#[trigger] r@[i]) < allocations@.len(),
        r@.map_values(|i: usize| allocations@[i as int]) == entries_of(allocations@, role@),
{
    let mut out: Vec<usize> = Vec::new();
    let mut i: usize = 0;
    assert(out@.map_values(|i: usize| allocations@[i as int]) =~= entries_of(
        allocations@.take(0),
        role@,
    ));
    while i < allocations.len()
        invariant
            i <= allocations@.len(),
            forall|k: int| 0 <= k < out@.len() ==> (#[trigger] out@[k]) < allocations@.len(),
            out@.map_values(|i: usize| allocations@[i as int]) =~= entries_of(
                allocations@.take(i as int),
                role@,
            ),
        decreases allocations@.len() - i,
    {
        assert(allocations@.take(i + 1).drop_last() =~= allocations@.take(i as int));
        let ghost before = out@.map_values(|i: usize| allocations@[i as int]);
        let entry = match &allocations[i].identity {
            AllocationIdentity::ModelRank { role: of, rank, .. } => *rank == 0 && same(
                of.as_str(),
                role,
            ),
            AllocationIdentity::Frontend { .. } => false,
        };
        if entry {
            out.push(i);
            assert(out@.map_values(|i: usize| allocations@[i as int]) =~= before.push(
                allocations@[i as int],
            ));
        }
        i += 1;
    }
    assert(allocations@.take(i as int) =~= allocations@);
    out
}

/// Why an entry point of a prefill role cannot be proxied.
pub open spec fn prefill_fault(
    kind: BuiltinProxyKind,
    replicas: Seq<ResolvedProcessAllocation>,
) -> spec_fn(int) -> Option<Seq<char>> {
    |i: int|
        {
            let replica = replicas[i];
            if replica.endpoint is None {
                Some("prefill allocation "@ + debug_text(replica.process@) + " has no endpoint"@)
            } else if kind.bootstraps() && replica.ports.at("bootstrap"@) is None {
                Some(
                    "prefill allocation "@ + debug_text(replica.process@)
                        + " has no bootstrap endpoint"@,
                )
            } else {
                None
            }
        }
}

/// Why an entry point of a decode role cannot be proxied.
pub open spec fn decode_fault(replicas: Seq<ResolvedProcessAllocation>) -> spec_fn(int) -> Option<
    Seq<char>,
> {
    |i: int|
        {
            let replica = replicas[i];
            if replica.endpoint is None {
                Some("decode allocation "@ + debug_text(replica.process@) + " has no endpoint"@)
            } else {
                None
            }
        }
}

/// The words that tell the proxy of a prefill entry point.
pub open spec fn prefill_words(
    kind: BuiltinProxyKind,
    replica: ResolvedProcessAllocation,
    data_parallel_size: nat,
) -> Seq<Seq<char>> {
    let bootstrap = replica.ports.at("bootstrap"@)->0;
    seq!["--prefill"@, endpoint_url_text(replica.endpoint->0)] + match kind {
        BuiltinProxyKind::VllmMooncake => seq![endpoint_url_text(bootstrap)],
        BuiltinProxyKind::Sglang => seq![bootstrap.host@, decimal(bootstrap.port as nat)],
        _ => Seq::empty(),
    } + if kind.needs_ranks() {
        seq!["--prefill-dp"@, decimal(data_parallel_size)]
    } else {
        Seq::empty()
    }
}

/// The words that tell the proxy of its prefill entry points.
pub open spec fn all_prefill_words(
    kind: BuiltinProxyKind,
    replicas: Seq<ResolvedProcessAllocation>,
    data_parallel_size: nat,
) -> Seq<Seq<char>>
    decreases replicas.len(),
{
    if replicas.len() == 0 {
        Seq::empty()
    } else {
        all_prefill_words(kind, replicas.drop_last(), data_parallel_size) + prefill_words(
            kind,
            replicas.last(),
            data_parallel_size,
        )
    }
}

/// The words that tell the proxy of its decode entry points.
pub open spec fn all_decode_words(replicas: Seq<ResolvedProcessAllocation>) -> Seq<Seq<char>>
    decreases replicas.len(),
{
    if replicas.len() == 0 {
        Seq::empty()
    } else {
        all_decode_words(replicas.drop_last()) + seq![
            "--decode"@,
            endpoint_url_text(replicas.last().endpoint->0),
        ]
    }
}

/// The words that start the proxy.
pub open spec fn proxy_words(
    executable: Seq<char>,
    kind: BuiltinProxyKind,
    host: Seq<char>,
    port: u16,
) -> Seq<Seq<char>> {
    seq![
        executable,
        "__internal"@,
        "proxy"@,
        kind.command_text(),
        "--host"@,
        host,
        "--port"@,
        decimal(port as nat),
    ]
}

/// The allocation has the id.
pub open spec fn allocation_named(
    allocations: Seq<ResolvedProcessAllocation>,
    id: Seq<char>,
) -> spec_fn(int) -> bool {
    |i: int| allocations[i].process@ == id
}

/// The first allocation with the id.
pub open spec fn allocation_index(
    allocations: Seq<ResolvedProcessAllocation>,
    id: Seq<char>,
) -> Option<int> {
    first_index(allocations.len(), allocation_named(allocations, id))
}

/// The first allocation with the id.
pub fn find_allocation(allocations: &[ResolvedProcessAllocation], id: &str) -> (r: Option<usize>)
    ensures
        match r {
            Some(i) => i < allocations@.len() && allocation_index(allocations@, id@) == Some(
                i as int,
            ),
            None => allocation_index(allocations@, id@) is None,
        },
{
    let ghost p = allocation_named(allocations@, id@);
    let mut i: usize = 0;
    while i < allocations.len()
        invariant
            i <= allocations@.len(),
            p == allocation_named(allocations@, id@),
            forall|j: int| 0 <= j < i ==> !(#[trigger] p(j)),
        decreases allocations@.len() - i,
    {
        if same(allocations[i].process.as_str(), id) {
            proof {
                lemma_first_index_is(allocations@.len(), p, i as int);
            }
            return Some(i);
        }
        assert(!p(i as int));
        i += 1;
    }
    proof {
        lemma_first_index(allocations@.len(), p);
    }
    None
}

/// Why the built-in frontend cannot be rendered.
pub open spec fn builtin_fault(
    gateway: GatewayPlan,
    pd_router: PdRouterPlan,
    framework: Seq<char>,
    transport: Option<KvTransferMechanism>,
    allocations: Seq<ResolvedProcessAllocation>,
) -> Option<Seq<char>> {
    let prefill = entries_of(allocations, pd_router.prefill_role@);
    let decode = entries_of(allocations, pd_router.decode_role@);
    if gateway.render_source != RenderSource::ControlPlane || pd_router.render_source
        != RenderSource::ControlPlane {
        Some("expected control-plane-rendered frontend component plans"@)
    } else if allocation_index(allocations, "gateway"@) is None {
        Some("built-in frontend process "@ + debug_text("gateway"@) + " was not allocated"@)
    } else if prefill.len() == 0 || decode.len() == 0 {
        Some("built-in proxy requires prefill and decode replica entry points"@)
    } else {
        match proxy_of(framework, transport) {
            None => Some(no_proxy(framework, transport)),
            Some(kind) => match declared_proxy(gateway.implementation@) {
                None => Some(
                    "integration returned unknown control-plane frontend implementation "@
                        + debug_text(gateway.implementation@),
                ),
                Some(declared) => if kind != declared || pd_router.implementation@
                    != gateway.implementation@ {
                    Some(
                        "integration returned control-plane frontend implementation "@
                            + debug_text(gateway.implementation@)
                            + ", which is incompatible with framework "@ + debug_text(framework)
                            + " and transport "@ + debug_transport_text(transport),
                    )
                } else if allocations[allocation_index(
                    allocations,
                    "gateway"@,
                )->0].endpoint is None {
                    Some("built-in frontend allocation has no endpoint"@)
                } else {
                    or_fault(
                        first_some(prefill.len(), prefill_fault(kind, prefill)),
                        first_some(decode.len(), decode_fault(decode)),
                    )
                },
            },
        }
    }
}

/// The words of the built-in frontend's command.
pub open spec fn builtin_words(
    executable: Seq<char>,
    pd_router: PdRouterPlan,
    framework: Seq<char>,
    transport: Option<KvTransferMechanism>,
    data_parallel_size: nat,
    allocations: Seq<ResolvedProcessAllocation>,
) -> Seq<Seq<char>> {
    let kind = proxy_of(framework, transport)->0;
    let endpoint = allocations[allocation_index(allocations, "gateway"@)->0].endpoint->0;
    proxy_words(executable, kind, endpoint.host@, endpoint.port) + all_prefill_words(
        kind,
        entries_of(allocations, pd_router.prefill_role@),
        data_parallel_size,
    ) + all_decode_words(entries_of(allocations, pd_router.decode_role@))
}

/// Pushes a word.
fn push_word(argv: &mut Vec<String>, word: &str)
    ensures
        texts(final(argv)@) == texts(old(argv)@).push(word@),
{
    let ghost before = argv@;
    argv.push(word.to_owned());
    assert(texts(argv@) =~= texts(before).push(word@));
}

fn push_prefill(
    argv: &mut Vec<String>,
    kind: BuiltinProxyKind,
    replica: &ResolvedProcessAllocation,
    data_parallel_size: u32,
) -> (r: Result<(), InferlabError>)
    ensures
        match prefill_fault(kind, seq![*replica])(0) {
            Some(text) => refuses(r, text),
            None => r is Ok && texts(final(argv)@) == texts(old(argv)@) + prefill_words(
                kind,
                *replica,
                data_parallel_size as nat,
            ),
        },
{
    assert(seq![*replica][0] == *replica);
    let ghost before = texts(argv@);
    let endpoint = match &replica.endpoint {
        None => {
            return invalid_config(
                cat3(
                    "prefill allocation ",
                    debug(replica.process.as_str()).as_str(),
                    " has no endpoint",
                ),
            );
        },
        Some(endpoint) => endpoint,
    };
    push_word(argv, "--prefill");
    push_word(argv, endpoint_url(endpoint).as_str());
    if kind == BuiltinProxyKind::VllmMooncake || kind == BuiltinProxyKind::Sglang {
        let bootstrap = match replica.ports.get("bootstrap") {
            None => {
                return invalid_config(
                    cat3(
                        "prefill allocation ",
                        debug(replica.process.as_str()).as_str(),
                        " has no bootstrap endpoint",
                    ),
                );
            },
            Some(bootstrap) => bootstrap,
        };
        if kind == BuiltinProxyKind::VllmMooncake {
            push_word(argv, endpoint_url(bootstrap).as_str());
        } else {
            push_word(argv, bootstrap.host.as_str());
            push_word(argv, to_decimal(bootstrap.port as u64).as_str());
        }
    }
    if kind == BuiltinProxyKind::VllmNixl || kind == BuiltinProxyKind::Sglang {
        push_word(argv, "--prefill-dp");
        push_word(argv, to_decimal(data_parallel_size as u64).as_str());
    }
    assert(texts(argv@) =~= before + prefill_words(kind, *replica, data_parallel_size as nat));
    Ok(())
}

/// The command of the proxy that the control plane runs for a fused frontend.
#[verifier::loop_isolation(false)]
pub fn render_builtin_frontend(
    executable: &str,
    gateway: &GatewayPlan,
    pd_router: &PdRouterPlan,
    framework: &str,
    transport: Option<KvTransferMechanism>,
    prefill_data_parallel_size: u32,
    allocations: &[ResolvedProcessAllocation],
) -> (r: Result<RenderedServeProcess, InferlabError>)
    ensures
        match builtin_fault(*gateway, *pd_router, framework@, transport, allocations@) {
            Some(text) => refuses(r, text),
            None => r matches Ok(
                RenderedServeProcess::Frontend {
                    process,
                    process_role,
                    components,
                    command,
                    launch_files,
                },
            ) && {
                &&& process@ == "gateway"@
                &&& process_role == FrontendProcessRole::Gateway
                &&& components == FrontendComponents::GatewayPdRouter
                &&& texts(command.argv@) == builtin_words(
                    executable@,
                    *pd_router,
                    framework@,
                    transport,
                    prefill_data_parallel_size as nat,
                    allocations@,
                )
                &&& command.env.entries@.len() == 0
                &&& launch_files@.len() == 0
            },
        },
{
    if gateway.render_source != RenderSource::ControlPlane || pd_router.render_source
        != RenderSource::ControlPlane {
        return invalid_config(
            "expected control-plane-rendered frontend component plans".to_owned(),
        );
    }
    let proxy = match find_allocation(allocations, "gateway") {
        None => {
            return invalid_config(
                cat3(
                    "built-in frontend process ",
                    debug("gateway").as_str(),
                    " was not allocated",
                ),
            );
        },
        Some(i) => &allocations[i],
    };
    let prefill = find_entries(allocations, pd_router.prefill_role.as_str());
    let decode = find_entries(allocations, pd_router.decode_role.as_str());
    let ghost prefill_list = entries_of(allocations@, pd_router.prefill_role@);
    let ghost decode_list = entries_of(allocations@, pd_router.decode_role@);
    assert(prefill_list.len() == prefill@.len());
    assert(decode_list.len() == decode@.len());
    if prefill.len() == 0 || decode.len() == 0 {
        return invalid_config(
            "built-in proxy requires prefill and decode replica entry points".to_owned(),
        );
    }
    let kind = match builtin_proxy_kind(framework, transport) {
        Err(error) => {
            return Err(error);
        },
        Ok(kind) => kind,
    };
    let declared = match find_declared_proxy(gateway.implementation.as_str()) {
        None => {
            return invalid_config(
                cat2(
                    "integration returned unknown control-plane frontend implementation ",
                    debug(gateway.implementation.as_str()).as_str(),
                ),
            );
        },
        Some(declared) => declared,
    };
    if kind != declared || !same(
        pd_router.implementation.as_str(),
        gateway.implementation.as_str(),
    ) {
        return invalid_config(
            cat6(
                "integration returned control-plane frontend implementation ",
                debug(gateway.implementation.as_str()).as_str(),
                ", which is incompatible with framework ",
                debug(framework).as_str(),
                " and transport ",
                debug_transport(transport),
            ),
        );
    }
    let endpoint = match &proxy.endpoint {
        None => {
            return invalid_config("built-in frontend allocation has no endpoint".to_owned());
        },
        Some(endpoint) => endpoint,
    };
    let mut argv: Vec<String> = Vec::new();
    push_word(&mut argv, executable);
    push_word(&mut argv, "__internal");
    push_word(&mut argv, "proxy");
    push_word(&mut argv, kind.command_name());
    push_word(&mut argv, "--host");
    push_word(&mut argv, endpoint.host.as_str());
    push_word(&mut argv, "--port");
    push_word(&mut argv, to_decimal(endpoint.port as u64).as_str());
    let ghost start = proxy_words(executable@, kind, endpoint.host@, endpoint.port);
    assert(texts(argv@) =~= start);
    let ghost f = prefill_fault(kind, prefill_list);
    let mut i: usize = 0;
    assert(start + all_prefill_words(kind, prefill_list.take(0), prefill_data_parallel_size as nat)
        =~= start);
    while i < prefill.len()
        invariant
            i <= prefill@.len(),
            f == prefill_fault(kind, prefill_list),
            first_some(i as nat, f) is None,
            prefill_list == entries_of(allocations@, pd_router.prefill_role@),
            prefill@.map_values(|i: usize| allocations@[i as int]) == prefill_list,
            prefill@.len() == prefill_list.len(),
            forall|k: int| 0 <= k < prefill@.len() ==> (#[trigger] prefill@[k]) < allocations@.len(),
            texts(argv@) == start + all_prefill_words(
                kind,
                prefill_list.take(i as int),
                prefill_data_parallel_size as nat,
            ),
        decreases prefill@.len() - i,
    {
        let replica = &allocations[prefill[i]];
        assert(prefill_list[i as int] == *replica);
        assert(f(i as int) == prefill_fault(kind, seq![*replica])(0)) by {
            assert(seq![*replica][0] == *replica);
        }
        match push_prefill(&mut argv, kind, replica, prefill_data_parallel_size) {
            Err(error) => {
                proof {
                    lemma_first_some_stays((i + 1) as nat, prefill_list.len(), f);
                }
                return Err(error);
            },
            Ok(()) => {},
        }
        proof {
            assert(prefill_list.take(i + 1).drop_last() =~= prefill_list.take(i as int));
            assert(start + all_prefill_words(
                kind,
                prefill_list.take(i + 1),
                prefill_data_parallel_size as nat,
            ) =~= start + all_prefill_words(
                kind,
                prefill_list.take(i as int),
                prefill_data_parallel_size as nat,
            ) + prefill_words(kind, *replica, prefill_data_parallel_size as nat));
        }
        i += 1;
    }
    assert(prefill_list.take(i as int) =~= prefill_list);
    let ghost middle = texts(argv@);
    let ghost g = decode_fault(decode_list);
    let mut k: usize = 0;
    assert(middle + all_decode_words(decode_list.take(0)) =~= middle);
    while k < decode.len()
        invariant
            k <= decode@.len(),
            g == decode_fault(decode_list),
            first_some(k as nat, g) is None,
            decode_list == entries_of(allocations@, pd_router.decode_role@),
            decode@.map_values(|i: usize| allocations@[i as int]) == decode_list,
            decode@.len() == decode_list.len(),
            forall|j: int| 0 <= j < decode@.len() ==> (#[trigger] decode@[j]) < allocations@.len(),
            texts(argv@) == middle + all_decode_words(decode_list.take(k as int)),
        decreases decode@.len() - k,
    {
        let replica = &allocations[decode[k]];
        assert(decode_list[k as int] == *replica);
        let at = match &replica.endpoint {
            None => {
                proof {
                    lemma_first_some_stays((k + 1) as nat, decode_list.len(), g);
                }
                return invalid_config(
                    cat3(
                        "decode allocation ",
                        debug(replica.process.as_str()).as_str(),
                        " has no endpoint",
                    ),
                );
            },
            Some(at) => at,
        };
        let ghost before = texts(argv@);
        push_word(&mut argv, "--decode");
        push_word(&mut argv, endpoint_url(at).as_str());
        proof {
            assert(decode_list.take(k + 1).drop_last() =~= decode_list.take(k as int));
            assert(texts(argv@) =~= before + seq!["--decode"@, endpoint_url_text(*at)]);
            assert(middle + all_decode_words(decode_list.take(k + 1)) =~= middle + all_decode_words(
                decode_list.take(k as int),
            ) + seq!["--decode"@, endpoint_url_text(*at)]);
        }
        k += 1;
    }
    assert(decode_list.take(k as int) =~= decode_list);
    Ok(
        RenderedServeProcess::Frontend {
            process: "gateway".to_owned(),
            process_role: FrontendProcessRole::Gateway,
            components: FrontendComponents::GatewayPdRouter,
            command: ProcessSpec { argv, env: Dict::new() },
            launch_files: Vec::new(),
        },
    )
}

// ---------------------------------------------------------------------------
// Render inputs

/// Why a file that rendering needs cannot be supplied.
pub open spec fn input_refused<T>(
    r: Result<T, InferlabError>,
    workspace_root: Seq<char>,
    integration: Seq<char>,
    declaration: RenderInputDeclaration,
    content: Result<Vec<u8>, String>,
) -> bool {
    let path = joined_path(workspace_root, declaration.source_path@);
    match content {
        Err(message) => r matches Err(
            InferlabError::RenderInputRead {
                integration: who,
                source_path,
                path: at,
                message: text,
            },
        ) && who@ == integration && source_path == declaration.source_path && at@ == path && text
            == message,
        Ok(bytes) => !valid_utf8(bytes@) && (r matches Err(
            InferlabError::RenderInputUtf8 { integration: who, source_path, path: at },
        ) && who@ == integration && source_path == declaration.source_path && at@ == path),
    }
}

/// The content of the declared file can be supplied.
pub open spec fn input_readable(content: Result<Vec<u8>, String>) -> bool {
    content matches Ok(bytes) && valid_utf8(bytes@)
}

/// The supplied input is the declared file with its text and digest.
pub open spec fn input_is(
    input: SuppliedRenderInput,
    declaration: RenderInputDeclaration,
    content: Result<Vec<u8>, String>,
) -> bool {
    content matches Ok(bytes) && {
        &&& input.source_path == declaration.source_path
        &&& encode_utf8(input.text@) == bytes@
        &&& input.sha256@ == sha256_text(bytes@)
    }
}

/// Where a declared file is found: under the workspace, unless it is absolute.
pub fn render_input_path(workspace_root: &str, declaration: &RenderInputDeclaration) -> (r: String)
    ensures
        r@ == joined_path(workspace_root@, declaration.source_path@),
{
    join_path(workspace_root, declaration.source_path.as_str())
}

/// The files that rendering needs, from what was read of them.
pub fn load_render_inputs(
    workspace_root: &str,
    integration: &str,
    declarations: &[RenderInputDeclaration],
    contents: &[Result<Vec<u8>, String>],
) -> (r: Result<Vec<SuppliedRenderInput>, InferlabError>)
    requires
        declarations@.len() == contents@.len(),
    ensures
        match r {
            Ok(inputs) => inputs@.len() == declarations@.len() && forall|i: int|
                0 <= i < inputs@.len() ==> input_readable(contents@[i]) && input_is(
                    #[trigger] inputs@[i],
                    declarations@[i],
                    contents@[i],
                ),
            Err(_) => exists|i: int|
                {
                    &&& 0 <= i < declarations@.len()
                    &&& forall|j: int| 0 <= j < i ==> input_readable(#[trigger] contents@[j])
                    &&& !input_readable(#[trigger] contents@[i])
                    &&& input_refused(
                        r,
                        workspace_root@,
                        integration@,
                        declarations@[i],
                        contents@[i],
                    )
                },
        },
{
    let mut out: Vec<SuppliedRenderInput> = Vec::new();
    let mut i: usize = 0;
    while i < declarations.len()
        invariant
            i <= declarations@.len(),
            declarations@.len() == contents@.len(),
            out@.len() == i,
            forall|j: int| 0 <= j < i ==> input_readable(#[trigger] contents@[j]),
            forall|j: int|
                0 <= j < i ==> input_is(#[trigger] out@[j], declarations@[j], contents@[j]),
        decreases declarations@.len() - i,
    {
        let declaration = &declarations[i];
        let bytes = match &contents[i] {
            Err(message) => {
                assert(!input_readable(contents@[i as int]));
                return Err(
                    InferlabError::RenderInputRead {
                        integration: integration.to_owned(),
                        source_path: declaration.source_path.clone(),
                        path: render_input_path(workspace_root, declaration),
                        message: message.clone(),
                    },
                );
            },
            Ok(bytes) => bytes,
        };
        let copied = slice_to_vec(bytes.as_slice());
        assert(copied@ =~= bytes@);
        match decode_bytes(copied) {
            Err(_) => {
                assert(!input_readable(contents@[i as int]));
                return Err(
                    InferlabError::RenderInputUtf8 {
                        integration: integration.to_owned(),
                        source_path: declaration.source_path.clone(),
                        path: render_input_path(workspace_root, declaration),
                    },
                );
            },
            Ok(text) => {
                out.push(
                    SuppliedRenderInput {
                        source_path: declaration.source_path.clone(),
                        text,
                        sha256: sha256_hex(bytes.as_slice()),
                    },
                );
            },
        }
        i += 1;
    }
    Ok(out)
}

// ---------------------------------------------------------------------------
// Launch files

/// A launch file with the path that it is written to.
#[derive(Debug, PartialEq, Eq)]
pub struct LaunchFilePlan {
    pub relative_path: String,
    pub resolved_path: String,
    pub text: String,
    pub sha256: String,
}

impl Clone for LaunchFilePlan {
    fn clone(&self) -> (r: Self)
        ensures
            r == *self,
    {
        LaunchFilePlan {
            relative_path: self.relative_path.clone(),
            resolved_path: self.resolved_path.clone(),
            text: self.text.clone(),
            sha256: self.sha256.clone(),
        }
    }
}

/// The text is the name of a file: one part of a path, and neither `.` nor `..`.
pub open spec fn file_name(name: Seq<char>) -> bool {
    &&& name.len() > 0
    &&& !name.contains('/')
    &&& name != "."@
    &&& name != ".."@
}

/// The path is `launch-files/<digest>/<name>` with a digest in lower-case
/// hexadecimal.
pub open spec fn canonical_launch_path(path: Seq<char>, digest: Seq<char>) -> bool {
    &&& lowercase_sha256(digest)
    &&& after_prefix(path, "launch-files/"@ + digest + "/"@) matches Some(name) && file_name(name)
}

/// The value is one of the table.
pub open spec fn value_listed(env: Seq<(String, String)>, value: Seq<char>) -> bool {
    exists|i: int| 0 <= i < env.len() && (#[trigger] env[i]).1@ == value
}

/// The path is exactly an argument or an environment value of the command.
pub open spec fn referenced(process: ProcessSpec, path: Seq<char>) -> bool {
    lists(process.argv@, path) || value_listed(process.env.entries@, path)
}

fn check_referenced(process: &ProcessSpec, path: &str) -> (r: bool)
    ensures
        r == referenced(*process, path@),
{
    if list_contains(process.argv.as_slice(), path) {
        return true;
    }
    let entries = &process.env.entries;
    let mut i: usize = 0;
    while i < entries.len()
        invariant
            *entries == process.env.entries,
            i <= entries@.len(),
            !lists(process.argv@, path@),
            forall|j: int| 0 <= j < i ==> (#[trigger] entries@[j]).1@ != path@,
        decreases entries@.len() - i,
    {
        if same(entries[i].1.as_str(), path) {
            assert(process.env.entries@[i as int].1@ == path@);
            return true;
        }
        i += 1;
    }
    false
}

/// Why the launch file at a position is refused.
pub open spec fn launch_file_fault(
    integration: Seq<char>,
    process_id: Seq<char>,
    runtime_cache_root: Seq<char>,
    process: ProcessSpec,
    declarations: Seq<LaunchFileDeclaration>,
) -> spec_fn(int) -> Option<Seq<char>> {
    |i: int|
        {
            let declaration = declarations[i];
            let path = declaration.relative_path@;
            let resolved = joined_path(runtime_cache_root, path);
            let actual = sha256_text(encode_utf8(declaration.text@));
            let who = "integration "@ + debug_text(integration) + " rendered launch file "@;
            if !canonical_launch_path(path, declaration.sha256@) {
                Some(
                    who + debug_text(path) + " for process "@ + debug_text(process_id)
                        + " without canonical path launch-files/<64-lowercase-sha256>/<name>"@,
                )
            } else if declaration.sha256@ != actual {
                Some(
                    who + debug_text(path) + " for process "@ + debug_text(process_id)
                        + " with content digest "@ + debug_text(declaration.sha256@) + (
                    ", expected "@ + debug_text(actual)),
                )
            } else if !referenced(process, resolved) {
                Some(
                    who + debug_path_text(resolved) + " for process "@ + debug_text(process_id)
                        + " without an exact argv or environment reference"@,
                )
            } else {
                None
            }
        }
}

/// The launch file is the declared one, written under the cache of the process.
pub open spec fn launch_file_is(
    plan: LaunchFilePlan,
    runtime_cache_root: Seq<char>,
    declaration: LaunchFileDeclaration,
) -> bool {
    &&& plan.relative_path == declaration.relative_path
    &&& plan.resolved_path@ == joined_path(runtime_cache_root, declaration.relative_path@)
    &&& plan.text == declaration.text
    &&& plan.sha256 == declaration.sha256
}

fn check_canonical_launch_path(path: &str, digest: &str) -> (r: bool)
    ensures
        r == canonical_launch_path(path@, digest@),
{
    if !is_lowercase_sha256(digest) {
        return false;
    }
    let prefix = cat3("launch-files/", digest, "/");
    match strip_prefix(path, prefix.as_str()) {
        None => false,
        Some(name) => name.unicode_len() > 0 && !contains_char(name, '/') && !same(name, ".")
            && !same(name, ".."),
    }
}

/// The launch files of a process: canonical paths under its runtime cache, with
/// the digest of their text, each referred to by the command.
pub fn validate_launch_file_declarations(
    integration: &str,
    process_id: &str,
    runtime_cache_root: &str,
    process: &ProcessSpec,
    declarations: &[LaunchFileDeclaration],
) -> (r: Result<Vec<LaunchFilePlan>, InferlabError>)
    ensures
        match first_some(
            declarations@.len(),
            launch_file_fault(
                integration@,
                process_id@,
                runtime_cache_root@,
                *process,
                declarations@,
            ),
        ) {
            Some(text) => refuses(r, text),
            None => r is Ok && r->Ok_0@.len() == declarations@.len() && forall|i: int|
                0 <= i < declarations@.len() ==> launch_file_is(
                    #[trigger] r->Ok_0@[i],
                    runtime_cache_root@,
                    declarations@[i],
                ),
        },
{
    let ghost f = launch_file_fault(
        integration@,
        process_id@,
        runtime_cache_root@,
        *process,
        declarations@,
    );
    let who = cat3("integration ", debug(integration).as_str(), " rendered launch file ");
    let mut out: Vec<LaunchFilePlan> = Vec::new();
    let mut i: usize = 0;
    while i < declarations.len()
        invariant
            i <= declarations@.len(),
            f == launch_file_fault(
                integration@,
                process_id@,
                runtime_cache_root@,
                *process,
                declarations@,
            ),
            who@ == "integration "@ + debug_text(integration@) + " rendered launch file "@,
            first_some(i as nat, f) is None,
            out@.len() == i,
            forall|j: int|
                0 <= j < i ==> launch_file_is(
                    #[trigger] out@[j],
                    runtime_cache_root@,
                    declarations@[j],
                ),
        decreases declarations@.len() - i,
    {
        let declaration = &declarations[i];
        let path = declaration.relative_path.as_str();
        let resolved = join_path(runtime_cache_root, path);
        let actual = sha256_hex(declaration.text.as_str().as_bytes());
        if !check_canonical_launch_path(path, declaration.sha256.as_str()) {
            proof {
                lemma_first_some_stays((i + 1) as nat, declarations@.len(), f);
            }
            return invalid_config(
                cat5(
                    who.as_str(),
                    debug(path).as_str(),
                    " for process ",
                    debug(process_id).as_str(),
                    " without canonical path launch-files/<64-lowercase-sha256>/<name>",
                ),
            );
        }
        if !same(declaration.sha256.as_str(), actual.as_str()) {
            proof {
                lemma_first_some_stays((i + 1) as nat, declarations@.len(), f);
            }
            return invalid_config(
                cat7(
                    who.as_str(),
                    debug(path).as_str(),
                    " for process ",
                    debug(process_id).as_str(),
                    " with content digest ",
                    debug(declaration.sha256.as_str()).as_str(),
                    cat2(", expected ", debug(actual.as_str()).as_str()).as_str(),
                ),
            );
        }
        if !check_referenced(process, resolved.as_str()) {
            proof {
                lemma_first_some_stays((i + 1) as nat, declarations@.len(), f);
            }
            return invalid_config(
                cat5(
                    who.as_str(),
                    debug_path(resolved.as_str()).as_str(),
                    " for process ",
                    debug(process_id).as_str(),
                    " without an exact argv or environment reference",
                ),
            );
        }
        out.push(
            LaunchFilePlan {
                relative_path: declaration.relative_path.clone(),
                resolved_path: resolved,
                text: declaration.text.clone(),
                sha256: declaration.sha256.clone(),
            },
        );
        i += 1;
    }
    Ok(out)
}

// ---------------------------------------------------------------------------
// Laws

/// The entry points of a role are the first ranks of its replicas, all of them.
pub proof fn law_entries_are_the_first_ranks(
    allocations: Seq<ResolvedProcessAllocation>,
    role: Seq<char>,
    allocation: ResolvedProcessAllocation,
)
    ensures
        entries_of(allocations, role).contains(allocation) <==> allocations.contains(allocation) && (
        allocation.identity matches AllocationIdentity::ModelRank { role: of, rank, .. } && rank == 0
            && of@ == role),
    decreases allocations.len(),
{
    if allocations.len() > 0 {
        let fewer = allocations.drop_last();
        let before = entries_of(fewer, role);
        let all = entries_of(allocations, role);
        law_entries_are_the_first_ranks(fewer, role, allocation);
        if allocations.contains(allocation) {
            let i = choose|i: int| 0 <= i < allocations.len() && allocations[i] == allocation;
            if i < fewer.len() {
                assert(fewer[i] == allocation);
            }
        }
        if fewer.contains(allocation) {
            let i = choose|i: int| 0 <= i < fewer.len() && fewer[i] == allocation;
            assert(allocations[i] == allocation);
        }
        assert(allocations[allocations.len() - 1] == allocations.last());
        if before.contains(allocation) {
            let i = choose|i: int| 0 <= i < before.len() && before[i] == allocation;
            assert(all[i] == allocation);
        }
        if enters(allocations.last(), role) {
            assert(all[before.len() as int] == allocations.last());
            if all.contains(allocation) {
                let i = choose|i: int| 0 <= i < all.len() && all[i] == allocation;
                if i < before.len() {
                    assert(before[i] == allocation);
                }
            }
        }
    }
}

/// The proxy is told of every decode entry point, at its endpoint.
pub proof fn law_proxy_is_told_of_every_decode_entry(
    replicas: Seq<ResolvedProcessAllocation>,
    i: int,
)
    requires
        0 <= i < replicas.len(),
    ensures
        all_decode_words(replicas).len() == 2 * replicas.len(),
        all_decode_words(replicas)[2 * i] == "--decode"@,
        all_decode_words(replicas)[2 * i + 1] == endpoint_url_text(replicas[i].endpoint->0),
    decreases replicas.len(),
{
    let fewer = replicas.drop_last();
    let before = all_decode_words(fewer);
    if i < fewer.len() {
        law_proxy_is_told_of_every_decode_entry(fewer, i);
        assert(fewer[i] == replicas[i]);
    } else if fewer.len() > 0 {
        law_proxy_is_told_of_every_decode_entry(fewer, 0);
    } else {
        assert(before =~= Seq::empty());
    }
}

/// How many words tell the proxy of a prefill entry point.
pub open spec fn words_per_prefill(kind: BuiltinProxyKind) -> int {
    match kind {
        BuiltinProxyKind::VllmMooncake => 3,
        BuiltinProxyKind::VllmNixl => 4,
        BuiltinProxyKind::Sglang => 6,
        BuiltinProxyKind::Trtllm => 2,
    }
}

/// The proxy is told of every prefill entry point: of its endpoint always, of where it
/// bootstraps where the proxy asks for that, and of its data-parallel size where the
/// proxy routes by rank.
pub proof fn law_proxy_is_told_of_every_prefill_entry(
    kind: BuiltinProxyKind,
    replicas: Seq<ResolvedProcessAllocation>,
    data_parallel_size: nat,
    i: int,
)
    requires
        0 <= i < replicas.len(),
    ensures
        ({
            let words = all_prefill_words(kind, replicas, data_parallel_size);
            let at = words_per_prefill(kind) * i;
            &&& words.len() == words_per_prefill(kind) * replicas.len()
            &&& words[at] == "--prefill"@
            &&& words[at + 1] == endpoint_url_text(replicas[i].endpoint->0)
            &&& kind == BuiltinProxyKind::VllmMooncake ==> words[at + 2] == endpoint_url_text(
                replicas[i].ports.at("bootstrap"@)->0,
            )
            &&& kind == BuiltinProxyKind::VllmNixl ==> words[at + 2] == "--prefill-dp"@ && words[at
                + 3] == decimal(data_parallel_size)
            &&& kind == BuiltinProxyKind::Sglang ==> words[at + 2] == replicas[i].ports.at(
                "bootstrap"@,
            )->0.host@ && words[at + 3] == decimal(
                replicas[i].ports.at("bootstrap"@)->0.port as nat,
            ) && words[at + 4] == "--prefill-dp"@ && words[at + 5] == decimal(data_parallel_size)
        }),
    decreases replicas.len(),
{
    let fewer = replicas.drop_last();
    let before = all_prefill_words(kind, fewer, data_parallel_size);
    let n = words_per_prefill(kind);
    assert(prefill_words(kind, replicas.last(), data_parallel_size).len() == n);
    assert(n * replicas.len() == n * fewer.len() + n) by (nonlinear_arith)
        requires
            replicas.len() == fewer.len() + 1,
    ;
    if i < fewer.len() {
        law_proxy_is_told_of_every_prefill_entry(kind, fewer, data_parallel_size, i);
        assert(fewer[i] == replicas[i]);
        assert(n * i + n <= n * fewer.len() && 0 <= n * i) by (nonlinear_arith)
            requires
                0 <= i < fewer.len(),
                n > 0,
        ;
    } else if fewer.len() > 0 {
        law_proxy_is_told_of_every_prefill_entry(kind, fewer, data_parallel_size, 0);
    } else {
        assert(before =~= Seq::empty());
        assert(n * fewer.len() == 0) by (nonlinear_arith)
            requires
                fewer.len() == 0,
        ;
    }
}

/// The built-in frontend listens where the gateway was placed, and is the proxy that
/// the framework and the transport call for.
pub proof fn law_built_in_frontend_listens_at_the_gateway(
    executable: Seq<char>,
    gateway: GatewayPlan,
    pd_router: PdRouterPlan,
    framework: Seq<char>,
    transport: Option<KvTransferMechanism>,
    data_parallel_size: nat,
    allocations: Seq<ResolvedProcessAllocation>,
    i: int,
    endpoint: EndpointAssignment,
)
    requires
        builtin_fault(gateway, pd_router, framework, transport, allocations) is None,
        0 <= i < allocations.len(),
        allocations[i].process@ == "gateway"@,
        forall|j: int| 0 <= j < i ==> (#[trigger] allocations[j]).process@ != "gateway"@,
        allocations[i].endpoint == Some(endpoint),
    ensures
        ({
            let words = builtin_words(
                executable,
                pd_router,
                framework,
                transport,
                data_parallel_size,
                allocations,
            );
            &&& words.len() >= 8
            &&& words[0] == executable
            &&& words[4] == "--host"@
            &&& words[5] == endpoint.host@
            &&& words[6] == "--port"@
            &&& words[7] == decimal(endpoint.port as nat)
            &&& framework == "vllm"@ && transport == Some(KvTransferMechanism::Mooncake) ==> words[3]
                == "vllm-mooncake"@ && gateway.implementation@ == "vllm_mooncake"@
            &&& framework == "vllm"@ && transport == Some(KvTransferMechanism::Nixl) ==> words[3]
                == "vllm-nixl"@ && gateway.implementation@ == "vllm_nixl"@
            &&& framework == "sglang"@ ==> words[3] == "sglang"@ && gateway.implementation@
                == "sglang"@
            &&& framework == "tensorrt-llm"@ ==> words[3] == "trtllm"@ && transport == Some(
                KvTransferMechanism::Nixl,
            ) && gateway.implementation@ == "trtllm"@
            &&& transport is Some
            &&& pd_router.implementation@ == gateway.implementation@
        }),
{
    reveal_strlit("vllm");
    reveal_strlit("sglang");
    reveal_strlit("tensorrt-llm");
    assert("vllm"@.len() == 4 && "sglang"@.len() == 6 && "tensorrt-llm"@.len() == 12);
    crate::search::lemma_first_index_is(
        allocations.len(),
        allocation_named(allocations, "gateway"@),
        i,
    );
    let kind = proxy_of(framework, transport)->0;
    let endpoint = allocations[i].endpoint->0;
    let words = builtin_words(
        executable,
        pd_router,
        framework,
        transport,
        data_parallel_size,
        allocations,
    );
    let head = proxy_words(executable, kind, endpoint.host@, endpoint.port);
    assert(head.len() == 8);
    assert forall|k: int| 0 <= k < 8 implies words[k] == #[trigger] head[k] by {
    }
    assert(words[0] == head[0] && words[3] == head[3] && words[4] == head[4] && words[5] == head[5]
        && words[6] == head[6] && words[7] == head[7]);
}

/// A file that rendering is supplied with is the declared one: its text is the content
/// of the file, byte for byte, under the digest of that content.
pub proof fn law_supplied_input_is_the_file(
    input: SuppliedRenderInput,
    other: SuppliedRenderInput,
    declaration: RenderInputDeclaration,
    content: Result<Vec<u8>, String>,
)
    requires
        input_is(input, declaration, content),
        input_is(other, declaration, content),
    ensures
        input.source_path@ == declaration.source_path@,
        content matches Ok(bytes) && encode_utf8(input.text@) == bytes@ && input.sha256@
            == sha256_text(encode_utf8(input.text@)),
        input.text@ == other.text@,
{
    vstd::utf8::encode_utf8_decode_utf8(input.text@);
    vstd::utf8::encode_utf8_decode_utf8(other.text@);
}

/// A launch file that was accepted lies below the cache of its process, in a directory
/// of its own digest, and its command refers to it.
pub proof fn law_accepted_launch_file_is_referred_to(
    integration: Seq<char>,
    process_id: Seq<char>,
    runtime_cache_root: Seq<char>,
    process: ProcessSpec,
    declarations: Seq<LaunchFileDeclaration>,
    i: int,
)
    requires
        first_some(
            declarations.len(),
            launch_file_fault(integration, process_id, runtime_cache_root, process, declarations),
        ) is None,
        0 <= i < declarations.len(),
    ensures
        declarations[i].sha256@ == sha256_text(encode_utf8(declarations[i].text@)),
        crate::text::starts(
            declarations[i].relative_path@,
            "launch-files/"@ + declarations[i].sha256@ + "/"@,
        ),
        ({
            let path = joined_path(runtime_cache_root, declarations[i].relative_path@);
            ||| exists|k: int| 0 <= k < process.argv@.len() && (#[trigger] process.argv@[k])@ == path
            ||| exists|k: int|
                0 <= k < process.env.entries@.len() && (#[trigger] process.env.entries@[k]).1@ == path
        }),
{
    let f = launch_file_fault(integration, process_id, runtime_cache_root, process, declarations);
    crate::search::lemma_first_some_none(declarations.len(), f);
    assert(f(i) is None);
}

} // verus!
