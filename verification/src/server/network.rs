//! The interface that the processes of a server communicate over: what the
//! probes of its machines show, and which interface all of them share.

use crate::dict::{lemma_with_entry_lookup, lookup, Dict};
use crate::process_group::CommandOutput;
use crate::search::{
    first_index, first_some, lemma_first_index, lemma_first_index_is, lemma_first_some_stays,
};
use crate::text::{
    after_prefix, all_digits, cat3, cat4, cat6, debug, debug_text, decimal, decimal_value,
    decode_bytes, decode_lossy, digit, find_char, is_digit, join, joined, lemma_position, lines, list_contains,
    lists, lossy_text, parse_unsigned, position, same, split, split_on, starts, starts_with,
    strip_prefix, text_lines, text_of, texts, trim, trimmed, unsigned_digits, utf8_error,
};
use vstd::prelude::*;
use vstd::slice::slice_to_vec;
use vstd::string::*;
use vstd::utf8::{decode_utf8, valid_utf8};

verus! {

/// What a line of evidence begins with.
pub const NETWORK_MARKER: &'static str = "INFERLAB_NETWORK\t";

/// The script that probes the network of a machine: its default route, its
/// addresses and its active RDMA devices, each on a marked line.
pub const PROBE_SCRIPT: &'static str = "set -eu
route_iface=$(ip route get 8.8.8.8 2>/dev/null | sed -n 's/.* dev \\([^ ]*\\).*/\\1/p' | head -n1 || true)
printf 'INFERLAB_NETWORK\\tROUTE\\t%s\\n' \"$route_iface\"
ip -o -4 addr show scope global up | awk '{printf \"INFERLAB_NETWORK\\tADDR\\t%s\\t%s\\n\", $2, $4}'
if command -v ibdev2netdev >/dev/null 2>&1; then
    ibdev2netdev | awk '/\\(Up\\)/ {printf \"INFERLAB_NETWORK\\tRDMA\\t%s\\t%s\\n\", $5, $1}'
fi";

/// An interface with an active RDMA link.
#[derive(Debug)]
pub struct ActiveRdmaInterfacePlan {
    pub interface: String,
    pub device: String,
}

/// The addresses of an interface.
#[derive(Debug)]
struct InterfaceAddresses {
    interface: String,
    addresses: Vec<String>,
}

/// What the probe of a machine shows. The candidates stand in the order in which
/// they were first seen.
#[derive(Debug)]
pub struct NetworkMachinePlan {
    pub default_route_interface: Option<String>,
    /// The addresses of each interface.
    pub addresses: Dict<Vec<String>>,
    pub active_rdma_interfaces: Vec<ActiveRdmaInterfacePlan>,
    pub candidates: Vec<String>,
}

/// Why an interface was selected.
#[derive(Clone, Copy, Debug, PartialEq, Eq, Structural)]
pub enum NetworkSelectionReason {
    RdmaDefaultRoute,
    Rdma,
    DefaultRoute,
    Routable,
}

/// The interface that the machines share, with the evidence.
#[derive(Debug)]
pub struct NetworkPlan {
    pub selected_interface: String,
    pub reason: NetworkSelectionReason,
    /// What the probe of each machine shows.
    pub machines: Dict<NetworkMachinePlan>,
}

/// Why evidence is not understood.
#[derive(Debug)]
pub enum NetworkEvidenceError {
    MissingField { kind: &'static str, field: &'static str },
    UnknownKind { kind: String },
    MissingRoute,
}

impl NetworkEvidenceError {
    /// The text of the error.
    pub open spec fn text(self) -> Seq<char> {
        match self {
            NetworkEvidenceError::MissingField { kind, field } => kind@ + " evidence has no "@
                + field@,
            NetworkEvidenceError::UnknownKind { kind } => "unknown evidence kind "@ + debug_text(
                kind@,
            ),
            NetworkEvidenceError::MissingRoute => "probe returned no route evidence"@,
        }
    }

    /// The text of the error.
    pub fn message(&self) -> (r: String)
        ensures
            r@ == self.text(),
    {
        match self {
            NetworkEvidenceError::MissingField { kind, field } => cat3(
                kind,
                " evidence has no ",
                field,
            ),
            NetworkEvidenceError::UnknownKind { kind } => crate::text::cat2(
                "unknown evidence kind ",
                debug(kind.as_str()).as_str(),
            ),
            NetworkEvidenceError::MissingRoute => "probe returned no route evidence".to_owned(),
        }
    }
}

// ---------------------------------------------------------------------------
// Addresses

/// The number of a part of an address: one to three digits without a needless
/// zero in front, at most 255.
pub open spec fn octet(part: Seq<char>) -> Option<nat> {
    if 1 <= part.len() <= 3 && all_digits(part) && (part.len() == 1 || part[0] != '0')
        && decimal_value(part) <= 255 {
        Some(decimal_value(part))
    } else {
        None
    }
}

/// The address of four numbers with dots between them.
pub open spec fn ipv4(text: Seq<char>) -> Option<(nat, nat, nat, nat)> {
    let parts = split_on(text, '.');
    if parts.len() == 4 {
        match (octet(parts[0]), octet(parts[1]), octet(parts[2]), octet(parts[3])) {
            (Some(a), Some(b), Some(c), Some(d)) => Some((a, b, c, d)),
            _ => None,
        }
    } else {
        None
    }
}

/// An address that other machines can reach: not a loopback, link-local,
/// unspecified, multicast or broadcast one.
pub open spec fn reachable(address: (nat, nat, nat, nat)) -> bool {
    &&& address.0 != 127
    &&& !(address.0 == 169 && address.1 == 254)
    &&& address != (0nat, 0nat, 0nat, 0nat)
    &&& !(224 <= address.0 <= 239)
    &&& address != (255nat, 255nat, 255nat, 255nat)
}

/// The address without its prefix length.
pub open spec fn host_part(address: Seq<char>) -> Seq<char> {
    address.take(position(address, '/'))
}

fn read_octet(part: &str) -> (r: Option<u64>)
    ensures
        match r {
            Some(n) => octet(part@) == Some(n as nat),
            None => octet(part@) is None,
        },
{
    let n: usize = part.unicode_len();
    if n < 1 || n > 3 {
        return None;
    }
    let first = part.get_char(0);
    if !is_digit(first) || (n > 1 && first == '0') {
        assert(first == '0' || !digit(part@[0]));
        return None;
    }
    assert(unsigned_digits(part@) == part@);
    parse_unsigned(part, 255)
}

fn read_ipv4(text: &str) -> (r: Option<(u64, u64, u64, u64)>)
    ensures
        match r {
            Some((a, b, c, d)) => ipv4(text@) == Some((a as nat, b as nat, c as nat, d as nat)),
            None => ipv4(text@) is None,
        },
{
    let parts = split(text, '.');
    assert(texts(parts@).len() == parts@.len());
    if parts.len() != 4 {
        return None;
    }
    assert(texts(parts@)[0] == parts@[0]@ && texts(parts@)[1] == parts@[1]@ && texts(parts@)[2]
        == parts@[2]@ && texts(parts@)[3] == parts@[3]@);
    match (
        read_octet(parts[0].as_str()),
        read_octet(parts[1].as_str()),
        read_octet(parts[2].as_str()),
        read_octet(parts[3].as_str()),
    ) {
        (Some(a), Some(b), Some(c), Some(d)) => Some((a, b, c, d)),
        _ => None,
    }
}

/// Whether some address is one, and every one that is can be reached.
pub open spec fn addresses_reachable(addresses: Seq<Seq<char>>) -> bool {
    &&& exists|i: int|
        0 <= i < addresses.len() && ipv4(host_part(#[trigger] addresses[i])) is Some
    &&& forall|i: int|
        0 <= i < addresses.len() && ipv4(host_part(#[trigger] addresses[i])) is Some ==> reachable(
            ipv4(host_part(addresses[i]))->0,
        )
}

/// Whether the name is one of an interface that never leaves its machine.
pub open spec fn local_interface(interface: Seq<char>) -> bool {
    interface == "lo"@ || starts(interface, "br-"@) || starts(interface, "docker"@) || starts(
        interface,
        "veth"@,
    ) || starts(interface, "virbr"@)
}

/// Whether an interface can carry communication between machines.
pub open spec fn routable(interface: Seq<char>, addresses: Seq<Seq<char>>) -> bool {
    !local_interface(interface) && addresses_reachable(addresses)
}

/// Whether an interface can carry communication between machines.
pub fn is_routable_interface(interface: &str, addresses: &[String]) -> (r: bool)
    ensures
        r == routable(interface@, texts(addresses@)),
{
    if same(interface, "lo") || starts_with(interface, "br-") || starts_with(interface, "docker")
        || starts_with(interface, "veth") || starts_with(interface, "virbr") {
        return false;
    }
    let ghost all = texts(addresses@);
    let mut found = false;
    let mut i: usize = 0;
    while i < addresses.len()
        invariant
            i <= addresses@.len(),
            all == texts(addresses@),
            found == exists|j: int| 0 <= j < i && ipv4(host_part(#[trigger] all[j])) is Some,
            forall|j: int|
                0 <= j < i && ipv4(host_part(#[trigger] all[j])) is Some ==> reachable(
                    ipv4(host_part(all[j]))->0,
                ),
        decreases addresses@.len() - i,
    {
        let address = addresses[i].as_str();
        proof {
            lemma_position(address@, '/');
            assert(all[i as int] == address@);
        }
        let host = match find_char(address, '/') {
            Some(at) => address.substring_char(0, at),
            None => address,
        };
        assert(host@ =~= host_part(address@));
        if let Some((a, b, c, d)) = read_ipv4(host) {
            let fine = a != 127 && !(a == 169 && b == 254) && !(a == 0 && b == 0 && c == 0 && d
                == 0) && !(224 <= a && a <= 239) && !(a == 255 && b == 255 && c == 255 && d == 255);
            assert(fine == reachable(ipv4(host_part(all[i as int]))->0));
            if !fine {
                assert(!addresses_reachable(all));
                return false;
            }
            found = true;
            assert(ipv4(host_part(all[i as int])) is Some);
        }
        i += 1;
    }
    found
}

// ---------------------------------------------------------------------------
// Probes

/// What lines of evidence show.
pub struct Evidence {
    pub saw_route: bool,
    pub route: Option<Seq<char>>,
    pub addresses: Seq<(Seq<char>, Seq<Seq<char>>)>,
    pub rdma: Seq<(Seq<char>, Seq<char>)>,
}

/// The place of the interface among those with addresses; their number where it
/// is not among them.
pub open spec fn interface_place(addresses: Seq<(Seq<char>, Seq<Seq<char>>)>, interface: Seq<char>) -> int
    decreases addresses.len(),
{
    if addresses.len() == 0 {
        0
    } else if addresses[0].0 == interface {
        0
    } else {
        1 + interface_place(addresses.skip(1), interface)
    }
}

/// The addresses with one more.
pub open spec fn with_address(
    addresses: Seq<(Seq<char>, Seq<Seq<char>>)>,
    interface: Seq<char>,
    address: Seq<char>,
) -> Seq<(Seq<char>, Seq<Seq<char>>)> {
    let at = interface_place(addresses, interface);
    if at < addresses.len() {
        addresses.update(at, (interface, addresses[at].1.push(address)))
    } else {
        addresses.push((interface, seq![address]))
    }
}

/// The field at the place, where it is not empty.
pub open spec fn field_at(fields: Seq<Seq<char>>, i: int) -> Option<Seq<char>> {
    if i < fields.len() && fields[i].len() > 0 {
        Some(fields[i])
    } else {
        None
    }
}

/// The field is missing.
pub open spec fn missing_text(kind: Seq<char>, field: Seq<char>) -> Seq<char> {
    kind + " evidence has no "@ + field
}

/// The evidence with one line more, or why the line is not understood.
pub open spec fn with_line(evidence: Evidence, payload: Seq<char>) -> Result<Evidence, Seq<char>> {
    let fields = split_on(payload, '\t');
    if fields[0] == "ROUTE"@ {
        Ok(Evidence { saw_route: true, route: field_at(fields, 1), ..evidence })
    } else if fields[0] == "ADDR"@ {
        match field_at(fields, 1) {
            None => Err(missing_text("address"@, "interface"@)),
            Some(interface) => match field_at(fields, 2) {
                None => Err(missing_text("address"@, "address"@)),
                Some(address) => Ok(
                    Evidence {
                        addresses: with_address(evidence.addresses, interface, address),
                        ..evidence
                    },
                ),
            },
        }
    } else if fields[0] == "RDMA"@ {
        match field_at(fields, 1) {
            None => Err(missing_text("RDMA"@, "interface"@)),
            Some(interface) => match field_at(fields, 2) {
                None => Err(missing_text("RDMA"@, "device"@)),
                Some(device) => Ok(
                    Evidence { rdma: evidence.rdma.push((interface, device)), ..evidence },
                ),
            },
        }
    } else {
        Err("unknown evidence kind "@ + debug_text(fields[0]))
    }
}

/// What marked lines show; other lines are passed over.
pub open spec fn lines_show(rows: Seq<Seq<char>>) -> Result<Evidence, Seq<char>>
    decreases rows.len(),
{
    if rows.len() == 0 {
        Ok(
            Evidence {
                saw_route: false,
                route: None,
                addresses: Seq::empty(),
                rdma: Seq::empty(),
            },
        )
    } else {
        match lines_show(rows.drop_last()) {
            Err(text) => Err(text),
            Ok(evidence) => match after_prefix(rows[rows.len() - 1], NETWORK_MARKER@) {
                None => Ok(evidence),
                Some(payload) => with_line(evidence, payload),
            },
        }
    }
}

/// The interfaces with addresses that can carry communication.
pub open spec fn routable_interfaces(addresses: Seq<(Seq<char>, Seq<Seq<char>>)>) -> Seq<Seq<char>>
    decreases addresses.len(),
{
    if addresses.len() == 0 {
        Seq::empty()
    } else {
        let rest = routable_interfaces(addresses.drop_last());
        let last = addresses[addresses.len() - 1];
        if routable(last.0, last.1) {
            rest.push(last.0)
        } else {
            rest
        }
    }
}

/// The addresses by interface; the last entry of an interface counts.
pub open spec fn address_table(list: Seq<(Seq<char>, Seq<Seq<char>>)>) -> Map<
    Seq<char>,
    Seq<Seq<char>>,
>
    decreases list.len(),
{
    if list.len() == 0 {
        Map::empty()
    } else {
        address_table(list.drop_last()).insert(list.last().0, list.last().1)
    }
}

/// What a machine shows.
#[verifier::ext_equal]
pub struct Machine {
    pub route: Option<Seq<char>>,
    pub addresses: Map<Seq<char>, Seq<Seq<char>>>,
    pub rdma: Seq<(Seq<char>, Seq<char>)>,
    pub candidates: Seq<Seq<char>>,
}

/// What the output of a probe shows of its machine, or why it is not understood.
pub open spec fn probe_shows(output: Seq<char>) -> Result<Machine, Seq<char>> {
    match lines_show(text_lines(output)) {
        Err(text) => Err(text),
        Ok(evidence) => if !evidence.saw_route {
            Err("probe returned no route evidence"@)
        } else {
            Ok(
                Machine {
                    route: evidence.route,
                    addresses: address_table(evidence.addresses),
                    rdma: evidence.rdma,
                    candidates: routable_interfaces(evidence.addresses),
                },
            )
        },
    }
}

/// The addresses that a table holds, by interface.
pub open spec fn addresses_by_interface(entries: Seq<(String, Vec<String>)>) -> Map<
    Seq<char>,
    Seq<Seq<char>>,
> {
    Map::new(
        |interface: Seq<char>| lookup(entries, interface) is Some,
        |interface: Seq<char>| texts(lookup(entries, interface)->0@),
    )
}

/// The addresses that a list holds.
spec fn addresses_of(list: Seq<InterfaceAddresses>) -> Seq<(Seq<char>, Seq<Seq<char>>)> {
    Seq::new(list.len(), |i: int| (list[i].interface@, texts(list[i].addresses@)))
}

/// The RDMA interfaces that a list holds.
pub open spec fn rdma_of(list: Seq<ActiveRdmaInterfacePlan>) -> Seq<(Seq<char>, Seq<char>)> {
    Seq::new(list.len(), |i: int| (list[i].interface@, list[i].device@))
}

impl View for NetworkMachinePlan {
    type V = Machine;

    open spec fn view(&self) -> Machine {
        Machine {
            route: text_of(self.default_route_interface),
            addresses: addresses_by_interface(self.addresses.entries@),
            rdma: rdma_of(self.active_rdma_interfaces@),
            candidates: texts(self.candidates@),
        }
    }
}

proof fn lemma_interface_place(addresses: Seq<(Seq<char>, Seq<Seq<char>>)>, interface: Seq<char>)
    ensures
        0 <= interface_place(addresses, interface) <= addresses.len(),
        forall|j: int|
            0 <= j < interface_place(addresses, interface) ==> (#[trigger] addresses[j]).0
                != interface,
        interface_place(addresses, interface) < addresses.len() ==> addresses[interface_place(
            addresses,
            interface,
        )].0 == interface,
    decreases addresses.len(),
{
    if addresses.len() > 0 && addresses[0].0 != interface {
        let rest = addresses.skip(1);
        lemma_interface_place(rest, interface);
        let at = interface_place(rest, interface);
        assert forall|j: int| 0 <= j < interface_place(addresses, interface) implies (
        #[trigger] addresses[j]).0 != interface by {
            if j > 0 {
                assert(addresses[j] == rest[j - 1]);
            }
        }
        if at < rest.len() {
            assert(addresses[at + 1] == rest[at]);
        }
    }
}

fn add_address(list: Vec<InterfaceAddresses>, interface: &str, address: &str) -> (r: Vec<
    InterfaceAddresses,
>)
    ensures
        addresses_of(r@) == with_address(addresses_of(list@), interface@, address@),
{
    let ghost start = addresses_of(list@);
    proof {
        lemma_interface_place(start, interface@);
    }
    let mut out = list;
    let mut i: usize = 0;
    while i < out.len()
        invariant
            i <= out@.len(),
            out == list,
            start == addresses_of(list@),
            i <= interface_place(start, interface@) <= start.len(),
            interface_place(start, interface@) < start.len() ==> start[interface_place(
                start,
                interface@,
            )].0 == interface@,
            forall|j: int|
                0 <= j < interface_place(start, interface@) ==> (#[trigger] start[j]).0
                    != interface@,
        ensures
            out == list,
            i <= out@.len(),
            i == interface_place(start, interface@),
        decreases out@.len() - i,
    {
        assert(start[i as int].0 == out@[i as int].interface@);
        if same(out[i].interface.as_str(), interface) {
            break;
        }
        i += 1;
    }
    if i < out.len() {
        let mut entry = out.remove(i);
        let ghost kept = entry.addresses@;
        entry.addresses.push(address.to_owned());
        assert(texts(entry.addresses@) =~= texts(kept).push(address@));
        out.insert(i, entry);
        assert(addresses_of(out@) =~= with_address(start, interface@, address@));
    } else {
        let mut addresses: Vec<String> = Vec::new();
        addresses.push(address.to_owned());
        assert(texts(addresses@) =~= seq![address@]);
        out.push(InterfaceAddresses { interface: interface.to_owned(), addresses });
        assert(addresses_of(out@) =~= with_address(start, interface@, address@));
    }
    out
}

/// The refusal of the first lines is the refusal of all of them.
proof fn lemma_lines_fail(rows: Seq<Seq<char>>, i: int)
    requires
        0 <= i <= rows.len(),
        lines_show(rows.take(i)) is Err,
    ensures
        lines_show(rows) == lines_show(rows.take(i)),
    decreases rows.len(),
{
    if i == rows.len() {
        assert(rows.take(i) =~= rows);
    } else {
        assert(rows.drop_last().take(i) =~= rows.take(i));
        lemma_lines_fail(rows.drop_last(), i);
    }
}

fn nonempty_field(fields: &Vec<String>, i: usize) -> (r: Option<&str>)
    ensures
        match r {
            Some(text) => field_at(texts(fields@), i as int) == Some(text@),
            None => field_at(texts(fields@), i as int) is None,
        },
{
    assert(texts(fields@).len() == fields@.len());
    if i < fields.len() {
        assert(texts(fields@)[i as int] == fields@[i as int]@);
        let text = fields[i].as_str();
        if !text.is_empty() {
            return Some(text);
        }
    }
    None
}

fn routable_of(list: &Vec<InterfaceAddresses>) -> (r: Vec<String>)
    ensures
        texts(r@) == routable_interfaces(addresses_of(list@)),
{
    let ghost all = addresses_of(list@);
    let mut out: Vec<String> = Vec::new();
    let mut i: usize = 0;
    assert(all.take(0) =~= Seq::<(Seq<char>, Seq<Seq<char>>)>::empty());
    assert(texts(out@) =~= Seq::<Seq<char>>::empty());
    while i < list.len()
        invariant
            i <= list@.len(),
            all == addresses_of(list@),
            texts(out@) == routable_interfaces(all.take(i as int)),
        decreases list@.len() - i,
    {
        let ghost before = texts(out@);
        proof {
            assert(all.take(i + 1).drop_last() =~= all.take(i as int));
            assert(all.take(i + 1)[i as int] == all[i as int]);
        }
        let entry = &list[i];
        if is_routable_interface(entry.interface.as_str(), entry.addresses.as_slice()) {
            out.push(entry.interface.clone());
            assert(texts(out@) =~= before.push(entry.interface@));
        }
        i += 1;
    }
    assert(all.take(list@.len() as int) =~= all);
    out
}

/// Puts the addresses of interfaces in a table.
fn tabulate(list: &Vec<InterfaceAddresses>) -> (r: Dict<Vec<String>>)
    ensures
        r.wf(),
        addresses_by_interface(r.entries@) == address_table(addresses_of(list@)),
{
    let ghost all = addresses_of(list@);
    let mut table: Dict<Vec<String>> = Dict::new();
    let mut i: usize = 0;
    assert(all.take(0) =~= Seq::<(Seq<char>, Seq<Seq<char>>)>::empty());
    assert(addresses_by_interface(table.entries@) =~= Map::<Seq<char>, Seq<Seq<char>>>::empty());
    while i < list.len()
        invariant
            i <= list@.len(),
            all == addresses_of(list@),
            table.wf(),
            addresses_by_interface(table.entries@) == address_table(all.take(i as int)),
        decreases list@.len() - i,
    {
        let ghost before = table.entries@;
        let interface = list[i].interface.clone();
        let addresses = crate::text::copy_list(list[i].addresses.as_slice());
        table.insert(interface, addresses);
        proof {
            assert(all.take(i + 1).drop_last() =~= all.take(i as int));
            assert(all.take(i + 1).last() == (interface@, texts(addresses@)));
            assert forall|other: Seq<char>|
                #[trigger] lookup(table.entries@, other) == if other == interface@ {
                    Some(addresses)
                } else {
                    lookup(before, other)
                } by {
                lemma_with_entry_lookup(before, interface, addresses, other);
            }
            assert(addresses_by_interface(table.entries@) =~= addresses_by_interface(before).insert(
                interface@,
                texts(addresses@),
            ));
        }
        i += 1;
    }
    assert(all.take(list@.len() as int) =~= all);
    table
}

/// Reads the output of a probe: marked lines are evidence, other lines are noise.
pub fn parse_probe(output: &str) -> (r: Result<NetworkMachinePlan, NetworkEvidenceError>)
    ensures
        match probe_shows(output@) {
            Ok(machine) => r matches Ok(plan) && plan@ == machine && plan.addresses.wf(),
            Err(text) => r matches Err(error) && error.text() == text,
        },
{
    let rows = lines(output);
    let ghost all = text_lines(output@);
    let mut saw_route = false;
    let mut route: Option<String> = None;
    let mut addresses: Vec<InterfaceAddresses> = Vec::new();
    let mut rdma: Vec<ActiveRdmaInterfacePlan> = Vec::new();
    let mut i: usize = 0;
    proof {
        assert(all.take(0) =~= Seq::<Seq<char>>::empty());
        assert(addresses_of(addresses@) =~= Seq::<(Seq<char>, Seq<Seq<char>>)>::empty());
        assert(rdma_of(rdma@) =~= Seq::<(Seq<char>, Seq<char>)>::empty());
    }
    while i < rows.len()
        invariant
            i <= rows@.len(),
            texts(rows@) == all,
            all == text_lines(output@),
            lines_show(all.take(i as int)) == Ok::<Evidence, Seq<char>>(
                Evidence {
                    saw_route,
                    route: text_of(route),
                    addresses: addresses_of(addresses@),
                    rdma: rdma_of(rdma@),
                },
            ),
        decreases rows@.len() - i,
    {
        proof {
            assert(all.take(i + 1).drop_last() =~= all.take(i as int));
            assert(all.take(i + 1)[i as int] == rows@[i as int]@);
        }
        if let Some(payload) = strip_prefix(rows[i].as_str(), NETWORK_MARKER) {
            let fields = split(payload, '\t');
            proof {
                crate::text::lemma_split_nonempty(payload@, '\t');
                assert(texts(fields@).len() == fields@.len());
                assert(texts(fields@)[0] == fields@[0]@);
            }
            let kind = fields[0].as_str();
            if same(kind, "ROUTE") {
                saw_route = true;
                route = match nonempty_field(&fields, 1) {
                    Some(interface) => Some(interface.to_owned()),
                    None => None,
                };
            } else if same(kind, "ADDR") {
                let interface = match nonempty_field(&fields, 1) {
                    Some(interface) => interface,
                    None => {
                        proof {
                            lemma_lines_fail(all, i + 1);
                        }
                        return Err(
                            NetworkEvidenceError::MissingField { kind: "address", field: "interface" },
                        );
                    },
                };
                let address = match nonempty_field(&fields, 2) {
                    Some(address) => address,
                    None => {
                        proof {
                            lemma_lines_fail(all, i + 1);
                        }
                        return Err(
                            NetworkEvidenceError::MissingField { kind: "address", field: "address" },
                        );
                    },
                };
                addresses = add_address(addresses, interface, address);
            } else if same(kind, "RDMA") {
                let interface = match nonempty_field(&fields, 1) {
                    Some(interface) => interface,
                    None => {
                        proof {
                            lemma_lines_fail(all, i + 1);
                        }
                        return Err(
                            NetworkEvidenceError::MissingField { kind: "RDMA", field: "interface" },
                        );
                    },
                };
                let device = match nonempty_field(&fields, 2) {
                    Some(device) => device,
                    None => {
                        proof {
                            lemma_lines_fail(all, i + 1);
                        }
                        return Err(
                            NetworkEvidenceError::MissingField { kind: "RDMA", field: "device" },
                        );
                    },
                };
                let ghost before = rdma_of(rdma@);
                rdma.push(
                    ActiveRdmaInterfacePlan {
                        interface: interface.to_owned(),
                        device: device.to_owned(),
                    },
                );
                assert(rdma_of(rdma@) =~= before.push((interface@, device@)));
            } else {
                proof {
                    lemma_lines_fail(all, i + 1);
                }
                return Err(NetworkEvidenceError::UnknownKind { kind: kind.to_owned() });
            }
        }
        i += 1;
    }
    assert(all.take(rows@.len() as int) =~= all);
    if !saw_route {
        return Err(NetworkEvidenceError::MissingRoute);
    }
    let candidates = routable_of(&addresses);
    Ok(
        NetworkMachinePlan {
            default_route_interface: route,
            addresses: tabulate(&addresses),
            active_rdma_interfaces: rdma,
            candidates,
        },
    )
}

// ---------------------------------------------------------------------------
// Selection

/// Whether every other list holds the value.
pub open spec fn in_the_rest(lists: Seq<Seq<Seq<char>>>, value: Seq<char>) -> bool {
    forall|k: int| 1 <= k < lists.len() ==> (#[trigger] lists[k]).contains(value)
}

/// Which of the first list's values every other list holds.
pub open spec fn is_common(lists: Seq<Seq<Seq<char>>>) -> spec_fn(int) -> bool {
    |i: int| in_the_rest(lists, lists[0][i])
}

/// The first value of the first list that every other list holds.
pub open spec fn first_common(lists: Seq<Seq<Seq<char>>>) -> Option<Seq<char>> {
    if lists.len() == 0 {
        None
    } else {
        match first_index(lists[0].len(), is_common(lists)) {
            Some(i) => Some(lists[0][i]),
            None => None,
        }
    }
}

/// What lists of texts hold.
pub open spec fn lists_of(values: Seq<Vec<String>>) -> Seq<Seq<Seq<char>>> {
    Seq::new(values.len(), |i: int| texts(values[i]@))
}

/// A list holds a text where its texts contain it.
proof fn lemma_lists_contains(list: Seq<String>, t: Seq<char>)
    ensures
        lists(list, t) == texts(list).contains(t),
{
    if lists(list, t) {
        let i = choose|i: int| 0 <= i < list.len() && (#[trigger] list[i])@ == t;
        assert(texts(list)[i] == t);
    }
    if texts(list).contains(t) {
        let i = choose|i: int| 0 <= i < texts(list).len() && texts(list)[i] == t;
        assert(list[i]@ == t);
    }
}

fn held_by_rest(values: &[Vec<String>], value: &str) -> (r: bool)
    ensures
        r == in_the_rest(lists_of(values@), value@),
{
    let ghost all = lists_of(values@);
    let mut k: usize = 1;
    while k < values.len()
        invariant
            1 <= k,
            k <= values@.len() || values@.len() == 0,
            all == lists_of(values@),
            forall|j: int| 1 <= j < k ==> (#[trigger] all[j]).contains(value@),
        decreases values@.len() - k,
    {
        proof {
            lemma_lists_contains(values@[k as int]@, value@);
            assert(all[k as int] == texts(values@[k as int]@));
        }
        if !list_contains(values[k].as_slice(), value) {
            return false;
        }
        k += 1;
    }
    true
}

/// The first value of the first machine that every other machine has too.
pub fn first_common_in_order(values_by_machine: &[Vec<String>]) -> (r: Option<String>)
    ensures
        match r {
            Some(value) => first_common(lists_of(values_by_machine@)) == Some(value@),
            None => first_common(lists_of(values_by_machine@)) is None,
        },
{
    if values_by_machine.len() == 0 {
        return None;
    }
    let ghost all = lists_of(values_by_machine@);
    let ghost p = is_common(all);
    let first = &values_by_machine[0];
    proof {
        assert(all[0] == texts(first@));
        lemma_first_index(all[0].len(), p);
    }
    let mut i: usize = 0;
    while i < first.len()
        invariant
            i <= first@.len(),
            all == lists_of(values_by_machine@),
            all.len() > 0,
            all[0] == texts(first@),
            p == is_common(all),
            forall|j: int| 0 <= j < i ==> !(#[trigger] p(j)),
        decreases first@.len() - i,
    {
        assert(all[0][i as int] == first@[i as int]@);
        if held_by_rest(values_by_machine, first[i].as_str()) {
            proof {
                assert(p(i as int));
                lemma_first_index_is(all[0].len(), p, i as int);
            }
            return Some(first[i].clone());
        }
        assert(!p(i as int));
        i += 1;
    }
    None
}

impl Machine {
    /// The interface has an active RDMA link.
    pub open spec fn has_rdma(self, interface: Seq<char>) -> bool {
        linked(self.rdma, interface)
    }

    /// The default route, where it can carry communication.
    pub open spec fn usable_route(self) -> Seq<Seq<char>> {
        if self.route is Some && self.candidates.contains(self.route->0) {
            seq![self.route->0]
        } else {
            Seq::empty()
        }
    }

    /// The default route, where it can carry communication and has an RDMA link.
    pub open spec fn rdma_route(self) -> Seq<Seq<char>> {
        if self.route is Some && self.candidates.contains(self.route->0) && self.has_rdma(
            self.route->0,
        ) {
            seq![self.route->0]
        } else {
            Seq::empty()
        }
    }

    /// The interfaces with an RDMA link that can carry communication.
    pub open spec fn usable_rdma(self) -> Seq<Seq<char>> {
        usable_links(self.rdma, self.candidates)
    }
}

/// Whether one of the links is of the interface.
pub open spec fn linked(links: Seq<(Seq<char>, Seq<char>)>, interface: Seq<char>) -> bool {
    exists|i: int| 0 <= i < links.len() && (#[trigger] links[i]).0 == interface
}

/// The interfaces of the links that are candidates.
pub open spec fn usable_links(links: Seq<(Seq<char>, Seq<char>)>, candidates: Seq<Seq<char>>) -> Seq<
    Seq<char>,
>
    decreases links.len(),
{
    if links.len() == 0 {
        Seq::empty()
    } else {
        let rest = usable_links(links.drop_last(), candidates);
        let last = links[links.len() - 1].0;
        if candidates.contains(last) {
            rest.push(last)
        } else {
            rest
        }
    }
}

/// What the machines show.
pub open spec fn machines_of(probes: Seq<(String, NetworkMachinePlan)>) -> Seq<Machine> {
    Seq::new(probes.len(), |i: int| probes[i].1@)
}

/// The lists of the machines' RDMA routes.
pub open spec fn rdma_routes(machines: Seq<Machine>) -> Seq<Seq<Seq<char>>> {
    Seq::new(machines.len(), |i: int| machines[i].rdma_route())
}

/// The lists of the machines' usable RDMA interfaces.
pub open spec fn rdma_lists(machines: Seq<Machine>) -> Seq<Seq<Seq<char>>> {
    Seq::new(machines.len(), |i: int| machines[i].usable_rdma())
}

/// The lists of the machines' usable routes.
pub open spec fn route_lists(machines: Seq<Machine>) -> Seq<Seq<Seq<char>>> {
    Seq::new(machines.len(), |i: int| machines[i].usable_route())
}

/// The lists of the machines' candidates.
pub open spec fn candidate_lists(machines: Seq<Machine>) -> Seq<Seq<Seq<char>>> {
    Seq::new(machines.len(), |i: int| machines[i].candidates)
}

/// The interface that the machines share: by preference a default route with an
/// RDMA link, then an RDMA link, then a default route, then any that can carry
/// communication.
pub open spec fn shared_interface(machines: Seq<Machine>) -> Option<
    (Seq<char>, NetworkSelectionReason),
> {
    match first_common(rdma_routes(machines)) {
        Some(interface) => Some((interface, NetworkSelectionReason::RdmaDefaultRoute)),
        None => match first_common(rdma_lists(machines)) {
            Some(interface) => Some((interface, NetworkSelectionReason::Rdma)),
            None => match first_common(route_lists(machines)) {
                Some(interface) => Some((interface, NetworkSelectionReason::DefaultRoute)),
                None => match first_common(candidate_lists(machines)) {
                    Some(interface) => Some((interface, NetworkSelectionReason::Routable)),
                    None => None,
                },
            },
        },
    }
}

fn has_link(links: &Vec<ActiveRdmaInterfacePlan>, interface: &str) -> (r: bool)
    ensures
        r == linked(rdma_of(links@), interface@),
{
    let ghost all = rdma_of(links@);
    let mut i: usize = 0;
    while i < links.len()
        invariant
            i <= links@.len(),
            all == rdma_of(links@),
            forall|j: int| 0 <= j < i ==> (#[trigger] all[j]).0 != interface@,
        decreases links@.len() - i,
    {
        assert(all[i as int].0 == links@[i as int].interface@);
        if same(links[i].interface.as_str(), interface) {
            return true;
        }
        i += 1;
    }
    false
}

fn route_list(probe: &NetworkMachinePlan, with_link: bool) -> (r: Vec<String>)
    ensures
        texts(r@) == if with_link {
            probe@.rdma_route()
        } else {
            probe@.usable_route()
        },
{
    let mut out: Vec<String> = Vec::new();
    assert(texts(out@) =~= Seq::<Seq<char>>::empty());
    if let Some(route) = &probe.default_route_interface {
        proof {
            lemma_lists_contains(probe.candidates@, route@);
        }
        assert(probe@.route == Some(route@));
        if list_contains(probe.candidates.as_slice(), route.as_str()) && (!with_link || has_link(
            &probe.active_rdma_interfaces,
            route.as_str(),
        )) {
            out.push(route.clone());
            assert(texts(out@) =~= seq![route@]);
        }
    }
    out
}

fn rdma_list(probe: &NetworkMachinePlan) -> (r: Vec<String>)
    ensures
        texts(r@) == probe@.usable_rdma(),
{
    let ghost all = rdma_of(probe.active_rdma_interfaces@);
    let ghost fit = texts(probe.candidates@);
    let mut out: Vec<String> = Vec::new();
    let mut i: usize = 0;
    assert(all.take(0) =~= Seq::<(Seq<char>, Seq<char>)>::empty());
    assert(texts(out@) =~= Seq::<Seq<char>>::empty());
    while i < probe.active_rdma_interfaces.len()
        invariant
            i <= probe.active_rdma_interfaces@.len(),
            all == rdma_of(probe.active_rdma_interfaces@),
            fit == texts(probe.candidates@),
            texts(out@) == usable_links(all.take(i as int), fit),
        decreases probe.active_rdma_interfaces@.len() - i,
    {
        let interface = &probe.active_rdma_interfaces[i].interface;
        let ghost before = texts(out@);
        proof {
            assert(all.take(i + 1).drop_last() =~= all.take(i as int));
            assert(all.take(i + 1)[i as int].0 == interface@);
            lemma_lists_contains(probe.candidates@, interface@);
        }
        if list_contains(probe.candidates.as_slice(), interface.as_str()) {
            out.push(interface.clone());
            assert(texts(out@) =~= before.push(interface@));
        }
        i += 1;
    }
    assert(all.take(probe.active_rdma_interfaces@.len() as int) =~= all);
    out
}

/// Selects the interface that the machines share.
pub fn select_interface(probes: &[(String, NetworkMachinePlan)]) -> (r: Option<
    (String, NetworkSelectionReason),
>)
    ensures
        match shared_interface(machines_of(probes@)) {
            Some((interface, reason)) => r matches Some(found) && found.0@ == interface && found.1
                == reason,
            None => r is None,
        },
{
    let ghost machines = machines_of(probes@);
    let mut rdma_route_values: Vec<Vec<String>> = Vec::new();
    let mut rdma_values: Vec<Vec<String>> = Vec::new();
    let mut route_values: Vec<Vec<String>> = Vec::new();
    let mut candidate_values: Vec<Vec<String>> = Vec::new();
    let mut i: usize = 0;
    while i < probes.len()
        invariant
            i <= probes@.len(),
            machines == machines_of(probes@),
            rdma_route_values@.len() == i,
            rdma_values@.len() == i,
            route_values@.len() == i,
            candidate_values@.len() == i,
            forall|j: int|
                0 <= j < i ==> texts((#[trigger] rdma_route_values@[j])@)
                    == machines[j].rdma_route(),
            forall|j: int|
                0 <= j < i ==> texts((#[trigger] rdma_values@[j])@) == machines[j].usable_rdma(),
            forall|j: int|
                0 <= j < i ==> texts((#[trigger] route_values@[j])@) == machines[j].usable_route(),
            forall|j: int|
                0 <= j < i ==> texts((#[trigger] candidate_values@[j])@) == machines[j].candidates,
        decreases probes@.len() - i,
    {
        let probe = &probes[i].1;
        assert(machines[i as int] == probe@);
        rdma_route_values.push(route_list(probe, true));
        rdma_values.push(rdma_list(probe));
        route_values.push(route_list(probe, false));
        let copied = crate::text::copy_list(probe.candidates.as_slice());
        assert(texts(copied@) =~= texts(probe.candidates@));
        candidate_values.push(copied);
        i += 1;
    }
    proof {
        assert(lists_of(rdma_route_values@) =~= rdma_routes(machines));
        assert(lists_of(rdma_values@) =~= rdma_lists(machines));
        assert(lists_of(route_values@) =~= route_lists(machines));
        assert(lists_of(candidate_values@) =~= candidate_lists(machines));
    }
    if let Some(interface) = first_common_in_order(rdma_route_values.as_slice()) {
        return Some((interface, NetworkSelectionReason::RdmaDefaultRoute));
    }
    if let Some(interface) = first_common_in_order(rdma_values.as_slice()) {
        return Some((interface, NetworkSelectionReason::Rdma));
    }
    if let Some(interface) = first_common_in_order(route_values.as_slice()) {
        return Some((interface, NetworkSelectionReason::DefaultRoute));
    }
    match first_common_in_order(candidate_values.as_slice()) {
        Some(interface) => Some((interface, NetworkSelectionReason::Routable)),
        None => None,
    }
}

// ---------------------------------------------------------------------------
// Resolution

/// Why no interface is resolved.
#[derive(Debug)]
pub enum NetworkResolutionError {
    LocalLaunch { machine: String, source: String },
    Ssh { machine: String, source: String },
    Exit { machine: String, status: String, stderr: String },
    NonUtf8 { machine: String, source: String },
    InvalidEvidence { machine: String, source: NetworkEvidenceError },
    NoCommonInterface { machines: String },
}

impl NetworkResolutionError {
    /// The text of the error.
    pub open spec fn text(self) -> Seq<char> {
        match self {
            NetworkResolutionError::LocalLaunch { machine, source }
                => "failed to launch network probe for local machine "@ + debug_text(machine@)
                + ": "@ + source@,
            NetworkResolutionError::Ssh { machine, source }
                => "failed to launch network probe for machine "@ + debug_text(machine@) + ": "@
                + source@,
            NetworkResolutionError::Exit { machine, status, stderr } => "network probe for machine "@
                + debug_text(machine@) + " exited with "@ + status@ + ": "@ + stderr@,
            NetworkResolutionError::NonUtf8 { machine, source } => "network probe for machine "@
                + debug_text(machine@) + " returned non-UTF-8 output: "@ + source@,
            NetworkResolutionError::InvalidEvidence { machine, source }
                => "invalid network probe for "@ + debug_text(machine@) + ": "@ + source.text(),
            NetworkResolutionError::NoCommonInterface { machines }
                => "no common routable communication interface across machines ["@ + machines@
                + "]; verify that every machine has a common global IPv4 interface and that RDMA links are up"@,
        }
    }

    /// The text of the error.
    pub fn message(&self) -> (r: String)
        ensures
            r@ == self.text(),
    {
        match self {
            NetworkResolutionError::LocalLaunch { machine, source } => cat4(
                "failed to launch network probe for local machine ",
                debug(machine.as_str()).as_str(),
                ": ",
                source.as_str(),
            ),
            NetworkResolutionError::Ssh { machine, source } => cat4(
                "failed to launch network probe for machine ",
                debug(machine.as_str()).as_str(),
                ": ",
                source.as_str(),
            ),
            NetworkResolutionError::Exit { machine, status, stderr } => cat6(
                "network probe for machine ",
                debug(machine.as_str()).as_str(),
                " exited with ",
                status.as_str(),
                ": ",
                stderr.as_str(),
            ),
            NetworkResolutionError::NonUtf8 { machine, source } => cat4(
                "network probe for machine ",
                debug(machine.as_str()).as_str(),
                " returned non-UTF-8 output: ",
                source.as_str(),
            ),
            NetworkResolutionError::InvalidEvidence { machine, source } => cat4(
                "invalid network probe for ",
                debug(machine.as_str()).as_str(),
                ": ",
                source.message().as_str(),
            ),
            NetworkResolutionError::NoCommonInterface { machines } => cat3(
                "no common routable communication interface across machines [",
                machines.as_str(),
                "]; verify that every machine has a common global IPv4 interface and that RDMA links are up",
            ),
        }
    }
}

/// What the finished probe of a machine shows, or the text of the refusal.
pub open spec fn output_shows(machine: Seq<char>, output: CommandOutput) -> Result<
    Machine,
    Seq<char>,
> {
    if !output.success {
        Err(
            "network probe for machine "@ + debug_text(machine) + " exited with "@ + output.status@
                + ": "@ + trimmed(lossy_text(output.stderr@)),
        )
    } else if !valid_utf8(output.stdout@) {
        Err(
            "network probe for machine "@ + debug_text(machine) + " returned non-UTF-8 output: "@
                + utf8_error(output.stdout@),
        )
    } else {
        match probe_shows(decode_utf8(output.stdout@)) {
            Ok(found) => Ok(found),
            Err(reason) => Err(
                "invalid network probe for "@ + debug_text(machine) + ": "@ + reason,
            ),
        }
    }
}

/// Reads the finished probe of a machine.
pub fn parse_output(machine: &str, output: &CommandOutput) -> (r: Result<
    NetworkMachinePlan,
    NetworkResolutionError,
>)
    ensures
        match output_shows(machine@, *output) {
            Ok(found) => r matches Ok(plan) && plan@ == found && plan.addresses.wf(),
            Err(reason) => r matches Err(error) && error.text() == reason,
        },
{
    if !output.success {
        return Err(
            NetworkResolutionError::Exit {
                machine: machine.to_owned(),
                status: output.status.clone(),
                stderr: trim(decode_lossy(output.stderr.as_slice()).as_str()).to_owned(),
            },
        );
    }
    match decode_bytes(slice_to_vec(output.stdout.as_slice())) {
        Err(source) => Err(NetworkResolutionError::NonUtf8 { machine: machine.to_owned(), source }),
        Ok(text) => match parse_probe(text.as_str()) {
            Ok(plan) => Ok(plan),
            Err(source) => Err(
                NetworkResolutionError::InvalidEvidence { machine: machine.to_owned(), source },
            ),
        },
    }
}

/// How the probe of a machine went.
pub enum ProbeOutcome {
    Ran { output: CommandOutput },
    LocalLaunchFailed { source: String },
    SshFailed { source: String },
}

/// What the probe of a machine shows, or the text of the refusal.
pub open spec fn outcome_shows(machine: Seq<char>, outcome: ProbeOutcome) -> Result<
    Machine,
    Seq<char>,
> {
    match outcome {
        ProbeOutcome::Ran { output } => output_shows(machine, output),
        ProbeOutcome::LocalLaunchFailed { source } => Err(
            "failed to launch network probe for local machine "@ + debug_text(machine) + ": "@
                + source@,
        ),
        ProbeOutcome::SshFailed { source } => Err(
            "failed to launch network probe for machine "@ + debug_text(machine) + ": "@ + source@,
        ),
    }
}

/// Reads the probe of a machine.
pub fn probe_machine(machine: &str, outcome: &ProbeOutcome) -> (r: Result<
    NetworkMachinePlan,
    NetworkResolutionError,
>)
    ensures
        match outcome_shows(machine@, *outcome) {
            Ok(found) => r matches Ok(plan) && plan@ == found && plan.addresses.wf(),
            Err(reason) => r matches Err(error) && error.text() == reason,
        },
{
    match outcome {
        ProbeOutcome::Ran { output } => parse_output(machine, output),
        ProbeOutcome::LocalLaunchFailed { source } => Err(
            NetworkResolutionError::LocalLaunch {
                machine: machine.to_owned(),
                source: source.clone(),
            },
        ),
        ProbeOutcome::SshFailed { source } => Err(
            NetworkResolutionError::Ssh { machine: machine.to_owned(), source: source.clone() },
        ),
    }
}

/// The places of the first process on each machine.
pub open spec fn first_places(machines: Seq<Seq<char>>) -> Seq<int>
    decreases machines.len(),
{
    if machines.len() == 0 {
        Seq::empty()
    } else {
        let front = machines.drop_last();
        if front.contains(machines[machines.len() - 1]) {
            first_places(front)
        } else {
            first_places(front).push(machines.len() - 1)
        }
    }
}

/// The places of the processes on whose machines a probe is run: the first on
/// each machine, and none where all are on one.
pub fn probe_places(machines: &[String]) -> (r: Vec<usize>)
    ensures
        ({
            let places = first_places(texts(machines@));
            if places.len() <= 1 {
                r@.len() == 0
            } else {
                r@.len() == places.len() && forall|k: int|
                    0 <= k < r@.len() ==> (#[trigger] r@[k]) == places[k] && r@[k] < machines@.len()
            }
        }),
{
    let ghost all = texts(machines@);
    let ghost mut places: Seq<int> = Seq::empty();
    let mut out: Vec<usize> = Vec::new();
    let mut i: usize = 0;
    assert(all.take(0) =~= Seq::<Seq<char>>::empty());
    while i < machines.len()
        invariant
            i <= machines@.len(),
            all == texts(machines@),
            places == first_places(all.take(i as int)),
            out@.len() == places.len(),
            forall|k: int|
                0 <= k < out@.len() ==> (#[trigger] out@[k]) == places[k] && out@[k]
                    < machines@.len(),
        decreases machines@.len() - i,
    {
        let mut seen = false;
        let mut j: usize = 0;
        while j < i
            invariant
                j <= i < machines@.len(),
                all == texts(machines@),
                seen == exists|k: int| 0 <= k < j && (#[trigger] all[k]) == all[i as int],
            decreases i - j,
        {
            assert(all[j as int] == machines@[j as int]@ && all[i as int] == machines@[i as int]@);
            if same(machines[j].as_str(), machines[i].as_str()) {
                seen = true;
                assert(all[j as int] == all[i as int]);
            }
            j += 1;
        }
        proof {
            let front = all.take(i as int);
            assert(all.take(i + 1).drop_last() =~= front);
            assert(all.take(i + 1)[i as int] == all[i as int]);
            if seen {
                let k = choose|k: int| 0 <= k < j && (#[trigger] all[k]) == all[i as int];
                assert(front[k] == all[i as int]);
            }
            if front.contains(all[i as int]) {
                let k = choose|k: int| 0 <= k < front.len() && front[k] == all[i as int];
                assert(all[k] == all[i as int]);
            }
        }
        if !seen {
            out.push(i);
            proof {
                places = places.push(i as int);
            }
        }
        i += 1;
    }
    assert(all.take(machines@.len() as int) =~= all);
    if out.len() <= 1 {
        return Vec::new();
    }
    out
}

/// Why a probe is refused, by place.
pub open spec fn probe_faults(probes: Seq<(String, ProbeOutcome)>) -> spec_fn(int) -> Option<
    Seq<char>,
> {
    |i: int|
        match outcome_shows(probes[i].0@, probes[i].1) {
            Ok(_) => None,
            Err(text) => Some(text),
        }
}

/// What the probed machines show.
pub open spec fn shown_machines(probes: Seq<(String, ProbeOutcome)>) -> Seq<Machine> {
    Seq::new(probes.len(), |i: int| outcome_shows(probes[i].0@, probes[i].1)->Ok_0)
}

/// The ids of the probed machines.
pub open spec fn probed_ids(probes: Seq<(String, ProbeOutcome)>) -> Seq<Seq<char>> {
    Seq::new(probes.len(), |i: int| probes[i].0@)
}

/// What machines show, by name; the last entry of a machine counts.
pub open spec fn machine_table(ids: Seq<Seq<char>>, shown: Seq<Machine>) -> Map<Seq<char>, Machine>
    decreases ids.len(),
{
    if ids.len() == 0 {
        Map::empty()
    } else {
        machine_table(ids.drop_last(), shown).insert(ids.last(), shown[ids.len() - 1])
    }
}

/// What a table holds of machines, by name.
pub open spec fn machines_by_name(entries: Seq<(String, NetworkMachinePlan)>) -> Map<
    Seq<char>,
    Machine,
> {
    Map::new(
        |id: Seq<char>| lookup(entries, id) is Some,
        |id: Seq<char>| lookup(entries, id)->0@,
    )
}

/// Puts what machines show in a table.
fn tabulate_machines(
    probes: Vec<(String, NetworkMachinePlan)>,
    Ghost(ids): Ghost<Seq<Seq<char>>>,
) -> (r: Dict<NetworkMachinePlan>)
    requires
        ids.len() == probes@.len(),
        forall|i: int| 0 <= i < probes@.len() ==> (#[trigger] probes@[i]).0@ == ids[i],
    ensures
        r.wf(),
        machines_by_name(r.entries@) == machine_table(ids, machines_of(probes@)),
{
    let ghost all = probes@;
    let ghost shown = machines_of(all);
    let mut rest = probes;
    let mut table: Dict<NetworkMachinePlan> = Dict::new();
    let ghost mut done: int = 0;
    assert(ids.take(0) =~= Seq::<Seq<char>>::empty());
    assert(machines_by_name(table.entries@) =~= Map::<Seq<char>, Machine>::empty());
    assert(all.skip(0) =~= all);
    while rest.len() > 0
        invariant
            0 <= done <= all.len(),
            ids.len() == all.len(),
            shown == machines_of(all),
            rest@ == all.skip(done),
            forall|i: int| 0 <= i < all.len() ==> (#[trigger] all[i]).0@ == ids[i],
            table.wf(),
            machines_by_name(table.entries@) == machine_table(ids.take(done), shown),
        decreases rest@.len(),
    {
        let ghost before = table.entries@;
        let (id, plan) = rest.remove(0);
        table.insert(id, plan);
        proof {
            assert((id, plan) == all[done]);
            assert(rest@ =~= all.skip(done + 1));
            assert(ids.take(done + 1).drop_last() =~= ids.take(done));
            assert(shown[done] == plan@);
            assert forall|other: Seq<char>|
                #[trigger] lookup(table.entries@, other) == if other == id@ {
                    Some(plan)
                } else {
                    lookup(before, other)
                } by {
                lemma_with_entry_lookup(before, id, plan, other);
            }
            assert(machines_by_name(table.entries@) =~= machines_by_name(before).insert(
                id@,
                plan@,
            ));
            done = done + 1;
        }
    }
    assert(ids.take(done) =~= ids);
    table
}

/// Whether the next machine is probed after one: none is after one whose probe could
/// not be run or shows nothing that is understood.
pub fn probing_goes_on(machine: &str, outcome: &ProbeOutcome) -> (r: bool)
    ensures
        r == outcome_shows(machine@, *outcome) is Ok,
{
    probe_machine(machine, outcome).is_ok()
}

/// Whether probes are those of the machines of processes, each once in the order of
/// the first processes on them: of all machines, or up to the first whose probe shows
/// nothing. Where all processes are on one machine there is nothing to probe.
pub open spec fn probes_follow(
    machines: Seq<Seq<char>>,
    probes: Seq<(String, ProbeOutcome)>,
) -> bool {
    let places = first_places(machines);
    places.len() <= 1 || {
        &&& 0 < probes.len() <= places.len()
        &&& forall|k: int| 0 <= k < probes.len() ==> (#[trigger] probes[k]).0@ == machines[places[k]]
        &&& probes.len() < places.len() ==> outcome_shows(probes.last().0@, probes.last().1) is Err
    }
}

/// Whether a result is the network that the machines of processes share, as their probes
/// show it.
pub open spec fn network_told(
    r: Result<Option<NetworkPlan>, NetworkResolutionError>,
    machines: Seq<Seq<char>>,
    probes: Seq<(String, ProbeOutcome)>,
) -> bool {
    if first_places(machines).len() <= 1 {
        r matches Ok(None)
    } else {
        match first_some(probes.len(), probe_faults(probes)) {
            Some(text) => r matches Err(error) && error.text() == text,
            None => match shared_interface(shown_machines(probes)) {
                None => r matches Err(error) && error.text()
                    == "no common routable communication interface across machines ["@ + joined(
                    probed_ids(probes),
                    ", "@,
                )
                    + "]; verify that every machine has a common global IPv4 interface and that RDMA links are up"@,
                Some((interface, reason)) => r matches Ok(Some(plan)) && plan.selected_interface@
                    == interface && plan.reason == reason && plan.machines.wf() && machines_by_name(
                    plan.machines.entries@,
                ) == machine_table(probed_ids(probes), shown_machines(probes)),
            },
        }
    }
}

/// Resolves the interface that the machines of processes share. Processes on one
/// machine need none.
pub fn resolve(machines: &[String], probes: &[(String, ProbeOutcome)]) -> (r: Result<
    Option<NetworkPlan>,
    NetworkResolutionError,
>)
    requires
        probes_follow(texts(machines@), probes@),
    ensures
        network_told(r, texts(machines@), probes@),
{
    if probe_places(machines).len() == 0 {
        return Ok(None);
    }
    let ghost f = probe_faults(probes@);
    let ghost shown = shown_machines(probes@);
    let mut found: Vec<(String, NetworkMachinePlan)> = Vec::new();
    let mut ids: Vec<String> = Vec::new();
    let mut i: usize = 0;
    while i < probes.len()
        invariant
            i <= probes@.len(),
            first_places(texts(machines@)).len() > 1,
            f == probe_faults(probes@),
            shown == shown_machines(probes@),
            first_some(i as nat, f) is None,
            found@.len() == i,
            ids@.len() == i,
            forall|j: int| 0 <= j < i ==> (#[trigger] ids@[j])@ == probes@[j].0@,
            forall|j: int|
                0 <= j < i ==> (#[trigger] found@[j]).0@ == probes@[j].0@ && found@[j].1@
                    == shown[j],
        decreases probes@.len() - i,
    {
        let (machine, outcome) = &probes[i];
        assert(f(i as int) == match outcome_shows(machine@, *outcome) {
            Ok(_) => None,
            Err(text) => Some(text),
        });
        match probe_machine(machine.as_str(), outcome) {
            Ok(plan) => {
                found.push((machine.clone(), plan));
                ids.push(machine.clone());
            },
            Err(error) => {
                proof {
                    lemma_first_some_stays((i + 1) as nat, probes@.len(), f);
                }
                return Err(error);
            },
        }
        i += 1;
    }
    proof {
        assert(machines_of(found@) =~= shown);
        assert(texts(ids@) =~= probed_ids(probes@));
    }
    match select_interface(found.as_slice()) {
        None => Err(
            NetworkResolutionError::NoCommonInterface { machines: join(ids.as_slice(), ", ") },
        ),
        Some((selected_interface, reason)) => {
            let machines = tabulate_machines(found, Ghost(probed_ids(probes@)));
            Ok(Some(NetworkPlan { selected_interface, reason, machines }))
        },
    }
}

// ---------------------------------------------------------------------------
// Laws

/// What is common is in every list.
proof fn lemma_common_is_everywhere(lists: Seq<Seq<Seq<char>>>)
    ensures
        first_common(lists) matches Some(value) ==> forall|k: int|
            0 <= k < lists.len() ==> (#[trigger] lists[k]).contains(value),
{
    if lists.len() > 0 {
        lemma_first_index(lists[0].len(), is_common(lists));
        if let Some(i) = first_index(lists[0].len(), is_common(lists)) {
            assert(lists[0].contains(lists[0][i]));
        }
    }
}

/// Where a value is in every list, something is found common.
proof fn lemma_common_is_found(lists: Seq<Seq<Seq<char>>>, value: Seq<char>)
    requires
        lists.len() > 0,
        forall|k: int| 0 <= k < lists.len() ==> (#[trigger] lists[k]).contains(value),
    ensures
        first_common(lists) is Some,
{
    let p = is_common(lists);
    lemma_first_index(lists[0].len(), p);
    assert(lists[0].contains(value));
    let i = choose|i: int| 0 <= i < lists[0].len() && lists[0][i] == value;
    assert(p(i));
}

proof fn lemma_usable_links(links: Seq<(Seq<char>, Seq<char>)>, candidates: Seq<Seq<char>>)
    ensures
        forall|v: Seq<char>| #[trigger]
            usable_links(links, candidates).contains(v) ==> candidates.contains(v),
    decreases links.len(),
{
    if links.len() > 0 {
        lemma_usable_links(links.drop_last(), candidates);
        let rest = usable_links(links.drop_last(), candidates);
        let whole = usable_links(links, candidates);
        assert forall|v: Seq<char>| #[trigger] whole.contains(v) implies candidates.contains(v) by {
            let i = choose|i: int| 0 <= i < whole.len() && whole[i] == v;
            if i < rest.len() {
                assert(rest[i] == v);
                assert(rest.contains(v));
            }
        }
    }
}

/// The selected interface can carry communication on every machine.
pub proof fn law_selected_interface_is_routable_everywhere(machines: Seq<Machine>)
    ensures
        shared_interface(machines) matches Some((interface, _)) ==> forall|k: int|
            0 <= k < machines.len() ==> (#[trigger] machines[k]).candidates.contains(interface),
{
    lemma_common_is_everywhere(rdma_routes(machines));
    lemma_common_is_everywhere(rdma_lists(machines));
    lemma_common_is_everywhere(route_lists(machines));
    lemma_common_is_everywhere(candidate_lists(machines));
    if let Some((interface, reason)) = shared_interface(machines) {
        assert forall|k: int| 0 <= k < machines.len() implies (
        #[trigger] machines[k]).candidates.contains(interface) by {
            lemma_usable_links(machines[k].rdma, machines[k].candidates);
            assert(rdma_routes(machines)[k] == machines[k].rdma_route());
            assert(rdma_lists(machines)[k] == machines[k].usable_rdma());
            assert(route_lists(machines)[k] == machines[k].usable_route());
            assert(candidate_lists(machines)[k] == machines[k].candidates);
        }
    }
}

/// Where the machines share any interface that can carry communication, one is
/// selected.
pub proof fn law_a_shared_candidate_is_enough(machines: Seq<Machine>, interface: Seq<char>)
    requires
        machines.len() > 0,
        forall|k: int|
            0 <= k < machines.len() ==> (#[trigger] machines[k]).candidates.contains(interface),
    ensures
        shared_interface(machines) is Some,
{
    let lists = candidate_lists(machines);
    assert forall|k: int| 0 <= k < lists.len() implies (#[trigger] lists[k]).contains(interface) by {
        assert(machines[k].candidates.contains(interface));
    }
    lemma_common_is_found(lists, interface);
}

/// An RDMA link that the machines share wins over a default route without one.
pub proof fn law_rdma_wins_over_a_plain_route(machines: Seq<Machine>, interface: Seq<char>)
    requires
        machines.len() > 0,
        forall|k: int|
            0 <= k < machines.len() ==> (#[trigger] machines[k]).usable_rdma().contains(interface),
    ensures
        shared_interface(machines) matches Some((_, reason)) && (reason is Rdma
            || reason is RdmaDefaultRoute),
{
    let lists = rdma_lists(machines);
    assert forall|k: int| 0 <= k < lists.len() implies (#[trigger] lists[k]).contains(interface) by {
        assert(machines[k].usable_rdma().contains(interface));
    }
    lemma_common_is_found(lists, interface);
}

/// The interface that is selected is what the reason says on every machine: the default
/// route and an RDMA link, an RDMA link, the default route, or one that can carry
/// communication.
pub proof fn law_selected_interface_is_what_its_reason_says(
    machines: Seq<Machine>,
    interface: Seq<char>,
    reason: NetworkSelectionReason,
    k: int,
)
    requires
        shared_interface(machines) == Some((interface, reason)),
        0 <= k < machines.len(),
    ensures
        machines[k].candidates.contains(interface),
        reason == NetworkSelectionReason::RdmaDefaultRoute ==> machines[k].route == Some(interface)
            && exists|i: int|
            0 <= i < machines[k].rdma.len() && (#[trigger] machines[k].rdma[i]).0 == interface,
        reason == NetworkSelectionReason::Rdma ==> exists|i: int|
            0 <= i < machines[k].rdma.len() && (#[trigger] machines[k].rdma[i]).0 == interface,
        reason == NetworkSelectionReason::DefaultRoute ==> machines[k].route == Some(interface),
{
    law_selected_interface_is_routable_everywhere(machines);
    let lists = match reason {
        NetworkSelectionReason::RdmaDefaultRoute => rdma_routes(machines),
        NetworkSelectionReason::Rdma => rdma_lists(machines),
        NetworkSelectionReason::DefaultRoute => route_lists(machines),
        _ => candidate_lists(machines),
    };
    assert(first_common(lists) == Some(interface));
    lemma_common_is_in_each(lists, interface, k);
    if reason == NetworkSelectionReason::RdmaDefaultRoute {
        assert(lists[k] == machines[k].rdma_route());
    } else if reason == NetworkSelectionReason::Rdma {
        assert(lists[k] == machines[k].usable_rdma());
        lemma_usable_is_linked(machines[k].rdma, machines[k].candidates, interface);
    } else if reason == NetworkSelectionReason::DefaultRoute {
        assert(lists[k] == machines[k].usable_route());
    }
}

proof fn lemma_common_is_in_each(lists: Seq<Seq<Seq<char>>>, value: Seq<char>, k: int)
    requires
        first_common(lists) == Some(value),
        0 <= k < lists.len(),
    ensures
        lists[k].contains(value),
{
    lemma_first_index(lists[0].len(), is_common(lists));
    let i = first_index(lists[0].len(), is_common(lists))->0;
    assert(is_common(lists)(i));
    assert(lists[0][i] == value);
}

proof fn lemma_usable_is_linked(
    links: Seq<(Seq<char>, Seq<char>)>,
    candidates: Seq<Seq<char>>,
    interface: Seq<char>,
)
    ensures
        usable_links(links, candidates).contains(interface) <==> linked(links, interface)
            && candidates.contains(interface),
    decreases links.len(),
{
    if links.len() > 0 {
        let fewer = links.drop_last();
        let before = usable_links(fewer, candidates);
        let all = usable_links(links, candidates);
        let last = links[links.len() - 1].0;
        lemma_usable_is_linked(fewer, candidates, interface);
        if linked(fewer, interface) {
            let i = choose|i: int| 0 <= i < fewer.len() && (#[trigger] fewer[i]).0 == interface;
            assert(links[i].0 == interface);
        }
        if linked(links, interface) {
            let i = choose|i: int| 0 <= i < links.len() && (#[trigger] links[i]).0 == interface;
            if i < fewer.len() {
                assert(fewer[i].0 == interface);
            }
        }
        if before.contains(interface) {
            let i = choose|i: int| 0 <= i < before.len() && before[i] == interface;
            assert(all[i] == interface);
        }
        if candidates.contains(last) {
            assert(all[before.len() as int] == last);
            if all.contains(interface) {
                let i = choose|i: int| 0 <= i < all.len() && all[i] == interface;
                if i < before.len() {
                    assert(before[i] == interface);
                }
            }
        }
    }
}

/// An RDMA link that is the default route everywhere is preferred to any other
/// interface, any shared RDMA link to one without, and a shared default route to one
/// that is none.
pub proof fn law_rdma_and_default_routes_are_preferred(machines: Seq<Machine>, interface: Seq<char>)
    requires
        machines.len() > 0,
        forall|k: int|
            0 <= k < machines.len() ==> (#[trigger] machines[k]).candidates.contains(interface),
    ensures
        shared_interface(machines) matches Some((_, reason)) && {
            let routed = forall|k: int|
                0 <= k < machines.len() ==> (#[trigger] machines[k]).route == Some(interface);
            let with_rdma = forall|k: int|
                0 <= k < machines.len() ==> linked((#[trigger] machines[k]).rdma, interface);
            &&& routed && with_rdma ==> reason == NetworkSelectionReason::RdmaDefaultRoute
            &&& with_rdma ==> reason == NetworkSelectionReason::RdmaDefaultRoute || reason
                == NetworkSelectionReason::Rdma
            &&& routed ==> reason != NetworkSelectionReason::Routable
        },
{
    law_a_shared_candidate_is_enough(machines, interface);
    let routed = forall|k: int|
        0 <= k < machines.len() ==> (#[trigger] machines[k]).route == Some(interface);
    let with_rdma = forall|k: int|
        0 <= k < machines.len() ==> linked((#[trigger] machines[k]).rdma, interface);
    if routed && with_rdma {
        let lists = rdma_routes(machines);
        assert forall|k: int| 0 <= k < lists.len() implies (#[trigger] lists[k]).contains(
            interface,
        ) by {
            assert(machines[k].route == Some(interface));
            assert(linked(machines[k].rdma, interface));
            assert(machines[k].candidates.contains(interface));
            assert(lists[k][0] == interface);
        }
        lemma_common_is_found(lists, interface);
    }
    if with_rdma {
        let lists = rdma_lists(machines);
        assert forall|k: int| 0 <= k < lists.len() implies (#[trigger] lists[k]).contains(
            interface,
        ) by {
            assert(linked(machines[k].rdma, interface));
            assert(machines[k].candidates.contains(interface));
            lemma_usable_is_linked(machines[k].rdma, machines[k].candidates, interface);
        }
        lemma_common_is_found(lists, interface);
    }
    if routed {
        let lists = route_lists(machines);
        assert forall|k: int| 0 <= k < lists.len() implies (#[trigger] lists[k]).contains(
            interface,
        ) by {
            assert(machines[k].route == Some(interface));
            assert(machines[k].candidates.contains(interface));
            assert(lists[k][0] == interface);
        }
        lemma_common_is_found(lists, interface);
    }
}

/// The candidates of a machine are exactly its interfaces that can carry communication.
pub proof fn law_candidates_are_the_routable_interfaces(
    addresses: Seq<(Seq<char>, Seq<Seq<char>>)>,
    interface: Seq<char>,
)
    ensures
        routable_interfaces(addresses).contains(interface) <==> exists|i: int|
            0 <= i < addresses.len() && (#[trigger] addresses[i]).0 == interface && routable(
                interface,
                addresses[i].1,
            ),
    decreases addresses.len(),
{
    if addresses.len() > 0 {
        let fewer = addresses.drop_last();
        let before = routable_interfaces(fewer);
        let all = routable_interfaces(addresses);
        let last = addresses[addresses.len() - 1];
        law_candidates_are_the_routable_interfaces(fewer, interface);
        if before.contains(interface) {
            let k = choose|k: int| 0 <= k < before.len() && before[k] == interface;
            assert(all[k] == interface);
            let i = choose|i: int|
                0 <= i < fewer.len() && (#[trigger] fewer[i]).0 == interface && routable(
                    interface,
                    fewer[i].1,
                );
            assert(addresses[i] == fewer[i]);
        }
        if all.contains(interface) && !before.contains(interface) {
            let k = choose|k: int| 0 <= k < all.len() && all[k] == interface;
            if k < before.len() {
                assert(before[k] == interface);
            }
            assert(addresses[addresses.len() - 1].0 == interface);
        }
        if exists|i: int|
            0 <= i < addresses.len() && (#[trigger] addresses[i]).0 == interface && routable(
                interface,
                addresses[i].1,
            ) {
            let i = choose|i: int|
                0 <= i < addresses.len() && (#[trigger] addresses[i]).0 == interface && routable(
                    interface,
                    addresses[i].1,
                );
            if i < fewer.len() {
                assert(fewer[i] == addresses[i]);
            } else {
                assert(all[before.len() as int] == interface);
            }
        }
    }
}

/// An address of four numbers is read as these numbers, and no interface with a
/// loopback, link-local, multicast or unspecified one can carry communication, nor one
/// that never leaves its machine.
pub proof fn law_local_addresses_carry_nothing(
    interface: Seq<char>,
    addresses: Seq<Seq<char>>,
    i: int,
    a: nat,
    b: nat,
    c: nat,
    d: nat,
)
    requires
        0 <= i < addresses.len(),
        a <= 255 && b <= 255 && c <= 255 && d <= 255,
        addresses[i] == joined(seq![decimal(a), decimal(b), decimal(c), decimal(d)], seq!['.']),
    ensures
        ipv4(addresses[i]) == Some((a, b, c, d)),
        host_part(addresses[i]) == addresses[i],
        routable(interface, addresses) ==> {
            &&& a != 127
            &&& !(a == 169 && b == 254)
            &&& !(224 <= a <= 239)
            &&& !(a == 0 && b == 0 && c == 0 && d == 0)
            &&& !(a == 255 && b == 255 && c == 255 && d == 255)
            &&& interface != "lo"@
            &&& !starts(interface, "docker"@)
            &&& !starts(interface, "veth"@)
            &&& !starts(interface, "br-"@)
            &&& !starts(interface, "virbr"@)
        },
        addresses.len() == 1 && interface == "eth0"@ && 1 <= a <= 126 ==> routable(
            interface,
            addresses,
        ),
{
    let parts = seq![decimal(a), decimal(b), decimal(c), decimal(d)];
    lemma_octet(a);
    lemma_octet(b);
    lemma_octet(c);
    lemma_octet(d);
    assert forall|k: int| 0 <= k < parts.len() implies !(#[trigger] parts[k]).contains('.') by {
        if parts[k].contains('.') {
            let j = choose|j: int| 0 <= j < parts[k].len() && parts[k][j] == '.';
            assert(crate::text::digit(parts[k][j]));
        }
    }
    crate::text::law_split_undoes_join(parts, '.');
    let text = addresses[i];
    lemma_position(text, '/');
    if text.contains('/') {
        let k = choose|k: int| 0 <= k < text.len() && text[k] == '/';
        lemma_joined_chars(parts, k);
    }
    assert(host_part(text) =~= text);
    if interface == "eth0"@ {
        reveal_strlit("eth0");
        reveal_strlit("lo");
        reveal_strlit("br-");
        reveal_strlit("docker");
        reveal_strlit("veth");
        reveal_strlit("virbr");
        assert(interface.len() == 4 && "lo"@.len() == 2);
        assert(interface[0] == 'e');
        if starts(interface, "br-"@) {
            assert(interface.take(3)[0] == 'b');
        }
        if starts(interface, "veth"@) {
            assert(interface.take(4)[0] == 'v');
        }
    }
}

proof fn lemma_octet(n: nat)
    requires
        n <= 255,
    ensures
        octet(decimal(n)) == Some(n),
        all_digits(decimal(n)),
{
    crate::text::law_decimal_reads_back(n);
    if n < 10 {
        assert(decimal(n).len() == 1);
    } else if n < 100 {
        assert(decimal(n / 10).len() == 1);
        assert(decimal(n)[0] == crate::text::digit_char(n / 10));
        assert(decimal(n).len() == 2);
    } else {
        assert((n / 10) / 10 < 10 && (n / 10) / 10 > 0);
        assert(decimal((n / 10) / 10).len() == 1);
        assert(decimal(n / 10).len() == 2);
        assert(decimal(n / 10)[0] == crate::text::digit_char((n / 10) / 10));
        assert(decimal(n)[0] == decimal(n / 10)[0]);
        assert(decimal(n).len() == 3);
    }
}

/// A character of joined digit strings is a digit or the separator.
proof fn lemma_joined_chars(parts: Seq<Seq<char>>, k: int)
    requires
        forall|i: int| 0 <= i < parts.len() ==> all_digits(#[trigger] parts[i]),
        0 <= k < joined(parts, seq!['.']).len(),
    ensures
        joined(parts, seq!['.'])[k] == '.' || crate::text::digit(joined(parts, seq!['.'])[k]),
    decreases parts.len(),
{
    let all = joined(parts, seq!['.']);
    if parts.len() == 1 {
        assert(all_digits(parts[0]));
        assert(crate::text::digit(parts[0][k]));
    } else if parts.len() > 1 {
        let fewer = parts.drop_last();
        assert forall|i: int| 0 <= i < fewer.len() implies all_digits(#[trigger] fewer[i]) by {
            assert(fewer[i] == parts[i]);
        }
        let before = joined(fewer, seq!['.']);
        if k < before.len() {
            lemma_joined_chars(fewer, k);
        } else if k > before.len() {
            assert(all_digits(parts[parts.len() - 1]));
            assert(all[k] == parts.last()[k - before.len() - 1]);
            assert(crate::text::digit(parts.last()[k - before.len() - 1]));
        }
    }
}

/// The machines of processes are probed each once, at the first process on it.
pub proof fn law_each_machine_is_probed_once(machines: Seq<Seq<char>>, i: int)
    requires
        0 <= i < machines.len(),
    ensures
        ({
            let places = first_places(machines);
            &&& forall|a: int, b: int|
                0 <= a < b < places.len() ==> machines[#[trigger] places[a]]
                    != machines[#[trigger] places[b]]
            &&& forall|a: int|
                0 <= a < places.len() ==> 0 <= (#[trigger] places[a]) < machines.len()
            &&& exists|a: int|
                0 <= a < places.len() && 0 <= (#[trigger] places[a]) <= i && machines[places[a]]
                    == machines[i]
        }),
    decreases machines.len(),
{
    let front = machines.drop_last();
    let last = machines[machines.len() - 1];
    let before = first_places(front);
    let places = first_places(machines);
    if front.len() > 0 {
        law_each_machine_is_probed_once(
            front,
            if i < front.len() {
                i
            } else {
                0
            },
        );
    }
    assert forall|a: int| 0 <= a < before.len() implies 0 <= (#[trigger] before[a]) < front.len()
        && front[before[a]] == machines[before[a]] by {
    }
    if front.contains(last) {
        if i == front.len() {
            let k = choose|k: int| 0 <= k < front.len() && front[k] == last;
            law_each_machine_is_probed_once(front, k);
            let a = choose|a: int|
                0 <= a < before.len() && 0 <= (#[trigger] before[a]) <= k && front[before[a]]
                    == front[k];
            assert(machines[places[a]] == machines[i]);
        } else {
            let a = choose|a: int|
                0 <= a < before.len() && 0 <= (#[trigger] before[a]) <= i && front[before[a]]
                    == front[i];
            assert(machines[places[a]] == machines[i]);
        }
    } else {
        assert(places[before.len() as int] == machines.len() - 1);
        assert forall|a: int, b: int| 0 <= a < b < places.len() implies machines[
        #[trigger] places[a]] != machines[#[trigger] places[b]] by {
            assert(places[a] == before[a]);
            if b == before.len() {
                assert(front[before[a]] == machines[places[a]]);
                assert(front.contains(machines[places[a]]));
            } else {
                assert(places[b] == before[b]);
            }
        }
        if i < front.len() {
            let a = choose|a: int|
                0 <= a < before.len() && 0 <= (#[trigger] before[a]) <= i && front[before[a]]
                    == front[i];
            assert(places[a] == before[a]);
            assert(machines[places[a]] == machines[i]);
        } else {
            assert(machines[places[before.len() as int]] == machines[i]);
        }
    }
}

/// A line of evidence adds what it says and leaves the rest: an address to those of its
/// interface, behind those that were there, a link to the links, and the route.
pub proof fn law_line_adds_what_it_says(
    evidence: Evidence,
    interface: Seq<char>,
    value: Seq<char>,
)
    requires
        interface.len() > 0,
        value.len() > 0,
        !interface.contains('\t'),
        !value.contains('\t'),
    ensures
        with_line(evidence, joined(seq!["ROUTE"@, interface], seq!['\t'])) == Ok::<
            Evidence,
            Seq<char>,
        >(Evidence { saw_route: true, route: Some(interface), ..evidence }),
        with_line(evidence, joined(seq!["RDMA"@, interface, value], seq!['\t'])) == Ok::<
            Evidence,
            Seq<char>,
        >(Evidence { rdma: evidence.rdma.push((interface, value)), ..evidence }),
        with_line(evidence, joined(seq!["ADDR"@, interface, value], seq!['\t'])) matches Ok(after) && {
            let at = interface_place(evidence.addresses, interface);
            &&& after.route == evidence.route && after.rdma == evidence.rdma && after.saw_route
                == evidence.saw_route
            &&& 0 <= at < after.addresses.len()
            &&& after.addresses[at].0 == interface
            &&& after.addresses[at].1.last() == value
            &&& at < evidence.addresses.len() ==> after.addresses[at].1.drop_last()
                == evidence.addresses[at].1
            &&& at >= evidence.addresses.len() ==> after.addresses[at].1.len() == 1
            &&& forall|j: int|
                0 <= j < evidence.addresses.len() && j != at ==> #[trigger] after.addresses[j]
                    == evidence.addresses[j]
        },
{
    reveal_strlit("ROUTE");
    reveal_strlit("RDMA");
    reveal_strlit("ADDR");
    assert("ROUTE"@.len() == 5 && "RDMA"@.len() == 4 && "ADDR"@.len() == 4);
    assert("RDMA"@[0] == 'R' && "ADDR"@[0] == 'A');
    assert(!"ROUTE"@.contains('\t') && !"RDMA"@.contains('\t') && !"ADDR"@.contains('\t'));
    crate::text::law_split_undoes_join(seq!["ROUTE"@, interface], '\t');
    crate::text::law_split_undoes_join(seq!["RDMA"@, interface, value], '\t');
    crate::text::law_split_undoes_join(seq!["ADDR"@, interface, value], '\t');
    lemma_interface_place(evidence.addresses, interface);
    let at = interface_place(evidence.addresses, interface);
    let after = with_address(evidence.addresses, interface, value);
    if at < evidence.addresses.len() {
        assert(after[at].1.drop_last() =~= evidence.addresses[at].1);
    }
}

/// A probe of a network shows something exactly where it ran and succeeded with a text that
/// can be read and that tells of a route.
pub proof fn law_only_a_successful_probe_shows_a_network(machine: Seq<char>, outcome: ProbeOutcome)
    ensures
        outcome_shows(machine, outcome) is Ok <==> (outcome matches ProbeOutcome::Ran { output }
            && output.success && valid_utf8(output.stdout@) && (lines_show(
            text_lines(decode_utf8(output.stdout@)),
        ) matches Ok(evidence) && evidence.saw_route)),
        outcome_shows(machine, outcome) matches Ok(shown) ==> {
            let evidence = lines_show(
                text_lines(decode_utf8(outcome->output.stdout@)),
            )->Ok_0;
            shown.route == evidence.route && shown.rdma == evidence.rdma
        },
{
}

/// The last addresses of an interface count, and those of another change nothing.
pub proof fn law_last_addresses_of_an_interface_count(
    list: Seq<(Seq<char>, Seq<Seq<char>>)>,
    interface: Seq<char>,
    addresses: Seq<Seq<char>>,
    other: Seq<char>,
)
    ensures
        ({
            let after = address_table(list.push((interface, addresses)));
            &&& after.dom().contains(interface) && after[interface] == addresses
            &&& other != interface ==> (after.dom().contains(other) <==> address_table(
                list,
            ).dom().contains(other))
            &&& other != interface && after.dom().contains(other) ==> after[other]
                == address_table(list)[other]
        }),
{
    assert(list.push((interface, addresses)).drop_last() =~= list);
}

/// Each machine is held with what it showed itself.
pub proof fn law_machine_is_held_with_what_it_showed(
    ids: Seq<Seq<char>>,
    shown: Seq<Machine>,
    i: int,
)
    requires
        0 <= i < ids.len() <= shown.len(),
        forall|a: int, b: int|
            0 <= a < b < ids.len() ==> #[trigger] ids[a] != #[trigger] ids[b],
    ensures
        machine_table(ids, shown).dom().contains(ids[i]),
        machine_table(ids, shown)[ids[i]] == shown[i],
    decreases ids.len(),
{
    if i < ids.len() - 1 {
        let fewer = ids.drop_last();
        assert forall|a: int, b: int| 0 <= a < b < fewer.len() implies #[trigger] fewer[a]
            != #[trigger] fewer[b] by {
            assert(ids[a] != ids[b]);
        }
        law_machine_is_held_with_what_it_showed(fewer, shown, i);
        assert(ids[i] != ids[ids.len() - 1]);
    }
}

/// Processes on one machine need no network. Processes on several have one exactly where
/// every probe shows its machine and the machines share an interface, which is then
/// selected; the plan holds each machine with what its own probe showed.
pub proof fn law_network_is_what_the_machines_share(
    r: Result<Option<NetworkPlan>, NetworkResolutionError>,
    machines: Seq<Seq<char>>,
    probes: Seq<(String, ProbeOutcome)>,
    i: int,
)
    requires
        network_told(r, machines, probes),
        0 <= i < probes.len(),
        forall|a: int, b: int|
            0 <= a < b < probes.len() ==> (#[trigger] probes[a]).0@ != (#[trigger] probes[b]).0@,
    ensures
        r matches Ok(None) <==> first_places(machines).len() <= 1,
        r matches Ok(Some(plan)) ==> {
            &&& outcome_shows(probes[i].0@, probes[i].1) matches Ok(shown)
            &&& plan.machines.at(probes[i].0@) matches Some(held)
            &&& held@ == shown
            &&& shared_interface(shown_machines(probes)) == Some(
                (plan.selected_interface@, plan.reason),
            )
        },
{
    let f = probe_faults(probes);
    crate::search::lemma_first_some_none(probes.len(), f);
    if r matches Ok(Some(_)) {
        let plan = r->Ok_0->Some_0;
        assert(f(i) is None);
        let ids = probed_ids(probes);
        let shown = shown_machines(probes);
        assert forall|a: int, b: int| 0 <= a < b < ids.len() implies #[trigger] ids[a]
            != #[trigger] ids[b] by {
            assert(probes[a].0@ != probes[b].0@);
        }
        law_machine_is_held_with_what_it_showed(ids, shown, i);
        let table = machines_by_name(plan.machines.entries@);
        assert(table.dom().contains(ids[i]));
        assert(table[ids[i]] == shown[i]);
    }
}

/// Of the values that all lists hold, the earliest of the first list is taken.
pub proof fn law_earliest_common_value_is_taken(lists: Seq<Seq<Seq<char>>>, i: int)
    requires
        lists.len() > 0,
        0 <= i < lists[0].len(),
        forall|k: int| 1 <= k < lists.len() ==> (#[trigger] lists[k]).contains(lists[0][i]),
        forall|j: int|
            0 <= j < i ==> exists|k: int|
                1 <= k < lists.len() && !(#[trigger] lists[k]).contains(#[trigger] lists[0][j]),
    ensures
        first_common(lists) == Some(lists[0][i]),
{
    let p = is_common(lists);
    assert(p(i));
    assert forall|j: int| 0 <= j < i implies !(#[trigger] p(j)) by {
        assert(lists[0][j] == lists[0][j]);
    }
    crate::search::lemma_first_index_is(lists[0].len(), p, i);
}

} // verus!
