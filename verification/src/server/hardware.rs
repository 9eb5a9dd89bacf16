//! Device hardware of a machine: the probe before a launch, and the devices that
//! it must cover.

use crate::process_group::CommandOutput;
use crate::text::{
    after_prefix, all_digits, cat2, cat3, cat4, cat6, debug, debug_text, decimal, decimal_value,
    decimals, decode_lossy, digit, join_numbers, joined, law_decimal_is_parsed_back,
    law_decimal_reads_back, law_split_undoes_join, lines, lossy_text, number_error, number_list, parse_u32, parse_u64, parsed_unsigned,
    show_numbers, small_number_error, split_at, split_on, split_text, strip_prefix, text_lines, text_of,
    texts, trim, trimmed,
};
use vstd::prelude::*;
use vstd::string::*;

verus! {

/// What a row of the probe begins with.
pub const HARDWARE_MARKER: &'static str = "INFERLAB_HARDWARE\t";

/// A device of a machine.
#[derive(Debug)]
pub struct DeviceHardwareEvidence {
    pub index: u32,
    pub model: String,
    pub memory_total_mib: u64,
    pub uuid: String,
}

/// The devices assigned to serving processes on a machine.
#[derive(Debug)]
pub struct MachineHardwareEvidence {
    pub driver_version: String,
    pub devices: Vec<DeviceHardwareEvidence>,
}

/// What a device shows.
pub struct Device {
    pub index: u32,
    pub model: Seq<char>,
    pub memory: nat,
    pub uuid: Seq<char>,
}

impl View for DeviceHardwareEvidence {
    type V = Device;

    open spec fn view(&self) -> Device {
        Device {
            index: self.index,
            model: self.model@,
            memory: self.memory_total_mib as nat,
            uuid: self.uuid@,
        }
    }
}

/// What devices show.
pub open spec fn devices_of(list: Seq<DeviceHardwareEvidence>) -> Seq<Device> {
    Seq::new(list.len(), |i: int| list[i]@)
}

/// The indices of devices.
pub open spec fn indices_of(list: Seq<Device>) -> Seq<u32> {
    Seq::new(list.len(), |i: int| list[i].index)
}

/// The part of the script that selects devices.
pub open spec fn device_selection(devices: Seq<u32>) -> Seq<char> {
    if devices.len() == 0 {
        Seq::empty()
    } else {
        " -i "@ + joined(decimals(devices), ","@)
    }
}

/// The script of the probe.
pub open spec fn nvidia_smi_text(devices: Seq<u32>) -> Seq<char> {
    "set -eu; out=$(nvidia-smi"@ + device_selection(devices)
        + " --query-gpu=index,name,memory.total,uuid,driver_version --format=csv,noheader,nounits); printf '%s\\n' \"$out\" | while IFS= read -r line; do printf 'INFERLAB_HARDWARE\\t%s\\n' \"$line\"; done"@
}

/// The script of the probe, for both launch paths: the command substitution keeps
/// the exit status of the tool, and the marker keeps login banners out of the
/// rows.
pub fn nvidia_smi_script(devices: &[u32]) -> (r: String)
    ensures
        r@ == nvidia_smi_text(devices@),
{
    let select = if devices.len() == 0 {
        String::new()
    } else {
        cat2(" -i ", join_numbers(devices, ",").as_str())
    };
    assert(select@ =~= device_selection(devices@));
    cat3(
        "set -eu; out=$(nvidia-smi",
        select.as_str(),
        " --query-gpu=index,name,memory.total,uuid,driver_version --format=csv,noheader,nounits); printf '%s\\n' \"$out\" | while IFS= read -r line; do printf 'INFERLAB_HARDWARE\\t%s\\n' \"$line\"; done",
    )
}

/// The device of a row with its driver, or the text of the refusal.
pub open spec fn row_device(machine: Seq<char>, row: Seq<char>) -> Result<
    (Device, Seq<char>),
    Seq<char>,
> {
    let fields = split_at(row, ", "@);
    if fields.len() != 5 {
        Err(
            "machine "@ + debug_text(machine) + " returned an unexpected probe row "@ + debug_text(
                row,
            ),
        )
    } else {
        match parsed_unsigned(trimmed(fields[0]), u32::MAX as nat) {
            None => Err(
                "machine "@ + debug_text(machine) + " probe row index "@ + debug_text(fields[0])
                    + ": "@ + small_number_error(trimmed(fields[0])),
            ),
            Some(index) => match parsed_unsigned(trimmed(fields[2]), u64::MAX as nat) {
                None => Err(
                    "machine "@ + debug_text(machine) + " probe row memory "@ + debug_text(
                        fields[2],
                    ) + ": "@ + number_error(trimmed(fields[2])),
                ),
                Some(memory) => Ok(
                    (
                        Device {
                            index: index as u32,
                            model: trimmed(fields[1]),
                            memory,
                            uuid: trimmed(fields[3]),
                        },
                        trimmed(fields[4]),
                    ),
                ),
            },
        }
    }
}

fn read_row(machine: &str, row: &str) -> (r: Result<(DeviceHardwareEvidence, String), String>)
    ensures
        match row_device(machine@, row@) {
            Ok((device, driver)) => r matches Ok(found) && found.0@ == device && found.1@ == driver,
            Err(text) => r matches Err(found) && found@ == text,
        },
{
    proof {
        reveal_strlit(", ");
    }
    let fields = split_text(row, ", ");
    assert(texts(fields@).len() == fields@.len());
    if fields.len() != 5 {
        return Err(
            cat4(
                "machine ",
                debug(machine).as_str(),
                " returned an unexpected probe row ",
                debug(row).as_str(),
            ),
        );
    }
    assert(forall|i: int| 0 <= i < 5 ==> texts(fields@)[i] == (#[trigger] fields@[i])@);
    let index: u32 = match parse_u32(trim(fields[0].as_str())) {
        Ok(index) => index,
        Err(source) => return Err(
            cat6(
                "machine ",
                debug(machine).as_str(),
                " probe row index ",
                debug(fields[0].as_str()).as_str(),
                ": ",
                source.as_str(),
            ),
        ),
    };
    let memory: u64 = match parse_u64(trim(fields[2].as_str())) {
        Ok(memory) => memory,
        Err(source) => return Err(
            cat6(
                "machine ",
                debug(machine).as_str(),
                " probe row memory ",
                debug(fields[2].as_str()).as_str(),
                ": ",
                source.as_str(),
            ),
        ),
    };
    Ok(
        (
            DeviceHardwareEvidence {
                index,
                model: trim(fields[1].as_str()).to_owned(),
                memory_total_mib: memory,
                uuid: trim(fields[3].as_str()).to_owned(),
            },
            trim(fields[4].as_str()).to_owned(),
        ),
    )
}

// ---------------------------------------------------------------------------
// Order

/// How many leading devices have an index no greater.
pub open spec fn device_place(devices: Seq<Device>, index: u32) -> int
    decreases devices.len(),
{
    if devices.len() == 0 || devices[0].index > index {
        0
    } else {
        1 + device_place(devices.skip(1), index)
    }
}

/// The devices with one more, behind those with an index no greater.
pub open spec fn with_device(devices: Seq<Device>, device: Device) -> Seq<Device> {
    devices.insert(device_place(devices, device.index), device)
}

fn add_device(list: Vec<DeviceHardwareEvidence>, device: DeviceHardwareEvidence) -> (r: Vec<
    DeviceHardwareEvidence,
>)
    ensures
        devices_of(r@) == with_device(devices_of(list@), device@),
{
    let ghost start = devices_of(list@);
    let ghost added = device@;
    let mut out = list;
    let mut i: usize = 0;
    assert(start.skip(0) =~= start);
    while i < out.len() && out[i].index <= device.index
        invariant
            i <= out@.len(),
            out == list,
            start == devices_of(list@),
            device_place(start, device.index) == i + device_place(
                start.skip(i as int),
                device.index,
            ),
        decreases out@.len() - i,
    {
        assert(start.skip(i as int)[0] == out@[i as int]@);
        assert(start.skip(i as int).skip(1) =~= start.skip(i + 1));
        i += 1;
    }
    if i < out.len() {
        assert(start.skip(i as int)[0] == out@[i as int]@);
    }
    out.insert(i, device);
    assert(devices_of(out@) =~= start.insert(i as int, added));
    out
}

/// How many leading numbers are smaller.
pub open spec fn number_place(numbers: Seq<u32>, n: u32) -> int
    decreases numbers.len(),
{
    if numbers.len() == 0 || numbers[0] >= n {
        0
    } else {
        1 + number_place(numbers.skip(1), n)
    }
}

/// The numbers in order, each once.
pub open spec fn sorted_unique(numbers: Seq<u32>) -> Seq<u32>
    decreases numbers.len(),
{
    if numbers.len() == 0 {
        Seq::empty()
    } else {
        let rest = sorted_unique(numbers.drop_last());
        let last = numbers[numbers.len() - 1];
        let at = number_place(rest, last);
        if at < rest.len() && rest[at] == last {
            rest
        } else {
            rest.insert(at, last)
        }
    }
}

/// The numbers in order, each once.
pub fn sort_unique(numbers: &[u32]) -> (r: Vec<u32>)
    ensures
        r@ == sorted_unique(numbers@),
{
    let mut out: Vec<u32> = Vec::new();
    let mut i: usize = 0;
    assert(numbers@.take(0) =~= Seq::<u32>::empty());
    while i < numbers.len()
        invariant
            i <= numbers@.len(),
            out@ == sorted_unique(numbers@.take(i as int)),
        decreases numbers@.len() - i,
    {
        let n: u32 = numbers[i];
        let ghost before = out@;
        proof {
            assert(numbers@.take(i + 1).drop_last() =~= numbers@.take(i as int));
            assert(numbers@.take(i + 1)[i as int] == n);
            assert(before.skip(0) =~= before);
        }
        let mut at: usize = 0;
        while at < out.len() && out[at] < n
            invariant
                at <= out@.len(),
                out@ == before,
                number_place(before, n) == at + number_place(before.skip(at as int), n),
            decreases out@.len() - at,
        {
            assert(before.skip(at as int)[0] == before[at as int]);
            assert(before.skip(at as int).skip(1) =~= before.skip(at + 1));
            at += 1;
        }
        if at < out.len() {
            assert(before.skip(at as int)[0] == before[at as int]);
        }
        assert(number_place(before, n) == at);
        if !(at < out.len() && out[at] == n) {
            out.insert(at, n);
        }
        i += 1;
    }
    assert(numbers@.take(numbers@.len() as int) =~= numbers@);
    out
}

// ---------------------------------------------------------------------------
// Evidence

/// The devices of marked rows in the order of their indices, with the driver of
/// the first row; other rows are passed over.
pub open spec fn rows_show(machine: Seq<char>, rows: Seq<Seq<char>>) -> Result<
    (Seq<Device>, Option<Seq<char>>),
    Seq<char>,
>
    decreases rows.len(),
{
    if rows.len() == 0 {
        Ok((Seq::empty(), None))
    } else {
        match rows_show(machine, rows.drop_last()) {
            Err(text) => Err(text),
            Ok((devices, driver)) => match after_prefix(rows[rows.len() - 1], HARDWARE_MARKER@) {
                None => Ok((devices, driver)),
                Some(row) => match row_device(machine, row) {
                    Err(text) => Err(text),
                    Ok((device, version)) => Ok(
                        (
                            with_device(devices, device),
                            match driver {
                                Some(first) => Some(first),
                                None => Some(version),
                            },
                        ),
                    ),
                },
            },
        }
    }
}

/// What the output of a probe shows of a machine: the driver and the assigned
/// devices, or the text of the refusal.
pub open spec fn hardware_shown(machine: Seq<char>, assigned: Seq<u32>, stdout: Seq<char>) -> Result<
    (Seq<char>, Seq<Device>),
    Seq<char>,
> {
    match rows_show(machine, text_lines(stdout)) {
        Err(text) => Err(text),
        Ok((devices, driver)) => match driver {
            None => Err(
                "machine "@ + debug_text(machine) + " returned no probe rows for devices "@
                    + number_list(assigned),
            ),
            Some(version) => if assigned.len() == 0 {
                Ok((version, Seq::empty()))
            } else if indices_of(devices) != sorted_unique(assigned) {
                Err(
                    "machine "@ + debug_text(machine) + " probe covered devices "@ + number_list(
                        indices_of(devices),
                    ) + " but the placement assigns "@ + number_list(sorted_unique(assigned)),
                )
            } else {
                Ok((version, devices))
            },
        },
    }
}

proof fn lemma_rows_fail(machine: Seq<char>, rows: Seq<Seq<char>>, i: int)
    requires
        0 <= i <= rows.len(),
        rows_show(machine, rows.take(i)) is Err,
    ensures
        rows_show(machine, rows) == rows_show(machine, rows.take(i)),
    decreases rows.len(),
{
    if i == rows.len() {
        assert(rows.take(i) =~= rows);
    } else {
        assert(rows.drop_last().take(i) =~= rows.take(i));
        lemma_rows_fail(machine, rows.drop_last(), i);
    }
}

fn same_numbers(a: &Vec<u32>, b: &Vec<u32>) -> (r: bool)
    ensures
        r == (a@ == b@),
{
    if a.len() != b.len() {
        return false;
    }
    let mut i: usize = 0;
    while i < a.len()
        invariant
            i <= a@.len(),
            a@.len() == b@.len(),
            forall|j: int| 0 <= j < i ==> a@[j] == b@[j],
        decreases a@.len() - i,
    {
        if a[i] != b[i] {
            return false;
        }
        i += 1;
    }
    assert(a@ =~= b@);
    true
}

/// Reads the output of a probe. The rows must cover exactly the assigned devices;
/// where none is assigned, the probe proves the driver and claims no inventory.
pub fn parse_hardware_output(machine: &str, assigned_devices: &[u32], stdout: &str) -> (r: Result<
    MachineHardwareEvidence,
    String,
>)
    ensures
        match hardware_shown(machine@, assigned_devices@, stdout@) {
            Ok((driver, devices)) => r matches Ok(found) && found.driver_version@ == driver
                && devices_of(found.devices@) == devices,
            Err(text) => r matches Err(found) && found@ == text,
        },
{
    let rows = lines(stdout);
    let ghost all = text_lines(stdout@);
    let mut devices: Vec<DeviceHardwareEvidence> = Vec::new();
    let mut driver: Option<String> = None;
    let mut i: usize = 0;
    assert(all.take(0) =~= Seq::<Seq<char>>::empty());
    assert(devices_of(devices@) =~= Seq::<Device>::empty());
    while i < rows.len()
        invariant
            i <= rows@.len(),
            texts(rows@) == all,
            all == text_lines(stdout@),
            rows_show(machine@, all.take(i as int)) == Ok::<
                (Seq<Device>, Option<Seq<char>>),
                Seq<char>,
            >((devices_of(devices@), text_of(driver))),
        decreases rows@.len() - i,
    {
        proof {
            assert(all.take(i + 1).drop_last() =~= all.take(i as int));
            assert(all.take(i + 1)[i as int] == rows@[i as int]@);
        }
        if let Some(row) = strip_prefix(rows[i].as_str(), HARDWARE_MARKER) {
            match read_row(machine, row) {
                Ok((device, version)) => {
                    if driver.is_none() {
                        driver = Some(version);
                    }
                    devices = add_device(devices, device);
                },
                Err(text) => {
                    proof {
                        lemma_rows_fail(machine@, all, i + 1);
                    }
                    return Err(text);
                },
            }
        }
        i += 1;
    }
    assert(all.take(rows@.len() as int) =~= all);
    let driver_version = match driver {
        Some(version) => version,
        None => return Err(
            cat4(
                "machine ",
                debug(machine).as_str(),
                " returned no probe rows for devices ",
                show_numbers(assigned_devices).as_str(),
            ),
        ),
    };
    if assigned_devices.len() == 0 {
        let none: Vec<DeviceHardwareEvidence> = Vec::new();
        assert(devices_of(none@) =~= Seq::<Device>::empty());
        return Ok(MachineHardwareEvidence { driver_version, devices: none });
    }
    let mut probed: Vec<u32> = Vec::new();
    let mut k: usize = 0;
    while k < devices.len()
        invariant
            k <= devices@.len(),
            probed@.len() == k,
            forall|j: int| 0 <= j < k ==> (#[trigger] probed@[j]) == devices@[j].index,
        decreases devices@.len() - k,
    {
        probed.push(devices[k].index);
        k += 1;
    }
    assert(probed@ =~= indices_of(devices_of(devices@)));
    let requested = sort_unique(assigned_devices);
    if !same_numbers(&probed, &requested) {
        return Err(
            cat6(
                "machine ",
                debug(machine).as_str(),
                " probe covered devices ",
                show_numbers(probed.as_slice()).as_str(),
                " but the placement assigns ",
                show_numbers(requested.as_slice()).as_str(),
            ),
        );
    }
    Ok(MachineHardwareEvidence { driver_version, devices })
}

/// How the probe of a machine went.
pub enum HardwareOutcome {
    Ran { output: CommandOutput },
    LaunchFailed { source: String },
}

/// What a probe shows, or the text of the refusal.
pub open spec fn probe_shown(machine: Seq<char>, assigned: Seq<u32>, outcome: HardwareOutcome) -> Result<
    (Seq<char>, Seq<Device>),
    Seq<char>,
> {
    match outcome {
        HardwareOutcome::LaunchFailed { source } => Err(
            "failed to launch the hardware probe on machine "@ + debug_text(machine) + ": "@
                + source@,
        ),
        HardwareOutcome::Ran { output } => if !output.success {
            Err(
                "hardware probe on machine "@ + debug_text(machine) + " exited with "@
                    + output.status@ + ": "@ + trimmed(lossy_text(output.stderr@)),
            )
        } else {
            hardware_shown(machine, assigned, lossy_text(output.stdout@))
        },
    }
}

/// Reads the probe of a machine's devices.
pub fn probe_hardware(machine: &str, devices: &[u32], outcome: &HardwareOutcome) -> (r: Result<
    MachineHardwareEvidence,
    String,
>)
    ensures
        match probe_shown(machine@, devices@, *outcome) {
            Ok((driver, found)) => r matches Ok(evidence) && evidence.driver_version@ == driver
                && devices_of(evidence.devices@) == found,
            Err(text) => r matches Err(found) && found@ == text,
        },
{
    match outcome {
        HardwareOutcome::LaunchFailed { source } => Err(
            cat4(
                "failed to launch the hardware probe on machine ",
                debug(machine).as_str(),
                ": ",
                source.as_str(),
            ),
        ),
        HardwareOutcome::Ran { output } => {
            if !output.success {
                return Err(
                    cat6(
                        "hardware probe on machine ",
                        debug(machine).as_str(),
                        " exited with ",
                        output.status.as_str(),
                        ": ",
                        trim(decode_lossy(output.stderr.as_slice()).as_str()),
                    ),
                );
            }
            parse_hardware_output(
                machine,
                devices,
                decode_lossy(output.stdout.as_slice()).as_str(),
            )
        },
    }
}

// ---------------------------------------------------------------------------
// Laws

/// Accepted evidence covers exactly the assigned devices: each once, in order,
/// and none that was not assigned.
pub proof fn law_evidence_covers_the_assignment(machine: Seq<char>, assigned: Seq<u32>, stdout: Seq<char>)
    requires
        hardware_shown(machine, assigned, stdout) is Ok,
    ensures
        ({
            let (_, devices) = hardware_shown(machine, assigned, stdout)->Ok_0;
            let indices = indices_of(devices);
            &&& forall|n: u32| indices.contains(n) <==> assigned.contains(n)
            &&& forall|i: int, j: int| 0 <= i < j < indices.len() ==> indices[i] < indices[j]
        }),
{
    lemma_sorted_unique(assigned);
    if assigned.len() == 0 {
        assert(indices_of(Seq::<Device>::empty()) =~= Seq::<u32>::empty());
    }
}

/// `number_place` parts the numbers.
proof fn lemma_number_place(numbers: Seq<u32>, n: u32)
    ensures
        0 <= number_place(numbers, n) <= numbers.len(),
        forall|j: int| 0 <= j < number_place(numbers, n) ==> numbers[j] < n,
        number_place(numbers, n) < numbers.len() ==> numbers[number_place(numbers, n)] >= n,
    decreases numbers.len(),
{
    if numbers.len() > 0 && numbers[0] < n {
        let rest = numbers.skip(1);
        lemma_number_place(rest, n);
        assert forall|j: int| 0 <= j < number_place(numbers, n) implies numbers[j] < n by {
            if j > 0 {
                assert(numbers[j] == rest[j - 1]);
            }
        }
    }
}

/// Sorting keeps every number and orders them strictly.
proof fn lemma_sorted_unique(numbers: Seq<u32>)
    ensures
        forall|n: u32| sorted_unique(numbers).contains(n) <==> numbers.contains(n),
        forall|i: int, j: int|
            0 <= i < j < sorted_unique(numbers).len() ==> sorted_unique(numbers)[i]
                < sorted_unique(numbers)[j],
    decreases numbers.len(),
{
    if numbers.len() > 0 {
        let front = numbers.drop_last();
        let last = numbers[numbers.len() - 1];
        lemma_sorted_unique(front);
        let rest = sorted_unique(front);
        let out = sorted_unique(numbers);
        let at = number_place(rest, last);
        lemma_number_place(rest, last);
        assert(numbers =~= front.push(last));
        assert forall|n: u32| out.contains(n) <==> numbers.contains(n) by {
            if numbers.contains(n) {
                let i = choose|i: int| 0 <= i < numbers.len() && numbers[i] == n;
                if i == numbers.len() - 1 {
                    assert(out[at] == n);
                } else {
                    assert(front[i] == n);
                    assert(front.contains(n));
                    assert(rest.contains(n));
                    let k = choose|k: int| 0 <= k < rest.len() && rest[k] == n;
                    if out.len() == rest.len() {
                        assert(out[k] == n);
                    } else if k < at {
                        assert(out[k] == n);
                    } else {
                        assert(out[k + 1] == n);
                    }
                }
            }
            if out.contains(n) {
                let k = choose|k: int| 0 <= k < out.len() && out[k] == n;
                if at < rest.len() && rest[at] == last {
                    assert(rest[k] == n);
                    assert(rest.contains(n));
                } else if k == at {
                    assert(numbers[numbers.len() - 1] == n);
                } else {
                    if k < at {
                        assert(rest[k] == n);
                    } else {
                        assert(rest[k - 1] == n);
                    }
                    assert(rest.contains(n));
                }
                if front.contains(n) {
                    let i = choose|i: int| 0 <= i < front.len() && front[i] == n;
                    assert(numbers[i] == n);
                }
            }
        }
        if out.len() != rest.len() {
            assert forall|i: int, j: int| 0 <= i < j < out.len() implies out[i] < out[j] by {
                let a = if i < at {
                    i
                } else {
                    i - 1
                };
                let b = if j < at {
                    j
                } else {
                    j - 1
                };
                if i != at {
                    assert(out[i] == rest[a]);
                }
                if j != at {
                    assert(out[j] == rest[b]);
                }
                if i == at && at < rest.len() {
                    assert(rest[at] > last);
                    if b > at {
                        assert(rest[at] < rest[b]);
                    }
                } else if j == at {
                    assert(rest[a] < last);
                } else if i != at {
                    assert(rest[a] < rest[b]);
                }
            }
        }
    }
}

/// The probe asks for exactly the devices that it is to cover: its selection, split at
/// the commas and read as decimal numbers, gives the devices in their order.
pub proof fn law_probe_asks_for_its_devices(devices: Seq<u32>)
    requires
        devices.len() > 0,
    ensures
        ({
            let parts = split_on(after_prefix(device_selection(devices), " -i "@)->0, ',');
            &&& after_prefix(device_selection(devices), " -i "@) is Some
            &&& parts.len() == devices.len()
            &&& forall|i: int|
                0 <= i < parts.len() ==> all_digits(#[trigger] parts[i]) && decimal_value(parts[i])
                    == devices[i]
        }),
{
    reveal_strlit(",");
    assert(","@ =~= seq![',']);
    let parts = decimals(devices);
    let list = joined(parts, ","@);
    assert(device_selection(devices).take(" -i "@.len() as int) =~= " -i "@);
    assert(device_selection(devices).skip(" -i "@.len() as int) =~= list);
    assert forall|i: int| 0 <= i < parts.len() implies !(#[trigger] parts[i]).contains(',')
        && all_digits(parts[i]) && decimal_value(parts[i]) == devices[i] by {
        law_decimal_reads_back(devices[i] as nat);
        if parts[i].contains(',') {
            let k = choose|k: int| 0 <= k < parts[i].len() && parts[i][k] == ',';
            assert(digit(parts[i][k]));
        }
    }
    law_split_undoes_join(parts, ',');
}

/// A row of five fields tells, in this order, the index of a device, its model, its
/// memory, its identity and the driver of the machine.
pub proof fn law_row_tells_its_device(
    machine: Seq<char>,
    row: Seq<char>,
    index: u32,
    model: Seq<char>,
    memory: u64,
    uuid: Seq<char>,
    driver: Seq<char>,
)
    requires
        ({
            let fields = split_at(row, ", "@);
            &&& fields.len() == 5
            &&& trimmed(fields[0]) == decimal(index as nat)
            &&& trimmed(fields[1]) == model
            &&& trimmed(fields[2]) == decimal(memory as nat)
            &&& trimmed(fields[3]) == uuid
            &&& trimmed(fields[4]) == driver
        }),
    ensures
        row_device(machine, row) matches Ok((device, version)) && device.index == index
            && device.model == model && device.memory == memory && device.uuid == uuid && version
            == driver,
{
    law_decimal_is_parsed_back(index as nat, u32::MAX as nat);
    law_decimal_is_parsed_back(memory as nat, u64::MAX as nat);
}

/// The driver of a machine is that of its first device row, and rows without the marker
/// tell nothing.
pub proof fn law_first_row_tells_the_driver(
    machine: Seq<char>,
    rows: Seq<Seq<char>>,
    row: Seq<char>,
)
    requires
        rows_show(machine, rows.push(row)) is Ok,
    ensures
        rows_show(machine, rows) is Ok,
        ({
            let (devices, driver) = rows_show(machine, rows)->Ok_0;
            let (more, after) = rows_show(machine, rows.push(row))->Ok_0;
            match after_prefix(row, "INFERLAB_HARDWARE\t"@) {
                None => more == devices && after == driver,
                Some(payload) => {
                    &&& row_device(machine, payload) is Ok
                    &&& more.len() == devices.len() + 1
                    &&& more.contains(row_device(machine, payload)->Ok_0.0)
                    &&& driver is Some ==> after == driver
                    &&& driver is None ==> after == Some(row_device(machine, payload)->Ok_0.1)
                },
            }
        }),
{
    assert(rows.push(row).drop_last() =~= rows);
    let (devices, driver) = rows_show(machine, rows)->Ok_0;
    let payload = after_prefix(row, "INFERLAB_HARDWARE\t"@);
    if payload is Some {
        let device = row_device(machine, payload->0)->Ok_0.0;
        lemma_device_place_within(devices, device.index);
        assert(with_device(devices, device)[device_place(devices, device.index)] == device);
    }
}

proof fn lemma_device_place_within(devices: Seq<Device>, index: u32)
    ensures
        0 <= device_place(devices, index) <= devices.len(),
    decreases devices.len(),
{
    if devices.len() > 0 && devices[0].index <= index {
        lemma_device_place_within(devices.skip(1), index);
    }
}

/// A probe of hardware shows something only where it ran and succeeded, and then what its
/// output shows; a probe of devices shows exactly those that were assigned.
pub proof fn law_only_a_successful_probe_shows_hardware(
    machine: Seq<char>,
    assigned: Seq<u32>,
    outcome: HardwareOutcome,
)
    requires
        probe_shown(machine, assigned, outcome) is Ok,
    ensures
        outcome matches HardwareOutcome::Ran { output } && output.success,
        assigned.len() > 0 ==> indices_of(probe_shown(machine, assigned, outcome)->Ok_0.1)
            == sorted_unique(assigned),
        assigned.len() == 0 ==> probe_shown(machine, assigned, outcome)->Ok_0.1.len() == 0,
{
}

} // verus!
