//! Device memory that outlives a server: the probe of each assigned device after
//! cleanup, and what it shows.

use crate::process_group::CommandOutput;
use crate::text::{
    after_prefix, cat3, cat4, cat6, debug, debug_text, decimal, decode_lossy, lines, lossy_text,
    number_error, parse_u64, parsed_unsigned, strip_prefix, text_lines, texts, to_decimal, trim,
    trimmed,
};
use vstd::prelude::*;
use vstd::string::*;

verus! {

/// What a row of the probe begins with.
pub const RESIDUAL_MARKER: &'static str = "INFERLAB_DEVICE_RESIDUAL\t";

/// What is left on a device after cleanup.
#[derive(Debug)]
pub enum DeviceResidualEvidence {
    Freed { machine: String, device: u32 },
    ResidualHeld { machine: String, device: u32, bytes: u64 },
    ProbeUnavailable { machine: String, device: u32, reason: String },
}

/// The script of the probe.
pub open spec fn residual_script_text(device: u32) -> Seq<char> {
    "set -eu; out=$(nvidia-smi -i "@ + decimal(device as nat)
        + " --query-compute-apps=used_memory --format=csv,noheader,nounits); if [ -n \"$out\" ]; then printf '%s\\n' \"$out\" | while IFS= read -r line; do printf 'INFERLAB_DEVICE_RESIDUAL\t%s\\n' \"$line\"; done; fi"@
}

/// The script of the probe, for both launch paths: the command substitution keeps
/// the exit status of the tool, and the marker keeps login banners out of the
/// rows.
pub fn residual_script(device: u32) -> (r: String)
    ensures
        r@ == residual_script_text(device),
{
    cat3(
        "set -eu; out=$(nvidia-smi -i ",
        to_decimal(device as u64).as_str(),
        " --query-compute-apps=used_memory --format=csv,noheader,nounits); if [ -n \"$out\" ]; then printf '%s\\n' \"$out\" | while IFS= read -r line; do printf 'INFERLAB_DEVICE_RESIDUAL\t%s\\n' \"$line\"; done; fi",
    )
}

/// The mebibytes of a row, or the text of the refusal.
pub open spec fn row_mib(machine: Seq<char>, row: Seq<char>) -> Result<nat, Seq<char>> {
    match parsed_unsigned(trimmed(row), u64::MAX as nat) {
        Some(mib) => Ok(mib),
        None => Err(
            "machine "@ + debug_text(machine) + " returned a non-numeric residual memory row "@
                + debug_text(row) + ": "@ + number_error(trimmed(row)),
        ),
    }
}

/// The bytes that marked rows add up to; other rows are passed over.
pub open spec fn rows_bytes(machine: Seq<char>, rows: Seq<Seq<char>>) -> Result<nat, Seq<char>>
    decreases rows.len(),
{
    if rows.len() == 0 {
        Ok(0)
    } else {
        match rows_bytes(machine, rows.drop_last()) {
            Err(text) => Err(text),
            Ok(total) => match after_prefix(rows[rows.len() - 1], RESIDUAL_MARKER@) {
                None => Ok(total),
                Some(row) => match row_mib(machine, row) {
                    Err(text) => Err(text),
                    Ok(mib) => Ok(total + mib * 1_048_576),
                },
            },
        }
    }
}

/// At most what fits.
pub open spec fn capped(n: nat) -> u64 {
    if n <= u64::MAX {
        n as u64
    } else {
        u64::MAX
    }
}

proof fn lemma_rows_fail(machine: Seq<char>, rows: Seq<Seq<char>>, i: int)
    requires
        0 <= i <= rows.len(),
        rows_bytes(machine, rows.take(i)) is Err,
    ensures
        rows_bytes(machine, rows) == rows_bytes(machine, rows.take(i)),
    decreases rows.len(),
{
    if i == rows.len() {
        assert(rows.take(i) =~= rows);
    } else {
        assert(rows.drop_last().take(i) =~= rows.take(i));
        lemma_rows_fail(machine, rows.drop_last(), i);
    }
}

/// Adds up the rows of a probe: one row of mebibytes for each application that
/// still holds memory. No rows means that the device is free.
pub fn parse_residual_rows(machine: &str, stdout: &str) -> (r: Result<u64, String>)
    ensures
        match rows_bytes(machine@, text_lines(stdout@)) {
            Ok(total) => r == Ok::<u64, String>(capped(total)),
            Err(text) => r matches Err(found) && found@ == text,
        },
{
    let rows = lines(stdout);
    let ghost all = text_lines(stdout@);
    let mut total: u64 = 0;
    let mut i: usize = 0;
    assert(all.take(0) =~= Seq::<Seq<char>>::empty());
    while i < rows.len()
        invariant
            i <= rows@.len(),
            texts(rows@) == all,
            all == text_lines(stdout@),
            rows_bytes(machine@, all.take(i as int)) is Ok,
            total == capped(rows_bytes(machine@, all.take(i as int))->Ok_0),
        decreases rows@.len() - i,
    {
        proof {
            assert(all.take(i + 1).drop_last() =~= all.take(i as int));
            assert(all.take(i + 1)[i as int] == rows@[i as int]@);
        }
        if let Some(row) = strip_prefix(rows[i].as_str(), RESIDUAL_MARKER) {
            match parse_u64(trim(row)) {
                Ok(mib) => {
                    let bytes: u64 = if mib <= u64::MAX / 1_048_576 {
                        mib * 1_048_576
                    } else {
                        u64::MAX
                    };
                    assert(bytes == capped((mib * 1_048_576) as nat)) by (nonlinear_arith)
                        requires
                            bytes == if mib <= u64::MAX / 1_048_576 {
                                (mib * 1_048_576) as u64
                            } else {
                                u64::MAX
                            },
                    ;
                    total = if total <= u64::MAX - bytes {
                        total + bytes
                    } else {
                        u64::MAX
                    };
                },
                Err(source) => {
                    proof {
                        lemma_rows_fail(machine@, all, i + 1);
                    }
                    return Err(
                        cat6(
                            "machine ",
                            debug(machine).as_str(),
                            " returned a non-numeric residual memory row ",
                            debug(row).as_str(),
                            ": ",
                            source.as_str(),
                        ),
                    );
                },
            }
        }
        i += 1;
    }
    assert(all.take(rows@.len() as int) =~= all);
    Ok(total)
}

/// How the probe of a device went.
pub enum ResidualOutcome {
    Ran { output: CommandOutput },
    LaunchFailed { source: String },
}

/// The bytes that a probe shows, or the text of the refusal.
pub open spec fn residual_shown(machine: Seq<char>, outcome: ResidualOutcome) -> Result<
    u64,
    Seq<char>,
> {
    match outcome {
        ResidualOutcome::LaunchFailed { source } => Err(
            "failed to launch the device residual probe on machine "@ + debug_text(machine) + ": "@
                + source@,
        ),
        ResidualOutcome::Ran { output } => if !output.success {
            Err(
                "device residual probe on machine "@ + debug_text(machine) + " exited with "@
                    + output.status@ + ": "@ + trimmed(lossy_text(output.stderr@)),
            )
        } else {
            match rows_bytes(machine, text_lines(lossy_text(output.stdout@))) {
                Ok(total) => Ok(capped(total)),
                Err(text) => Err(text),
            }
        },
    }
}

/// Residual compute memory in bytes on one assigned device.
pub fn residual_bytes(machine: &str, outcome: &ResidualOutcome) -> (r: Result<u64, String>)
    ensures
        match residual_shown(machine@, *outcome) {
            Ok(bytes) => r == Ok::<u64, String>(bytes),
            Err(text) => r matches Err(found) && found@ == text,
        },
{
    match outcome {
        ResidualOutcome::LaunchFailed { source } => Err(
            cat4(
                "failed to launch the device residual probe on machine ",
                debug(machine).as_str(),
                ": ",
                source.as_str(),
            ),
        ),
        ResidualOutcome::Ran { output } => {
            if !output.success {
                return Err(
                    cat6(
                        "device residual probe on machine ",
                        debug(machine).as_str(),
                        " exited with ",
                        output.status.as_str(),
                        ": ",
                        trim(decode_lossy(output.stderr.as_slice()).as_str()),
                    ),
                );
            }
            parse_residual_rows(machine, decode_lossy(output.stdout.as_slice()).as_str())
        },
    }
}

/// The evidence for one probed device. A probe that fails is recorded as
/// unavailable: it neither fails nor unverifies the cleanup.
pub fn probe_device_residual(machine: &str, device: u32, outcome: &ResidualOutcome) -> (r:
    DeviceResidualEvidence)
    ensures
        match residual_shown(machine@, *outcome) {
            Ok(bytes) => if bytes == 0 {
                r matches DeviceResidualEvidence::Freed { machine: m, device: d } && m@ == machine@
                    && d == device
            } else {
                r matches DeviceResidualEvidence::ResidualHeld { machine: m, device: d, bytes: b }
                    && m@ == machine@ && d == device && b == bytes
            },
            Err(text) => r matches DeviceResidualEvidence::ProbeUnavailable {
                machine: m,
                device: d,
                reason,
            } && m@ == machine@ && d == device && reason@ == text,
        },
{
    match residual_bytes(machine, outcome) {
        Ok(bytes) => if bytes == 0 {
            DeviceResidualEvidence::Freed { machine: machine.to_owned(), device }
        } else {
            DeviceResidualEvidence::ResidualHeld { machine: machine.to_owned(), device, bytes }
        },
        Err(reason) => DeviceResidualEvidence::ProbeUnavailable {
            machine: machine.to_owned(),
            device,
            reason,
        },
    }
}

/// Lines without the marker change nothing, so login banners never count.
pub proof fn law_noise_is_passed_over(machine: Seq<char>, rows: Seq<Seq<char>>, noise: Seq<char>)
    requires
        after_prefix(noise, RESIDUAL_MARKER@) is None,
    ensures
        rows_bytes(machine, rows.push(noise)) == rows_bytes(machine, rows),
{
    assert(rows.push(noise).drop_last() =~= rows);
}

/// What a device still holds is what its rows hold together: a row of so many mebibytes
/// adds as many, whatever stands before it.
pub proof fn law_rows_add_up(
    machine: Seq<char>,
    rows: Seq<Seq<char>>,
    row: Seq<char>,
    mib: u64,
)
    requires
        rows_bytes(machine, rows) is Ok,
        after_prefix(row, RESIDUAL_MARKER@) matches Some(field) && trimmed(field) == decimal(
            mib as nat,
        ),
    ensures
        rows_bytes(machine, Seq::empty()) == Ok::<nat, Seq<char>>(0),
        rows_bytes(machine, rows.push(row)) == Ok::<nat, Seq<char>>(
            rows_bytes(machine, rows)->Ok_0 + mib as nat * 1024 * 1024,
        ),
{
    assert(rows.push(row).drop_last() =~= rows);
    crate::text::law_decimal_is_parsed_back(mib as nat, u64::MAX as nat);
}

/// The bytes that a device holds are told as they are where they fit, and a probe that
/// failed tells none.
pub proof fn law_residual_is_told_as_it_is(machine: Seq<char>, outcome: ResidualOutcome)
    ensures
        residual_shown(machine, outcome) matches Ok(bytes) ==> (outcome matches ResidualOutcome::Ran {
            output,
        } && output.success && (rows_bytes(
            machine,
            text_lines(lossy_text(output.stdout@)),
        ) matches Ok(total) && (total <= u64::MAX ==> bytes == total) && (total > u64::MAX ==> bytes
            == u64::MAX))),
{
}

} // verus!
