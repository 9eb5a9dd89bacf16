use inferlab::process_group::CommandOutput;
use inferlab::server::hardware::{
    nvidia_smi_script, parse_hardware_output, probe_hardware, HardwareOutcome,
};
use inferlab::server::residual::{
    parse_residual_rows, probe_device_residual, residual_script, DeviceResidualEvidence,
    ResidualOutcome, RESIDUAL_MARKER,
};

fn rows_in_index_order() -> Result<(), String> {
    let stdout = "login banner\n\
                  INFERLAB_HARDWARE\t1, Fixture GPU, 97871, GPU-bbb, 580.65.06\n\
                  INFERLAB_HARDWARE\t0, Fixture GPU, 97871, GPU-aaa, 580.65.06\n";
    let evidence = parse_hardware_output("node-a", &[1, 0], stdout)?;
    assert_eq!(evidence.driver_version, "580.65.06");
    let indices: Vec<u32> = evidence.devices.iter().map(|device| device.index).collect();
    assert_eq!(indices, [0, 1]);
    assert_eq!(evidence.devices[0].uuid, "GPU-aaa");
    assert_eq!(evidence.devices[0].model, "Fixture GPU");
    assert_eq!(evidence.devices[0].memory_total_mib, 97871);
    Ok(())
}

#[test]
fn preflight_hardware_rows_parse_through_banner_noise_in_index_order() -> Result<(), String> {
    rows_in_index_order()
}

#[test]
fn runtime_hardware_rows_parse_through_banner_noise_in_index_order() -> Result<(), String> {
    rows_in_index_order()
}

fn mismatch_and_empty_output() {
    let one_row = "INFERLAB_HARDWARE\t0, Fixture GPU, 97871, GPU-aaa, 580.65.06\n";
    let mismatch = parse_hardware_output("node-a", &[0, 1], one_row);
    assert!(
        mismatch
            .as_ref()
            .is_err_and(|error| error.contains("assigns")),
        "{mismatch:?}"
    );
    let empty = parse_hardware_output("node-a", &[0], "login banner only\n");
    assert!(
        empty
            .as_ref()
            .is_err_and(|error| error.contains("no probe rows")),
        "{empty:?}"
    );
}

#[test]
fn preflight_hardware_coverage_mismatch_and_empty_output_are_loud() {
    mismatch_and_empty_output();
}

#[test]
fn runtime_hardware_coverage_mismatch_and_empty_output_are_loud() {
    mismatch_and_empty_output();
}

fn driver_without_inventory() -> Result<(), String> {
    // A proxy-only host enumerates its full inventory (no `-i`), but
    // nothing is assigned there, so no device may be recorded as assigned.
    let stdout = "INFERLAB_HARDWARE\t0, Fixture GPU, 97871, GPU-aaa, 580.65.06\n\
                  INFERLAB_HARDWARE\t1, Fixture GPU, 97871, GPU-bbb, 580.65.06\n";
    let evidence = parse_hardware_output("proxy-host", &[], stdout)?;
    assert_eq!(evidence.driver_version, "580.65.06");
    assert!(evidence.devices.is_empty(), "{evidence:?}");
    Ok(())
}

#[test]
fn preflight_zero_assigned_devices_record_the_driver_without_claiming_inventory(
) -> Result<(), String> {
    driver_without_inventory()
}

#[test]
fn runtime_zero_assigned_devices_record_the_driver_without_claiming_inventory() -> Result<(), String>
{
    driver_without_inventory()
}

#[test]
fn residual_rows_sum_through_banner_noise() -> Result<(), String> {
    let stdout = format!(
        "login banner\n\
         {RESIDUAL_MARKER}512\n\
         {RESIDUAL_MARKER} 1024 \n"
    );
    let total = parse_residual_rows("node-a", &stdout)?;
    assert_eq!(total, (512 + 1024) * 1_048_576);
    Ok(())
}

#[test]
fn empty_output_is_freed_and_a_non_numeric_row_is_loud() {
    let freed = parse_residual_rows("node-a", "login banner only\n");
    assert_eq!(freed.ok(), Some(0));
    let malformed = parse_residual_rows("node-a", "login\nINFERLAB_DEVICE_RESIDUAL\tn/a\n");
    assert!(
        malformed
            .as_ref()
            .is_err_and(|error| error.contains("non-numeric")),
        "{malformed:?}"
    );
}

fn output(success: bool, stdout: &str, stderr: &[u8]) -> CommandOutput {
    CommandOutput {
        exit_code: Some(if success { 0 } else { 9 }),
        success,
        status: if success {
            "exit status: 0".to_owned()
        } else {
            "exit status: 9".to_owned()
        },
        stdout: stdout.as_bytes().to_vec(),
        stderr: stderr.to_vec(),
    }
}

#[test]
fn a_device_is_freed_held_or_unknown() {
    let ran = |stdout: &str| ResidualOutcome::Ran {
        output: output(true, stdout, b""),
    };
    assert!(matches!(
        probe_device_residual("a", 3, &ran("")),
        DeviceResidualEvidence::Freed { device: 3, .. }
    ));
    assert!(matches!(
        probe_device_residual("a", 3, &ran("INFERLAB_DEVICE_RESIDUAL\t2\n")),
        DeviceResidualEvidence::ResidualHeld {
            bytes: 2_097_152,
            ..
        }
    ));
    assert!(matches!(
        probe_device_residual(
            "a",
            3,
            &ResidualOutcome::LaunchFailed {
                source: "absent".to_owned()
            }
        ),
        DeviceResidualEvidence::ProbeUnavailable { reason, .. }
            if reason.starts_with("failed to launch the device residual probe on machine \"a\"")
    ));
}

#[test]
fn sums_saturate() {
    let stdout = format!(
        "{RESIDUAL_MARKER}18446744073709551615\n{RESIDUAL_MARKER}18446744073709551615\n"
    );
    assert_eq!(parse_residual_rows("a", &stdout), Ok(u64::MAX));
}

#[test]
fn a_failed_probe_tells_its_lossy_error_output() {
    let failed = probe_hardware(
        "node-a",
        &[0],
        &HardwareOutcome::Ran {
            output: output(false, "", &[b'x', 0xff]),
        },
    );
    assert!(failed.is_err_and(|text| text.contains("x\u{fffd}")));
    let absent = probe_hardware(
        "node-a",
        &[0],
        &HardwareOutcome::LaunchFailed {
            source: "absent".to_owned(),
        },
    );
    assert!(absent.is_err_and(|text| text.contains("absent")));
}

#[test]
fn scripts_select_the_devices() {
    assert!(nvidia_smi_script(&[2, 5]).contains("nvidia-smi -i 2,5 "));
    assert!(!nvidia_smi_script(&[]).contains(" -i "));
    assert!(residual_script(7).starts_with("set -eu; out=$(nvidia-smi -i 7 --query-compute-apps"));
}
