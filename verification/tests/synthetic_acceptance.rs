use inferlab::dict::Dict;
use inferlab::protocol::{AcceptanceLength, SyntheticAcceptanceInput};
use inferlab::resolve::synthetic_acceptance::{
    resolve_synthetic_acceptance, CurveFile, CurveModelEntry, SyntheticAcceptanceCurveDefinition,
    SyntheticAcceptanceDefinition,
};
use sha2::{Digest, Sha256};

fn sha256_hex(bytes: &[u8]) -> String {
    format!("{:x}", Sha256::digest(bytes))
}

fn curve_declaration(path: &str, bytes: &[u8]) -> SyntheticAcceptanceDefinition {
    SyntheticAcceptanceDefinition {
        acceptance_length: None,
        curve: Some(SyntheticAcceptanceCurveDefinition {
            path: path.to_owned(),
            expected_sha256: sha256_hex(bytes),
            model_key: "model".to_owned(),
            thinking_mode: None,
        }),
    }
}

fn entries(list: &[(&str, CurveModelEntry)]) -> Result<Dict<CurveModelEntry>, String> {
    let mut out: Dict<CurveModelEntry> = Dict::new();
    for (key, entry) in list {
        out.insert((*key).to_owned(), *entry);
    }
    Ok(out)
}

fn resolve_input(
    declared: &SyntheticAcceptanceDefinition,
    bytes: Result<Vec<u8>, String>,
    entries: Result<Dict<CurveModelEntry>, String>,
) -> Result<SyntheticAcceptanceInput, String> {
    let file = CurveFile {
        bytes: &bytes,
        entries: &entries,
    };
    resolve_synthetic_acceptance("server", declared, &file)
        .map(|resolved| resolved.input)
        .map_err(|error| error.message())
}

fn curve_payload(
    input: &SyntheticAcceptanceInput,
) -> Result<(String, Option<String>, String, String), String> {
    let SyntheticAcceptanceInput::Curve(curve) = input else {
        return Err(format!("expected the curve form, got {input:?}"));
    };
    Ok((
        curve.model_key.clone(),
        curve.thinking_mode.clone(),
        curve.text.clone(),
        curve.sha256.clone(),
    ))
}

fn read(text: &str) -> Result<Vec<u8>, String> {
    Ok(text.as_bytes().to_vec())
}

#[test]
fn flat_curve_ships_the_digest_verified_text_without_a_mode() -> Result<(), String> {
    let text = "model:\n  - 1: 2.1\n  - 2: 2.8\n  - 4: 3.5\n";
    let declared = curve_declaration("curves/golden.yaml", text.as_bytes());

    let (model_key, thinking_mode, shipped_text, sha256) = curve_payload(&resolve_input(
        &declared,
        read(text),
        entries(&[("model", CurveModelEntry::Flat)]),
    )?)?;
    assert_eq!(model_key, "model");
    assert_eq!(thinking_mode, None);
    assert_eq!(shipped_text, text);
    assert_eq!(
        sha256,
        sha256_hex(text.as_bytes()),
        "the shipped digest is the digest-verified declaration pin"
    );
    Ok(())
}

#[test]
fn matrix_curve_omission_computes_the_thinking_on_default() -> Result<(), String> {
    let text = "model:\n  thinking_on:\n    4: 3.5\n  thinking_off:\n    4: 1.5\n";
    let mut declared = curve_declaration("curves/golden.yaml", text.as_bytes());
    let shapes = || entries(&[("model", CurveModelEntry::Matrix)]);

    let (_, thinking_mode, _, _) =
        curve_payload(&resolve_input(&declared, read(text), shapes())?)?;
    assert_eq!(thinking_mode.as_deref(), Some("thinking_on"));

    declared.curve.as_mut().ok_or("curve form")?.thinking_mode = Some("thinking_off".to_owned());
    let (_, thinking_mode, _, _) =
        curve_payload(&resolve_input(&declared, read(text), shapes())?)?;
    assert_eq!(thinking_mode.as_deref(), Some("thinking_off"));
    Ok(())
}

#[test]
fn declared_thinking_mode_against_a_flat_entry_fails() -> Result<(), String> {
    let text = "model:\n  - 4: 3.5\n";
    let mut declared = curve_declaration("curves/golden.yaml", text.as_bytes());
    declared.curve.as_mut().ok_or("curve form")?.thinking_mode = Some("thinking_on".to_owned());

    let error = resolve_input(
        &declared,
        read(text),
        entries(&[("model", CurveModelEntry::Flat)]),
    )
    .err()
    .ok_or("must fail")?;
    assert!(error.contains("thinking_mode"), "{error}");
    assert!(error.contains("flat list"), "{error}");
    assert!(error.contains("model"), "{error}");
    Ok(())
}

#[test]
fn a_curve_is_named_as_the_path_that_it_is() -> Result<(), String> {
    let text = "model:\n  - 4: 3.5\n";
    let path = "curves/ada's \"golden\".yaml";
    let quoted = format!("{:?}", std::path::Path::new(path));
    let mut declared = curve_declaration(path, text.as_bytes());
    let flat = || entries(&[("model", CurveModelEntry::Flat)]);
    let unread = resolve_input(&declared, Err("absent".to_owned()), flat());
    assert_eq!(
        unread.err(),
        Some(format!(
            "server \"server\" synthetic_acceptance.curve {quoted}: the curve file is missing or unreadable: absent"
        ))
    );
    declared.curve.as_mut().ok_or("curve form")?.expected_sha256 = "a".repeat(64);
    let error = resolve_input(&declared, read(text), flat()).err().ok_or("must fail")?;
    assert!(error.contains(&format!("digest mismatch for {quoted}: ")), "{error}");
    Ok(())
}

#[test]
fn digest_mismatch_names_both_digests() -> Result<(), String> {
    let text = "model:\n  - 4: 3.5\n";
    let mut declared = curve_declaration("curves/golden.yaml", text.as_bytes());
    declared.curve.as_mut().ok_or("curve form")?.expected_sha256 = "a".repeat(64);

    let error = resolve_input(
        &declared,
        read(text),
        entries(&[("model", CurveModelEntry::Flat)]),
    )
    .err()
    .ok_or("must fail")?;
    assert!(error.contains("digest mismatch"), "{error}");
    assert!(error.contains(&"a".repeat(64)), "{error}");
    assert!(error.contains(&sha256_hex(text.as_bytes())), "{error}");
    Ok(())
}

#[test]
fn missing_curve_file_names_the_context_and_path() -> Result<(), String> {
    let declared = curve_declaration("curves/absent.yaml", b"model:\n  - 4: 3.5\n");

    let error = resolve_input(
        &declared,
        Err("No such file or directory (os error 2)".to_owned()),
        entries(&[]),
    )
    .err()
    .ok_or("must fail")?;
    assert!(
        error.contains("server \"server\" synthetic_acceptance.curve"),
        "{error}"
    );
    assert!(error.contains("curves/absent.yaml"), "{error}");
    assert!(error.contains("missing or unreadable"), "{error}");
    Ok(())
}

// The keyed lookup belongs to the integration: an unknown model key ships the
// text with the declared mode so the integration can fail planning naming the
// missing element.
#[test]
fn unknown_model_key_defers_to_the_integration() -> Result<(), String> {
    let text = "model:\n  thinking_on:\n    4: 3.5\n";
    let mut declared = curve_declaration("curves/golden.yaml", text.as_bytes());
    let curve = declared.curve.as_mut().ok_or("curve form")?;
    curve.model_key = "other".to_owned();
    curve.thinking_mode = Some("thinking_off".to_owned());

    let (model_key, thinking_mode, _, _) = curve_payload(&resolve_input(
        &declared,
        read(text),
        entries(&[("model", CurveModelEntry::Matrix)]),
    )?)?;
    assert_eq!(model_key, "other");
    assert_eq!(thinking_mode.as_deref(), Some("thinking_off"));
    Ok(())
}

#[test]
fn a_curve_of_another_shape_is_refused_with_its_reason() {
    let text = "- 1\n- 2\n";
    let declared = curve_declaration("curves/golden.yaml", text.as_bytes());
    assert_eq!(
        resolve_input(&declared, read(text), Err("must map model keys".to_owned())).err(),
        Some(
            "server \"server\" synthetic_acceptance.curve \"curves/golden.yaml\": must map model keys"
                .to_owned()
        )
    );
}

#[test]
fn a_curve_that_is_no_text_is_refused() {
    let bytes = vec![0xff, 0xfe];
    let declared = curve_declaration("curves/golden.yaml", &bytes);
    assert!(resolve_input(&declared, Ok(bytes), entries(&[]))
        .is_err_and(|error| error.ends_with("the curve file is not valid UTF-8")));
}

fn length(value: f64) -> AcceptanceLength {
    AcceptanceLength {
        bits: value.to_bits(),
        text: value.to_string(),
    }
}

fn explicit(value: f64) -> SyntheticAcceptanceDefinition {
    SyntheticAcceptanceDefinition {
        acceptance_length: Some(length(value)),
        curve: None,
    }
}

#[test]
fn explicit_form_ships_the_declared_length() -> Result<(), String> {
    let input = resolve_input(&explicit(2.25), Err("absent".to_owned()), entries(&[]))?;
    let SyntheticAcceptanceInput::Explicit { acceptance_length } = input else {
        return Err(format!("expected the explicit form, got {input:?}"));
    };
    assert_eq!(f64::from_bits(acceptance_length.bits), 2.25);
    Ok(())
}

#[test]
fn a_length_is_finite_and_at_least_one() {
    for value in [0.999, 0.0, -2.0, f64::INFINITY, f64::NAN, f64::NEG_INFINITY] {
        assert!(
            resolve_input(&explicit(value), Err("absent".to_owned()), entries(&[])).is_err(),
            "{value}"
        );
    }
    assert!(resolve_input(&explicit(1.0), Err("absent".to_owned()), entries(&[])).is_ok());
}

#[test]
fn exactly_one_form_is_declared() {
    let neither = SyntheticAcceptanceDefinition {
        acceptance_length: None,
        curve: None,
    };
    assert!(
        resolve_input(&neither, Err("absent".to_owned()), entries(&[])).is_err_and(|error| error
            .ends_with("must declare exactly one of acceptance_length or curve"))
    );
}

#[test]
fn the_effective_mode_is_that_of_the_input() {
    let text = "model: {}\n";
    let declared = curve_declaration("c.yaml", text.as_bytes());
    let bytes = read(text);
    let shapes = entries(&[("model", CurveModelEntry::Matrix)]);
    let resolved = resolve_synthetic_acceptance(
        "server",
        &declared,
        &CurveFile {
            bytes: &bytes,
            entries: &shapes,
        },
    )
    .ok()
    .unwrap();
    assert_eq!(
        resolved.effective_thinking_mode().as_deref(),
        Some("thinking_on")
    );
}

#[test]
fn an_accepted_pin_is_the_known_digest_of_the_text() {
    let mut declared = curve_declaration("c.yaml", b"");
    if let Some(curve) = &mut declared.curve {
        curve.expected_sha256 =
            "ba7816bf8f01cfea414140de5dae2223b00361a396177a9cb410ff61f20015ad".to_owned();
    }
    assert!(resolve_input(&declared, Ok(b"abc".to_vec()), entries(&[])).is_ok());
    assert!(resolve_input(&declared, Ok(b"abd".to_vec()), entries(&[])).is_err());
}
