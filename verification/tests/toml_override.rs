use inferlab::toml_override::{
    apply_settings_patch, apply_toml_patch, segment_extra_args, validate_extra_args_segmentation,
    ExactTomlOverride, InvocationOverride,
};
use inferlab::toml_value::{find_entry, read_document, TomlValue};

fn document(text: &str) -> Result<TomlValue, String> {
    Ok(TomlValue::Table(read_document(text)?))
}

fn at<'a>(value: &'a TomlValue, key: &str) -> &'a TomlValue {
    match value {
        TomlValue::Table(entries) => {
            let i = find_entry(entries, key).expect("the key has an entry");
            &entries[i].1
        }
        _ => panic!("{key} is sought in what is no table"),
    }
}

fn strings(value: &TomlValue) -> Option<Vec<String>> {
    match value {
        TomlValue::Array(items) => Some(
            items
                .iter()
                .filter_map(|item| match item {
                    TomlValue::Text(text) => Some(text.clone()),
                    _ => None,
                })
                .collect(),
        ),
        _ => None,
    }
}

fn owned(tokens: &[&str]) -> Vec<String> {
    tokens.iter().map(|token| (*token).to_owned()).collect()
}

#[test]
fn invocation_stream_is_parsed_once_before_target_selection() -> Result<(), String> {
    let raw = vec![
        "server.settings.eager=true".to_owned(),
        "benches.latency.concurrency=[1, 2]".to_owned(),
    ];
    let overrides = InvocationOverride::parse_all(&raw).map_err(|error| error.message())?;
    let bench = overrides[1]
        .under("benches.latency.")
        .ok_or_else(|| "bench override was not selected".to_owned())?;

    assert_eq!(bench.index(), 1);
    assert_eq!(bench.raw(), raw[1]);
    assert_eq!(bench.path(), "concurrency");
    Ok(())
}

#[test]
fn toml_owns_quoted_paths_and_structured_values() -> Result<(), String> {
    let patch = ExactTomlOverride::parse(
        r#"settings."framework.option""#,
        r#"{ enabled = true, limits = [1, 2] }"#,
        r#"settings."framework.option"={ enabled = true, limits = [1, 2] }"#,
    )
    .map_err(|error| error.message())?;

    assert_eq!(patch.root_key(), "settings");
    let tree = patch.into_patch();
    assert!(matches!(
        at(at(at(&tree, "settings"), "framework.option"), "enabled"),
        TomlValue::Boolean(true)
    ));
    Ok(())
}

#[test]
fn exact_merge_replaces_arrays_and_rejects_scalar_traversal() -> Result<(), String> {
    let definition = document("values = [1, 2]\nscalar = 1")?;
    let definition = ExactTomlOverride::parse("values", "[3]", "values=[3]")
        .map_err(|error| error.message())?
        .apply_to(definition, "values=[3]")
        .map_err(|error| error.message())?;
    match at(&definition, "values") {
        TomlValue::Array(items) => assert_eq!(items.len(), 1),
        _ => panic!("values stays an array"),
    }

    let error = ExactTomlOverride::parse("scalar.child", "2", "scalar.child=2")
        .map_err(|error| error.message())?
        .apply_to(definition, "scalar.child=2")
        .map_err(|error| error.message());
    assert!(matches!(
        error,
        Err(ref message)
            if message.ends_with("override traverses non-table value at scalar")
    ));
    Ok(())
}

fn settings_with(extra_args: &str) -> Result<TomlValue, String> {
    document(&format!(
        "values = [1]\n[settings]\nextra_args = {extra_args}"
    ))
}

fn composed_extra_args(base: TomlValue, patch: TomlValue) -> Result<Vec<String>, String> {
    let definition = apply_toml_patch(base, &patch)?;
    strings(at(at(&definition, "settings"), "extra_args"))
        .ok_or_else(|| "extra_args missing after merge".to_owned())
}

#[test]
fn extra_args_merge_replaces_named_groups_and_inherits_the_rest() -> Result<(), String> {
    let base = settings_with(
        r#"["--language-model-only", "--max-num-seqs", "256", "--max-num-batched-tokens", "8192"]"#,
    )?;
    let patch = settings_with(r#"["--max-num-seqs", "512"]"#)?;

    let merged = composed_extra_args(base, patch)?;
    assert_eq!(
        merged,
        [
            "--language-model-only",
            "--max-num-seqs",
            "512",
            "--max-num-batched-tokens",
            "8192"
        ],
        "the named group is replaced in place and the rest are inherited"
    );
    Ok(())
}

#[test]
fn extra_args_merge_treats_a_repeatable_flag_as_one_group() -> Result<(), String> {
    let base = settings_with(r#"["--arg-dup", "base", "--other", "1"]"#)?;
    let patch = settings_with(r#"["--arg-dup", "a", "--arg-dup", "b"]"#)?;

    let merged = composed_extra_args(base, patch)?;
    assert_eq!(merged, ["--arg-dup", "a", "--arg-dup", "b", "--other", "1"]);
    Ok(())
}

#[test]
fn extra_args_merge_groups_equals_spelling_and_replaces_passthrough_wholesale() -> Result<(), String>
{
    let base = settings_with(r#"["--max-num-seqs=256", "--", "--block-size", "32"]"#)?;
    let patch = settings_with(r#"["--max-num-seqs=512", "--", "--block-size", "64"]"#)?;

    let merged = composed_extra_args(base, patch)?;
    assert_eq!(merged, ["--max-num-seqs=512", "--", "--block-size", "64"]);
    Ok(())
}

#[test]
fn extra_args_merge_inherits_the_passthrough_block_when_the_patch_has_none() -> Result<(), String> {
    let base = settings_with(r#"["--max-num-seqs", "256", "--", "--block-size", "32"]"#)?;
    let patch = settings_with(r#"["--max-num-seqs", "512"]"#)?;

    let merged = composed_extra_args(base, patch)?;
    assert_eq!(
        merged,
        ["--max-num-seqs", "512", "--", "--block-size", "32"]
    );
    Ok(())
}

#[test]
fn extra_args_merge_replaces_the_whole_passthrough_block_not_single_flags() -> Result<(), String> {
    let base = settings_with(
        r#"["--max-num-seqs", "256", "--", "--block-size", "32", "--num-blocks", "8"]"#,
    )?;
    // The patch rewrites only one flag behind the sentinel; the base
    // block's other flag must not survive the replacement.
    let patch = settings_with(r#"["--", "--block-size", "64"]"#)?;

    let merged = composed_extra_args(base, patch)?;
    assert_eq!(
        merged,
        ["--max-num-seqs", "256", "--", "--block-size", "64"],
        "the verbatim passthrough block is replaced as a whole"
    );
    Ok(())
}

#[test]
fn extra_args_rejects_a_second_verbatim_sentinel() -> Result<(), String> {
    let error = composed_extra_args(
        settings_with(r#"["--known", "1"]"#)?,
        settings_with(r#"["--", "--a", "--", "--b"]"#)?,
    );
    assert!(matches!(
        error,
        Err(ref message) if message.contains("second bare `--`")
    ));

    // A fresh extra_args array (no base entry) owes the same validation.
    let definition = document("[settings]\nvalues = [1]")?;
    let error = apply_toml_patch(
        definition,
        &document("[settings]\nextra_args = [\"--\", \"--a\", \"--\"]")?,
    );
    assert!(matches!(
        error,
        Err(ref message) if message.contains("second bare `--`")
    ));
    Ok(())
}

#[test]
fn extra_args_rejects_non_string_entries() -> Result<(), String> {
    let definition = document("[settings]\nextra_args = [\"--a\", \"1\"]")?;
    let error = apply_toml_patch(
        definition,
        &document("[settings]\nextra_args = [\"--b\", 2]")?,
    );
    assert!(matches!(
        error,
        Err(ref message) if message.contains("must be strings")
    ));
    Ok(())
}

#[test]
fn extra_args_full_restate_cases_produce_the_identical_argv() -> Result<(), String> {
    let base_tokens = r#"["--max-num-seqs", "64", "--moe-backend", "flashinfer_cutlass", "--speculative-config", "{}"]"#;
    let base = settings_with(base_tokens)?;
    let patch = settings_with(
        r#"["--max-num-seqs", "64", "--moe-backend", "b12x", "--speculative-config", "{}"]"#,
    )?;

    let merged = composed_extra_args(base, patch)?;
    assert_eq!(
        merged,
        [
            "--max-num-seqs",
            "64",
            "--moe-backend",
            "b12x",
            "--speculative-config",
            "{}"
        ],
        "old-style restating cases keep their exact argv under merge semantics"
    );
    Ok(())
}

#[test]
fn extra_args_rejects_a_value_token_before_any_flag() -> Result<(), String> {
    let base = settings_with(r#"["--known", "1"]"#)?;
    let error = composed_extra_args(base, settings_with(r#"["stray-value", "--known", "2"]"#)?);
    assert!(matches!(
        error,
        Err(ref message) if message.contains("precedes any flag")
    ));

    let error = composed_extra_args(
        settings_with(r#"["--known", "1"]"#)?,
        settings_with(r#"["stray-value"]"#)?,
    );
    assert!(matches!(
        error,
        Err(ref message) if message.contains("precedes any flag")
    ));

    // A fresh extra_args array (no base entry) owes the same validation.
    let definition = document("[settings]\nvalues = [1]")?;
    let error = apply_toml_patch(
        definition,
        &document("[settings]\nextra_args = [\"stray-value\"]")?,
    );
    assert!(matches!(
        error,
        Err(ref message) if message.contains("precedes any flag")
    ));
    Ok(())
}

#[test]
fn extra_args_merge_applies_under_role_settings_but_not_unrelated_paths() -> Result<(), String> {
    let definition = document(
        "[roles.serve.settings]\nextra_args = [\"--a\", \"1\"]\n[other]\nextra_args = [\"--a\", \"1\"]",
    )?;
    let patch = document(
        "[roles.serve.settings]\nextra_args = [\"--b\", \"2\"]\n[other]\nextra_args = [\"--b\", \"2\"]",
    )?;
    let definition = apply_toml_patch(definition, &patch)?;

    let role_tokens = strings(at(
        at(at(at(&definition, "roles"), "serve"), "settings"),
        "extra_args",
    ))
    .ok_or_else(|| "role extra_args stays an array".to_owned())?;
    assert_eq!(role_tokens, ["--a", "1", "--b", "2"]);

    let other_tokens = strings(at(at(&definition, "other"), "extra_args"))
        .ok_or_else(|| "other extra_args stays an array".to_owned())?;
    assert_eq!(
        other_tokens,
        ["--b", "2"],
        "arrays outside settings keep wholesale replacement"
    );
    Ok(())
}

#[test]
fn an_assigned_value_is_read_back_and_the_rest_is_kept() -> Result<(), String> {
    let definition = document("kept = \"yes\"\n[settings]\neager = false\nother = 7")?;
    let definition = ExactTomlOverride::parse("settings.eager", "true", "settings.eager=true")
        .map_err(|error| error.message())?
        .apply_to(definition, "settings.eager=true")
        .map_err(|error| error.message())?;
    assert!(matches!(
        at(at(&definition, "settings"), "eager"),
        TomlValue::Boolean(true)
    ));
    assert!(matches!(
        at(at(&definition, "settings"), "other"),
        TomlValue::Integer(7)
    ));
    assert!(matches!(at(&definition, "kept"), TomlValue::Text(text) if text == "yes"));
    Ok(())
}

#[test]
fn settings_are_patched_as_settings() -> Result<(), String> {
    let merged = apply_settings_patch(
        document("extra_args = [\"--a\", \"1\", \"--b\"]")?,
        &document("extra_args = [\"--a\", \"2\"]")?,
    )?;
    assert_eq!(
        strings(at(&merged, "extra_args")),
        Some(owned(&["--a", "2", "--b"]))
    );
    Ok(())
}

#[test]
fn segmentation_keeps_the_tokens_in_groups_by_name() -> Result<(), String> {
    let tokens = owned(&["--a", "1", "--b=2", "--a", "3", "--", "--c", "x"]);
    let groups = segment_extra_args(&tokens, "settings.extra_args")?;
    let names: Vec<&str> = groups.iter().map(|group| group.name.as_str()).collect();
    assert_eq!(names, ["--a", "--b", "--"]);
    assert_eq!(groups[0].tokens, ["--a", "1", "--a", "3"]);
    assert_eq!(groups[1].tokens, ["--b=2"]);
    assert_eq!(groups[2].tokens, ["--", "--c", "x"]);
    assert!(validate_extra_args_segmentation(&tokens, "settings.extra_args").is_ok());
    Ok(())
}

#[test]
fn each_malformed_declaration_has_its_error() {
    let raw = owned(&["server.settings.eager"]);
    let error = InvocationOverride::parse_all(&raw).err().unwrap();
    assert!(error.message().ends_with("expected PATH=<TOML-value>"));

    let refusal = |path: &str, value: &str| {
        ExactTomlOverride::parse(path, value, "raw")
            .err()
            .unwrap()
            .message()
    };
    assert!(refusal("", "1").ends_with("setting path must be one TOML key path"));
    assert!(refusal("a\nb", "1").ends_with("setting path must be one TOML key path"));
    assert!(refusal("a", "[1").contains("invalid TOML value: "));
    assert!(refusal("a", "1\nb = 2").ends_with("override must contain exactly one TOML value"));
    assert!(refusal("a..b", "1").contains("invalid TOML key path: "));
}

#[test]
fn a_declaration_is_an_assignment() -> Result<(), String> {
    let raw = owned(&["server.case=\"fast\"", "other.case=1"]);
    let overrides = InvocationOverride::parse_all(&raw).map_err(|error| error.message())?;
    assert!(overrides[0].under("other.").is_none());
    let assignment = overrides[0]
        .assignment()
        .map_err(|error| error.message())?;
    assert_eq!(assignment.root_key(), "server");
    assert!(matches!(
        at(at(&assignment.into_patch(), "server"), "case"),
        TomlValue::Text(text) if text == "fast"
    ));
    Ok(())
}

#[test]
fn documents_hold_every_form_of_value() -> Result<(), String> {
    let value = document("a = 1.5\nb = 1979-05-27\nc = -3\nd = [true, 'x']\n[e]\nf = 'y'")?;
    assert!(matches!(at(&value, "a"), TomlValue::Fraction(bits) if *bits == 1.5f64.to_bits()));
    assert!(matches!(at(&value, "b"), TomlValue::Moment(text) if text == "1979-05-27"));
    assert!(matches!(at(&value, "c"), TomlValue::Integer(-3)));
    assert!(matches!(at(at(&value, "e"), "f"), TomlValue::Text(text) if text == "y"));
    assert!(document("a = ").is_err());
    Ok(())
}
