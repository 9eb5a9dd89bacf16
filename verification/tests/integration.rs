use inferlab::dict::Dict;
use inferlab::error::InferlabError;
use inferlab::protocol::{
    KvTransferMechanism, LaunchFileDeclaration, ProcessSpec, RenderInputDeclaration,
};
use inferlab::resolve::integration::{
    builtin_proxy_kind, load_render_inputs, render_input_path, validate_launch_file_declarations,
    BuiltinProxyKind,
};
use sha2::{Digest, Sha256};

fn digest(text: &str) -> String {
    format!("{:x}", Sha256::digest(text.as_bytes()))
}

fn launch_file(text: &str, name: &str) -> LaunchFileDeclaration {
    let sha256 = digest(text);
    LaunchFileDeclaration {
        relative_path: format!("launch-files/{sha256}/{name}"),
        text: text.to_owned(),
        sha256,
    }
}

fn launch_process(argv: Vec<String>, env: &[(&str, String)]) -> ProcessSpec {
    let mut table: Dict<String> = Dict::new();
    for (name, value) in env {
        table.insert((*name).to_owned(), value.clone());
    }
    ProcessSpec { argv, env: table }
}

#[test]
fn render_inputs_preserve_original_paths_exact_text_and_digest() -> Result<(), String> {
    let relative_path = "configs/operator.yaml";
    let relative_text = "batch_scheduler:\n  enable_chunked_context: true\n";
    let absolute_text = "kv_cache_config:\n  enable_block_reuse: false\n";
    let absolute_path = "/elsewhere/absolute.yaml".to_owned();
    let declarations = vec![
        RenderInputDeclaration {
            source_path: relative_path.to_owned(),
        },
        RenderInputDeclaration {
            source_path: absolute_path.clone(),
        },
    ];
    assert_eq!(
        render_input_path("/workspace", &declarations[0]),
        "/workspace/configs/operator.yaml"
    );
    assert_eq!(
        render_input_path("/workspace", &declarations[1]),
        absolute_path
    );

    let supplied = load_render_inputs(
        "/workspace",
        "tensorrt-llm",
        &declarations,
        &[
            Ok(relative_text.as_bytes().to_vec()),
            Ok(absolute_text.as_bytes().to_vec()),
        ],
    )
    .map_err(|error| error.message())?;

    assert_eq!(supplied[0].source_path, relative_path);
    assert_eq!(supplied[0].text, relative_text);
    assert_eq!(supplied[0].sha256, digest(relative_text));
    assert_eq!(supplied[1].source_path, absolute_path);
    assert_eq!(supplied[1].text, absolute_text);
    assert_eq!(supplied[1].sha256, digest(absolute_text));
    Ok(())
}

#[test]
fn unreadable_render_input_is_a_typed_resolution_error() {
    let missing = RenderInputDeclaration {
        source_path: "configs/missing.yaml".to_owned(),
    };

    let result = load_render_inputs(
        "/workspace",
        "tensorrt-llm",
        &[missing],
        &[Err("No such file or directory (os error 2)".to_owned())],
    );

    assert!(matches!(result, Err(InferlabError::RenderInputRead { .. })));
}

#[test]
fn non_utf8_render_input_is_a_typed_resolution_error() {
    let declaration = RenderInputDeclaration {
        source_path: "operator.yaml".to_owned(),
    };

    let result = load_render_inputs(
        "/workspace",
        "tensorrt-llm",
        &[declaration],
        &[Ok(vec![0xff, 0xfe])],
    );

    assert!(matches!(result, Err(InferlabError::RenderInputUtf8 { .. })));
}

#[test]
fn launch_files_preserve_valid_argv_and_env_references() -> Result<(), String> {
    let cache_root = "/does/not/need/to/exist/cache/worker";
    let argv_file = launch_file("worker: argv\n", "worker.yaml");
    let env_file = launch_file("worker: 零\n", "environment.yaml");
    let argv_path = format!("{cache_root}/{}", argv_file.relative_path);
    let env_path = format!("{cache_root}/{}", env_file.relative_path);
    let process = launch_process(
        vec![
            "server".to_owned(),
            "--config".to_owned(),
            argv_path.clone(),
        ],
        &[("SERVER_CONFIG", env_path.clone())],
    );

    let plans = validate_launch_file_declarations(
        "tensorrt-llm",
        "worker",
        cache_root,
        &process,
        &[argv_file.clone(), env_file.clone()],
    )
    .map_err(|error| error.message())?;

    assert_eq!(plans.len(), 2);
    assert_eq!(plans[0].relative_path, argv_file.relative_path);
    assert_eq!(plans[0].resolved_path, argv_path);
    assert_eq!(plans[0].text, argv_file.text);
    assert_eq!(plans[0].sha256, argv_file.sha256);
    assert_eq!(plans[1].resolved_path, env_path);
    Ok(())
}

fn refusal(declaration: LaunchFileDeclaration, argument: &str) -> String {
    let process = launch_process(vec![argument.to_owned()], &[]);
    validate_launch_file_declarations(
        "tensorrt-llm",
        "worker",
        "/cache/worker",
        &process,
        &[declaration],
    )
    .err()
    .map(|error| error.message())
    .unwrap_or_default()
}

#[test]
fn launch_file_path_must_be_canonical() {
    let mut declaration = launch_file("worker: invalid-path\n", "worker.yaml");
    declaration.relative_path = format!("launch-files/{}/nested/worker.yaml", declaration.sha256);
    let resolved = format!("/cache/worker/{}", declaration.relative_path);

    assert!(refusal(declaration, &resolved).contains("canonical path"));
}

#[test]
fn launch_file_digest_must_match_utf8_text() {
    let mut declaration = launch_file("worker: original\n", "worker.yaml");
    declaration.text = "worker: changed\n".to_owned();
    let resolved = format!("/cache/worker/{}", declaration.relative_path);

    assert!(refusal(declaration, &resolved).contains("content digest"));
}

#[test]
fn launch_file_digest_must_be_complete_lowercase_hex() {
    let mut declaration = launch_file("worker: uppercase-digest\n", "worker.yaml");
    declaration.sha256.make_ascii_uppercase();
    declaration.relative_path = format!("launch-files/{}/worker.yaml", declaration.sha256);
    let resolved = format!("/cache/worker/{}", declaration.relative_path);

    assert!(refusal(declaration, &resolved).contains("64-lowercase-sha256"));
}

#[test]
fn launch_file_requires_an_exact_invocation_reference() {
    let declaration = launch_file("worker: unreferenced\n", "worker.yaml");
    let argument = format!("--config=/cache/worker/{}", declaration.relative_path);

    assert!(refusal(declaration, &argument).contains("exact argv or environment"));
}

#[test]
fn a_framework_has_its_own_proxy() {
    assert!(matches!(
        builtin_proxy_kind("sglang", Some(KvTransferMechanism::Nixl)),
        Ok(BuiltinProxyKind::Sglang)
    ));
    assert!(matches!(
        builtin_proxy_kind("vllm", Some(KvTransferMechanism::Nixl)),
        Ok(BuiltinProxyKind::VllmNixl)
    ));
    assert!(matches!(
        builtin_proxy_kind("vllm", Some(KvTransferMechanism::Mooncake)),
        Ok(BuiltinProxyKind::VllmMooncake)
    ));
    assert!(builtin_proxy_kind("other", None).is_err());
}
