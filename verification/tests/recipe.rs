use inferlab::recipe::{
    recipe_workload_data_assets, required_measurements, DataAssetAttempt, Measurements, NewRecipe,
    RecipeAction, RecipeEvent, RecipeRecord, RecipeRun, RecipeStatus, ServerEnd, SkipReason,
    WorkloadDataAssetEvidence, WorkloadOutcome, WorkloadStatus,
};
use inferlab::server::record::ServerStatus;

fn record() -> RecipeRecord {
    RecipeRecord::begin(
        &NewRecipe {
            recipe: Some("nightly"),
            server: "qwen",
            case: None,
            pid: 3,
            version: "0.12.0",
        },
        0,
        vec![DataAssetAttempt {
            attempt_id: "a1".to_owned(),
            eval_binding: None,
        }],
    )
    .expect("a recipe has a record")
}

fn measurements() -> Measurements {
    Measurements {
        evals: vec!["accuracy".to_owned()],
        benches: vec!["latency".to_owned(), "throughput".to_owned()],
        gate: Some("accuracy".to_owned()),
    }
}

fn ended(verified: bool) -> Result<ServerEnd, String> {
    Ok(ServerEnd {
        status: if verified {
            ServerStatus::Stopped
        } else {
            ServerStatus::Failed
        },
        verified,
        error: if verified {
            None
        } else {
            Some("members stay".to_owned())
        },
    })
}

/// Drives a recipe; `passed` is the outcome of its eval.
fn drive(
    run: &mut RecipeRun,
    sources: Result<(), String>,
    started: Result<(), String>,
    passed: bool,
    end: Result<ServerEnd, String>,
    skipped: &mut Vec<SkipReason>,
) {
    let mut sources = Some(sources);
    let mut started = Some(started);
    let mut end = Some(end);
    let mut action = run.action();
    loop {
        let event = match action {
            RecipeAction::PrepareSources => RecipeEvent::Prepared {
                outcome: sources.take().expect("sources are prepared once"),
                interrupted: false,
                now: 5,
            },
            RecipeAction::StartServer => RecipeEvent::Started {
                outcome: started.take().expect("the server is started once"),
            },
            RecipeAction::Eval { .. } | RecipeAction::Bench { .. } => {
                RecipeEvent::Next { interrupted: false }
            }
            RecipeAction::RunEval { index } => RecipeEvent::Measured {
                outcome: Ok(WorkloadOutcome {
                    id: format!("{}-1", run.eval_id(index)),
                    status: WorkloadStatus::Succeeded,
                    passed: Some(passed),
                }),
            },
            RecipeAction::RunBench { index } => RecipeEvent::Measured {
                outcome: Ok(WorkloadOutcome {
                    id: format!("{}-1", run.bench_id(index)),
                    status: WorkloadStatus::Succeeded,
                    passed: None,
                }),
            },
            RecipeAction::SkipEval { reason, .. } | RecipeAction::SkipBench { reason, .. } => {
                skipped.push(reason);
                RecipeEvent::Measured {
                    outcome: Ok(WorkloadOutcome {
                        id: "skipped".to_owned(),
                        status: WorkloadStatus::Skipped,
                        passed: None,
                    }),
                }
            }
            RecipeAction::StopServer | RecipeAction::InspectServer => RecipeEvent::Ended {
                outcome: end.take().expect("the server ends once"),
            },
            RecipeAction::Finish => RecipeEvent::Finished {
                interrupted: false,
                clock: Ok(77),
            },
            RecipeAction::Over | RecipeAction::Report => return,
        };
        action = run.run(event);
    }
}

#[test]
fn a_recipe_succeeds_when_everything_did() {
    let mut run = RecipeRun::new(record(), measurements(), 0);
    let mut skipped = Vec::new();
    drive(&mut run, Ok(()), Ok(()), true, ended(true), &mut skipped);
    assert!(skipped.is_empty());
    assert_eq!(run.record.status, RecipeStatus::Succeeded);
    assert_eq!(run.record.finished_unix_ms, Some(77));
    assert_eq!(run.record.evals.len(), 1);
    assert_eq!(run.record.benches.len(), 2);
    assert_eq!(run.record.benches[1].definition_id, "throughput");
    assert!(run.record.errors.is_empty(), "{:?}", run.record.errors);
}

#[test]
fn a_recipe_without_a_clock_is_not_finished() {
    let mut run = RecipeRun::new(
        record(),
        Measurements {
            evals: Vec::new(),
            benches: Vec::new(),
            gate: None,
        },
        0,
    );
    run.run(RecipeEvent::Prepared {
        outcome: Ok(()),
        interrupted: false,
        now: 5,
    });
    assert!(run.stores_after(RecipeAction::PrepareSources));
    run.run(RecipeEvent::Started { outcome: Ok(()) });
    assert!(run.stores_after(RecipeAction::StartServer));
    let action = run.run(RecipeEvent::Ended {
        outcome: ended(true),
    });
    assert_eq!(action, RecipeAction::Finish);
    assert!(!run.stores_after(RecipeAction::StopServer));
    let action = run.run(RecipeEvent::Finished {
        interrupted: false,
        clock: Err("clock is off".to_owned()),
    });
    assert_eq!(action, RecipeAction::Report);
    assert!(!run.stores_after(RecipeAction::Finish));
    assert_eq!(run.message, "system clock is before Unix epoch: clock is off");
    assert_eq!(run.record.finished_unix_ms, None);
}

#[test]
fn a_server_that_does_not_start_is_stored_with_what_follows() {
    let mut run = RecipeRun::new(record(), measurements(), 0);
    run.run(RecipeEvent::Prepared {
        outcome: Ok(()),
        interrupted: false,
        now: 5,
    });
    run.run(RecipeEvent::Started {
        outcome: Err("no device".to_owned()),
    });
    assert!(!run.stores_after(RecipeAction::StartServer));
    assert!(run.stores_after(RecipeAction::SkipEval {
        index: 0,
        reason: SkipReason::NoServer,
    }));
}

#[test]
fn no_bench_is_run_behind_a_refused_eval() {
    let mut run = RecipeRun::new(record(), measurements(), 0);
    let mut skipped = Vec::new();
    drive(&mut run, Ok(()), Ok(()), false, ended(true), &mut skipped);
    assert_eq!(skipped, [SkipReason::Gate, SkipReason::Gate]);
    assert_eq!(run.record.status, RecipeStatus::Failed);
    assert_eq!(run.record.benches.len(), 2);
    assert!(run
        .record
        .benches
        .iter()
        .all(|bench| bench.status == WorkloadStatus::Skipped));
}

#[test]
fn without_sources_no_server_is_started() {
    let mut run = RecipeRun::new(record(), measurements(), 0);
    let action = run.run(RecipeEvent::Prepared {
        outcome: Err("asset missing".to_owned()),
        interrupted: false,
        now: 5,
    });
    assert!(!matches!(action, RecipeAction::StartServer));
    assert!(!run.record.serving_launch_attempted);
    assert!(run
        .record
        .errors
        .iter()
        .any(|error| error.contains("asset missing")));
}

#[test]
fn a_server_that_does_not_start_skips_every_workload() {
    let mut run = RecipeRun::new(record(), measurements(), 0);
    let mut skipped = Vec::new();
    drive(
        &mut run,
        Ok(()),
        Err("launch failed".to_owned()),
        true,
        ended(false),
        &mut skipped,
    );
    assert_eq!(skipped.len(), 3);
    assert!(skipped.iter().all(|reason| *reason == SkipReason::NoServer));
    assert_eq!(run.record.status, RecipeStatus::Failed);
}

#[test]
fn an_unverified_cleanup_fails_the_recipe() {
    let mut run = RecipeRun::new(record(), measurements(), 0);
    let mut skipped = Vec::new();
    drive(&mut run, Ok(()), Ok(()), true, ended(false), &mut skipped);
    assert_eq!(run.record.status, RecipeStatus::Failed);
    assert!(!run.record.cleanup.as_ref().expect("the server ended").verified);
}

#[test]
fn an_attempt_is_updated_under_its_id() {
    let mut record = record();
    record
        .update_data_asset_attempt(DataAssetAttempt {
            attempt_id: "a1".to_owned(),
            eval_binding: Some("/data/a1".to_owned()),
        })
        .expect("the attempt is known");
    assert!(record
        .update_data_asset_attempt(DataAssetAttempt {
            attempt_id: "a2".to_owned(),
            eval_binding: None,
        })
        .is_err());
    match recipe_workload_data_assets(&record, Some("a1".to_owned())) {
        WorkloadDataAssetEvidence::Recipe {
            recipe_record_id,
            attempt_ids,
            prepared_source,
        } => {
            assert_eq!(recipe_record_id, record.id);
            assert_eq!(attempt_ids, ["a1"]);
            assert_eq!(prepared_source.as_deref(), Some("/data/a1"));
        }
        WorkloadDataAssetEvidence::Unneeded => panic!("the workload needs its source"),
    }
    assert!(matches!(
        recipe_workload_data_assets(&record, None),
        WorkloadDataAssetEvidence::Unneeded
    ));
}

#[test]
fn a_recipe_record_names_its_recipe() {
    assert_eq!(record().id, "1970-01-01T00-00-00.000Z-recipe-nightly-3");
    assert!(RecipeRecord::begin(
        &NewRecipe {
            recipe: None,
            server: "qwen",
            case: None,
            pid: 3,
            version: "0.12.0",
        },
        0,
        Vec::new()
    )
    .is_err());
}

#[test]
fn a_recipe_measures_something() {
    assert!(required_measurements(Some(measurements())).is_ok());
    assert_eq!(
        required_measurements(None)
            .err()
            .map(|error| error.message()),
        Some("closed-loop recipe has no resolved measurements".to_owned())
    );
}
