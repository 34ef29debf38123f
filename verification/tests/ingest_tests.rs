use announcer::ingest::{
    ingest, ingest_acquired, ingest_begin, ingest_transformed, IngestError, IngestRequest,
    IngestStage, Source, ToolAction, ValidationError,
};
use announcer::resolver::{resolve_and_play, GuildPresence};
use announcer::store::{AssetStore, WorkKind, WorkspaceFile};
use announcer::{CLIP_NAME_MAX_CHARS, TRIM_LIMIT_MICROS};

fn upload(owner: u64, display_name: &str, clip_name: &str) -> IngestRequest {
    IngestRequest {
        owner,
        display_name: display_name.to_string(),
        clip_name: clip_name.to_string(),
        source: Source::Upload(vec![1, 2, 3]),
        filters: None,
        override_length: false,
        caller_authorized: false,
    }
}

fn remote(owner: u64, start_micros: u64, end_micros: u64) -> IngestRequest {
    IngestRequest {
        owner,
        display_name: "alice".to_string(),
        clip_name: "funny".to_string(),
        source: Source::Remote {
            url: "https://example.com/watch?v=123".to_string(),
            start_micros,
            end_micros,
        },
        filters: None,
        override_length: false,
        caller_authorized: false,
    }
}

#[test]
fn successful_ingest_round_trip() {
    let mut store = AssetStore::new();
    let r = ingest(&mut store, &upload(7, "alice", "funny"), true, true);
    assert_eq!(r, Ok("funny".to_string()));
    assert_eq!(store.get_active_clip(&"alice".to_string(), 7), Some("funny".to_string()));
    assert!(store.library_has_clip(&"alice".to_string(), &"funny".to_string()));
}

#[test]
fn successful_ingest_clears_pending_marker() {
    let name = "alice".to_string();
    let mut store = AssetStore::new();
    let mut presence = GuildPresence::new();
    resolve_and_play(&mut store, &mut presence, &name, 7, 100);
    assert!(store.has_marker(&name));
    ingest(&mut store, &upload(7, "alice", "funny"), true, true).unwrap();
    assert!(!store.has_marker(&name), "ingestion must clear the pending-synthesis marker");
}

#[test]
fn window_at_cap_succeeds_just_over_fails() {
    let mut store = AssetStore::new();
    let at_cap = remote(7, 1_000_000, 8_000_000);
    assert!(ingest(&mut store, &at_cap, true, true).is_ok());

    let over = remote(7, 1_000_000, 8_010_000);
    assert_eq!(
        ingest(&mut store, &over, true, true),
        Err(IngestError::Validation(ValidationError::WindowTooLong))
    );
}

#[test]
fn authorized_override_admits_any_window() {
    let mut store = AssetStore::new();
    let mut long = remote(7, 0, 3_600_000_000);
    long.override_length = true;
    long.caller_authorized = true;
    assert!(ingest(&mut store, &long, true, true).is_ok());
}

#[test]
fn unauthorized_override_is_rejected_first() {
    let mut store = AssetStore::new();
    let mut req = remote(7, 0, 3_600_000_000);
    req.override_length = true;
    req.caller_authorized = false;
    // Even with an over-long name the override check comes first.
    req.clip_name = "x".repeat(CLIP_NAME_MAX_CHARS + 1);
    assert_eq!(
        ingest(&mut store, &req, true, true),
        Err(IngestError::Validation(ValidationError::OverrideNotAuthorized))
    );
}

#[test]
fn clip_name_length_boundary() {
    let mut store = AssetStore::new();
    let ok = upload(7, "alice", &"x".repeat(CLIP_NAME_MAX_CHARS));
    assert!(ingest(&mut store, &ok, true, true).is_ok());

    let long = upload(7, "alice", &"x".repeat(CLIP_NAME_MAX_CHARS + 1));
    assert_eq!(
        ingest(&mut store, &long, true, true),
        Err(IngestError::Validation(ValidationError::NameTooLong))
    );
}

#[test]
fn malformed_url_is_rejected() {
    let mut store = AssetStore::new();
    let mut req = remote(7, 0, 1_000_000);
    req.source = Source::Remote {
        url: "not a url at all".to_string(),
        start_micros: 0,
        end_micros: 1_000_000,
    };
    assert_eq!(
        ingest(&mut store, &req, true, true),
        Err(IngestError::Validation(ValidationError::MalformedUrl))
    );
}

#[test]
fn backwards_window_is_rejected() {
    let mut store = AssetStore::new();
    let req = remote(7, 2_000_000, 1_000_000);
    assert_eq!(
        ingest(&mut store, &req, true, true),
        Err(IngestError::Validation(ValidationError::WindowInvalid))
    );
}

#[test]
fn failed_transform_leaves_no_trace() {
    let mut store = AssetStore::new();
    let r = ingest(&mut store, &upload(7, "alice", "funny"), true, false);
    assert_eq!(r, Err(IngestError::Tool(IngestStage::Transform)));
    assert_eq!(store.get_active_clip(&"alice".to_string(), 7), None);
    assert!(!store.has_library(&"alice".to_string()));
    for kind in [WorkKind::Raw, WorkKind::Processed] {
        assert!(!store.workspace_has(WorkspaceFile { job: 0, kind }));
    }
}

#[test]
fn failed_acquire_reports_its_stage() {
    let mut store = AssetStore::new();
    let r = ingest(&mut store, &upload(7, "alice", "funny"), false, true);
    assert_eq!(r, Err(IngestError::Tool(IngestStage::Acquire)));
    assert!(!store.has_library(&"alice".to_string()));
}

#[test]
fn stepwise_upload_pipeline() {
    let mut store = AssetStore::new();
    let (job, act) = ingest_begin(&mut store, &upload(7, "alice", "funny")).unwrap();
    match act {
        ToolAction::StoreUpload { job: j } => assert_eq!(j, job.id),
        _ => panic!("an upload starts by persisting the bytes"),
    }

    let (job, act) = ingest_acquired(&mut store, job, true).unwrap();
    assert!(store.workspace_has(WorkspaceFile { job: job.id, kind: WorkKind::Raw }));
    match act {
        ToolAction::Transform { job: j, filter_chain, trim_micros } => {
            assert_eq!(j, job.id);
            assert_eq!(filter_chain, "loudnorm");
            assert_eq!(trim_micros, Some(TRIM_LIMIT_MICROS));
        }
        _ => panic!("acquire is followed by one transform invocation"),
    }

    let clip = ingest_transformed(&mut store, job, true).unwrap();
    assert_eq!(clip, "funny");
    assert!(!store.workspace_has(WorkspaceFile { job: 0, kind: WorkKind::Raw }));
    assert!(store.library_has_clip(&"alice".to_string(), &"funny".to_string()));
}

#[test]
fn filters_are_chained_before_loudnorm() {
    let mut store = AssetStore::new();
    let mut req = upload(7, "alice", "funny");
    req.filters = Some("vibrato=d=1.0".to_string());
    let (job, _) = ingest_begin(&mut store, &req).unwrap();
    let (_, act) = ingest_acquired(&mut store, job, true).unwrap();
    match act {
        ToolAction::Transform { filter_chain, .. } => {
            assert_eq!(filter_chain, "vibrato=d=1.0,loudnorm");
        }
        _ => panic!("expected the transform invocation"),
    }
}

#[test]
fn override_skips_the_trim() {
    let mut store = AssetStore::new();
    let mut req = upload(7, "alice", "funny");
    req.override_length = true;
    req.caller_authorized = true;
    let (job, _) = ingest_begin(&mut store, &req).unwrap();
    let (_, act) = ingest_acquired(&mut store, job, true).unwrap();
    match act {
        ToolAction::Transform { trim_micros, .. } => assert_eq!(trim_micros, None),
        _ => panic!("expected the transform invocation"),
    }
}

#[test]
fn remote_source_prescribes_extraction() {
    let mut store = AssetStore::new();
    let (job, act) = ingest_begin(&mut store, &remote(7, 500_000, 6_500_000)).unwrap();
    match act {
        ToolAction::FetchRemote { job: j, url, start_micros, end_micros } => {
            assert_eq!(j, job.id);
            assert_eq!(url, "https://example.com/watch?v=123");
            assert_eq!(start_micros, 500_000);
            assert_eq!(end_micros, 6_500_000);
        }
        _ => panic!("a remote source starts with the extraction"),
    }
}

#[test]
fn concurrent_attempts_get_distinct_workspace_names() {
    let mut store = AssetStore::new();
    let (job_a, _) = ingest_begin(&mut store, &upload(7, "alice", "same")).unwrap();
    let (job_b, _) = ingest_begin(&mut store, &upload(8, "alice", "same")).unwrap();
    assert_ne!(job_a.id, job_b.id, "workspace files are keyed by job, not by clip name");
}

#[test]
fn error_messages() {
    assert_eq!(
        IngestError::Validation(ValidationError::WindowTooLong).message(),
        "duration is too long"
    );
    assert_eq!(
        IngestError::Tool(IngestStage::Transform).message(),
        "failed to apply the audio filter"
    );
}
