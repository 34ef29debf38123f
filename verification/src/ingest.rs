//! The ingestion pipeline: turns one submission into exactly one durably
//! published clip, or leaves all durable state unchanged on failure.
//!
//! A submission is validated before any external tool runs; the two
//! external stages (acquiring the source audio, then filtering, loudness
//! normalization and length bounding in one transcoder invocation) are
//! driven by the embedding program, which performs the prescribed
//! `ToolAction` and reports its outcome to the next step. Every workspace
//! file of a failed attempt is removed; durable state (the library and the
//! record table) changes only when the final stage publishes: the processed
//! file is renamed into the library (rename being the one atomic step on a
//! single filesystem), the record's selection is then upserted, and any
//! pending-synthesis marker is dropped. A clip published by the rename
//! whose upsert then fails in the real stores is an accepted, logged
//! inconsistency of the embedding program, not rolled back.

use vstd::prelude::*;

use vstd::std_specs::iter::IteratorSpec;
use vstd::string::StringExecFns;

use crate::store::{
    lib_add, opt_str_view, set_active_effect, spec_active, AssetStore, StoreView, WorkKind,
    WorkspaceFile,
};
use crate::{CLIP_NAME_MAX_CHARS, TRIM_LIMIT_MICROS, URL_WINDOW_CAP_MICROS};

verus! {

broadcast use vstd::string::axiom_spec_iter, vstd::string::next_postcondition;

/// What a URL-sourced submission carries besides the URL: the window of the
/// remote media to extract, in microseconds from its start.
pub enum Source {
    /// Raw uploaded bytes.
    Upload(Vec<u8>),
    /// A remote medium and the [start, end) window to extract from it.
    Remote { url: String, start_micros: u64, end_micros: u64 },
}

/// One ingestion submission.
pub struct IngestRequest {
    /// The user the published clip is recorded for.
    pub owner: u64,
    /// The library (display name) the clip is published under.
    pub display_name: String,
    /// The caller-chosen name of the clip.
    pub clip_name: String,
    pub source: Source,
    /// An optional transcoder filter chain, applied before the mandatory
    /// loudness normalization.
    pub filters: Option<String>,
    /// Whether the caller asked to override the length bounds.
    pub override_length: bool,
    /// Whether the caller is authorized to override the length bounds.
    pub caller_authorized: bool,
}

/// Rejections issued before any external tool runs.
#[derive(Clone, Copy, PartialEq, Eq, Structural, Debug)]
pub enum ValidationError {
    /// The length override was requested by an unauthorized caller.
    OverrideNotAuthorized,
    /// The clip name exceeds the permitted length.
    NameTooLong,
    /// The submission's URL does not parse.
    MalformedUrl,
    /// The window ends before it starts.
    WindowInvalid,
    /// The window exceeds the cap and no override was granted.
    WindowTooLong,
}

/// The two external stages an attempt runs.
#[derive(Clone, Copy, PartialEq, Eq, Structural, Debug)]
pub enum IngestStage {
    Acquire,
    Transform,
}

/// Why an ingestion attempt reported failure.
#[derive(Clone, Copy, PartialEq, Eq, Structural, Debug)]
pub enum IngestError {
    /// The submission was rejected before any external tool ran.
    Validation(ValidationError),
    /// An external tool exited unsuccessfully in the named stage.
    Tool(IngestStage),
}

impl IngestError {
    /// A short human-readable description.
    pub fn message(&self) -> (r: &'static str) {
        match self {
            IngestError::Validation(ValidationError::OverrideNotAuthorized) => "you are not allowed to use the length override",
            IngestError::Validation(ValidationError::NameTooLong) => "announcement name is too long",
            IngestError::Validation(ValidationError::MalformedUrl) => "please provide a valid url",
            IngestError::Validation(ValidationError::WindowInvalid) => "the window ends before it starts",
            IngestError::Validation(ValidationError::WindowTooLong) => "duration is too long",
            IngestError::Tool(IngestStage::Acquire) => "failed to acquire the source audio",
            IngestError::Tool(IngestStage::Transform) => "failed to apply the audio filter",
        }
    }
}

/// How far an in-flight attempt has come.
#[derive(Clone, Copy, PartialEq, Eq, Structural, Debug)]
pub enum JobStage {
    AwaitAcquire,
    AwaitTransform,
}

/// One in-flight ingestion attempt. Its workspace files are keyed by the
/// unique `id`, never by the caller-chosen names.
#[derive(Clone)]
pub struct IngestJob {
    pub id: u64,
    pub owner: u64,
    pub display_name: String,
    pub clip_name: String,
    pub filters: Option<String>,
    pub override_length: bool,
    pub stage: JobStage,
}

/// The external work the embedding program performs between steps.
pub enum ToolAction {
    /// Persist the submission's uploaded bytes as the job's raw workspace
    /// file.
    StoreUpload { job: u64 },
    /// Resolve the URL to a direct media stream and extract the
    /// [start, end) window into the job's raw workspace file.
    FetchRemote { job: u64, url: String, start_micros: u64, end_micros: u64 },
    /// One transcoder invocation on the job's raw workspace file: apply the
    /// filter chain, re-encode to the canonical format, and truncate to
    /// `trim_micros` when set; the output is the job's processed workspace
    /// file.
    Transform { job: u64, filter_chain: String, trim_micros: Option<u64> },
}

/// Names what url::Url::parse accepts: whether the text is an absolute URL
/// depends on the text alone.
pub uninterp spec fn url_parses(s: Seq<char>) -> bool;

/// Relies on url::Url::parse: returns whether the text parses as an
/// absolute URL.
#[verifier::external_body]
fn url_parse_ok(s: &String) -> (r: bool)
    ensures
        r == url_parses(s@),
{
    url::Url::parse(s.as_str()).is_ok()
}

/// Whether the clip name exceeds the permitted length, counted in
/// characters.
pub fn clip_name_too_long(s: &String) -> (r: bool)
    ensures
        r == (s@.len() > CLIP_NAME_MAX_CHARS),
{
    let mut it = s.as_str().chars();
    let mut n: usize = 0;
    loop
        invariant
            it.obeys_prophetic_iter_laws(),
            it.decrease() is Some,
            n + it.remaining().len() == s@.len(),
            n <= CLIP_NAME_MAX_CHARS,
        decreases it.decrease()->0,
    {
        match it.next() {
            None => {
                return false;
            },
            Some(_) => {
                if n == CLIP_NAME_MAX_CHARS {
                    return true;
                }
                n = n + 1;
            },
        }
    }
}

/// The submission's rejection, if validation rejects it: an unauthorized
/// override request, an over-long clip name, and, for URL sources, a
/// malformed URL, a window that ends before it starts, or a window over the
/// cap without a granted override.
pub open spec fn spec_validate(req: IngestRequest) -> Option<ValidationError> {
    if req.override_length && !req.caller_authorized {
        Some(ValidationError::OverrideNotAuthorized)
    } else if req.clip_name@.len() > CLIP_NAME_MAX_CHARS {
        Some(ValidationError::NameTooLong)
    } else {
        match req.source {
            Source::Upload(_) => None,
            Source::Remote { url, start_micros, end_micros } => {
                if !url_parses(url@) {
                    Some(ValidationError::MalformedUrl)
                } else if end_micros < start_micros {
                    Some(ValidationError::WindowInvalid)
                } else if !req.override_length && end_micros - start_micros
                    > URL_WINDOW_CAP_MICROS {
                    Some(ValidationError::WindowTooLong)
                } else {
                    None
                }
            },
        }
    }
}

/// Validate a submission; nothing external runs and nothing changes.
pub fn validate(req: &IngestRequest) -> (r: Option<ValidationError>)
    ensures
        r == spec_validate(*req),
{
    if req.override_length && !req.caller_authorized {
        return Some(ValidationError::OverrideNotAuthorized);
    }
    if clip_name_too_long(&req.clip_name) {
        return Some(ValidationError::NameTooLong);
    }
    match &req.source {
        Source::Upload(_) => None,
        Source::Remote { url, start_micros, end_micros } => {
            if !url_parse_ok(url) {
                Some(ValidationError::MalformedUrl)
            } else if *end_micros < *start_micros {
                Some(ValidationError::WindowInvalid)
            } else if !req.override_length && *end_micros - *start_micros > URL_WINDOW_CAP_MICROS {
                Some(ValidationError::WindowTooLong)
            } else {
                None
            }
        },
    }
}

/// The transcoder filter argument: the caller's chain, if any, followed by
/// the mandatory loudness normalization.
pub open spec fn spec_filter_chain(f: Option<Seq<char>>) -> Seq<char> {
    match f {
        Some(fs) => fs + ",loudnorm"@,
        None => "loudnorm"@,
    }
}

fn build_filter_chain(filters: &Option<String>) -> (r: String)
    ensures
        r@ == spec_filter_chain(opt_str_view(*filters)),
{
    match filters {
        Some(f) => f.clone().concat(",loudnorm"),
        None => "loudnorm".to_owned(),
    }
}

/// Start one ingestion attempt: validate the submission, and on success
/// issue a fresh job id and prescribe the acquire stage. Nothing durable
/// changes; rejected submissions change nothing at all.
pub fn ingest_begin(store: &mut AssetStore, req: &IngestRequest) -> (r: Result<
    (IngestJob, ToolAction),
    IngestError,
>)
    requires
        old(store).wf(),
        old(store)@.next_job < u64::MAX,
    ensures
        final(store).wf(),
        match spec_validate(*req) {
            Some(e) => r matches Err(err) && err == IngestError::Validation(e) && *final(store)
                == *old(store),
            None => r matches Ok((job, act)) && {
                &&& job.id == old(store)@.next_job
                &&& job.owner == req.owner
                &&& job.display_name@ == req.display_name@
                &&& job.clip_name@ == req.clip_name@
                &&& opt_str_view(job.filters) == opt_str_view(req.filters)
                &&& job.override_length == req.override_length
                &&& job.stage == JobStage::AwaitAcquire
                &&& (match req.source {
                    Source::Upload(_) => act matches ToolAction::StoreUpload { job: j } && j
                        == job.id,
                    Source::Remote { url, start_micros, end_micros } => act
                        matches ToolAction::FetchRemote {
                        job: j,
                        url: u,
                        start_micros: s,
                        end_micros: e,
                    } && j == job.id && u@ == url@ && s == start_micros && e == end_micros,
                })
                &&& final(store)@ == (StoreView {
                    next_job: (old(store)@.next_job + 1) as u64,
                    ..old(store)@
                })
                &&& (forall|w: WorkspaceFile|
                    final(store)@.workspace.contains(w) ==> w.job != job.id)
            },
        },
{
    match validate(req) {
        Some(e) => Err(IngestError::Validation(e)),
        None => {
            let id = store.new_job();
            let job = IngestJob {
                id,
                owner: req.owner,
                display_name: req.display_name.clone(),
                clip_name: req.clip_name.clone(),
                filters: match &req.filters {
                    Some(f) => Some(f.clone()),
                    None => None,
                },
                override_length: req.override_length,
                stage: JobStage::AwaitAcquire,
            };
            let act = match &req.source {
                Source::Upload(_) => ToolAction::StoreUpload { job: id },
                Source::Remote { url, start_micros, end_micros } => ToolAction::FetchRemote {
                    job: id,
                    url: url.clone(),
                    start_micros: *start_micros,
                    end_micros: *end_micros,
                },
            };
            Ok((job, act))
        },
    }
}

/// Advance an attempt past the acquire stage. On success the raw workspace
/// file now exists and the transform stage is prescribed; on failure the
/// attempt aborts having produced nothing, and nothing changes.
pub fn ingest_acquired(store: &mut AssetStore, job: IngestJob, acquire_ok: bool) -> (r: Result<
    (IngestJob, ToolAction),
    IngestError,
>)
    requires
        old(store).wf(),
        job.stage == JobStage::AwaitAcquire,
        job.id < old(store)@.next_job,
        forall|w: WorkspaceFile| old(store)@.workspace.contains(w) ==> w.job != job.id,
    ensures
        final(store).wf(),
        !acquire_ok ==> (r matches Err(e) && e == IngestError::Tool(IngestStage::Acquire)
            && *final(store) == *old(store)),
        acquire_ok ==> (r matches Ok((job2, act)) && {
            &&& job2 == (IngestJob { stage: JobStage::AwaitTransform, ..job })
            &&& act matches ToolAction::Transform { job: j, filter_chain, trim_micros } && j
                == job.id && filter_chain@ == spec_filter_chain(opt_str_view(job.filters))
                && trim_micros == (if job.override_length {
                Option::<u64>::None
            } else {
                Some(TRIM_LIMIT_MICROS)
            })
            &&& final(store)@ == (StoreView {
                workspace: old(store)@.workspace.insert(
                    WorkspaceFile { job: job.id, kind: WorkKind::Raw },
                ),
                ..old(store)@
            })
        }),
{
    if !acquire_ok {
        return Err(IngestError::Tool(IngestStage::Acquire));
    }
    store.ws_add(WorkspaceFile { job: job.id, kind: WorkKind::Raw });
    let filter_chain = build_filter_chain(&job.filters);
    let trim_micros = if job.override_length {
        None
    } else {
        Some(TRIM_LIMIT_MICROS)
    };
    let act = ToolAction::Transform { job: job.id, filter_chain, trim_micros };
    let job2 = IngestJob { stage: JobStage::AwaitTransform, ..job };
    Ok((job2, act))
}

/// Finish an attempt after the transform stage. On failure every workspace
/// file of the attempt is removed and durable state is untouched. On
/// success the processed file is published: the library directory is
/// ensured and the file renamed into it under the clip name, the record's
/// selection is upserted, any pending-synthesis marker is dropped, and the
/// workspace is cleaned; no workspace file of the attempt survives either
/// way.
pub fn ingest_transformed(store: &mut AssetStore, job: IngestJob, transform_ok: bool) -> (r: Result<
    String,
    IngestError,
>)
    requires
        old(store).wf(),
        job.stage == JobStage::AwaitTransform,
        job.id < old(store)@.next_job,
        old(store)@.workspace.contains(WorkspaceFile { job: job.id, kind: WorkKind::Raw }),
        !old(store)@.workspace.contains(WorkspaceFile { job: job.id, kind: WorkKind::Processed }),
    ensures
        final(store).wf(),
        forall|w: WorkspaceFile| final(store)@.workspace.contains(w) ==> w.job != job.id,
        !transform_ok ==> (r matches Err(e) && e == IngestError::Tool(IngestStage::Transform)
            && final(store)@ == (StoreView {
            workspace: old(store)@.workspace.remove(
                WorkspaceFile { job: job.id, kind: WorkKind::Raw },
            ),
            ..old(store)@
        })),
        transform_ok ==> (r matches Ok(clip) && clip@ == job.clip_name@ && final(store)@ == (
        StoreView {
            records: set_active_effect(
                old(store)@.records,
                job.display_name@,
                job.owner,
                job.clip_name@,
            ),
            libraries: lib_add(old(store)@.libraries, job.display_name@, job.clip_name@),
            markers: old(store)@.markers.remove(job.display_name@),
            workspace: old(store)@.workspace.remove(
                WorkspaceFile { job: job.id, kind: WorkKind::Raw },
            ),
            ..old(store)@
        })),
{
    let raw = WorkspaceFile { job: job.id, kind: WorkKind::Raw };
    if !transform_ok {
        store.ws_remove(raw);
        proof {
            lemma_no_job_files_left(old(store)@.workspace, store@.workspace, job.id);
        }
        return Err(IngestError::Tool(IngestStage::Transform));
    }
    let processed = WorkspaceFile { job: job.id, kind: WorkKind::Processed };
    store.ws_add(processed);
    store.register_clip(&job.display_name, &job.clip_name);
    store.ws_remove(processed);
    store.set_active(&job.display_name, job.owner, &job.clip_name);
    store.remove_marker(&job.display_name);
    store.ws_remove(raw);
    proof {
        assert(store@.workspace =~= old(store)@.workspace.remove(raw));
        lemma_no_job_files_left(old(store)@.workspace, store@.workspace, job.id);
    }
    Ok(job.clip_name)
}

/// Once an attempt's raw and processed files are gone, no workspace file of
/// the attempt is left: an attempt owns no other files.
proof fn lemma_no_job_files_left(pre: Set<WorkspaceFile>, post: Set<WorkspaceFile>, id: u64)
    requires
        !pre.contains(WorkspaceFile { job: id, kind: WorkKind::Processed }),
        post == pre.remove(WorkspaceFile { job: id, kind: WorkKind::Raw }),
    ensures
        forall|w: WorkspaceFile| post.contains(w) ==> w.job != id,
{
    assert forall|w: WorkspaceFile| post.contains(w) implies w.job != id by {
        if w.job == id {
            match w.kind {
                WorkKind::Raw => {
                    assert(w == WorkspaceFile { job: id, kind: WorkKind::Raw });
                },
                WorkKind::Processed => {
                    assert(w == WorkspaceFile { job: id, kind: WorkKind::Processed });
                },
            }
        }
    }
}

/// One whole ingestion attempt, with the outcomes of the two external
/// stages supplied by the caller: exactly one success or one error comes
/// back. Validation rejects before anything changes; a failed stage leaves
/// no workspace file of the attempt and no durable change; success
/// publishes the clip into the library, selects it for the owner, and drops
/// any pending-synthesis marker. Embedding programs that run the real
/// tools drive the same steps through `ingest_begin`, `ingest_acquired`
/// and `ingest_transformed`.
pub fn ingest(
    store: &mut AssetStore,
    req: &IngestRequest,
    acquire_ok: bool,
    transform_ok: bool,
) -> (r: Result<String, IngestError>)
    requires
        old(store).wf(),
        old(store)@.next_job < u64::MAX,
    ensures
        final(store).wf(),
        match spec_validate(*req) {
            Some(e) => r matches Err(err) && err == IngestError::Validation(e) && *final(store)
                == *old(store),
            None => {
                if !acquire_ok {
                    r matches Err(e) && e == IngestError::Tool(IngestStage::Acquire)
                        && final(store)@ == (StoreView {
                        next_job: (old(store)@.next_job + 1) as u64,
                        ..old(store)@
                    })
                } else if !transform_ok {
                    r matches Err(e) && e == IngestError::Tool(IngestStage::Transform)
                        && final(store)@ == (StoreView {
                        next_job: (old(store)@.next_job + 1) as u64,
                        ..old(store)@
                    })
                } else {
                    r matches Ok(clip) && clip@ == req.clip_name@ && final(store)@ == (StoreView {
                        records: set_active_effect(
                            old(store)@.records,
                            req.display_name@,
                            req.owner,
                            req.clip_name@,
                        ),
                        libraries: lib_add(old(store)@.libraries, req.display_name@, req.clip_name@),
                        markers: old(store)@.markers.remove(req.display_name@),
                        next_job: (old(store)@.next_job + 1) as u64,
                        ..old(store)@
                    })
                }
            },
        },
{
    let ghost pre = store@;
    match ingest_begin(store, req) {
        Err(e) => Err(e),
        Ok((job, _act)) => {
            match ingest_acquired(store, job, acquire_ok) {
                Err(e) => Err(e),
                Ok((job2, _act2)) => {
                    let ghost mid = store@;
                    let ghost raw = WorkspaceFile { job: job2.id, kind: WorkKind::Raw };
                    let r = ingest_transformed(store, job2, transform_ok);
                    proof {
                        assert(mid.workspace.remove(raw) =~= pre.workspace);
                    }
                    r
                },
            }
        },
    }
}

/// After a successful ingestion for (owner, name, clip), the selected clip
/// for (name, owner) is exactly `clip`, and `clip` is present in the
/// name's library.
pub proof fn lemma_ingest_round_trip(v: StoreView, owner: u64, name: Seq<char>, clip: Seq<char>)
    ensures
        ({
            let recs = set_active_effect(v.records, name, owner, clip);
            let libs = lib_add(v.libraries, name, clip);
            spec_active(recs, name, owner) == Some(clip) && libs.contains_key(name)
                && libs[name].contains(clip)
        }),
{
    let cur = if v.libraries.contains_key(name) {
        v.libraries[name]
    } else {
        Seq::<Seq<char>>::empty()
    };
    if !cur.contains(clip) {
        assert(cur.push(clip)[cur.len() as int] == clip);
        assert(cur.push(clip).contains(clip));
    }
}

} // verus!
