//! Requests to the data-api and the meaning of its replies.

use chronicle_worker::api_client::{
    check_auth, check_delete, check_ok, check_patch, check_session, client_id, items_key,
    resource_ids, ApiRequest, Body, ChunkDownload, DataApiClient, DownloadStep, Listing, Method,
    ResourceKind, ResourceRow, SessionSummary,
};
use chronicle_worker::error::WorkerError;
use chronicle_worker::event_loop::startup_reconcile;
use chronicle_worker::ids::{ChunkSeq, PseudoId, SessionId};
use chronicle_worker::job::{Reply, Request};
use chronicle_worker::session_runner::{clear_prior_outputs, run_one_shot};
use chronicle_worker::time::Duration;
use chronicle_worker::ws::redact_token;
use uuid::Uuid;

fn client(base_url: &str, token: &str) -> DataApiClient {
    DataApiClient::authenticate(
        base_url.to_string(),
        "secret".to_string(),
        "test".to_string(),
        Ok(token.to_string()),
    )
    .expect("auth")
}

fn text_of(e: WorkerError) -> String {
    e.message()
}

#[test]
fn claim_returns_claim_lost_on_409() {
    let session = Uuid::new_v4();
    let api = client("http://data-api", "tok");

    let request = api.claim_session(SessionId(session.as_u128()));
    assert!(request.method == Method::Patch);
    assert_eq!(request.url, format!("http://data-api/internal/sessions/{session}"));
    assert!(matches!(&request.body, Body::Status(s) if s == "transcribing"));

    let result = check_patch(
        SessionId(session.as_u128()),
        409,
        "{\"error\":\"invalid transition: transcribing already claimed\"}",
    );
    match result {
        Err(WorkerError::ClaimLost(id)) => assert_eq!(id.as_uuid(), session.as_u128()),
        other => panic!("expected ClaimLost, got {other:?}"),
    }
}

#[test]
fn claim_succeeds_on_200() {
    let session = Uuid::new_v4();
    let api = client("http://data-api", "tok");
    let request = api.claim_session(SessionId(session.as_u128()));
    assert_eq!(request.url, format!("http://data-api/internal/sessions/{session}"));
    check_patch(SessionId(session.as_u128()), 200, "").expect("claim wins");
}

#[test]
fn startup_lists_transcribing_and_reclaims() {
    let orphan = Uuid::new_v4();
    let api = client("http://data-api", "tok");

    let request = api.list_sessions_by_status("transcribing");
    assert!(request.method == Method::Get);
    assert_eq!(request.url, "http://data-api/internal/sessions?status=transcribing");

    // Each orphan is run again, and its run begins with a claim.
    let listed = vec![SessionSummary {
        id: SessionId(orphan.as_u128()),
        status: "transcribing".to_string(),
    }];
    let orphans = startup_reconcile(Ok(listed), Ok(vec![]));
    assert_eq!(orphans.len(), 1);
    assert_eq!(orphans[0].session.as_uuid(), orphan.as_u128());
    let (job, first) = run_one_shot::<()>(orphans[0].session);
    match first {
        Request::Patch(id, status) => {
            let patch = api.patch_status(id, status.as_str());
            assert_eq!(patch.url, format!("http://data-api/internal/sessions/{orphan}"));
            assert!(matches!(&patch.body, Body::Status(s) if s == "transcribing"));
            check_patch(id, 200, "").expect("idempotent reclaim");
        }
        _ => panic!("a run begins with its claim"),
    }
    let (_, next) = job.step(Reply::Done(Ok(())));
    assert!(matches!(next, Request::ListParticipants(id) if id.as_uuid() == orphan.as_u128()));
}

#[test]
fn clear_prior_outputs_deletes_segments_beats_scenes() {
    let session = Uuid::new_v4();
    let seg1 = Uuid::new_v4();
    let seg2 = Uuid::new_v4();
    let beat1 = Uuid::new_v4();
    let scene1 = Uuid::new_v4();
    let api = client("http://data-api", "tok");
    let id = SessionId(session.as_u128());

    let base = format!("http://data-api/internal/sessions/{session}");
    assert_eq!(api.list_segment_ids(id).url, format!("{base}/segments"));
    assert_eq!(api.list_beat_ids(id).url, format!("{base}/beats"));
    assert_eq!(api.list_scene_ids(id).url, format!("{base}/scenes"));

    let rows = |ids: &[Uuid]| {
        let rows = ids.iter().map(|u| ResourceRow { id: u.as_u128() }).collect();
        resource_ids(Listing::Array(Ok(rows)))
    };
    let deletions = clear_prior_outputs(rows(&[seg1, seg2]), rows(&[beat1]), rows(&[scene1]));

    let urls: Vec<String> = deletions
        .iter()
        .map(|d| {
            let request = api.delete_resource(d.kind, d.id);
            assert!(request.method == Method::Delete);
            check_delete(204, "").expect("clear prior outputs");
            request.url
        })
        .collect();

    // 2 segments + 1 beat + 1 scene = 4 deletes.
    assert_eq!(urls.len(), 4);
    assert_eq!(
        urls,
        vec![
            format!("http://data-api/internal/segments/{seg1}"),
            format!("http://data-api/internal/segments/{seg2}"),
            format!("http://data-api/internal/beats/{beat1}"),
            format!("http://data-api/internal/scenes/{scene1}"),
        ]
    );
}

#[test]
fn failed_listings_clear_what_is_known() {
    let down = || Err(WorkerError::Api("500: down".to_string()));
    assert!(clear_prior_outputs(down(), down(), down()).is_empty());
    let some = clear_prior_outputs(down(), Ok(vec![7]), down());
    assert_eq!(some.len(), 1);
    assert!(some[0].kind == ResourceKind::Beats && some[0].id == 7);
}

#[test]
fn rows_are_known_by_kind_and_index() {
    assert_eq!(client_id(ResourceKind::Segments, 0), "segments-0");
    assert_eq!(client_id(ResourceKind::Beats, 12), "beats-12");
    assert_eq!(client_id(ResourceKind::Scenes, -1), "scenes--1");
    assert_eq!(client_id(ResourceKind::Scenes, i32::MIN), "scenes--2147483648");
    assert_ne!(client_id(ResourceKind::Segments, 1), client_id(ResourceKind::Scenes, 1));
    assert_ne!(client_id(ResourceKind::Segments, 1), client_id(ResourceKind::Segments, -1));
    assert_eq!(items_key(), "items");
}

#[test]
fn listing_shapes() {
    let rows = || Ok(vec![ResourceRow { id: 1 }, ResourceRow { id: 2 }]);
    assert_eq!(resource_ids(Listing::Array(rows())).unwrap(), vec![1, 2]);
    assert_eq!(resource_ids(Listing::Object(Some(rows()))).unwrap(), vec![1, 2]);
    assert_eq!(resource_ids(Listing::Object(None)).unwrap(), Vec::<u128>::new());
    assert_eq!(resource_ids(Listing::Other).unwrap(), Vec::<u128>::new());
    let bad = resource_ids(Listing::Array(Err("missing field `id`".to_string())));
    assert_eq!(text_of(bad.unwrap_err()), "data-api error: json: missing field `id`");
    let bad = resource_ids(Listing::Object(Some(Err("x".to_string()))));
    assert_eq!(text_of(bad.unwrap_err()), "data-api error: json: x");
}

#[test]
fn replies_map_to_errors() {
    let id = SessionId(0);
    let zero = "00000000-0000-0000-0000-000000000000";
    assert!(check_ok(200, "").is_ok());
    assert!(check_ok(299, "").is_ok());
    assert_eq!(text_of(check_ok(300, "b").unwrap_err()), "data-api error: 300: b");
    assert_eq!(text_of(check_ok(199, "").unwrap_err()), "data-api error: 199: ");
    assert_eq!(text_of(check_auth(403, "no").unwrap_err()), "data-api error: auth 403: no");
    assert!(check_auth(200, "").is_ok());
    assert_eq!(
        text_of(check_patch(id, 409, "").unwrap_err()),
        format!("claim lost for session {zero}")
    );
    assert_eq!(
        text_of(check_patch(id, 404, "").unwrap_err()),
        format!("session {zero} not found")
    );
    assert_eq!(text_of(check_patch(id, 500, "e").unwrap_err()), "data-api error: 500: e");
    assert_eq!(
        text_of(check_session(id, 404, "").unwrap_err()),
        format!("session {zero} not found")
    );
    assert_eq!(text_of(check_session(id, 409, "c").unwrap_err()), "data-api error: 409: c");
    assert!(check_delete(404, "gone").is_ok());
    assert_eq!(text_of(check_delete(500, "e").unwrap_err()), "data-api error: 500: e");
}

fn line<R>(r: &ApiRequest<R>) -> String {
    let method = match r.method {
        Method::Get => "GET",
        Method::Post => "POST",
        Method::Patch => "PATCH",
        Method::Delete => "DELETE",
    };
    format!("{method} {} {}", r.url, r.authorization.as_deref().unwrap_or("-"))
}

#[test]
fn requests_carry_path_and_token() {
    let api = client("http://h:1", "tok");
    let id = SessionId(0x0123456789abcdef0123456789abcdef);
    let s = "http://h:1/internal/sessions/01234567-89ab-cdef-0123-456789abcdef";
    let pseudo = PseudoId::new("aabb".to_string());
    assert_eq!(line(&api.heartbeat()), "POST http://h:1/internal/heartbeat Bearer tok");
    assert_eq!(line(&api.get_session(id)), format!("GET {s} Bearer tok"));
    assert_eq!(line(&api.mark_transcribed(id)), format!("PATCH {s} Bearer tok"));
    assert!(matches!(&api.mark_transcribed(id).body, Body::Status(t) if t == "transcribed"));
    assert!(matches!(&api.mark_failed(id).body, Body::Status(t) if t == "transcribing_failed"));
    assert_eq!(line(&api.list_participants(id)), format!("GET {s}/participants Bearer tok"));
    assert_eq!(
        line(&api.list_chunks(id, &pseudo)),
        format!("GET {s}/audio/aabb/chunks Bearer tok")
    );
    assert_eq!(
        line(&api.download_chunk(id, &pseudo, ChunkSeq::new(4294967295))),
        format!("GET {s}/audio/aabb/chunk/4294967295 Bearer tok")
    );
    assert_eq!(
        line(&api.post_segments(id, vec!["row"]).unwrap()),
        format!("POST {s}/segments Bearer tok")
    );
    match api.post_beats(id, vec!["one", "two"]).unwrap().body {
        Body::Rows(ResourceKind::Beats, rows) => assert_eq!(rows, vec!["one", "two"]),
        other => panic!("unexpected body {other:?}"),
    }
    let none = || Vec::<&str>::new();
    assert!(api.post_segments(id, none()).is_none());
    assert!(api.post_beats(id, none()).is_none());
    assert!(api.post_scenes(id, none()).is_none());
    assert_eq!(
        line(&api.delete_segment(id.as_uuid())),
        "DELETE http://h:1/internal/segments/01234567-89ab-cdef-0123-456789abcdef Bearer tok"
    );
    assert_eq!(
        line(&api.delete_scene(0)),
        "DELETE http://h:1/internal/scenes/00000000-0000-0000-0000-000000000000 Bearer tok"
    );
    assert_eq!(api.base_url(), "http://h:1");
}

#[test]
fn authentication_exchanges_the_secret() {
    let r = DataApiClient::do_auth("http://h", "s3", "worker");
    assert_eq!(line(&r), "POST http://h/internal/auth -");
    match r.body {
        Body::Credentials { shared_secret, service_name } => {
            assert_eq!((shared_secret.as_str(), service_name.as_str()), ("s3", "worker"));
        }
        other => panic!("unexpected body {other:?}"),
    }
    let refused = DataApiClient::authenticate(
        "http://h".to_string(),
        "s3".to_string(),
        "worker".to_string(),
        Err(WorkerError::Api("auth 403: no".to_string())),
    );
    match refused {
        Err(WorkerError::Api(m)) => assert_eq!(m, "auth 403: no"),
        _ => panic!("a refused token gives no client"),
    }
}

#[test]
fn new_token_is_used_from_then_on() {
    let mut api = client("http://h", "one");
    assert_eq!(line(&api.auth_request()), "POST http://h/internal/auth -");
    assert!(api.re_authenticate(Err(WorkerError::Api("x".to_string()))).is_err());
    assert_eq!(line(&api.heartbeat()), "POST http://h/internal/heartbeat Bearer one");
    assert!(api.re_authenticate(Ok("two".to_string())).is_ok());
    assert_eq!(line(&api.heartbeat()), "POST http://h/internal/heartbeat Bearer two");
    assert_eq!(api.ws_url(), "ws://h/ws?token=two");
}

#[test]
fn bus_url_follows_the_base_scheme() {
    assert_eq!(client("http://h:8001", "t").ws_url(), "ws://h:8001/ws?token=t");
    assert_eq!(client("https://h/http", "t").ws_url(), "wss://h/http/ws?token=t");
    assert_eq!(client("h", "t").ws_url(), "h/ws?token=t");
}

#[test]
fn download_waits_out_server_failures() {
    let mut d = ChunkDownload::new();
    let mut waits = Vec::new();
    for _ in 0..3 {
        match d.on_reply(503, "busy") {
            DownloadStep::Wait(t) => waits.push(t),
            other => panic!("expected a wait, got {other:?}"),
        }
    }
    assert_eq!(
        waits,
        vec![Duration::from_secs(1), Duration::from_secs(2), Duration::from_secs(4)]
    );
    match d.on_reply(503, "busy") {
        DownloadStep::Fail(e) => {
            assert_eq!(text_of(e), "data-api error: chunk 503 Service Unavailable: busy");
        }
        other => panic!("expected a failure, got {other:?}"),
    }
}

#[test]
fn download_renews_the_token_once() {
    let mut d = ChunkDownload::new();
    assert!(matches!(d.on_reply(401, ""), DownloadStep::Renew));
    assert!(matches!(d.on_reply(500, ""), DownloadStep::Wait(t) if t == Duration::from_secs(1)));
    match d.on_reply(401, "again") {
        DownloadStep::Fail(e) => {
            assert_eq!(text_of(e), "data-api error: chunk 401 Unauthorized: again");
        }
        other => panic!("expected a failure, got {other:?}"),
    }
}

#[test]
fn download_settles_after_four_detours() {
    let mut d = ChunkDownload::new();
    for code in [500, 401, 502, 599] {
        assert!(matches!(d.on_reply(code, ""), DownloadStep::Renew | DownloadStep::Wait(_)));
    }
    for code in [100, 200, 301, 401, 404, 500, 599, 999] {
        assert!(matches!(d.on_reply(code, ""), DownloadStep::Done | DownloadStep::Fail(_)));
    }
}

#[test]
fn log_does_not_depend_on_the_token() {
    let one = redact_token(&client("https://h", "abc").ws_url());
    let other = redact_token(&client("https://h", "xtoken=yz").ws_url());
    assert_eq!(one, other);
    assert_eq!(one, "wss://h/ws?token=REDACTED");
}

#[test]
fn download_fails_fast_on_other_codes() {
    let fail = |code: u16| match ChunkDownload::new().on_reply(code, "b") {
        DownloadStep::Fail(e) => text_of(e),
        other => panic!("expected a failure, got {other:?}"),
    };
    assert_eq!(fail(404), "data-api error: chunk 404 Not Found: b");
    assert_eq!(fail(409), "data-api error: chunk 409 Conflict: b");
    assert_eq!(fail(600), "data-api error: chunk 600 <unknown status code>: b");
    assert!(matches!(ChunkDownload::new().on_reply(200, ""), DownloadStep::Done));
    assert!(matches!(ChunkDownload::new().on_reply(206, ""), DownloadStep::Done));
}
