//! The data-api as the worker sees it: what is requested and what a reply
//! means.
//!
//! The client describes each request as plain data; sending it is left to the
//! caller, who hands back the status and, where the status is no success, the
//! body's text.

use vstd::prelude::*;

use crate::config::signed_decimals_differ;
use crate::error::WorkerError;
use crate::ids::{hyphenated, uuid_text, ChunkSeq, PseudoId, SessionId};
use crate::job::SessionStatus;
use crate::text::{
    decimal, decimal_text, has_prefix, replace_at_front, replace_first, replacen_once,
    signed_decimal,
    signed_decimal_text, starts_with,
};
use crate::time::Duration;
use crate::ws::{redacted, redaction_hides_the_token};

verus! {

/// The part of a session row that the worker reads.
#[derive(Clone, Debug)]
pub struct SessionSummary {
    pub id: SessionId,
    pub status: String,
}

/// A session row with its start; `D` stands for a point in calendar time.
#[derive(Clone, Debug)]
pub struct SessionDetail<D> {
    pub id: SessionId,
    pub status: String,
    pub started_at: Option<D>,
}

/// A participant of a session.
#[derive(Clone, Debug)]
pub struct Participant {
    pub id: u128,
    pub user_pseudo_id: Option<String>,
    pub consent_scope: Option<String>,
}

/// A stored audio chunk.
#[derive(Clone, Debug)]
pub struct ChunkInfo {
    pub key: String,
    pub seq: u32,
    pub size: i64,
}

/// The id of a segment, beat or scene.
#[derive(Clone, Copy, Debug, PartialEq, Eq, Structural)]
pub struct ResourceRow {
    pub id: u128,
}

/// The kinds of output that a session has.
#[derive(Clone, Copy, Debug, PartialEq, Eq, Structural)]
pub enum ResourceKind {
    Segments,
    Beats,
    Scenes,
}

impl ResourceKind {
    /// The kind's name in paths and bodies.
    pub open spec fn name(self) -> Seq<char> {
        match self {
            ResourceKind::Segments => "segments"@,
            ResourceKind::Beats => "beats"@,
            ResourceKind::Scenes => "scenes"@,
        }
    }

    pub fn as_str(&self) -> (s: &'static str)
        ensures
            s@ == self.name(),
            s@ == match *self {
                ResourceKind::Segments => "segments"@,
                ResourceKind::Beats => "beats"@,
                ResourceKind::Scenes => "scenes"@,
            },
    {
        match self {
            ResourceKind::Segments => "segments",
            ResourceKind::Beats => "beats",
            ResourceKind::Scenes => "scenes",
        }
    }
}

/// The id by which the data-api knows a row of a session again: its kind and its
/// index.
pub open spec fn client_id_text(kind: ResourceKind, index: int) -> Seq<char> {
    kind.name() + "-"@ + signed_decimal(index)
}

/// The id of a row. A row that is inserted twice under its id is kept once.
pub fn client_id(kind: ResourceKind, index: i32) -> (s: String)
    ensures
        s@ == client_id_text(kind, index as int),
        s@ == (match kind {
            ResourceKind::Segments => "segments"@,
            ResourceKind::Beats => "beats"@,
            ResourceKind::Scenes => "scenes"@,
        }) + "-"@ + (if index < 0 {
            "-"@ + decimal((-index) as nat)
        } else {
            decimal(index as nat)
        }),
{
    kind.as_str().to_owned().concat("-").concat(signed_decimal_text(index).as_str())
}

/// Different rows of a session have different ids.
pub proof fn client_ids_differ(one: ResourceKind, i: i32, other: ResourceKind, j: i32)
    requires
        client_id_text(one, i as int) == client_id_text(other, j as int),
    ensures
        one == other,
        i == j,
{
    reveal_strlit("segments");
    reveal_strlit("beats");
    reveal_strlit("scenes");
    let a = client_id_text(one, i as int);
    let b = client_id_text(other, j as int);
    assert(a[0] == one.name()[0] && a[1] == one.name()[1]);
    assert(b[0] == other.name()[0] && b[1] == other.name()[1]);
    assert(one == other);
    let head = one.name() + "-"@;
    assert(a.skip(head.len() as int) =~= signed_decimal(i as int));
    assert(b.skip(head.len() as int) =~= signed_decimal(j as int));
    signed_decimals_differ(i as int, j as int);
}

#[derive(Clone, Copy, Debug, PartialEq, Eq, Structural)]
pub enum Method {
    Get,
    Post,
    Patch,
    Delete,
}

/// What a request carries.
#[derive(Debug)]
pub enum Body<R = ()> {
    Nothing,
    /// The credentials of a service.
    Credentials { shared_secret: String, service_name: String },
    /// A session's new status.
    Status(String),
    /// Rows, under the name of their kind.
    Rows(ResourceKind, Vec<R>),
}

/// A request to the data-api. `R` stands for the rows that an insertion
/// carries.
#[derive(Debug)]
pub struct ApiRequest<R = ()> {
    pub method: Method,
    pub url: String,
    pub authorization: Option<String>,
    pub body: Body<R>,
}

#[verifier::ext_equal]
pub enum BodyModel<R = ()> {
    Nothing,
    Credentials(Seq<char>, Seq<char>),
    Status(Seq<char>),
    Rows(ResourceKind, Seq<R>),
}

#[verifier::ext_equal]
pub struct ApiRequestModel<R = ()> {
    pub method: Method,
    pub url: Seq<char>,
    pub authorization: Option<Seq<char>>,
    pub body: BodyModel<R>,
}

impl<R> View for ApiRequest<R> {
    type V = ApiRequestModel<R>;

    open spec fn view(&self) -> ApiRequestModel<R> {
        ApiRequestModel {
            method: self.method,
            url: self.url@,
            authorization: match self.authorization {
                Some(a) => Some(a@),
                None => None,
            },
            body: match self.body {
                Body::Nothing => BodyModel::Nothing,
                Body::Credentials { shared_secret, service_name } => BodyModel::Credentials(
                    shared_secret@,
                    service_name@,
                ),
                Body::Status(s) => BodyModel::Status(s@),
                Body::Rows(kind, rows) => BodyModel::Rows(kind, rows@),
            },
        }
    }
}

/// The request that exchanges a service's credentials for a session token.
pub open spec fn auth_request_model(
    base_url: Seq<char>,
    shared_secret: Seq<char>,
    service_name: Seq<char>,
) -> ApiRequestModel {
    ApiRequestModel {
        method: Method::Post,
        url: base_url + "/internal/auth"@,
        authorization: None,
        body: BodyModel::Credentials(shared_secret, service_name),
    }
}

/// An authenticated client.
#[verifier::ext_equal]
pub struct ClientModel {
    pub base_url: Seq<char>,
    pub session_token: Seq<char>,
    pub shared_secret: Seq<char>,
    pub service_name: Seq<char>,
}

/// The path of a session.
pub open spec fn session_path(id: SessionId) -> Seq<char> {
    "/internal/sessions/"@ + hyphenated(id.0)
}

/// The path of a speaker's audio.
pub open spec fn audio_path(id: SessionId, pseudo: Seq<char>) -> Seq<char> {
    session_path(id) + "/audio/"@ + pseudo
}

impl ClientModel {
    /// The value of the authorization header.
    pub open spec fn auth_header(self) -> Seq<char> {
        "Bearer "@ + self.session_token
    }

    /// The event bus's URL: the base URL with a WebSocket scheme, and the
    /// token.
    pub open spec fn ws_url(self) -> Seq<char> {
        (if has_prefix(self.base_url, "https"@) {
            replace_first(self.base_url, "https"@, "wss"@)
        } else {
            replace_first(self.base_url, "http"@, "ws"@)
        }) + "/ws?token="@ + self.session_token
    }

    /// A request with the client's token.
    pub open spec fn request<R>(
        self,
        method: Method,
        path: Seq<char>,
        body: BodyModel<R>,
    ) -> ApiRequestModel<R> {
        ApiRequestModel {
            method,
            url: self.base_url + path,
            authorization: Some(self.auth_header()),
            body,
        }
    }

    pub open spec fn get(self, path: Seq<char>) -> ApiRequestModel {
        self.request(Method::Get, path, BodyModel::Nothing)
    }

    /// The request that puts a session in a status.
    pub open spec fn patch(self, id: SessionId, status: Seq<char>) -> ApiRequestModel {
        self.request(Method::Patch, session_path(id), BodyModel::Status(status))
    }
}

/// What is logged of the event bus's URL does not depend on the token.
pub proof fn logged_bus_url_hides_the_token(one: ClientModel, other: ClientModel)
    requires
        one.base_url == other.base_url,
    ensures
        redacted(one.ws_url()) == redacted(other.ws_url()),
{
    let base = if has_prefix(one.base_url, "https"@) {
        replace_first(one.base_url, "https"@, "wss"@)
    } else {
        replace_first(one.base_url, "http"@, "ws"@)
    };
    let head = base + "/ws?"@;
    reveal_strlit("/ws?token=");
    reveal_strlit("/ws?");
    reveal_strlit("token=");
    assert("/ws?token="@ =~= "/ws?"@ + "token="@);
    assert(one.ws_url() =~= head + "token="@ + one.session_token);
    assert(other.ws_url() =~= head + "token="@ + other.session_token);
    redaction_hides_the_token(head, one.session_token, other.session_token);
}

/// The event bus's URL of a base URL with an HTTP scheme: the scheme becomes that
/// of a WebSocket, secure where it was secure, and the rest stays.
pub proof fn bus_url_keeps_the_host(client: ClientModel, rest: Seq<char>)
    ensures
        client.base_url == "https"@ + rest ==> client.ws_url() == "wss"@ + rest + "/ws?token="@
            + client.session_token,
        client.base_url == "http"@ + rest && (rest.len() == 0 || rest[0] != 's')
            ==> client.ws_url() == "ws"@ + rest + "/ws?token="@ + client.session_token,
{
    reveal_strlit("https");
    reveal_strlit("http");
    let url = client.base_url;
    if url == "https"@ + rest {
        assert(url.subrange(0, 5) =~= "https"@);
        replace_at_front(url, "https"@, "wss"@);
        assert(url.skip(5) =~= rest);
        assert(client.ws_url() =~= "wss"@ + rest + "/ws?token="@ + client.session_token);
    }
    if url == "http"@ + rest && (rest.len() == 0 || rest[0] != 's') {
        assert(url.subrange(0, 4) =~= "http"@);
        replace_at_front(url, "http"@, "ws"@);
        assert(url.skip(4) =~= rest);
        assert(!has_prefix(url, "https"@)) by {
            if has_prefix(url, "https"@) {
                assert(url.subrange(0, 5)[4] == 's');
                assert(url[4] == rest[0]);
            }
        }
        assert(client.ws_url() =~= "ws"@ + rest + "/ws?token="@ + client.session_token);
    }
}

/// A renewed token takes the old one's place in every request and in the event
/// bus's URL, and nothing else changes there.
pub proof fn renewed_token_is_used(client: ClientModel, token: Seq<char>)
    ensures
        ({
            let renewed = ClientModel { session_token: token, ..client };
            let kept = client.ws_url().len() - client.session_token.len();
            &&& renewed.ws_url() == client.ws_url().take(kept) + token
            &&& renewed.auth_header() == "Bearer "@ + token
        }),
{
    let renewed = ClientModel { session_token: token, ..client };
    let kept = client.ws_url().len() - client.session_token.len();
    assert(renewed.ws_url() =~= client.ws_url().take(kept) + token);
}

/// The authenticated client of the data-api.
pub struct DataApiClient {
    base_url: String,
    session_token: String,
    shared_secret: String,
    service_name: String,
}

impl View for DataApiClient {
    type V = ClientModel;

    closed spec fn view(&self) -> ClientModel {
        ClientModel {
            base_url: self.base_url@,
            session_token: self.session_token@,
            shared_secret: self.shared_secret@,
            service_name: self.service_name@,
        }
    }
}

impl DataApiClient {
    /// The request that `authenticate` needs the reply of.
    pub fn do_auth(base_url: &str, shared_secret: &str, service_name: &str) -> (r: ApiRequest)
        ensures
            r@ == auth_request_model(base_url@, shared_secret@, service_name@),
            r.method == Method::Post,
            r.url@ == base_url@ + "/internal/auth"@,
            r.authorization is None,
            r.body matches Body::Credentials { shared_secret: s, service_name: n } && s@
                == shared_secret@ && n@ == service_name@,
    {
        ApiRequest {
            method: Method::Post,
            url: base_url.to_owned().concat("/internal/auth"),
            authorization: None,
            body: Body::Credentials {
                shared_secret: shared_secret.to_owned(),
                service_name: service_name.to_owned(),
            },
        }
    }

    /// The client that holds the token that came back from the data-api.
    pub fn authenticate(
        base_url: String,
        shared_secret: String,
        service_name: String,
        token: Result<String, WorkerError>,
    ) -> (r: Result<DataApiClient, WorkerError>)
        ensures
            match token {
                Ok(t) => r matches Ok(client) && client@ == (ClientModel {
                    base_url: base_url@,
                    session_token: t@,
                    shared_secret: shared_secret@,
                    service_name: service_name@,
                }),
                Err(e) => r == Err::<DataApiClient, WorkerError>(e),
            },
    {
        match token {
            Ok(session_token) => Ok(
                DataApiClient { base_url, session_token, shared_secret, service_name },
            ),
            Err(e) => Err(e),
        }
    }

    /// The request that `re_authenticate` needs the reply of.
    pub fn auth_request(&self) -> (r: ApiRequest)
        ensures
            r@ == auth_request_model(
                self@.base_url,
                self@.shared_secret,
                self@.service_name,
            ),
            r.method == Method::Post,
            r.url@ == self@.base_url + "/internal/auth"@,
            r.authorization is None,
            r.body matches Body::Credentials { shared_secret: s, service_name: n } && s@
                == self@.shared_secret && n@ == self@.service_name,
    {
        Self::do_auth(
            self.base_url.as_str(),
            self.shared_secret.as_str(),
            self.service_name.as_str(),
        )
    }

    /// Take over a new token. Where none came back, the old one stays.
    pub fn re_authenticate(&mut self, token: Result<String, WorkerError>) -> (r: Result<
        (),
        WorkerError,
    >)
        ensures
            match token {
                Ok(t) => r is Ok && final(self)@ == (ClientModel {
                    session_token: t@,
                    ..old(self)@
                }),
                Err(e) => r == Err::<(), WorkerError>(e) && final(self)@ == old(self)@,
            },
    {
        match token {
            Ok(t) => {
                self.session_token = t;
                Ok(())
            },
            Err(e) => Err(e),
        }
    }

    fn auth_header(&self) -> (s: String)
        ensures
            s@ == self@.auth_header(),
    {
        "Bearer ".to_owned().concat(self.session_token.as_str())
    }

    /// The event bus's URL, with the token in it.
    pub fn ws_url(&self) -> (s: String)
        ensures
            s@ == self@.ws_url(),
            s@ == (if self@.base_url.len() >= 5 && self@.base_url.take(5) == "https"@ {
                replace_first(self@.base_url, "https"@, "wss"@)
            } else {
                replace_first(self@.base_url, "http"@, "ws"@)
            }) + "/ws?token="@ + self@.session_token,
    {
        proof {
            reveal_strlit("https");
        }
        let base = self.base_url.as_str();
        let ws_base = if starts_with(base, "https") {
            replacen_once(base, "https", "wss")
        } else {
            replacen_once(base, "http", "ws")
        };
        ws_base.concat("/ws?token=").concat(self.session_token.as_str())
    }

    pub fn base_url(&self) -> (s: &str)
        ensures
            s@ == self@.base_url,
    {
        self.base_url.as_str()
    }

    fn request<R>(&self, method: Method, path: String, body: Body<R>) -> (r: ApiRequest<R>)
        ensures
            r@.method == method,
            r@.url == self@.base_url + path@,
            r@.authorization == Some(self@.auth_header()),
            r.body == body,
    {
        ApiRequest {
            method,
            url: self.base_url.clone().concat(path.as_str()),
            authorization: Some(self.auth_header()),
            body,
        }
    }

    fn get(&self, path: String) -> (r: ApiRequest)
        ensures
            r@ == self@.get(path@),
    {
        self.request(Method::Get, path, Body::Nothing)
    }

    fn session_path(id: SessionId) -> (s: String)
        ensures
            s@ == session_path(id),
    {
        "/internal/sessions/".to_owned().concat(id.to_text().as_str())
    }

    fn audio_path(id: SessionId, pseudo: &PseudoId) -> (s: String)
        ensures
            s@ == audio_path(id, pseudo@),
    {
        Self::session_path(id).concat("/audio/").concat(pseudo.as_str())
    }

    /// Tell the data-api that the worker is alive.
    pub fn heartbeat(&self) -> (r: ApiRequest)
        ensures
            r@ == self@.request(Method::Post, "/internal/heartbeat"@, BodyModel::<()>::Nothing),
            r.method == Method::Post,
            r.url@ == self@.base_url + ("/internal/heartbeat"@),
            r.authorization is Some,
            r.authorization->0@ == "Bearer "@ + self@.session_token,
            r.body is Nothing,
    {
        self.request(Method::Post, "/internal/heartbeat".to_owned(), Body::Nothing)
    }

    /// List the sessions in a status.
    pub fn list_sessions_by_status(&self, status: &str) -> (r: ApiRequest)
        ensures
            r@ == self@.get("/internal/sessions?status="@ + status@),
            r.method == Method::Get,
            r.url@ == self@.base_url + ("/internal/sessions?status="@ + status@),
            r.authorization is Some,
            r.authorization->0@ == "Bearer "@ + self@.session_token,
            r.body is Nothing,
    {
        self.get("/internal/sessions?status=".to_owned().concat(status))
    }

    /// Read one session.
    pub fn get_session(&self, id: SessionId) -> (r: ApiRequest)
        ensures
            r@ == self@.get(session_path(id)),
            r.method == Method::Get,
            r.url@ == self@.base_url + ("/internal/sessions/"@ + hyphenated(id.0)),
            r.authorization is Some,
            r.authorization->0@ == "Bearer "@ + self@.session_token,
            r.body is Nothing,
    {
        self.get(Self::session_path(id))
    }

    /// Claim a session. Of several workers the first one gets it.
    pub fn claim_session(&self, id: SessionId) -> (r: ApiRequest)
        ensures
            r@ == self@.patch(id, "transcribing"@),
            r.method == Method::Patch,
            r.url@ == self@.base_url + ("/internal/sessions/"@ + hyphenated(id.0)),
            r.authorization is Some,
            r.authorization->0@ == "Bearer "@ + self@.session_token,
            r.body matches Body::Status(t) && t@ == "transcribing"@,
    {
        self.patch_status(id, SessionStatus::Transcribing.as_str())
    }

    /// Mark a session as done.
    pub fn mark_transcribed(&self, id: SessionId) -> (r: ApiRequest)
        ensures
            r@ == self@.patch(id, "transcribed"@),
            r.method == Method::Patch,
            r.url@ == self@.base_url + ("/internal/sessions/"@ + hyphenated(id.0)),
            r.authorization is Some,
            r.authorization->0@ == "Bearer "@ + self@.session_token,
            r.body matches Body::Status(t) && t@ == "transcribed"@,
    {
        self.patch_status(id, SessionStatus::Transcribed.as_str())
    }

    /// Mark a session as failed.
    pub fn mark_failed(&self, id: SessionId) -> (r: ApiRequest)
        ensures
            r@ == self@.patch(id, "transcribing_failed"@),
            r.method == Method::Patch,
            r.url@ == self@.base_url + ("/internal/sessions/"@ + hyphenated(id.0)),
            r.authorization is Some,
            r.authorization->0@ == "Bearer "@ + self@.session_token,
            r.body matches Body::Status(t) && t@ == "transcribing_failed"@,
    {
        self.patch_status(id, SessionStatus::TranscribingFailed.as_str())
    }

    /// Put a session in a status.
    pub fn patch_status(&self, id: SessionId, status: &str) -> (r: ApiRequest)
        ensures
            r@ == self@.patch(id, status@),
            r.method == Method::Patch,
            r.url@ == self@.base_url + ("/internal/sessions/"@ + hyphenated(id.0)),
            r.authorization is Some,
            r.authorization->0@ == "Bearer "@ + self@.session_token,
            r.body matches Body::Status(t) && t@ == status@,
    {
        self.request(Method::Patch, Self::session_path(id), Body::Status(status.to_owned()))
    }

    pub fn list_participants(&self, id: SessionId) -> (r: ApiRequest)
        ensures
            r@ == self@.get(session_path(id) + "/participants"@),
            r.method == Method::Get,
            r.url@ == self@.base_url + ("/internal/sessions/"@ + hyphenated(id.0) + "/participants"@),
            r.authorization is Some,
            r.authorization->0@ == "Bearer "@ + self@.session_token,
            r.body is Nothing,
    {
        self.get(Self::session_path(id).concat("/participants"))
    }

    /// List a speaker's stored chunks.
    pub fn list_chunks(&self, id: SessionId, pseudo: &PseudoId) -> (r: ApiRequest)
        ensures
            r@ == self@.get(audio_path(id, pseudo@) + "/chunks"@),
            r.method == Method::Get,
            r.url@ == self@.base_url + (
                "/internal/sessions/"@ + hyphenated(id.0) + "/audio/"@ + pseudo@ + "/chunks"@
            ),
            r.authorization is Some,
            r.authorization->0@ == "Bearer "@ + self@.session_token,
            r.body is Nothing,
    {
        self.get(Self::audio_path(id, pseudo).concat("/chunks"))
    }

    /// Download one chunk. `ChunkDownload` says what its replies mean.
    pub fn download_chunk(&self, id: SessionId, pseudo: &PseudoId, seq: ChunkSeq) -> (r: ApiRequest)
        ensures
            r@ == self@.get(audio_path(id, pseudo@) + "/chunk/"@ + decimal(seq.0 as nat)),
            r.method == Method::Get,
            r.url@ == self@.base_url + (
                "/internal/sessions/"@ + hyphenated(id.0) + "/audio/"@ + pseudo@ + "/chunk/"@ + decimal(
                    seq.0 as nat,
                )
            ),
            r.authorization is Some,
            r.authorization->0@ == "Bearer "@ + self@.session_token,
            r.body is Nothing,
    {
        self.get(
            Self::audio_path(id, pseudo).concat("/chunk/").concat(seq.to_text().as_str()),
        )
    }

    /// Insert segments; `None` when there are none.
    pub fn post_segments<R>(&self, id: SessionId, rows: Vec<R>) -> (r: Option<ApiRequest<R>>)
        ensures
            self@.inserts(id, ResourceKind::Segments, rows@, r),
            r is None <==> rows@.len() == 0,
            r matches Some(q) ==> {
                &&& q.method == Method::Post
                &&& q.url@ == self@.base_url + ("/internal/sessions/"@ + hyphenated(id.0) + "/"@
                    + "segments"@)
                &&& q.authorization is Some
                &&& q.authorization->0@ == "Bearer "@ + self@.session_token
                &&& q.body matches Body::Rows(kind, sent) && kind == ResourceKind::Segments && sent@
                    == rows@
            },
    {
        self.bulk_insert(id, ResourceKind::Segments, rows)
    }

    /// Insert beats; `None` when there are none.
    pub fn post_beats<R>(&self, id: SessionId, rows: Vec<R>) -> (r: Option<ApiRequest<R>>)
        ensures
            self@.inserts(id, ResourceKind::Beats, rows@, r),
            r is None <==> rows@.len() == 0,
            r matches Some(q) ==> {
                &&& q.method == Method::Post
                &&& q.url@ == self@.base_url + ("/internal/sessions/"@ + hyphenated(id.0) + "/"@
                    + "beats"@)
                &&& q.authorization is Some
                &&& q.authorization->0@ == "Bearer "@ + self@.session_token
                &&& q.body matches Body::Rows(kind, sent) && kind == ResourceKind::Beats && sent@
                    == rows@
            },
    {
        self.bulk_insert(id, ResourceKind::Beats, rows)
    }

    /// Insert scenes; `None` when there are none.
    pub fn post_scenes<R>(&self, id: SessionId, rows: Vec<R>) -> (r: Option<ApiRequest<R>>)
        ensures
            self@.inserts(id, ResourceKind::Scenes, rows@, r),
            r is None <==> rows@.len() == 0,
            r matches Some(q) ==> {
                &&& q.method == Method::Post
                &&& q.url@ == self@.base_url + ("/internal/sessions/"@ + hyphenated(id.0) + "/"@
                    + "scenes"@)
                &&& q.authorization is Some
                &&& q.authorization->0@ == "Bearer "@ + self@.session_token
                &&& q.body matches Body::Rows(kind, sent) && kind == ResourceKind::Scenes && sent@
                    == rows@
            },
    {
        self.bulk_insert(id, ResourceKind::Scenes, rows)
    }

    fn resources_path(id: SessionId, kind: ResourceKind) -> (s: String)
        ensures
            s@ == session_path(id) + "/"@ + kind.name(),
    {
        Self::session_path(id).concat("/").concat(kind.as_str())
    }

    /// Insert rows of a kind, wrapped under the kind's name. Nothing is requested
    /// for no rows.
    pub fn bulk_insert<R>(&self, id: SessionId, kind: ResourceKind, rows: Vec<R>) -> (r: Option<
        ApiRequest<R>,
    >)
        ensures
            self@.inserts(id, kind, rows@, r),
            r is None <==> rows@.len() == 0,
            r matches Some(q) ==> {
                &&& q.method == Method::Post
                &&& q.url@ == self@.base_url + ("/internal/sessions/"@ + hyphenated(id.0) + "/"@ + (match kind {
                    ResourceKind::Segments => "segments"@,
                    ResourceKind::Beats => "beats"@,
                    ResourceKind::Scenes => "scenes"@,
                }))
                &&& q.authorization is Some
                &&& q.authorization->0@ == "Bearer "@ + self@.session_token
                &&& q.body matches Body::Rows(sent_kind, sent) && sent_kind == kind && sent@
                    == rows@
            },
    {
        if rows.len() == 0 {
            None
        } else {
            Some(
                self.request(
                    Method::Post,
                    Self::resources_path(id, kind),
                    Body::Rows(kind, rows),
                ),
            )
        }
    }

    pub fn list_segment_ids(&self, id: SessionId) -> (r: ApiRequest)
        ensures
            r@ == self@.get(session_path(id) + "/"@ + ResourceKind::Segments.name()),
            r.method == Method::Get,
            r.url@ == self@.base_url + ("/internal/sessions/"@ + hyphenated(id.0) + "/"@ + "segments"@),
            r.authorization is Some,
            r.authorization->0@ == "Bearer "@ + self@.session_token,
            r.body is Nothing,
    {
        self.list_resource_ids(id, ResourceKind::Segments)
    }

    pub fn list_beat_ids(&self, id: SessionId) -> (r: ApiRequest)
        ensures
            r@ == self@.get(session_path(id) + "/"@ + ResourceKind::Beats.name()),
            r.method == Method::Get,
            r.url@ == self@.base_url + ("/internal/sessions/"@ + hyphenated(id.0) + "/"@ + "beats"@),
            r.authorization is Some,
            r.authorization->0@ == "Bearer "@ + self@.session_token,
            r.body is Nothing,
    {
        self.list_resource_ids(id, ResourceKind::Beats)
    }

    pub fn list_scene_ids(&self, id: SessionId) -> (r: ApiRequest)
        ensures
            r@ == self@.get(session_path(id) + "/"@ + ResourceKind::Scenes.name()),
            r.method == Method::Get,
            r.url@ == self@.base_url + ("/internal/sessions/"@ + hyphenated(id.0) + "/"@ + "scenes"@),
            r.authorization is Some,
            r.authorization->0@ == "Bearer "@ + self@.session_token,
            r.body is Nothing,
    {
        self.list_resource_ids(id, ResourceKind::Scenes)
    }

    /// List a session's outputs of a kind. `resource_ids` reads the reply.
    pub fn list_resource_ids(&self, id: SessionId, kind: ResourceKind) -> (r: ApiRequest)
        ensures
            r@ == self@.get(session_path(id) + "/"@ + kind.name()),
            r.method == Method::Get,
            r.url@ == self@.base_url + ("/internal/sessions/"@ + hyphenated(id.0) + "/"@ + (match kind {
                ResourceKind::Segments => "segments"@,
                ResourceKind::Beats => "beats"@,
                ResourceKind::Scenes => "scenes"@,
            })),
            r.authorization is Some,
            r.authorization->0@ == "Bearer "@ + self@.session_token,
            r.body is Nothing,
    {
        self.get(Self::resources_path(id, kind))
    }

    pub fn delete_segment(&self, id: u128) -> (r: ApiRequest)
        ensures
            r@ == self@.deletes(ResourceKind::Segments, id),
            r.method == Method::Delete,
            r.url@ == self@.base_url + ("/internal/"@ + "segments"@ + "/"@ + hyphenated(id)),
            r.authorization is Some,
            r.authorization->0@ == "Bearer "@ + self@.session_token,
            r.body is Nothing,
    {
        self.delete_resource(ResourceKind::Segments, id)
    }

    pub fn delete_beat(&self, id: u128) -> (r: ApiRequest)
        ensures
            r@ == self@.deletes(ResourceKind::Beats, id),
            r.method == Method::Delete,
            r.url@ == self@.base_url + ("/internal/"@ + "beats"@ + "/"@ + hyphenated(id)),
            r.authorization is Some,
            r.authorization->0@ == "Bearer "@ + self@.session_token,
            r.body is Nothing,
    {
        self.delete_resource(ResourceKind::Beats, id)
    }

    pub fn delete_scene(&self, id: u128) -> (r: ApiRequest)
        ensures
            r@ == self@.deletes(ResourceKind::Scenes, id),
            r.method == Method::Delete,
            r.url@ == self@.base_url + ("/internal/"@ + "scenes"@ + "/"@ + hyphenated(id)),
            r.authorization is Some,
            r.authorization->0@ == "Bearer "@ + self@.session_token,
            r.body is Nothing,
    {
        self.delete_resource(ResourceKind::Scenes, id)
    }

    /// Delete one output.
    pub fn delete_resource(&self, kind: ResourceKind, id: u128) -> (r: ApiRequest)
        ensures
            r@ == self@.deletes(kind, id),
            r.method == Method::Delete,
            r.url@ == self@.base_url + ("/internal/"@ + (match kind {
                ResourceKind::Segments => "segments"@,
                ResourceKind::Beats => "beats"@,
                ResourceKind::Scenes => "scenes"@,
            }) + "/"@ + hyphenated(id)),
            r.authorization is Some,
            r.authorization->0@ == "Bearer "@ + self@.session_token,
            r.body is Nothing,
    {
        let path = "/internal/".to_owned().concat(kind.as_str()).concat("/").concat(
            uuid_text(id).as_str(),
        );
        self.request(Method::Delete, path, Body::Nothing)
    }
}

impl ClientModel {
    /// `r` is the request that inserts these rows of a kind.
    pub open spec fn inserts<R>(
        self,
        id: SessionId,
        kind: ResourceKind,
        rows: Seq<R>,
        r: Option<ApiRequest<R>>,
    ) -> bool {
        match r {
            Some(request) => {
                &&& rows.len() > 0
                &&& request@ == self.request(
                    Method::Post,
                    session_path(id) + "/"@ + kind.name(),
                    BodyModel::Rows(kind, rows),
                )
            },
            None => rows.len() == 0,
        }
    }

    /// The request that deletes one output.
    pub open spec fn deletes(self, kind: ResourceKind, id: u128) -> ApiRequestModel {
        self.request(
            Method::Delete,
            "/internal/"@ + kind.name() + "/"@ + hyphenated(id),
            BodyModel::Nothing,
        )
    }
}

/// A status code that stands for success.
pub open spec fn is_success(code: u16) -> bool {
    200 <= code < 300
}

/// A status code that stands for a failure of the server.
pub open spec fn is_server_error(code: u16) -> bool {
    500 <= code < 600
}

/// What is said of a reply that is no success.
pub open spec fn failure_text(code: u16, body: Seq<char>) -> Seq<char> {
    decimal(code as nat) + ": "@ + body
}

fn failure(code: u16, body: &str) -> (s: String)
    ensures
        s@ == failure_text(code, body@),
{
    decimal_text(code as u64).concat(": ").concat(body)
}

/// `r` is the outcome of a reply of which only success counts.
pub open spec fn ok_verdict(code: u16, body: Seq<char>, r: Result<(), WorkerError>) -> bool {
    if is_success(code) {
        r is Ok
    } else {
        r matches Err(WorkerError::Api(m)) && m@ == failure_text(code, body)
    }
}

/// Success, or an error with the status and the body.
pub fn check_ok(code: u16, body: &str) -> (r: Result<(), WorkerError>)
    ensures
        ok_verdict(code, body@, r),
        r is Ok <==> 200 <= code < 300,
        r is Err ==> (r matches Err(WorkerError::Api(m)) && m@ == decimal(code as nat) + ": "@
            + body@),
{
    if 200 <= code && code < 300 {
        Ok(())
    } else {
        Err(WorkerError::Api(failure(code, body)))
    }
}

/// What the reply to an authentication means.
pub fn check_auth(code: u16, body: &str) -> (r: Result<(), WorkerError>)
    ensures
        if is_success(code) {
            r is Ok
        } else {
            r matches Err(WorkerError::Api(m)) && m@ == "auth "@ + failure_text(code, body@)
        },
        r is Ok <==> 200 <= code < 300,
        r is Err ==> (r matches Err(WorkerError::Api(m)) && m@ == "auth "@ + (decimal(code as nat)
            + ": "@ + body@)),
{
    if 200 <= code && code < 300 {
        Ok(())
    } else {
        let m = "auth ".to_owned().concat(failure(code, body).as_str());
        Err(WorkerError::Api(m))
    }
}

/// What the reply to a change of a session's status means. A conflict says that
/// another worker has the session.
pub fn check_patch(id: SessionId, code: u16, body: &str) -> (r: Result<(), WorkerError>)
    ensures
        if code == 409 {
            r == Err::<(), WorkerError>(WorkerError::ClaimLost(id))
        } else if code == 404 {
            r == Err::<(), WorkerError>(WorkerError::NotFound(id))
        } else {
            ok_verdict(code, body@, r)
        },
        code != 409 && code != 404 ==> (r is Ok <==> 200 <= code < 300),
        code != 409 && code != 404 && r is Err ==> (r matches Err(WorkerError::Api(m)) && m@ == decimal(
            code as nat,
        ) + ": "@ + body@),
{
    if code == 409 {
        return Err(WorkerError::ClaimLost(id));
    }
    check_session(id, code, body)
}

/// What the reply to a read of a session means.
pub fn check_session(id: SessionId, code: u16, body: &str) -> (r: Result<(), WorkerError>)
    ensures
        if code == 404 {
            r == Err::<(), WorkerError>(WorkerError::NotFound(id))
        } else {
            ok_verdict(code, body@, r)
        },
        code != 404 ==> (r is Ok <==> 200 <= code < 300),
        code != 404 && r is Err ==> (r matches Err(WorkerError::Api(m)) && m@ == decimal(
            code as nat,
        ) + ": "@ + body@),
{
    if code == 404 {
        return Err(WorkerError::NotFound(id));
    }
    check_ok(code, body)
}

/// What the reply to a deletion means. What is gone already counts as deleted.
pub fn check_delete(code: u16, body: &str) -> (r: Result<(), WorkerError>)
    ensures
        if code == 404 {
            r is Ok
        } else {
            ok_verdict(code, body@, r)
        },
        code != 404 ==> (r is Ok <==> 200 <= code < 300),
        code != 404 && r is Err ==> (r matches Err(WorkerError::Api(m)) && m@ == decimal(
            code as nat,
        ) + ": "@ + body@),
{
    if code == 404 {
        return Ok(());
    }
    check_ok(code, body)
}

/// The body of a listing of outputs. A list of rows comes with its rows, or
/// with what is wrong with them.
pub enum Listing {
    /// A list.
    Array(Result<Vec<ResourceRow>, String>),
    /// An object, with the list under `items_key`, if it has that key.
    Object(Option<Result<Vec<ResourceRow>, String>>),
    /// Anything else.
    Other,
}

/// The key under which an object holds its list.
pub fn items_key() -> (s: &'static str)
    ensures
        s@ == "items"@,
{
    "items"
}

impl Listing {
    /// The rows of the listing: those of a bare list or of the list under
    /// `items`. Where there is no list, there are no rows.
    pub open spec fn rows(self) -> Result<Seq<ResourceRow>, Seq<char>> {
        match self {
            Listing::Array(Ok(rows)) => Ok(rows@),
            Listing::Object(Some(Ok(rows))) => Ok(rows@),
            Listing::Array(Err(e)) => Err(e@),
            Listing::Object(Some(Err(e))) => Err(e@),
            Listing::Object(None) => Ok(Seq::empty()),
            Listing::Other => Ok(Seq::empty()),
        }
    }
}

fn row_ids(rows: Vec<ResourceRow>) -> (ids: Vec<u128>)
    ensures
        ids@ == rows@.map_values(|r: ResourceRow| r.id),
{
    let mut ids: Vec<u128> = Vec::new();
    let mut i: usize = 0;
    while i < rows.len()
        invariant
            i <= rows.len(),
            ids@ == rows@.take(i as int).map_values(|r: ResourceRow| r.id),
        decreases rows.len() - i,
    {
        ids.push(rows[i].id);
        i = i + 1;
        assert(ids@ =~= rows@.take(i as int).map_values(|r: ResourceRow| r.id));
    }
    assert(rows@.take(rows@.len() as int) =~= rows@);
    ids
}

/// The ids in a listing of outputs.
pub fn resource_ids(listing: Listing) -> (r: Result<Vec<u128>, WorkerError>)
    ensures
        match listing.rows() {
            Ok(rows) => r matches Ok(ids) && ids@ == rows.map_values(|r: ResourceRow| r.id),
            Err(e) => r matches Err(WorkerError::Api(m)) && m@ == "json: "@ + e,
        },
        match listing {
            Listing::Array(Ok(rows)) => r matches Ok(ids) && ids@ == rows@.map_values(
                |r: ResourceRow| r.id,
            ),
            Listing::Object(Some(Ok(rows))) => r matches Ok(ids) && ids@ == rows@.map_values(
                |r: ResourceRow| r.id,
            ),
            Listing::Array(Err(e)) => r matches Err(WorkerError::Api(m)) && m@ == "json: "@ + e@,
            Listing::Object(Some(Err(e))) => r matches Err(WorkerError::Api(m)) && m@ == "json: "@
                + e@,
            Listing::Object(None) => r matches Ok(ids) && ids@.len() == 0,
            Listing::Other => r matches Ok(ids) && ids@.len() == 0,
        },
{
    let rows = match listing {
        Listing::Array(rows) => rows,
        Listing::Object(Some(rows)) => rows,
        Listing::Object(None) => Ok(Vec::new()),
        Listing::Other => Ok(Vec::new()),
    };
    match rows {
        Ok(rows) => Ok(row_ids(rows)),
        Err(e) => Err(WorkerError::from_json(e.as_str())),
    }
}

/// The text of a status code: the code and its standard reason.
pub uninterp spec fn status_display(code: u16) -> Seq<char>;

/// Calls `http::StatusCode::from_u16`, which accepts the codes from 100 to 999,
/// and formats the code with `Display`, which writes the number, a space and the
/// code's standard reason, or a fixed phrase for a code without one. Which
/// reason belongs to which code is left to the name `status_display`.
#[verifier::external_body]
fn status_text(code: u16) -> (s: String)
    requires
        100 <= code <= 999,
    ensures
        s@ == status_display(code),
        has_prefix(s@, decimal(code as nat) + " "@),
{
    match reqwest::StatusCode::from_u16(code) {
        Ok(c) => c.to_string(),
        Err(e) => e.to_string(),
    }
}

/// How far a download has come: how many times the server's failure was waited
/// out, and whether the token was renewed.
pub struct DownloadModel {
    pub waits: nat,
    pub renewed: bool,
}

/// The number of failures of the server that are waited out.
pub const MAX_5XX_RETRIES: u32 = 3;

/// What a reply to a download calls for.
pub enum DownloadVerdict {
    /// The body is the chunk.
    Done,
    /// Renew the token and ask again.
    Renew,
    /// Wait for so many seconds and ask again.
    Wait(nat),
    /// Give up.
    Fail,
}

impl DownloadModel {
    pub open spec fn start() -> DownloadModel {
        DownloadModel { waits: 0, renewed: false }
    }

    /// The wait after the next failure of the server: one, two, four seconds.
    pub open spec fn delay_secs(self) -> nat {
        if self.waits == 0 {
            1
        } else if self.waits == 1 {
            2
        } else {
            4
        }
    }

    /// What a reply with status `code` calls for.
    ///
    /// A refused token is renewed once. A failure of the server is waited out
    /// three times. Everything else ends the download.
    pub open spec fn verdict(self, code: u16) -> DownloadVerdict {
        if is_success(code) {
            DownloadVerdict::Done
        } else if code == 401 && !self.renewed {
            DownloadVerdict::Renew
        } else if is_server_error(code) && self.waits < MAX_5XX_RETRIES {
            DownloadVerdict::Wait(self.delay_secs())
        } else {
            DownloadVerdict::Fail
        }
    }

    /// The download after that reply.
    pub open spec fn after(self, code: u16) -> DownloadModel {
        match self.verdict(code) {
            DownloadVerdict::Renew => DownloadModel { renewed: true, ..self },
            DownloadVerdict::Wait(_) => DownloadModel { waits: self.waits + 1, ..self },
            _ => self,
        }
    }

    /// The download still goes on after these replies.
    pub open spec fn goes_on(self, codes: Seq<u16>) -> bool
        decreases codes.len(),
    {
        codes.len() > 0 ==> {
            &&& self.verdict(codes[0]) is Renew || self.verdict(codes[0]) is Wait
            &&& self.after(codes[0]).goes_on(codes.drop_first())
        }
    }

    /// The waits that these replies call for, in seconds.
    pub open spec fn waits_for(self, codes: Seq<u16>) -> Seq<nat>
        decreases codes.len(),
    {
        if codes.len() == 0 {
            Seq::empty()
        } else {
            (match self.verdict(codes[0]) {
                DownloadVerdict::Wait(secs) => seq![secs],
                _ => Seq::empty(),
            }) + self.after(codes[0]).waits_for(codes.drop_first())
        }
    }
}

/// A reply of the 400s ends the download at once, unless it refuses the token.
pub proof fn client_errors_fail_fast(d: DownloadModel, code: u16)
    requires
        400 <= code < 500,
        code != 401,
    ensures
        d.verdict(code) is Fail,
{
}

proof fn replies_are_bounded(d: DownloadModel, codes: Seq<u16>)
    requires
        d.waits <= MAX_5XX_RETRIES,
        d.goes_on(codes),
    ensures
        codes.len() <= MAX_5XX_RETRIES - d.waits + (if d.renewed {
            0int
        } else {
            1
        }),
    decreases codes.len(),
{
    if codes.len() > 0 {
        replies_are_bounded(d.after(codes[0]), codes.drop_first());
    }
}

/// A download ends: after four replies that call for another request, the next
/// reply settles it, whatever it is.
pub proof fn download_ends(codes: Seq<u16>)
    requires
        DownloadModel::start().goes_on(codes),
    ensures
        codes.len() <= 4,
{
    replies_are_bounded(DownloadModel::start(), codes);
}

proof fn waits_from(d: DownloadModel, codes: Seq<u16>)
    requires
        d.waits <= MAX_5XX_RETRIES,
    ensures
        d.waits_for(codes).is_prefix_of(seq![1nat, 2nat, 4nat].skip(d.waits as int)),
    decreases codes.len(),
{
    let ladder = seq![1nat, 2nat, 4nat];
    let waits = d.waits_for(codes);
    if codes.len() > 0 {
        let next = d.after(codes[0]);
        let rest = next.waits_for(codes.drop_first());
        waits_from(next, codes.drop_first());
        if d.verdict(codes[0]) is Wait {
            assert(ladder.skip(d.waits as int) =~= seq![d.delay_secs()] + ladder.skip(
                next.waits as int,
            ));
            assert forall|i: int| 0 <= i < waits.len() implies #[trigger] waits[i]
                == ladder.skip(d.waits as int)[i] by {
                if i > 0 {
                    assert(waits[i] == rest[i - 1]);
                    assert(rest[i - 1] == ladder.skip(next.waits as int)[i - 1]);
                }
            }
        } else {
            assert(waits =~= rest);
        }
    }
}

/// The waits of a download are one, two and four seconds, in that order,
/// whatever else happens in between.
pub proof fn download_waits_one_two_four(codes: Seq<u16>)
    ensures
        DownloadModel::start().waits_for(codes).is_prefix_of(seq![1nat, 2nat, 4nat]),
{
    waits_from(DownloadModel::start(), codes);
    assert(seq![1nat, 2nat, 4nat].skip(0) =~= seq![1nat, 2nat, 4nat]);
}

impl DownloadModel {
    /// The download after a list of replies.
    pub open spec fn past(self, codes: Seq<u16>) -> DownloadModel
        decreases codes.len(),
    {
        if codes.len() == 0 {
            self
        } else {
            self.after(codes[0]).past(codes.drop_first())
        }
    }
}

/// How many of the replies say that the server failed.
pub open spec fn server_failures(codes: Seq<u16>) -> nat
    decreases codes.len(),
{
    if codes.len() == 0 {
        0
    } else {
        (if 500 <= codes[0] < 600 {
            1nat
        } else {
            0
        }) + server_failures(codes.drop_first())
    }
}

/// How many of the replies refuse the token.
pub open spec fn refusals(codes: Seq<u16>) -> nat
    decreases codes.len(),
{
    if codes.len() == 0 {
        0
    } else {
        (if codes[0] == 401 {
            1nat
        } else {
            0
        }) + refusals(codes.drop_first())
    }
}

proof fn past_is_counted(d: DownloadModel, codes: Seq<u16>)
    requires
        d.goes_on(codes),
    ensures
        d.past(codes).waits == d.waits + server_failures(codes),
        d.past(codes).renewed == (d.renewed || refusals(codes) > 0),
    decreases codes.len(),
{
    if codes.len() > 0 {
        past_is_counted(d.after(codes[0]), codes.drop_first());
    }
}

/// What a reply to a download calls for follows from the replies before it: a
/// success is taken; the first refusal of the token renews it; the first three
/// failures of the server are waited out, for one, two and four seconds; and
/// everything else, the second refusal and the fourth failure included, ends the
/// download.
pub proof fn replies_decide_the_download(codes: Seq<u16>, code: u16)
    requires
        DownloadModel::start().goes_on(codes),
    ensures
        ({
            let verdict = DownloadModel::start().past(codes).verdict(code);
            &&& verdict is Done <==> 200 <= code < 300
            &&& verdict is Renew <==> code == 401 && refusals(codes) == 0
            &&& verdict is Wait <==> 500 <= code < 600 && server_failures(codes) < 3
            &&& verdict matches DownloadVerdict::Wait(secs) ==> secs == seq![1nat, 2nat, 4nat][
            server_failures(codes) as int]
        }),
{
    past_is_counted(DownloadModel::start(), codes);
}

/// What to do next about a download.
#[derive(Debug)]
pub enum DownloadStep {
    /// The body is the chunk.
    Done,
    /// Renew the token and ask again.
    Renew,
    /// Wait and ask again.
    Wait(Duration),
    /// Give up with this error.
    Fail(WorkerError),
}

/// The course of one chunk's download.
pub struct ChunkDownload {
    waits: u32,
    renewed: bool,
}

impl View for ChunkDownload {
    type V = DownloadModel;

    closed spec fn view(&self) -> DownloadModel {
        DownloadModel { waits: self.waits as nat, renewed: self.renewed }
    }
}

impl ChunkDownload {
    pub fn new() -> (d: ChunkDownload)
        ensures
            d@ == DownloadModel::start(),
    {
        ChunkDownload { waits: 0, renewed: false }
    }

    /// Take in the status of a reply, and its body's text where the status is
    /// no success.
    pub fn on_reply(&mut self, code: u16, body: &str) -> (step: DownloadStep)
        requires
            100 <= code <= 999,
        ensures
            final(self)@ == old(self)@.after(code),
            match old(self)@.verdict(code) {
                DownloadVerdict::Done => step is Done,
                DownloadVerdict::Renew => step is Renew,
                DownloadVerdict::Wait(secs) => step matches DownloadStep::Wait(d) && d.nanos
                    == Duration::of_secs(secs),
                DownloadVerdict::Fail => step matches DownloadStep::Fail(WorkerError::Api(m)) && {
                    &&& m@ == "chunk "@ + status_display(code) + ": "@ + body@
                    &&& has_prefix(m@, "chunk "@ + decimal(code as nat) + " "@)
                },
            },
            step is Done <==> 200 <= code < 300,
            step is Renew <==> code == 401 && !old(self)@.renewed,
            step is Wait <==> 500 <= code < 600 && old(self)@.waits < 3,
            step matches DownloadStep::Wait(d) ==> d.nanos == seq![
                1_000_000_000nat,
                2_000_000_000nat,
                4_000_000_000nat,
            ][old(self)@.waits as int],
            final(self)@.renewed == (old(self)@.renewed || code == 401),
            final(self)@.waits == old(self)@.waits + (if step is Wait {
                1int
            } else {
                0
            }),
    {
        if 200 <= code && code < 300 {
            DownloadStep::Done
        } else if code == 401 && !self.renewed {
            self.renewed = true;
            DownloadStep::Renew
        } else if 500 <= code && code < 600 && self.waits < MAX_5XX_RETRIES {
            let secs: u64 = match self.waits {
                0 => 1,
                1 => 2,
                _ => 4,
            };
            self.waits = self.waits + 1;
            DownloadStep::Wait(Duration::from_secs(secs))
        } else {
            let status = status_text(code);
            let m = "chunk ".to_owned().concat(status.as_str()).concat(": ").concat(body);
            proof {
                let start = decimal(code as nat) + " "@;
                let n = start.len() as int;
                let k = "chunk "@.len() as int;
                assert(status@.subrange(0, n) =~= start);
                assert(m@.subrange(k, k + n) =~= status@.subrange(0, n));
                let prefix = "chunk "@ + decimal(code as nat) + " "@;
                assert(prefix =~= "chunk "@ + start);
                assert(m@.subrange(0, k) =~= "chunk "@);
                assert(m@.subrange(0, k + n) =~= m@.subrange(0, k) + m@.subrange(k, k + n));
                assert(m@.subrange(0, k + n) =~= prefix);
            }
            DownloadStep::Fail(WorkerError::Api(m))
        }
    }
}

} // verus!
