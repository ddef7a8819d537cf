//! Pushing an image: its blobs are uploaded one by one, and then its manifest.
//!
//! A blob goes by the monolithic upload path, unless the registry already has it:
//! `POST /v2/<name>/blobs/uploads/` gives a location, and `PUT <location>?digest=<digest>` carries the
//! blob.

use vstd::prelude::*;

use crate::digest::digest_of;
use crate::digest::digest_text;
use crate::digest::sha256;
use crate::digest::sha256_digest;
use crate::error::Error;
use crate::error::ErrorView;
use crate::http::has_only;
use crate::http::is_success;
use crate::http::HeaderText;
use crate::http::HttpRequest;
use crate::http::HttpRequestView;
use crate::http::Method;
use crate::http::Status;
use crate::json::json_bytes;
use crate::json::JsonTree;
use crate::json::member;
use crate::oci::manifest::build_manifest_json;
use crate::oci::manifest::describes;
use crate::oci::manifest::has_annotations;
use crate::oci::manifest::law_manifest_tells_of_its_blobs;
use crate::oci::manifest::manifest_tree;
use crate::oci::manifest::BlobView;
use crate::oci::manifest::OCI_MANIFEST_CONTENT_TYPE;
use crate::oci::transport::OciCredentials;
use crate::oci::transport::OciReference;
use crate::oci::transport::PushConfig;
use crate::oci::transport::PushLayer;
use crate::oci::transport_wasm::authorized;
use crate::oci::transport_wasm::base;
use crate::oci::transport_wasm::is_authorized;
use crate::oci::transport_wasm::lemma_authorized;
use crate::oci::transport_wasm::lemma_base;
use crate::oci::transport_wasm::lemma_still_authorized;
use crate::oci::transport_wasm::oci_error_from_status;
use crate::oci::transport_wasm::repository_url;
use crate::oci::transport_wasm::status_error;
use crate::oci::transport_wasm::WasmOciTransport;
use crate::text::contains_char;
use crate::text::decimal;
use crate::text::hex;
use crate::text::to_decimal;
use crate::text::without_prefix;
use crate::text_map::TextMap;

verus! {

// ---------------------------------------------------------------------------
// One blob
// ---------------------------------------------------------------------------

/// A blob that is to be uploaded to a repository.
pub struct BlobUpload {
    /// The URL of the registry.
    pub base: String,
    pub repository: String,
    pub credentials: OciCredentials,
    pub data: Vec<u8>,
    pub digest: String,
}

/// What the request that was sent last for a blob is for.
#[derive(Clone, Copy, Debug, PartialEq, Eq, Structural)]
pub enum UploadState {
    /// It asks whether the registry has the blob.
    Checking,
    /// It asks for a location.
    Starting,
    /// It carries the blob.
    Sending,
}

/// What follows a step of an upload.
#[derive(Debug, PartialEq)]
pub enum UploadAction {
    /// This request is to be sent, for this purpose.
    Send(UploadState, HttpRequest),
    /// The upload ends.
    Finish(Result<(), Error>),
}

/// The contents of an action.
pub enum UploadActionView {
    Send(UploadState, HttpRequestView),
    Finish(Result<(), ErrorView>),
}

impl View for UploadAction {
    type V = UploadActionView;

    open spec fn view(&self) -> UploadActionView {
        match self {
            UploadAction::Send(state, req) => UploadActionView::Send(*state, req@),
            UploadAction::Finish(Ok(())) => UploadActionView::Finish(Ok(())),
            UploadAction::Finish(Err(e)) => UploadActionView::Finish(Err(e@)),
        }
    }
}

/// The bearer tokens by repository.
pub type Tokens = Map<Seq<char>, Seq<char>>;

/// The URL at which an upload that has the location goes on. The location may be relative to the
/// registry.
pub open spec fn location_url(base: Seq<char>, location: Seq<char>) -> Seq<char> {
    if "http://"@.is_prefix_of(location) || "https://"@.is_prefix_of(location) {
        location
    } else {
        base + location
    }
}

/// The URL with the digest as one more parameter.
pub open spec fn with_digest(url: Seq<char>, digest: Seq<char>) -> Seq<char> {
    url.push(
        if url.contains('?') {
            '&'
        } else {
            '?'
        },
    ) + "digest="@ + digest
}

impl BlobUpload {
    /// The digest is that of the data, and reads back as such.
    pub open spec fn wf(self) -> bool {
        &&& self.digest@ == digest_text(self.data@)
        &&& digest_of(self.digest@) == Ok::<Seq<char>, ErrorView>(hex(sha256(self.data@)))
    }

    /// A blob with the given data.
    pub fn new(base: String, repository: String, credentials: OciCredentials, data: Vec<u8>) -> (res:
        Self)
        ensures
            res.base == base,
            res.repository == repository,
            res.credentials == credentials,
            res.data == data,
            res.wf(),
    {
        let digest = sha256_digest(data.as_slice());
        BlobUpload { base, repository, credentials, data, digest }
    }

    /// An authorized request that concerns the repository of the blob.
    pub open spec fn request(self, tokens: Tokens, method: Method, url: Seq<char>) -> HttpRequestView {
        authorized(tokens, method, url, self.credentials, self.repository@)
    }

    /// The URL of the blobs of the repository, continued by a path.
    pub open spec fn blobs_url(self, path: Seq<char>) -> Seq<char> {
        self.base@ + "/v2/"@ + self.repository@ + "/blobs/"@ + path
    }

    /// The request that asks whether the registry has the blob.
    pub open spec fn check_request(self, tokens: Tokens) -> HttpRequestView {
        self.request(tokens, Method::Head, self.blobs_url(self.digest@))
    }

    /// The request that asks for a location.
    pub open spec fn start_request(self, tokens: Tokens) -> HttpRequestView {
        let plain = self.request(tokens, Method::Post, self.blobs_url("uploads/"@));
        HttpRequestView { headers: plain.headers.push(("Content-Length"@, "0"@)), ..plain }
    }

    /// The request that carries the blob to a location.
    pub open spec fn send_request(self, tokens: Tokens, location: Seq<char>) -> HttpRequestView {
        let plain = self.request(
            tokens,
            Method::Put,
            with_digest(location_url(self.base@, location), self.digest@),
        );
        HttpRequestView {
            headers: plain.headers.push(("Content-Type"@, "application/octet-stream"@)).push(
                ("Content-Length"@, decimal(self.data@.len())),
            ),
            body: self.data@,
            ..plain
        }
    }
}

/// What follows the response to a request for a blob.
pub open spec fn after_upload(
    blob: BlobUpload,
    tokens: Tokens,
    state: UploadState,
    status: Status,
    location: HeaderText,
) -> UploadActionView {
    match state {
        UploadState::Checking => if is_success(status.code) {
            UploadActionView::Finish(Ok(()))
        } else {
            UploadActionView::Send(UploadState::Starting, blob.start_request(tokens))
        },
        UploadState::Starting => if status.code != 202 {
            UploadActionView::Finish(Err(status_error(status, "initiating blob upload"@)))
        } else {
            match location {
                HeaderText::Absent => UploadActionView::Finish(
                    Err(
                        ErrorView::RegistryError("blob upload response missing Location header"@),
                    ),
                ),
                HeaderText::Unreadable(t) => UploadActionView::Finish(
                    Err(ErrorView::RegistryError(t@)),
                ),
                HeaderText::Readable(l) => UploadActionView::Send(
                    UploadState::Sending,
                    blob.send_request(tokens, l@),
                ),
            }
        },
        UploadState::Sending => if is_success(status.code) {
            UploadActionView::Finish(Ok(()))
        } else {
            UploadActionView::Finish(Err(status_error(status, "completing blob upload"@)))
        },
    }
}

/// Writes the URL at which an upload goes on.
fn write_put_url(base: &str, location: &str, digest: &str) -> (res: String)
    ensures
        res@ == with_digest(location_url(base@, location@), digest@),
{
    let absolute = without_prefix(location, "http://").is_some() || without_prefix(
        location,
        "https://",
    ).is_some();
    let mut url = if absolute {
        location.to_string()
    } else {
        let mut url = base.to_string();
        url.append(location);
        url
    };
    let mark: char = if contains_char(url.as_str(), '?') {
        '&'
    } else {
        '?'
    };
    url.push(mark);
    url.append("digest=");
    url.append(digest);
    url
}

impl WasmOciTransport {
    /// An authorized request at a path below the blobs of the repository.
    fn blob_upload_request(&self, blob: &BlobUpload, method: Method, path: &str) -> (res:
        HttpRequest)
        ensures
            res@ == blob.request(self.bearer_tokens@, method, blob.blobs_url(path@)),
    {
        let mut url = blob.base.clone();
        url.append("/v2/");
        url.append(blob.repository.as_str());
        url.append("/blobs/");
        url.append(path);
        self.authorized_request(method, url, &blob.credentials, blob.repository.as_str())
    }

    /// Starts the upload of a blob: the first request asks whether the registry already has it.
    pub fn upload_blob(&self, blob: &BlobUpload) -> (res: HttpRequest)
        ensures
            res@ == blob.check_request(self.bearer_tokens@),
    {
        self.blob_upload_request(blob, Method::Head, blob.digest.as_str())
    }

    /// Takes the response to a request for a blob.
    pub fn uploaded(
        &self,
        blob: &BlobUpload,
        state: UploadState,
        status: &Status,
        location: &HeaderText,
    ) -> (res: UploadAction)
        ensures
            res@ == after_upload(*blob, self.bearer_tokens@, state, *status, *location),
    {
        match state {
            UploadState::Checking => {
                if status.is_success() {
                    return UploadAction::Finish(Ok(()));
                }
                let mut req = self.blob_upload_request(blob, Method::Post, "uploads/");
                req.add_header("Content-Length", "0".to_string());
                UploadAction::Send(UploadState::Starting, req)
            },
            UploadState::Starting => {
                if status.code != 202 {
                    return UploadAction::Finish(
                        Err(oci_error_from_status(status, "initiating blob upload")),
                    );
                }
                match location {
                    HeaderText::Absent => UploadAction::Finish(
                        Err(
                            Error::RegistryError(
                                "blob upload response missing Location header".to_string(),
                            ),
                        ),
                    ),
                    HeaderText::Unreadable(t) => UploadAction::Finish(
                        Err(Error::RegistryError(t.clone())),
                    ),
                    HeaderText::Readable(l) => {
                        let url = write_put_url(
                            blob.base.as_str(),
                            l.as_str(),
                            blob.digest.as_str(),
                        );
                        let mut req = self.authorized_request(
                            Method::Put,
                            url,
                            &blob.credentials,
                            blob.repository.as_str(),
                        );
                        req.add_header("Content-Type", "application/octet-stream".to_string());
                        req.add_header("Content-Length", to_decimal(blob.data.len() as u64));
                        req.body = blob.data.clone();
                        UploadAction::Send(UploadState::Sending, req)
                    },
                }
            },
            UploadState::Sending => {
                if status.is_success() {
                    UploadAction::Finish(Ok(()))
                } else {
                    UploadAction::Finish(
                        Err(oci_error_from_status(status, "completing blob upload")),
                    )
                }
            },
        }
    }
}

// ---------------------------------------------------------------------------
// The image
// ---------------------------------------------------------------------------

/// An image that is to be pushed.
pub struct Push {
    /// The tag that the image gets.
    pub tag: String,
    pub config: BlobUpload,
    pub config_media_type: String,
    pub layer: BlobUpload,
    pub layer_media_type: String,
    pub layer_annotations: Option<TextMap>,
    pub annotations: Option<TextMap>,
}

/// A blob of an image.
#[derive(Clone, Copy, Debug, PartialEq, Eq, Structural)]
pub enum Part {
    Config,
    Layer,
}

/// What the request that was sent last for an image is for.
#[derive(Clone, Copy, Debug, PartialEq, Eq, Structural)]
pub enum PushStage {
    /// It uploads a blob.
    Upload(Part, UploadState),
    /// It carries the manifest.
    Manifest,
}

/// What follows a step of a push.
#[derive(Debug, PartialEq)]
pub enum PushAction {
    /// This request is to be sent, for this purpose.
    Send(PushStage, HttpRequest),
    /// The push ends.
    Finish(Result<(), Error>),
}

/// The contents of an action.
pub enum PushActionView {
    Send(PushStage, HttpRequestView),
    Finish(Result<(), ErrorView>),
}

impl View for PushAction {
    type V = PushActionView;

    open spec fn view(&self) -> PushActionView {
        match self {
            PushAction::Send(stage, req) => PushActionView::Send(*stage, req@),
            PushAction::Finish(Ok(())) => PushActionView::Finish(Ok(())),
            PushAction::Finish(Err(e)) => PushActionView::Finish(Err(e@)),
        }
    }
}

/// What a manifest says of a blob with the given media type.
pub open spec fn blob_view(blob: BlobUpload, media_type: String) -> BlobView {
    BlobView {
        media_type: media_type@,
        digest: blob.digest@,
        size: (blob.data@.len() as i64) as int,
    }
}

/// The entries of an optional map, in the order of their keys.
pub open spec fn own_entries(annotations: Option<TextMap>) -> Seq<(Seq<char>, Seq<char>)> {
    match annotations {
        Some(map) => map.pairs(),
        None => Seq::empty(),
    }
}

impl Push {
    /// The blobs have the digests of their data and go to one repository of one registry.
    pub open spec fn wf(self) -> bool {
        &&& self.config.wf()
        &&& self.layer.wf()
        &&& self.config.base == self.layer.base
        &&& self.config.repository == self.layer.repository
        &&& self.config.credentials == self.layer.credentials
    }

    /// The blob that is a part of the image.
    pub open spec fn blob(self, part: Part) -> BlobUpload {
        match part {
            Part::Config => self.config,
            Part::Layer => self.layer,
        }
    }

    /// The manifest of the image.
    pub open spec fn manifest(self) -> JsonTree {
        manifest_tree(
            blob_view(self.config, self.config_media_type),
            blob_view(self.layer, self.layer_media_type),
            own_entries(self.layer_annotations),
            own_entries(self.annotations),
        )
    }

    /// The URL of the manifest.
    pub open spec fn manifest_url(self) -> Seq<char> {
        self.layer.base@ + "/v2/"@ + self.layer.repository@ + "/manifests/"@ + self.tag@
    }

    /// The request that carries the manifest.
    pub open spec fn manifest_request(self, tokens: Tokens) -> HttpRequestView {
        let plain = self.layer.request(tokens, Method::Put, self.manifest_url());
        HttpRequestView {
            headers: plain.headers.push(("Content-Type"@, OCI_MANIFEST_CONTENT_TYPE@)),
            body: json_bytes(self.manifest()),
            ..plain
        }
    }
}

/// What follows the response to a request for an image.
pub open spec fn after_push(
    push: Push,
    tokens: Tokens,
    stage: PushStage,
    status: Status,
    location: HeaderText,
) -> PushActionView {
    match stage {
        PushStage::Upload(part, state) => match after_upload(
            push.blob(part),
            tokens,
            state,
            status,
            location,
        ) {
            UploadActionView::Send(next, req) => PushActionView::Send(
                PushStage::Upload(part, next),
                req,
            ),
            UploadActionView::Finish(Err(e)) => PushActionView::Finish(Err(e)),
            UploadActionView::Finish(Ok(())) => match part {
                Part::Config => PushActionView::Send(
                    PushStage::Upload(Part::Layer, UploadState::Checking),
                    push.layer.check_request(tokens),
                ),
                Part::Layer => PushActionView::Send(
                    PushStage::Manifest,
                    push.manifest_request(tokens),
                ),
            },
        },
        PushStage::Manifest => if is_success(status.code) {
            PushActionView::Finish(Ok(()))
        } else {
            PushActionView::Finish(Err(status_error(status, "pushing manifest"@)))
        },
    }
}

impl WasmOciTransport {
    /// Prepares the push of an image.
    pub fn push(
        &self,
        reference: &OciReference,
        credentials: &OciCredentials,
        layer: PushLayer,
        config: PushConfig,
        annotations: Option<TextMap>,
    ) -> (res: Push)
        ensures
            res.wf(),
            res.tag == reference.tag,
            res.config.base@ == base(self.protocol, reference.registry@),
            res.config.repository == reference.repository,
            res.config.credentials == *credentials,
            res.config.data == config.data,
            res.config_media_type == config.media_type,
            res.layer.data == layer.data,
            res.layer_media_type == layer.media_type,
            res.layer_annotations == layer.annotations,
            res.annotations == annotations,
    {
        let base = self.base_url(reference.registry.as_str());
        Push {
            tag: reference.tag.clone(),
            config: BlobUpload::new(
                base.clone(),
                reference.repository.clone(),
                credentials.clone(),
                config.data,
            ),
            config_media_type: config.media_type,
            layer: BlobUpload::new(
                base,
                reference.repository.clone(),
                credentials.clone(),
                layer.data,
            ),
            layer_media_type: layer.media_type,
            layer_annotations: layer.annotations,
            annotations,
        }
    }

    /// Starts a push: the config is uploaded first.
    pub fn begin_push(&self, push: &Push) -> (res: (PushStage, HttpRequest))
        ensures
            res.0 == PushStage::Upload(Part::Config, UploadState::Checking),
            res.1@ == push.config.check_request(self.bearer_tokens@),
    {
        (
            PushStage::Upload(Part::Config, UploadState::Checking),
            self.upload_blob(&push.config),
        )
    }

    /// The request that carries the manifest.
    fn push_manifest(&self, push: &Push) -> (res: HttpRequest)
        ensures
            res@ == push.manifest_request(self.bearer_tokens@),
    {
        let body = build_manifest_json(
            push.config_media_type.as_str(),
            push.config.digest.as_str(),
            push.config.data.len() as i64,
            push.layer_media_type.as_str(),
            push.layer.digest.as_str(),
            push.layer.data.len() as i64,
            push.layer_annotations.as_ref(),
            push.annotations.as_ref(),
        );
        let mut url = push.layer.base.clone();
        url.append("/v2/");
        url.append(push.layer.repository.as_str());
        url.append("/manifests/");
        url.append(push.tag.as_str());
        let mut req = self.authorized_request(
            Method::Put,
            url,
            &push.layer.credentials,
            push.layer.repository.as_str(),
        );
        req.add_header("Content-Type", OCI_MANIFEST_CONTENT_TYPE.to_string());
        req.body = body;
        req
    }

    /// Takes the response to a request for an image.
    pub fn pushed(
        &self,
        push: &Push,
        stage: PushStage,
        status: &Status,
        location: &HeaderText,
    ) -> (res: PushAction)
        ensures
            res@ == after_push(*push, self.bearer_tokens@, stage, *status, *location),
    {
        match stage {
            PushStage::Upload(part, state) => {
                let blob = match part {
                    Part::Config => &push.config,
                    Part::Layer => &push.layer,
                };
                match self.uploaded(blob, state, status, location) {
                    UploadAction::Send(next, req) => PushAction::Send(
                        PushStage::Upload(part, next),
                        req,
                    ),
                    UploadAction::Finish(Err(e)) => PushAction::Finish(Err(e)),
                    UploadAction::Finish(Ok(())) => match part {
                        Part::Config => PushAction::Send(
                            PushStage::Upload(Part::Layer, UploadState::Checking),
                            self.upload_blob(&push.layer),
                        ),
                        Part::Layer => PushAction::Send(
                            PushStage::Manifest,
                            self.push_manifest(push),
                        ),
                    },
                }
            },
            PushStage::Manifest => {
                if status.is_success() {
                    PushAction::Finish(Ok(()))
                } else {
                    PushAction::Finish(Err(oci_error_from_status(status, "pushing manifest")))
                }
            },
        }
    }
}

// ---------------------------------------------------------------------------
// Laws
// ---------------------------------------------------------------------------

/// How many more requests a stage can lead to, after the one that was sent.
pub open spec fn requests_left(stage: PushStage) -> int {
    match stage {
        PushStage::Upload(part, state) => {
            let rest: int = match part {
                Part::Config => 4,
                Part::Layer => 1,
            };
            match state {
                UploadState::Checking => rest + 2,
                UploadState::Starting => rest + 1,
                UploadState::Sending => rest,
            }
        },
        PushStage::Manifest => 0,
    }
}

/// A push ends: every request that follows another one leaves fewer to come, so that at most seven are
/// sent.
pub proof fn law_push_ends(
    push: Push,
    tokens: Tokens,
    stage: PushStage,
    status: Status,
    location: HeaderText,
)
    ensures
        after_push(push, tokens, stage, status, location) matches PushActionView::Send(next, _)
            ==> 0 <= requests_left(next) < requests_left(stage),
{
}

/// The registry has a blob once it says so or has taken it: only such a response ends the upload of a
/// blob without an error.
pub open spec fn stored(state: UploadState, status: Status) -> bool {
    is_success(status.code) && !(state is Starting)
}

/// The manifest is sent only when the registry has the layer, the layer only when it has the config, and
/// a push succeeds only when the registry takes the manifest.
pub proof fn law_manifest_comes_last(
    push: Push,
    tokens: Tokens,
    stage: PushStage,
    status: Status,
    location: HeaderText,
)
    ensures
        match after_push(push, tokens, stage, status, location) {
            PushActionView::Send(PushStage::Manifest, _) => stage matches PushStage::Upload(
                Part::Layer,
                state,
            ) && stored(state, status),
            PushActionView::Send(PushStage::Upload(Part::Layer, UploadState::Checking), _) => stage
                matches PushStage::Upload(Part::Config, state) && stored(state, status),
            PushActionView::Finish(Ok(())) => stage is Manifest && is_success(status.code),
            _ => true,
        },
{
}

/// A blob that is sent is the data of the upload, and the URL that it is sent to ends with its digest.
pub proof fn law_blob_is_sent_with_its_digest(
    blob: BlobUpload,
    tokens: Tokens,
    state: UploadState,
    status: Status,
    location: HeaderText,
)
    requires
        blob.wf(),
    ensures
        after_upload(blob, tokens, state, status, location) matches UploadActionView::Send(
            UploadState::Sending,
            req,
        ) ==> req.body == blob.data@ && ("digest="@ + digest_text(req.body)).is_suffix_of(req.url),
{
    if let UploadActionView::Send(UploadState::Sending, req) = after_upload(
        blob,
        tokens,
        state,
        status,
        location,
    ) {
        let tail = "digest="@ + digest_text(req.body);
        let head = req.url.take(req.url.len() - tail.len());
        assert(req.url =~= head + tail);
    }
}

/// The manifest of an image names its blobs by the digests and the lengths of their data.
pub proof fn law_manifest_describes_the_blobs(push: Push)
    requires
        push.wf(),
        push.config.data@.len() <= i64::MAX,
        push.layer.data@.len() <= i64::MAX,
    ensures
        push.manifest() == manifest_tree(
            (BlobView {
                media_type: push.config_media_type@,
                digest: digest_text(push.config.data@),
                size: push.config.data@.len() as int,
            }),
            (BlobView {
                media_type: push.layer_media_type@,
                digest: digest_text(push.layer.data@),
                size: push.layer.data@.len() as int,
            }),
            own_entries(push.layer_annotations),
            own_entries(push.annotations),
        ),
{
}

/// What follows once the responses came in for a push, one after the other. A push that is over stays over.
pub open spec fn push_run(
    push: Push,
    tokens: Tokens,
    responses: Seq<(Status, HeaderText)>,
) -> PushActionView
    decreases responses.len(),
{
    if responses.len() == 0 {
        PushActionView::Send(
            PushStage::Upload(Part::Config, UploadState::Checking),
            push.config.check_request(tokens),
        )
    } else {
        match push_run(push, tokens, responses.drop_last()) {
            PushActionView::Send(stage, _) => after_push(
                push,
                tokens,
                stage,
                responses.last().0,
                responses.last().1,
            ),
            PushActionView::Finish(r) => PushActionView::Finish(r),
        }
    }
}

/// Whether the response at the place says that the registry has the part of the image.
pub open spec fn is_stored_at(
    push: Push,
    tokens: Tokens,
    responses: Seq<(Status, HeaderText)>,
    part: Part,
    i: int,
) -> bool {
    &&& 0 <= i < responses.len()
    &&& push_run(push, tokens, responses.take(i)) matches PushActionView::Send(
        PushStage::Upload(p, state),
        _,
    ) && p == part && stored(state, responses[i].0)
}

/// Whether the response at the place says that the registry took the manifest.
pub open spec fn is_taken_at(
    push: Push,
    tokens: Tokens,
    responses: Seq<(Status, HeaderText)>,
    i: int,
) -> bool {
    &&& 0 <= i < responses.len()
    &&& push_run(push, tokens, responses.take(i)) matches PushActionView::Send(
        PushStage::Manifest,
        _,
    )
    &&& is_success(responses[i].0.code)
}

/// Whether the registry has the config, then has the layer, then takes the manifest.
pub open spec fn is_pushed(push: Push, tokens: Tokens, responses: Seq<(Status, HeaderText)>) -> bool {
    exists|c: int, l: int, m: int|
        c < l < m && #[trigger] is_stored_at(push, tokens, responses, Part::Config, c)
            && #[trigger] is_stored_at(push, tokens, responses, Part::Layer, l)
            && #[trigger] is_taken_at(push, tokens, responses, m)
}

/// A push succeeds only when the registry says that it has the config, after that that it has the layer,
/// and after that takes the manifest.
pub proof fn law_success_means_all_is_pushed(
    push: Push,
    tokens: Tokens,
    responses: Seq<(Status, HeaderText)>,
)
    ensures
        push_run(push, tokens, responses) matches PushActionView::Finish(Ok(())) ==> is_pushed(
            push,
            tokens,
            responses,
        ),
{
    lemma_push_progress(push, tokens, responses);
}

/// A push is over after seven responses at most.
pub proof fn law_push_is_over_after_seven(
    push: Push,
    tokens: Tokens,
    responses: Seq<(Status, HeaderText)>,
)
    requires
        responses.len() >= 7,
    ensures
        push_run(push, tokens, responses) is Finish,
{
    lemma_requests_left(push, tokens, responses);
}

/// Every response takes away from the requests that are left.
proof fn lemma_requests_left(push: Push, tokens: Tokens, responses: Seq<(Status, HeaderText)>)
    ensures
        push_run(push, tokens, responses) matches PushActionView::Send(stage, _) ==> 0
            <= requests_left(stage) <= 6 - responses.len(),
    decreases responses.len(),
{
    if responses.len() > 0 {
        lemma_requests_left(push, tokens, responses.drop_last());
        if let PushActionView::Send(stage, _) = push_run(push, tokens, responses.drop_last()) {
            law_push_ends(push, tokens, stage, responses.last().0, responses.last().1);
        }
    }
}

/// What was said before the last response was said all the same.
proof fn lemma_said_before(
    push: Push,
    tokens: Tokens,
    responses: Seq<(Status, HeaderText)>,
    part: Part,
    i: int,
)
    requires
        responses.len() > 0,
        0 <= i < responses.len() - 1,
    ensures
        is_stored_at(push, tokens, responses.drop_last(), part, i) == is_stored_at(
            push,
            tokens,
            responses,
            part,
            i,
        ),
        is_taken_at(push, tokens, responses.drop_last(), i) == is_taken_at(
            push,
            tokens,
            responses,
            i,
        ),
{
    assert(responses.drop_last().take(i) =~= responses.take(i));
}

/// How far a push has come tells what the registry said.
proof fn lemma_push_progress(push: Push, tokens: Tokens, responses: Seq<(Status, HeaderText)>)
    ensures
        match push_run(push, tokens, responses) {
            PushActionView::Send(PushStage::Upload(Part::Config, _), _) => true,
            PushActionView::Send(PushStage::Upload(Part::Layer, _), _) => exists|c: int| #[trigger]
                is_stored_at(push, tokens, responses, Part::Config, c),
            PushActionView::Send(PushStage::Manifest, _) => exists|c: int, l: int|
                c < l && #[trigger] is_stored_at(push, tokens, responses, Part::Config, c)
                    && #[trigger] is_stored_at(push, tokens, responses, Part::Layer, l),
            PushActionView::Finish(Ok(())) => is_pushed(push, tokens, responses),
            PushActionView::Finish(Err(_)) => true,
        },
    decreases responses.len(),
{
    if responses.len() > 0 {
        let rest = responses.drop_last();
        let n = responses.len() - 1;
        lemma_push_progress(push, tokens, rest);
        assert(responses.take(n) =~= rest);
        match push_run(push, tokens, rest) {
            PushActionView::Send(PushStage::Upload(Part::Config, state), _) => {
                if stored(state, responses.last().0) {
                    assert(is_stored_at(push, tokens, responses, Part::Config, n));
                }
            },
            PushActionView::Send(PushStage::Upload(Part::Layer, state), _) => {
                let c = choose|c: int| #[trigger]
                    is_stored_at(push, tokens, rest, Part::Config, c);
                lemma_said_before(push, tokens, responses, Part::Config, c);
                assert(is_stored_at(push, tokens, responses, Part::Config, c));
                if stored(state, responses.last().0) {
                    assert(is_stored_at(push, tokens, responses, Part::Layer, n));
                }
            },
            PushActionView::Send(PushStage::Manifest, _) => {
                let (c, l) = choose|c: int, l: int|
                    c < l && #[trigger] is_stored_at(push, tokens, rest, Part::Config, c)
                        && #[trigger] is_stored_at(push, tokens, rest, Part::Layer, l);
                lemma_said_before(push, tokens, responses, Part::Config, c);
                lemma_said_before(push, tokens, responses, Part::Layer, l);
                assert(is_stored_at(push, tokens, responses, Part::Config, c));
                assert(is_stored_at(push, tokens, responses, Part::Layer, l));
                if is_success(responses.last().0.code) {
                    assert(is_taken_at(push, tokens, responses, n));
                }
            },
            PushActionView::Finish(Ok(())) => {
                let (c, l, m) = choose|c: int, l: int, m: int|
                    c < l < m && #[trigger] is_stored_at(push, tokens, rest, Part::Config, c)
                        && #[trigger] is_stored_at(push, tokens, rest, Part::Layer, l)
                        && #[trigger] is_taken_at(push, tokens, rest, m);
                lemma_said_before(push, tokens, responses, Part::Config, c);
                lemma_said_before(push, tokens, responses, Part::Layer, l);
                lemma_said_before(push, tokens, responses, Part::Layer, m);
                assert(is_stored_at(push, tokens, responses, Part::Config, c));
                assert(is_stored_at(push, tokens, responses, Part::Layer, l));
                assert(is_taken_at(push, tokens, responses, m));
            },
            PushActionView::Finish(Err(_)) => {},
        }
    }
}

/// The request carries what authorizes it for the repository of the blob.
proof fn lemma_blob_request(blob: BlobUpload, tokens: Tokens, method: Method, url: Seq<char>)
    ensures
        ({
            let req = blob.request(tokens, method, url);
            &&& is_authorized(req, tokens, blob.repository@, blob.credentials)
            &&& req.method == method
            &&& req.url == url
            &&& req.body.len() == 0
            &&& req.headers.len() <= 1
            &&& forall|i: int|
                0 <= i < req.headers.len() ==> (#[trigger] req.headers[i]).0 == "Authorization"@
        }),
{
    lemma_authorized(tokens, method, url, blob.credentials, blob.repository@);
}

/// The names of the headers of a push differ from one another.
proof fn lemma_header_names()
    ensures
        "Authorization"@.len() == 13,
        "Content-Type"@.len() == 12,
        "Content-Length"@.len() == 14,
{
    reveal_strlit("Authorization");
    reveal_strlit("Content-Type");
    reveal_strlit("Content-Length");
}

/// Whether the blobs of the repository are found below the URL.
pub open spec fn blobs_at(blob: BlobUpload) -> Seq<char> {
    blob.base@ + "/v2/"@ + blob.repository@ + "/blobs/"@
}

/// What the registry is asked for first is whether it has the blob: `HEAD /v2/<name>/blobs/<digest>`, with the digest
/// of the data and the authorization of the repository.
pub proof fn law_blob_is_looked_for(transport: &WasmOciTransport, blob: &BlobUpload, res: HttpRequest)
    requires
        blob.wf(),
        call_ensures(WasmOciTransport::upload_blob, (transport, blob), res),
    ensures
        res@.method == Method::Head,
        res@.url == blobs_at(*blob) + "sha256:"@ + hex(sha256(blob.data@)),
        res@.body.len() == 0,
        is_authorized(res@, transport.bearer_tokens@, blob.repository@, blob.credentials),
{
    lemma_check_request(*blob, transport.bearer_tokens@);
}

/// The request that asks for a blob names its digest.
proof fn lemma_check_request(blob: BlobUpload, tokens: Tokens)
    requires
        blob.wf(),
    ensures
        blob.check_request(tokens).method == Method::Head,
        blob.check_request(tokens).url == blobs_at(blob) + "sha256:"@ + hex(sha256(blob.data@)),
        blob.check_request(tokens).body.len() == 0,
        is_authorized(blob.check_request(tokens), tokens, blob.repository@, blob.credentials),
{
    lemma_blob_request(blob, tokens, Method::Head, blob.blobs_url(blob.digest@));
    assert(blobs_at(blob) + "sha256:"@ + hex(sha256(blob.data@)) =~= blob.blobs_url(blob.digest@));
}

/// Whether the URL is where the data goes when the registry gave the location: at the location, where that is a URL, or
/// else at the location below the registry, with the digest as one more parameter behind a question mark, or an
/// ampersand where there is one already.
pub open spec fn goes_to(
    url: Seq<char>,
    base: Seq<char>,
    location: Seq<char>,
    data: Seq<u8>,
) -> bool {
    let place = if "http://"@.is_prefix_of(location) || "https://"@.is_prefix_of(location) {
        location
    } else {
        base + location
    };
    url == place + (if place.contains('?') {
        "&digest=sha256:"@
    } else {
        "?digest=sha256:"@
    }) + hex(sha256(data))
}

/// The steps of the upload of a blob. A blob that the registry has is not sent. One that it does not have is announced
/// by `POST /v2/<name>/blobs/uploads/` without a body, and where that is accepted with a location, `PUT` carries the
/// data there, its length told and the digest of the data added to the query. Only a success ends the upload well.
pub proof fn law_upload_steps(
    transport: &WasmOciTransport,
    blob: &BlobUpload,
    state: UploadState,
    status: &Status,
    location: &HeaderText,
    res: UploadAction,
)
    requires
        blob.wf(),
        call_ensures(WasmOciTransport::uploaded, (transport, blob, state, status, location), res),
    ensures
        match state {
            UploadState::Checking => if 200 <= status.code <= 299 {
                res matches UploadAction::Finish(Ok(_))
            } else {
                res matches UploadAction::Send(UploadState::Starting, req) && {
                    &&& req@.method == Method::Post
                    &&& req@.url == blobs_at(*blob) + "uploads/"@
                    &&& req@.body.len() == 0
                    &&& has_only(req@, "Content-Length"@, "0"@)
                }
            },
            UploadState::Starting => match (status.code, location) {
                (202, HeaderText::Readable(l)) => res matches UploadAction::Send(
                    UploadState::Sending,
                    req,
                ) && {
                    &&& req@.method == Method::Put
                    &&& goes_to(req@.url, blob.base@, l@, blob.data@)
                    &&& req@.body == blob.data@
                    &&& has_only(req@, "Content-Type"@, "application/octet-stream"@)
                    &&& has_only(req@, "Content-Length"@, decimal(blob.data@.len()))
                },
                _ => res matches UploadAction::Finish(Err(_)),
            },
            UploadState::Sending => if 200 <= status.code <= 299 {
                res matches UploadAction::Finish(Ok(_))
            } else {
                res matches UploadAction::Finish(Err(_))
            },
        },
        res matches UploadAction::Send(_, req) ==> is_authorized(
            req@,
            transport.bearer_tokens@,
            blob.repository@,
            blob.credentials,
        ),
        res matches UploadAction::Finish(Err(e)) ==> match (state, status.code, location) {
            (_, 404, _) => e@ is PackageNotFound,
            (UploadState::Starting, 202, HeaderText::Unreadable(t)) => e@ == ErrorView::RegistryError(
                t@,
            ),
            (UploadState::Starting, 202, _) => e@ == ErrorView::RegistryError(
                "blob upload response missing Location header"@,
            ),
            (UploadState::Starting, _, _) => e@ == ErrorView::RegistryError(
                "HTTP "@ + status.text@ + " while initiating blob upload"@,
            ),
            (_, _, _) => e@ == ErrorView::RegistryError(
                "HTTP "@ + status.text@ + " while completing blob upload"@,
            ),
        },
{
    lemma_failed(*status, " while initiating blob upload"@, "initiating blob upload"@);
    lemma_failed(*status, " while completing blob upload"@, "completing blob upload"@);
    reveal_strlit(" while ");
    reveal_strlit("initiating blob upload");
    reveal_strlit("completing blob upload");
    reveal_strlit(" while initiating blob upload");
    reveal_strlit(" while completing blob upload");
    assert(" while "@ + "initiating blob upload"@ =~= " while initiating blob upload"@);
    assert(" while "@ + "completing blob upload"@ =~= " while completing blob upload"@);
    lemma_after_upload(*blob, transport.bearer_tokens@, state, *status, *location);
}

/// A response that is no success is told with its status and what was being done.
proof fn lemma_failed(status: Status, doing: Seq<char>, action: Seq<char>)
    ensures
        status.code == 404 ==> status_error(status, action) is PackageNotFound,
        status.code != 404 && doing == " while "@ + action ==> status_error(status, action)
            == ErrorView::RegistryError("HTTP "@ + status.text@ + doing),
{
    assert("HTTP "@ + status.text@ + " while "@ + action =~= "HTTP "@ + status.text@ + (" while "@
        + action));
}

/// The requests that are sent for a blob.
proof fn lemma_after_upload(
    blob: BlobUpload,
    tokens: Tokens,
    state: UploadState,
    status: Status,
    location: HeaderText,
)
    requires
        blob.wf(),
    ensures
        after_upload(blob, tokens, state, status, location) matches UploadActionView::Send(next, req)
            ==> {
            &&& is_authorized(req, tokens, blob.repository@, blob.credentials)
            &&& next is Starting ==> {
                &&& req.method == Method::Post
                &&& req.url == blobs_at(blob) + "uploads/"@
                &&& req.body.len() == 0
                &&& has_only(req, "Content-Length"@, "0"@)
            }
            &&& next is Sending ==> {
                &&& req.method == Method::Put
                &&& location matches HeaderText::Readable(l) && goes_to(
                    req.url,
                    blob.base@,
                    l@,
                    blob.data@,
                )
                &&& req.body == blob.data@
                &&& has_only(req, "Content-Type"@, "application/octet-stream"@)
                &&& has_only(req, "Content-Length"@, decimal(blob.data@.len()))
            }
        },
{
    lemma_header_names();
    if let UploadActionView::Send(next, req) = after_upload(blob, tokens, state, status, location) {
        if state is Checking {
            let url = blob.blobs_url("uploads/"@);
            let plain = blob.request(tokens, Method::Post, url);
            let length = ("Content-Length"@, "0"@);
            lemma_blob_request(blob, tokens, Method::Post, url);
            lemma_still_authorized(
                plain,
                tokens,
                blob.repository@,
                blob.credentials,
                length,
                plain.body,
            );
            assert(req =~= HttpRequestView { headers: plain.headers.push(length), ..plain });
            lemma_has_only(plain.headers, length, req);
            assert(url =~= blobs_at(blob) + "uploads/"@);
        } else if let HeaderText::Readable(l) = location {
            let place = location_url(blob.base@, l@);
            let url = with_digest(place, blob.digest@);
            let plain = blob.request(tokens, Method::Put, url);
            let kind = ("Content-Type"@, "application/octet-stream"@);
            let length = ("Content-Length"@, decimal(blob.data@.len()));
            lemma_blob_request(blob, tokens, Method::Put, url);
            lemma_still_authorized(plain, tokens, blob.repository@, blob.credentials, kind, plain.body);
            let typed = HttpRequestView { headers: plain.headers.push(kind), ..plain };
            lemma_still_authorized(
                typed,
                tokens,
                blob.repository@,
                blob.credentials,
                length,
                blob.data@,
            );
            assert(req =~= HttpRequestView {
                headers: typed.headers.push(length),
                body: blob.data@,
                ..typed
            });
            lemma_has_only(plain.headers, kind, typed);
            assert(typed.headers[plain.headers.len() as int] == kind);
            assert forall|i: int| 0 <= i < typed.headers.len() implies (#[trigger] typed.headers[i]).0
                != length.0 by {
                if i < plain.headers.len() {
                    assert(typed.headers[i] == plain.headers[i]);
                }
            }
            lemma_has_only(typed.headers, length, req);
            assert(req.headers[plain.headers.len() as int] == kind);
            assert forall|i: int| 0 <= i < req.headers.len() && (#[trigger] req.headers[i]).0 == kind.0 implies req.headers[i].1
                == kind.1 by {
                if i < typed.headers.len() {
                    assert(req.headers[i] == typed.headers[i]);
                }
            }
            assert(has_only(req, kind.0, kind.1));
            reveal_strlit("digest=");
            reveal_strlit("sha256:");
            reveal_strlit("?digest=sha256:");
            reveal_strlit("&digest=sha256:");
            assert(seq!['?'] + "digest="@ + "sha256:"@ =~= "?digest=sha256:"@);
            assert(seq!['&'] + "digest="@ + "sha256:"@ =~= "&digest=sha256:"@);
            let digits = hex(sha256(blob.data@));
            if place.contains('?') {
                assert(url =~= place + (seq!['&'] + "digest="@ + "sha256:"@) + digits);
            } else {
                assert(url =~= place + (seq!['?'] + "digest="@ + "sha256:"@) + digits);
            }
        }
    }
}

/// A header that is added is the only one of its name, where there was none before.
proof fn lemma_has_only(
    headers: Seq<(Seq<char>, Seq<char>)>,
    header: (Seq<char>, Seq<char>),
    req: HttpRequestView,
)
    requires
        forall|i: int| 0 <= i < headers.len() ==> (#[trigger] headers[i]).0 != header.0,
        req.headers == headers.push(header),
    ensures
        has_only(req, header.0, header.1),
{
    assert(req.headers[headers.len() as int] == header);
    assert forall|i: int| 0 <= i < req.headers.len() && (#[trigger] req.headers[i]).0 == header.0 implies req.headers[i].1
        == header.1 by {
        if i < headers.len() {
            assert(req.headers[i] == headers[i]);
        }
    }
}

/// Every request that is sent for an image carries the authorization of its repository: the token for the repository,
/// where one is held, or else the user name and the password, where there are any.
pub proof fn law_every_request_of_a_push_is_authorized(
    transport: &WasmOciTransport,
    push: &Push,
    first: (PushStage, HttpRequest),
    stage: PushStage,
    status: &Status,
    location: &HeaderText,
    res: PushAction,
)
    requires
        push.wf(),
        call_ensures(WasmOciTransport::begin_push, (transport, push), first),
        call_ensures(WasmOciTransport::pushed, (transport, push, stage, status, location), res),
    ensures
        is_authorized(
            first.1@,
            transport.bearer_tokens@,
            push.layer.repository@,
            push.layer.credentials,
        ),
        res matches PushAction::Send(_, req) ==> is_authorized(
            req@,
            transport.bearer_tokens@,
            push.layer.repository@,
            push.layer.credentials,
        ),
{
    let tokens = transport.bearer_tokens@;
    lemma_check_request(push.config, tokens);
    lemma_check_request(push.layer, tokens);
    lemma_manifest_request(*push, tokens);
    if let PushStage::Upload(part, state) = stage {
        lemma_after_upload(push.blob(part), tokens, state, *status, *location);
    }
}

/// The request that carries the manifest.
proof fn lemma_manifest_request(push: Push, tokens: Tokens)
    ensures
        ({
            let req = push.manifest_request(tokens);
            &&& is_authorized(req, tokens, push.layer.repository@, push.layer.credentials)
            &&& req.method == Method::Put
            &&& req.url == push.layer.base@ + "/v2/"@ + push.layer.repository@ + "/manifests/"@
                + push.tag@
            &&& has_only(req, "Content-Type"@, "application/vnd.oci.image.manifest.v1+json"@)
            &&& req.body == json_bytes(push.manifest())
        }),
{
    lemma_header_names();
    let url = push.manifest_url();
    let plain = push.layer.request(tokens, Method::Put, url);
    let kind = ("Content-Type"@, OCI_MANIFEST_CONTENT_TYPE@);
    lemma_blob_request(push.layer, tokens, Method::Put, url);
    lemma_still_authorized(
        plain,
        tokens,
        push.layer.repository@,
        push.layer.credentials,
        kind,
        json_bytes(push.manifest()),
    );
    lemma_has_only(plain.headers, kind, push.manifest_request(tokens));
}

/// The steps of the push of an image. First the registry is asked for the config. Once it has that, it is asked for the
/// layer, and once it has that too, `PUT /v2/<name>/manifests/<tag>` carries the manifest. What goes wrong ends the
/// push with an error; a success with the manifest ends it well.
pub proof fn law_push_steps(
    transport: &WasmOciTransport,
    push: &Push,
    first: (PushStage, HttpRequest),
    stage: PushStage,
    status: &Status,
    location: &HeaderText,
    res: PushAction,
)
    requires
        push.wf(),
        call_ensures(WasmOciTransport::begin_push, (transport, push), first),
        call_ensures(WasmOciTransport::pushed, (transport, push, stage, status, location), res),
    ensures
        first.0 == PushStage::Upload(Part::Config, UploadState::Checking),
        first.1@.method == Method::Head,
        first.1@.url == blobs_at(push.config) + "sha256:"@ + hex(sha256(push.config.data@)),
        match stage {
            PushStage::Upload(Part::Config, UploadState::Checking)
            | PushStage::Upload(Part::Config, UploadState::Sending) => 200 <= status.code <= 299 ==> (
            res matches PushAction::Send(PushStage::Upload(Part::Layer, UploadState::Checking), req)
                && req@.method == Method::Head && req@.url == blobs_at(push.layer) + "sha256:"@ + hex(
                sha256(push.layer.data@),
            )),
            PushStage::Upload(Part::Layer, UploadState::Checking)
            | PushStage::Upload(Part::Layer, UploadState::Sending) => 200 <= status.code <= 299 ==> (
            res matches PushAction::Send(PushStage::Manifest, req) && req@.method == Method::Put
                && req@.url == push.layer.base@ + "/v2/"@ + push.layer.repository@ + "/manifests/"@
                + push.tag@ && has_only(
                req@,
                "Content-Type"@,
                "application/vnd.oci.image.manifest.v1+json"@,
            ) && req@.body == json_bytes(push.manifest())),
            PushStage::Manifest => (res matches PushAction::Finish(Ok(_))) <==> 200 <= status.code <= 299,
            _ => true,
        },
        match stage {
            PushStage::Upload(part, UploadState::Checking) => !(200 <= status.code <= 299) ==> (
            res matches PushAction::Send(PushStage::Upload(p, UploadState::Starting), req) && p
                == part && req@.method == Method::Post && req@.url == blobs_at(push.blob(part))
                + "uploads/"@),
            PushStage::Upload(part, UploadState::Starting) => match (status.code, location) {
                (202, HeaderText::Readable(l)) => res matches PushAction::Send(
                    PushStage::Upload(p, UploadState::Sending),
                    req,
                ) && p == part && req@.method == Method::Put && req@.body == push.blob(part).data@
                    && goes_to(req@.url, push.blob(part).base@, l@, push.blob(part).data@),
                _ => res matches PushAction::Finish(Err(_)),
            },
            _ => !(200 <= status.code <= 299) ==> (res matches PushAction::Finish(Err(_))),
        },
        push.blob(Part::Config) == push.config,
        push.blob(Part::Layer) == push.layer,
{
    let tokens = transport.bearer_tokens@;
    lemma_check_request(push.config, tokens);
    lemma_check_request(push.layer, tokens);
    lemma_manifest_request(*push, tokens);
    if let PushStage::Upload(part, state) = stage {
        lemma_after_upload(push.blob(part), tokens, state, *status, *location);
    }
}

/// A push is that of the given layer and config under the given reference: both blobs go to the repository of the
/// reference at its registry, the manifest gets its tag, and the media types and annotations are the given ones.
pub proof fn law_push_is_prepared(
    transport: &WasmOciTransport,
    reference: &OciReference,
    credentials: &OciCredentials,
    layer: PushLayer,
    config: PushConfig,
    annotations: Option<TextMap>,
    res: Push,
)
    requires
        call_ensures(
            WasmOciTransport::push,
            (transport, reference, credentials, layer, config, annotations),
            res,
        ),
    ensures
        res.layer.data@ == layer.data@,
        res.config.data@ == config.data@,
        res.layer.digest@ == "sha256:"@ + hex(sha256(layer.data@)),
        res.config.digest@ == "sha256:"@ + hex(sha256(config.data@)),
        blobs_at(res.layer) == repository_url(
            transport.protocol,
            reference.registry@,
            reference.repository@,
        ) + "/blobs/"@,
        blobs_at(res.config) == blobs_at(res.layer),
        res.layer.repository@ == reference.repository@,
        res.config.repository@ == reference.repository@,
        res.layer.credentials == *credentials,
        res.config.credentials == *credentials,
        res.tag@ == reference.tag@,
        res.layer_media_type@ == layer.media_type@,
        res.config_media_type@ == config.media_type@,
        res.layer_annotations == layer.annotations,
        res.annotations == annotations,
{
    lemma_base(transport.protocol, reference.registry@);
}

/// The manifest that is pushed names the config and the one layer by their media types, the digests of their data and
/// the lengths of it, and has the annotations of the image and of the layer.
pub proof fn law_pushed_manifest_tells_of_the_image(push: Push)
    requires
        push.wf(),
        push.config.data@.len() <= i64::MAX,
        push.layer.data@.len() <= i64::MAX,
    ensures
        member(push.manifest(), "schemaVersion"@) == Some(JsonTree::Number(2)),
        describes(
            member(push.manifest(), "config"@),
            push.config_media_type@,
            "sha256:"@ + hex(sha256(push.config.data@)),
            push.config.data@.len() as int,
        ),
        member(push.manifest(), "layers"@) matches Some(JsonTree::List(layers)) && layers.len() == 1
            && describes(
            Some(layers[0]),
            push.layer_media_type@,
            "sha256:"@ + hex(sha256(push.layer.data@)),
            push.layer.data@.len() as int,
        ) && has_annotations(
            layers[0],
            match push.layer_annotations {
                Some(map) => map.pairs(),
                None => Seq::empty(),
            },
        ),
        has_annotations(
            push.manifest(),
            match push.annotations {
                Some(map) => map.pairs(),
                None => Seq::empty(),
            },
        ),
{
    law_manifest_tells_of_its_blobs(
        blob_view(push.config, push.config_media_type),
        blob_view(push.layer, push.layer_media_type),
        own_entries(push.layer_annotations),
        own_entries(push.annotations),
    );
}

/// What goes wrong with a blob is what goes wrong with the push. A manifest that the registry does not take is told with
/// the status.
pub proof fn law_failed_push_is_told(
    transport: &WasmOciTransport,
    push: &Push,
    stage: PushStage,
    status: &Status,
    location: &HeaderText,
    upload: UploadAction,
    res: PushAction,
)
    requires
        call_ensures(WasmOciTransport::pushed, (transport, push, stage, status, location), res),
        stage matches PushStage::Upload(Part::Config, state) ==> call_ensures(
            WasmOciTransport::uploaded,
            (transport, &push.config, state, status, location),
            upload,
        ),
        stage matches PushStage::Upload(Part::Layer, state) ==> call_ensures(
            WasmOciTransport::uploaded,
            (transport, &push.layer, state, status, location),
            upload,
        ),
    ensures
        stage is Upload ==> ((upload matches UploadAction::Finish(Err(_))) <==> (
        res matches PushAction::Finish(_))),
        stage is Upload ==> (upload matches UploadAction::Finish(Err(e)) ==> (
        res matches PushAction::Finish(Err(f)) && f@ == e@)),
        stage is Upload ==> (upload matches UploadAction::Send(_, req) ==> (
        res matches PushAction::Send(_, sent) && sent@ == req@)),
        stage is Manifest && status.code == 404 ==> (res matches PushAction::Finish(Err(e))
            && e@ is PackageNotFound),
        stage is Manifest && status.code != 404 ==> (res matches PushAction::Finish(Err(e)) ==> e@
            == ErrorView::RegistryError("HTTP "@ + status.text@ + " while pushing manifest"@)),
{
    lemma_failed(*status, " while pushing manifest"@, "pushing manifest"@);
    reveal_strlit(" while ");
    reveal_strlit("pushing manifest");
    reveal_strlit(" while pushing manifest");
    assert(" while "@ + "pushing manifest"@ =~= " while pushing manifest"@);
}

} // verus!
