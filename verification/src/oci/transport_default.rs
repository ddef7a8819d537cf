//! The decisions of a transport that leaves the OCI Distribution protocol to a client library.

use vstd::prelude::*;
use oci_client::manifest::OciImageManifest;

use crate::digest::digest_text;
use crate::digest::sha256;
use crate::error::Error;
use crate::error::ErrorView;
use crate::oci::manifest::BlobView;
use crate::oci::transport::OciCredentials;
use crate::oci::transport::PushConfig;
use crate::oci::transport::PushLayer;
use crate::text::hex;
use crate::text::pair_texts;
use crate::text_map::map_of;
use crate::text_map::TextMap;

verus! {

// ---------------------------------------------------------------------------
// Credentials and errors
// ---------------------------------------------------------------------------

/// How a client authenticates to a registry.
#[derive(Debug, PartialEq)]
pub enum RegistryAuth {
    Anonymous,
    Basic(String, String),
    Bearer(String),
}

/// The credentials as a client takes them.
pub open spec fn registry_auth(c: OciCredentials) -> RegistryAuth {
    match c {
        OciCredentials::Anonymous => RegistryAuth::Anonymous,
        OciCredentials::Basic(u, p) => RegistryAuth::Basic(u, p),
    }
}

/// The credentials that a client used. Bearer tokens are handled by the client itself, so that for its
/// users they are no credentials at all.
pub open spec fn used_credentials(a: RegistryAuth) -> OciCredentials {
    match a {
        RegistryAuth::Basic(u, p) => OciCredentials::Basic(u, p),
        _ => OciCredentials::Anonymous,
    }
}

/// Credentials that a client takes are those that it used.
pub proof fn law_credentials_come_back(c: OciCredentials)
    ensures
        used_credentials(registry_auth(c)) == c,
{
}

/// Gives a client the credentials.
pub fn to_registry_auth(c: &OciCredentials) -> (res: RegistryAuth)
    ensures
        res == registry_auth(*c),
{
    match c {
        OciCredentials::Anonymous => RegistryAuth::Anonymous,
        OciCredentials::Basic(u, p) => RegistryAuth::Basic(u.clone(), p.clone()),
    }
}

/// Takes the credentials that a client used.
pub fn from_registry_auth(a: &RegistryAuth) -> (res: OciCredentials)
    ensures
        res == used_credentials(*a),
{
    match a {
        RegistryAuth::Anonymous => OciCredentials::Anonymous,
        RegistryAuth::Basic(u, p) => OciCredentials::Basic(u.clone(), p.clone()),
        RegistryAuth::Bearer(_) => OciCredentials::Anonymous,
    }
}

/// Why a client failed. Each failure has the text that it is shown as.
#[derive(Debug, PartialEq)]
pub enum ClientFailure {
    /// There is no such manifest.
    ManifestNotFound(String),
    /// The credentials were refused.
    Authentication(String),
    /// Anything else.
    Other(String),
}

/// The error that stands for a failure.
pub open spec fn registry_error(failure: ClientFailure) -> ErrorView {
    match failure {
        ClientFailure::ManifestNotFound(_) => ErrorView::PackageNotFound,
        ClientFailure::Authentication(t) => ErrorView::RegistryError(t@),
        ClientFailure::Other(t) => ErrorView::RegistryError(t@),
    }
}

/// The error that stands for a failure.
pub fn oci_registry_error(failure: ClientFailure) -> (res: Error)
    ensures
        res@ == registry_error(failure),
{
    match failure {
        ClientFailure::ManifestNotFound(_) => Error::PackageNotFound,
        ClientFailure::Authentication(t) => Error::RegistryError(t),
        ClientFailure::Other(t) => Error::RegistryError(t),
    }
}

// ---------------------------------------------------------------------------
// Authentication
// ---------------------------------------------------------------------------

/// What follows the first attempt to authenticate.
#[derive(Debug, PartialEq)]
pub enum DefaultAuthAction {
    /// The authentication ends with the credentials to be used from now on, or with an error.
    Finish(Result<OciCredentials, Error>),
    /// The credentials were refused for this reason, but may not be needed: another attempt goes without
    /// them.
    RetryAnonymously(ClientFailure),
}

/// Takes the outcome of an attempt to authenticate with the credentials.
pub fn auth_attempted(credentials: &OciCredentials, outcome: Result<(), ClientFailure>) -> (res:
    DefaultAuthAction)
    ensures
        match outcome {
            Ok(()) => res == DefaultAuthAction::Finish(Ok(*credentials)),
            Err(f) => if f is Authentication && !(credentials is Anonymous) {
                res == DefaultAuthAction::RetryAnonymously(f)
            } else {
                res matches DefaultAuthAction::Finish(Err(e)) && e@ == registry_error(f)
            },
        },
{
    match outcome {
        Ok(()) => {
            let auth = to_registry_auth(credentials);
            DefaultAuthAction::Finish(Ok(from_registry_auth(&auth)))
        },
        Err(ClientFailure::Authentication(t)) => match credentials {
            OciCredentials::Anonymous => DefaultAuthAction::Finish(
                Err(oci_registry_error(ClientFailure::Authentication(t))),
            ),
            OciCredentials::Basic(_, _) => DefaultAuthAction::RetryAnonymously(
                ClientFailure::Authentication(t),
            ),
        },
        Err(f) => DefaultAuthAction::Finish(Err(oci_registry_error(f))),
    }
}

/// Takes the outcome of the attempt without credentials. Where it fails too, the reason of the first
/// failure is reported.
pub fn auth_retried(first: ClientFailure, accepted: bool) -> (res: Result<OciCredentials, Error>)
    ensures
        if accepted {
            res == Ok::<OciCredentials, Error>(OciCredentials::Anonymous)
        } else {
            res matches Err(e) && e@ == registry_error(first)
        },
{
    if accepted {
        Ok(OciCredentials::Anonymous)
    } else {
        Err(oci_registry_error(first))
    }
}

// ---------------------------------------------------------------------------
// Pushing
// ---------------------------------------------------------------------------

/// `oci_client::manifest::OciImageManifest`, the manifest of an image.
#[verifier::external_type_specification]
#[verifier::external_body]
pub struct ExOciImageManifest(OciImageManifest);

/// The contents of the manifest of an image with one layer.
pub struct ImageView {
    pub config: BlobView,
    pub layer: BlobView,
    pub layer_annotations: Option<Map<Seq<char>, Seq<char>>>,
    pub annotations: Option<Map<Seq<char>, Seq<char>>>,
}

/// What the manifest of an image with one layer holds.
pub uninterp spec fn image_contents(manifest: OciImageManifest) -> ImageView;

/// What a manifest says of a blob.
pub open spec fn described(data: Seq<u8>, media_type: Seq<char>) -> BlobView {
    BlobView { media_type, digest: digest_text(data), size: (data.len() as i64) as int }
}

/// The map of the pairs, where there are any.
pub open spec fn opt_map(pairs: Option<Vec<(String, String)>>) -> Option<
    Map<Seq<char>, Seq<char>>,
> {
    match pairs {
        Some(p) => Some(map_of(pair_texts(p@))),
        None => None,
    }
}

/// The contents of an optional map.
pub open spec fn opt_view(map: Option<&TextMap>) -> Option<Map<Seq<char>, Seq<char>>> {
    match map {
        Some(m) => Some(m@),
        None => None,
    }
}

/// `oci_client::manifest::OciImageManifest::build` makes the manifest of an image: it names each blob by
/// its media type, its SHA-256 digest and its length, and takes the annotations as they are.
#[verifier::external_body]
fn image_manifest(
    config: &PushConfig,
    layer: &PushLayer,
    layer_annotations: Option<Vec<(String, String)>>,
    annotations: Option<Vec<(String, String)>>,
) -> (res: OciImageManifest)
    ensures
        image_contents(res) == (ImageView {
            config: described(config.data@, config.media_type@),
            layer: described(layer.data@, layer.media_type@),
            layer_annotations: opt_map(layer_annotations),
            annotations: opt_map(annotations),
        }),
{
    let config = oci_client::client::Config {
        data: config.data.clone().into(),
        media_type: config.media_type.clone(),
        annotations: None,
    };
    let layer = oci_client::client::ImageLayer {
        data: layer.data.clone().into(),
        media_type: layer.media_type.clone(),
        annotations: layer_annotations.map(|pairs| pairs.into_iter().collect()),
    };
    let annotations = annotations.map(|pairs| pairs.into_iter().collect());
    OciImageManifest::build(&[layer], &config, annotations)
}

/// The pairs of a map, where there is one.
fn pairs_of(map: Option<&TextMap>) -> (res: Option<Vec<(String, String)>>)
    ensures
        opt_map(res) == opt_view(map),
{
    match map {
        Some(m) => Some(m.to_pairs()),
        None => None,
    }
}

/// The manifest that is pushed for an image.
pub fn push_manifest(
    layer: &PushLayer,
    config: &PushConfig,
    annotations: Option<&TextMap>,
) -> (res: OciImageManifest)
    ensures
        image_contents(res) == (ImageView {
            config: described(config.data@, config.media_type@),
            layer: described(layer.data@, layer.media_type@),
            layer_annotations: match layer.annotations {
                Some(m) => Some(m@),
                None => None,
            },
            annotations: opt_view(annotations),
        }),
{
    image_manifest(config, layer, pairs_of(layer.annotations.as_ref()), pairs_of(annotations))
}

// ---------------------------------------------------------------------------
// Laws
// ---------------------------------------------------------------------------

/// Credentials go to a client and come back as they are. A token that a client holds is none of its user's credentials.
pub proof fn law_credentials_are_passed_on(
    credentials: &OciCredentials,
    auth: RegistryAuth,
    token: String,
    back: OciCredentials,
    held: OciCredentials,
)
    requires
        call_ensures(to_registry_auth, (credentials,), auth),
        call_ensures(from_registry_auth, (&auth,), back),
        call_ensures(from_registry_auth, (&RegistryAuth::Bearer(token),), held),
    ensures
        back == *credentials,
        held == OciCredentials::Anonymous,
        auth is Anonymous <==> credentials is Anonymous,
        credentials matches OciCredentials::Basic(u, p) ==> auth == RegistryAuth::Basic(*u, *p),
{
}

/// That there is no such manifest means that the package is not found; every other failure is the registry's, and is
/// told as it is.
pub proof fn law_failure_is_told(failure: ClientFailure, res: Error)
    requires
        call_ensures(oci_registry_error, (failure,), res),
    ensures
        res@ is PackageNotFound <==> failure is ManifestNotFound,
        failure matches ClientFailure::Authentication(t) ==> res@ == ErrorView::RegistryError(t@),
        failure matches ClientFailure::Other(t) ==> res@ == ErrorView::RegistryError(t@),
{
}

/// An attempt that succeeds ends the authentication with its credentials. Credentials that are refused are left out in a
/// second attempt; any other failure ends it, and so does a refusal where there were none. The second attempt ends it
/// without credentials, or with the reason of the first refusal.
pub proof fn law_refused_credentials_are_left_out(
    credentials: &OciCredentials,
    outcome: Result<(), ClientFailure>,
    first: DefaultAuthAction,
    failure: ClientFailure,
    accepted: bool,
    second: Result<OciCredentials, Error>,
)
    requires
        call_ensures(auth_attempted, (credentials, outcome), first),
        call_ensures(auth_retried, (failure, accepted), second),
    ensures
        outcome is Ok ==> first == DefaultAuthAction::Finish(Ok(*credentials)),
        first is RetryAnonymously <==> credentials is Basic && (outcome matches Err(f)
            && f is Authentication),
        first matches DefaultAuthAction::RetryAnonymously(f) ==> outcome == Err::<(), ClientFailure>(f),
        outcome is Err && !(first is RetryAnonymously) ==> (first matches DefaultAuthAction::Finish(
            Err(_),
        )),
        accepted ==> second == Ok::<OciCredentials, Error>(OciCredentials::Anonymous),
        !accepted ==> second is Err,
        !accepted && failure is Authentication ==> (second matches Err(e) && e@
            == ErrorView::RegistryError(failure->Authentication_0@)),
{
}

/// The manifest that is pushed names the config and the layer by their media types, the digests of their data and the
/// lengths of it, and takes all annotations as they are.
pub proof fn law_image_tells_of_its_blobs(
    layer: &PushLayer,
    config: &PushConfig,
    annotations: Option<&TextMap>,
    res: OciImageManifest,
)
    requires
        layer.data@.len() <= i64::MAX,
        config.data@.len() <= i64::MAX,
        call_ensures(push_manifest, (layer, config, annotations), res),
    ensures
        image_contents(res).layer.digest == "sha256:"@ + hex(sha256(layer.data@)),
        image_contents(res).layer.size == layer.data@.len(),
        image_contents(res).layer.media_type == layer.media_type@,
        image_contents(res).config.digest == "sha256:"@ + hex(sha256(config.data@)),
        image_contents(res).config.size == config.data@.len(),
        image_contents(res).config.media_type == config.media_type@,
        annotations is None <==> image_contents(res).annotations is None,
        annotations matches Some(m) ==> image_contents(res).annotations == Some(m@),
        layer.annotations is None <==> image_contents(res).layer_annotations is None,
        layer.annotations matches Some(m) ==> image_contents(res).layer_annotations == Some(m@),
{
}

} // verus!
