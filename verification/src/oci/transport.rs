//! Types of the exchanges with an OCI registry that do not depend on the HTTP client.

use vstd::prelude::*;

use crate::text_map::TextMap;

verus! {

/// Credentials for OCI registry authentication.
#[derive(Debug, PartialEq)]
pub enum OciCredentials {
    Anonymous,
    Basic(String, String),
}

impl Clone for OciCredentials {
    fn clone(&self) -> (res: Self)
        ensures
            res == *self,
    {
        match self {
            OciCredentials::Anonymous => OciCredentials::Anonymous,
            OciCredentials::Basic(user, password) => OciCredentials::Basic(
                user.clone(),
                password.clone(),
            ),
        }
    }
}

/// Whether the operation is a pull or push (for auth scoping).
#[derive(Clone, Copy, Debug, PartialEq, Eq, Structural)]
pub enum OciOperation {
    Pull,
    Push,
}

/// A reference to an OCI image (`registry/repository:tag`).
#[derive(Debug, PartialEq)]
pub struct OciReference {
    pub registry: String,
    pub repository: String,
    pub tag: String,
}

impl Clone for OciReference {
    fn clone(&self) -> (res: Self)
        ensures
            res == *self,
    {
        OciReference {
            registry: self.registry.clone(),
            repository: self.repository.clone(),
            tag: self.tag.clone(),
        }
    }
}

impl OciReference {
    /// The reference with the given parts.
    pub fn new(registry: String, repository: String, tag: String) -> (res: Self)
        ensures
            res == (OciReference { registry, repository, tag }),
    {
        OciReference { registry, repository, tag }
    }
}

/// Response from listing tags.
#[derive(Debug, PartialEq)]
pub struct TagList {
    pub tags: Vec<String>,
}

/// One page of the list of repositories.
#[derive(Debug, PartialEq)]
pub struct CatalogPage {
    /// The repositories of the page.
    pub repositories: Vec<String>,
    /// The cursor of the next page, where there is one.
    pub next_last: Option<String>,
}

/// Describes a layer/blob in a manifest.
#[derive(Debug, PartialEq)]
pub struct OciLayerDescriptor {
    pub media_type: String,
    pub digest: String,
    pub size: i64,
}

impl Clone for OciLayerDescriptor {
    fn clone(&self) -> (res: Self)
        ensures
            res == *self,
    {
        OciLayerDescriptor {
            media_type: self.media_type.clone(),
            digest: self.digest.clone(),
            size: self.size,
        }
    }
}

impl Default for OciLayerDescriptor {
    fn default() -> (res: Self)
        ensures
            res.media_type@.len() == 0,
            res.digest@.len() == 0,
            res.size == 0,
    {
        OciLayerDescriptor { media_type: String::new(), digest: String::new(), size: 0 }
    }
}

/// A minimal OCI image manifest.
#[derive(Debug, PartialEq)]
pub struct OciManifest {
    pub layers: Vec<OciLayerDescriptor>,
}

/// An image layer for pushing.
pub struct PushLayer {
    pub data: Vec<u8>,
    pub media_type: String,
    pub annotations: Option<TextMap>,
}

/// Config blob for pushing.
#[derive(Debug, PartialEq)]
pub struct PushConfig {
    pub data: Vec<u8>,
    pub media_type: String,
}

} // verus!
