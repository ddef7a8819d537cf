# wasm_pkg_client

A client for Wasm packages that are stored in OCI registries, written in Rust and verified with
[Verus](https://github.com/verus-lang/verus).

The library in `src/` decides what is sent to a registry and what its answers mean. It sends nothing
itself: an operation that takes several requests is a state machine that takes a response and returns
the next request or the outcome. `app/` is the ordinary Rust around it, which sends the requests with
`reqwest`, `oci_client` or `wstd`, reads bodies and looks up stored credentials.

## Layout

- `text`, `text_map`, `json`: text, maps from text to text, JSON documents.
- `error`, `http`, `http_client`: errors, requests and responses, redirects, plain JSON documents.
- `digest`, `package`, `metadata`: content digests, package references and versions, the metadata of a
  registry.
- `oci::challenge`, `oci::token`, `oci::auth`: bearer challenges, token requests, authentication.
- `oci::transport`, `oci::transport_wasm`, `oci::transport_default`: the requests of the OCI Distribution
  protocol, and the decisions of a transport that leaves the protocol to a client library.
- `oci::manifest`, `oci::upload`: image manifests, uploading blobs and pushing images.
- `oci::backend`, `oci::listing`, `oci::loader`: references to packages, listing the packages of a
  namespace, versions and releases.
- `oci::nesting`, `oci::shape`: the binaries inside a component, and what it imports and exports.
- `oci::decoding`, `oci::rehearsal`, `oci::wit`: what becomes of a component when its interface is decoded,
  and its interface.
- `oci::publisher`, `oci::publisher_wasm`: what is pushed to publish a component.

## What is proved

Functions state what they return, for every input: exactly, but for what is open at the time of a call,
such as the moment at which a config is created and the order in which a hash set lists its entries.
Beyond that, proof functions whose names start with `law_`
relate several functions, among them:

- a push sends the manifest last, ends after seven responses at most, and succeeds only when the registry
  has both blobs and takes the manifest;
- what was pushed under a reference is what is pulled under it;
- a token is asked for with the scope of the repository, authorizes the requests to it and no others;
- once credentials were refused, none are sent any more;
- listing finds exactly the packages of the namespace, however the pages are divided;
- challenges, cursors, digests and package references read back as they were written.

Calls into other crates (`serde_json`, `sha2`, `base64`, `semver`, `wasmparser`, `wit-component`,
`wasm-metadata`, `oci-wasm`, `oci-client`) and into a few functions of the standard library stand behind
small trusted functions. The doc comment of each says what is taken for granted. Where such a call does not
return on some input, that input is left out, and what calls it looks first: the decoding of an interface is
rehearsed before it is done.
