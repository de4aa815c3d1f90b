//! The documents this crate works on: the list of game versions, the manifest
//! of one version, its asset index, the version information inside a client
//! archive, and the metadata of the resource pack that is written.
//!
//! Objects that are keyed by a name in their source document are held as
//! lists of named entries, in the order in which they were given.

use vstd::prelude::*;

verus! {

/// One published game version.
pub struct Version {
    pub id: String,
    /// `"release"`, `"snapshot"` or another kind of version.
    pub variant: String,
    /// Where the manifest of this version is found.
    pub url: String,
    pub time: String,
    pub release_time: String,
}

/// The ids of the newest release and the newest snapshot.
pub struct LatestVersionIds {
    pub release: String,
    pub snapshot: String,
}

/// The list of all published versions.
pub struct VersionListResponse {
    pub latest: LatestVersionIds,
    pub versions: Vec<Version>,
}

/// A downloadable file of a version.
pub struct ClientManifestAsset {
    pub sha1: String,
    pub size: i32,
    pub url: String,
}

/// A named download of a manifest, such as `"client"` or `"server"`.
pub struct ClientDownload {
    pub name: String,
    pub asset: ClientManifestAsset,
}

/// The reference from a manifest to the asset index of its version.
pub struct ClientManifestAssetIndex {
    pub id: String,
    pub sha1: String,
    pub size: i64,
    pub total_size: i64,
    pub url: String,
}

/// The manifest of one version.
pub struct ClientManifest {
    pub asset_index: ClientManifestAssetIndex,
    pub downloads: Vec<ClientDownload>,
}

/// One stored payload: its content hash and its size in bytes.
pub struct Asset {
    pub hash: String,
    pub size: usize,
}

/// An asset under the name by which the game looks it up.
pub struct AssetObject {
    pub name: String,
    pub asset: Asset,
}

/// The asset index of one version.
pub struct AssetResponse {
    pub objects: Vec<AssetObject>,
}

/// The pack version of a client: a single number in older clients, one
/// number each for resources and data in newer ones.
#[derive(Debug)]
pub enum ClientPackVersion {
    Old(u32),
    New { resource: u32, data: u32 },
}

/// The version information that a client archive carries.
pub struct ClientVersionInformation {
    pub id: String,
    pub name: String,
    pub world_version: u32,
    pub series_id: String,
    pub protocol_version: u32,
    pub pack_version: ClientPackVersion,
    pub build_time: String,
    pub stable: bool,
}

/// What a resource pack says about itself.
pub struct PackInformationMetadata {
    pub description: String,
    pub pack_format: u32,
}

/// The metadata document of a resource pack.
pub struct PackMetadata {
    pub pack: PackInformationMetadata,
}

impl ClientPackVersion {
    /// The resource pack version that this pack version stands for.
    pub open spec fn resource_version(self) -> u32 {
        match self {
            ClientPackVersion::Old(version) => version,
            ClientPackVersion::New { resource, .. } => resource,
        }
    }
}

} // verus!
