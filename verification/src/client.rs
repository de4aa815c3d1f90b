//! Where things are fetched from, and what is picked out of the documents
//! that come back.
//!
//! Nothing here opens a connection: the functions give the address to ask
//! and read what was answered.

use crate::models::ClientManifest;
use crate::models::ClientVersionInformation;
use crate::models::ClientPackVersion;
use crate::text::same_text;
use vstd::prelude::*;

verus! {

/// The address of the payload with the content hash `hash`: under the store,
/// a directory named by the first two characters of the hash, and in it the
/// hash itself.
pub open spec fn asset_address(hash: Seq<char>) -> Seq<char> {
    "https://resources.download.minecraft.net"@ + "/"@ + hash.take(2) + "/"@ + hash
}

/// The address of the payload with the content hash `hash`. A hash of fewer
/// than two characters names no payload.
pub fn asset_url(hash: &str) -> (url: Option<String>)
    ensures
        match url {
            Some(url) => hash@.len() >= 2 && url@ == asset_address(hash@),
            None => hash@.len() < 2,
        },
{
    let length = hash.unicode_len();
    if length < 2 {
        return None;
    }
    let mut url = String::from_str("https://resources.download.minecraft.net");
    url.append("/");
    url.append(hash.substring_char(0, 2));
    url.append("/");
    url.append(hash);
    assert(hash@.subrange(0, 2) == hash@.take(2));
    Some(url)
}

/// Download `i` is the first of the manifest that is called `client`.
pub open spec fn is_client_download(manifest: ClientManifest, i: int) -> bool {
    &&& 0 <= i < manifest.downloads.len()
    &&& manifest.downloads[i].name@ == "client"@
    &&& forall|j: int| 0 <= j < i ==> (#[trigger] manifest.downloads[j]).name@ != "client"@
}

/// The manifest lists no download called `client`.
pub open spec fn has_no_client_download(manifest: ClientManifest) -> bool {
    forall|j: int|
        0 <= j < manifest.downloads.len() ==> (#[trigger] manifest.downloads[j]).name@
            != "client"@
}

/// The address of the client archive that a manifest lists, or `None` where
/// it lists none.
pub fn client_archive_url(manifest: &ClientManifest) -> (url: Option<String>)
    ensures
        match url {
            Some(url) => exists|i: int|
                #[trigger] is_client_download(*manifest, i) && url@
                    == manifest.downloads[i].asset.url@,
            None => has_no_client_download(*manifest),
        },
{
    let mut i: usize = 0;
    while i < manifest.downloads.len()
        invariant
            i <= manifest.downloads.len(),
            forall|j: int| 0 <= j < i ==> (#[trigger] manifest.downloads[j]).name@ != "client"@,
        decreases manifest.downloads.len() - i,
    {
        if same_text(manifest.downloads[i].name.as_str(), "client") {
            assert(is_client_download(*manifest, i as int));
            return Some(manifest.downloads[i].asset.url.clone());
        }
        i += 1;
    }
    None
}

/// The address of the asset index that a manifest refers to.
pub fn asset_index_url(manifest: &ClientManifest) -> (url: String)
    ensures
        url@ == manifest.asset_index.url@,
{
    manifest.asset_index.url.clone()
}

/// The version of the resource pack that a client takes: the pack version of
/// an older client, the resource version of a newer one.
pub fn determine_resource_pack_version(information: &ClientVersionInformation) -> (version: u32)
    ensures
        version == information.pack_version.resource_version(),
{
    match information.pack_version {
        ClientPackVersion::Old(version) => version,
        ClientPackVersion::New { resource, .. } => resource,
    }
}

} // verus!
