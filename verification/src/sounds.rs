//! Which assets of a version are sounds, and where each goes in the pack.

use crate::hashes::first_occurrences;
use crate::hashes::unique_hashes;
use crate::hashes::texts;
use crate::models::AssetObject;
use crate::pack::path_hashes;
use crate::pack::path_lines;
use crate::pack::PathLine;
use crate::pack::SoundPath;
use crate::text::ends_with;
use crate::text::is_suffix;
use vstd::prelude::*;

verus! {

/// Whether the asset called `name` is a sound.
pub open spec fn is_sound(name: Seq<char>) -> bool {
    is_suffix(".ogg"@, name)
}

/// The path in the pack of the asset called `name`.
pub open spec fn pack_path(name: Seq<char>) -> Seq<char> {
    "assets/"@ + name
}

/// The logical paths of the sounds among `objects`: for each sound, in the
/// order of the list, its content hash and its path in the pack.
pub open spec fn sound_lines(objects: Seq<AssetObject>) -> Seq<PathLine>
    decreases objects.len(),
{
    if objects.len() == 0 {
        Seq::empty()
    } else {
        let earlier = sound_lines(objects.drop_last());
        let last = objects.last();
        if is_sound(last.name@) {
            earlier.push((last.asset.hash@, pack_path(last.name@)))
        } else {
            earlier
        }
    }
}

/// The logical paths of the sounds among `objects`.
pub fn sound_paths(objects: &Vec<AssetObject>) -> (lookup: Vec<SoundPath>)
    ensures
        path_lines(lookup@) == sound_lines(objects@),
{
    let mut lookup: Vec<SoundPath> = Vec::new();
    let mut i: usize = 0;
    while i < objects.len()
        invariant
            i <= objects.len(),
            path_lines(lookup@) == sound_lines(objects@.take(i as int)),
        decreases objects.len() - i,
    {
        let ghost before = path_lines(lookup@);
        assert(objects@.take(i + 1).drop_last() == objects@.take(i as int));
        assert(objects@.take(i + 1).last() == objects[i as int]);
        let object = &objects[i];
        if ends_with(object.name.as_str(), ".ogg") {
            let mut path = String::from_str("assets/");
            path.append(object.name.as_str());
            lookup.push(SoundPath { hash: object.asset.hash.clone(), path });
            assert(path_lines(lookup@) == before.push(
                (object.asset.hash@, pack_path(object.name@)),
            ));
        }
        i += 1;
    }
    assert(objects@.take(i as int) == objects@);
    lookup
}

/// The content hashes that `lookup` names, each once, in the order in which
/// they occur first: the payloads to fetch and process.
pub fn sound_hashes(lookup: &Vec<SoundPath>) -> (hashes: Vec<String>)
    ensures
        texts(hashes@) == first_occurrences(path_hashes(lookup@)),
{
    let mut listed: Vec<String> = Vec::new();
    let mut i: usize = 0;
    while i < lookup.len()
        invariant
            i <= lookup.len(),
            texts(listed@) == path_hashes(lookup@).take(i as int),
        decreases lookup.len() - i,
    {
        listed.push(lookup[i].hash.clone());
        assert(texts(listed@) == path_hashes(lookup@).take(i as int).push(lookup[i as int].hash@));
        i += 1;
    }
    assert(path_hashes(lookup@).take(i as int) == path_hashes(lookup@));
    unique_hashes(&listed)
}

} // verus!
