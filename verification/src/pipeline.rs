//! How the parts meet: what the book of a finished batch means for the pack
//! that is assembled from it.

use crate::distributor::WorkDistributor;
use crate::hashes::first_occurrences;
use crate::hashes::lemma_first_occurrences;
use crate::hashes::texts;
use crate::pack::is_complete;
use crate::pack::path_hashes;
use crate::pack::SoundPath;
use vstd::prelude::*;

verus! {

/// Every hash that `lookup` names belongs to the batch of `book`.
pub open spec fn lookup_is_in_batch(lookup: Seq<SoundPath>, book: WorkDistributor) -> bool {
    forall|i: int| 0 <= i < lookup.len() ==> book.work_set().contains((#[trigger] lookup[i]).hash@)
}

/// No hash that `lookup` names has failed in `book`.
pub open spec fn nothing_listed_failed(lookup: Seq<SoundPath>, book: WorkDistributor) -> bool {
    forall|i: int| 0 <= i < lookup.len() ==> !book.failed().contains((#[trigger] lookup[i]).hash@)
}

/// A batch that is made of the hashes of a lookup, each once, holds every hash
/// that the lookup names.
pub proof fn lemma_lookup_is_in_its_batch(
    lookup: Seq<SoundPath>,
    hashes: Seq<String>,
    book: WorkDistributor,
)
    requires
        texts(hashes) == first_occurrences(path_hashes(lookup)),
        book.work_set() == texts(hashes).to_set(),
    ensures
        lookup_is_in_batch(lookup, book),
{
    lemma_first_occurrences(path_hashes(lookup));
    assert forall|i: int| 0 <= i < lookup.len() implies book.work_set().contains(
        (#[trigger] lookup[i]).hash@,
    ) by {
        assert(path_hashes(lookup)[i] == lookup[i].hash@);
        assert(path_hashes(lookup).contains(lookup[i].hash@));
        assert(texts(hashes).contains(lookup[i].hash@));
    }
}

/// Once a batch is finished, a lookup over its hashes has a payload for every
/// path exactly when none of its hashes has failed: a pack that asks for a
/// failed sound is refused, and a pack that asks only for the others is not
/// refused for want of a payload.
pub proof fn lemma_pack_is_complete_unless_a_sound_failed(
    lookup: Seq<SoundPath>,
    book: WorkDistributor,
)
    requires
        book.wf(),
        book.finished(),
        lookup_is_in_batch(lookup, book),
    ensures
        is_complete(lookup, book.results()) <==> nothing_listed_failed(lookup, book),
{
    assert(book.pending() == Seq::<Seq<char>>::empty());
    assert(book.in_flight() == Seq::<Seq<char>>::empty());
    assert forall|i: int| 0 <= i < lookup.len() implies (book.results().contains_key(
        (#[trigger] lookup[i]).hash@,
    ) <==> !book.failed().contains(lookup[i].hash@)) by {
        let hash = lookup[i].hash@;
        assert(book.work_set().contains(hash));
        assert(book.places(hash) <= 1);
    }
}

} // verus!
