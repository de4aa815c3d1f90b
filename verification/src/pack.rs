//! Assembling the resource pack: one metadata entry, then one entry for each
//! logical path, filled with the processed payload of the path's content hash.
//!
//! The archive is assembled in memory. A caller that stores the returned
//! bytes only once it holds them never leaves a truncated archive behind.

use crate::archive::archive_closes;
use crate::archive::archive_entries;
use crate::archive::archive_finish;
use crate::archive::archive_image;
use crate::archive::archive_new;
use crate::archive::archive_start_file;
use crate::archive::archive_takes_data;
use crate::archive::archive_takes_entry;
use crate::archive::archive_write_all;
use crate::archive::ArchiveWriter;
use crate::archive::Entries;
use crate::hashes::first_occurrences;
use crate::hashes::lemma_first_occurrences;
use crate::hashes::lemma_first_occurrences_of_distinct;
use crate::hashes::lemma_push_contains;
use crate::json::is_plain;
use crate::json::json_literal;
use crate::json::needs_no_escape;
use crate::json::quoted;
use crate::json::quote;
use crate::models::PackInformationMetadata;
use crate::models::PackMetadata;
use crate::results::result_entries;
use crate::results::results_contains;
use crate::results::results_get;
use crate::results::Payloads;
use crate::text::decimal_digits;
use crate::text::decimal_string;
use crate::text::is_digit;
use crate::text::lemma_decimal_digits_write_the_number;
use dashmap::DashMap;
use vstd::prelude::*;
use vstd::utf8::encode_utf8;

verus! {

/// One logical path of the pack and the content hash whose processed payload
/// belongs there. Several paths may name the same hash.
pub struct SoundPath {
    pub hash: String,
    pub path: String,
}

/// Why a pack could not be assembled.
pub enum PackagingError {
    /// A path's content hash has no processed payload.
    MissingResult { hash: String },
    /// The archive writer refused to start the entry at `path`.
    CreateEntry { path: String },
    /// The archive writer failed while the entry at `path` was written.
    WriteEntry { path: String },
    /// The archive writer could not close the archive.
    Finish,
}

/// What is said of an error.
pub open spec fn packaging_error_text(error: PackagingError) -> Seq<char> {
    match error {
        PackagingError::MissingResult { hash } => "didn't find a processed sound for asset with hash "@
            + hash@,
        PackagingError::CreateEntry { path } => "failed to create an entry ("@ + path@ + ")"@,
        PackagingError::WriteEntry { path } => "failed to write contents to an entry ("@ + path@
            + ")"@,
        PackagingError::Finish => "failed to finish the archive"@,
    }
}

impl PackagingError {
    /// A sentence that says what failed.
    pub fn message(&self) -> (text: String)
        ensures
            text@ == packaging_error_text(*self),
    {
        match self {
            PackagingError::MissingResult { hash } => {
                let mut text = String::from_str(
                    "didn't find a processed sound for asset with hash ",
                );
                text.append(hash.as_str());
                text
            },
            PackagingError::CreateEntry { path } => {
                let mut text = String::from_str("failed to create an entry (");
                text.append(path.as_str());
                text.append(")");
                text
            },
            PackagingError::WriteEntry { path } => {
                let mut text = String::from_str("failed to write contents to an entry (");
                text.append(path.as_str());
                text.append(")");
                text
            },
            PackagingError::Finish => String::from_str("failed to finish the archive"),
        }
    }
}

/// A logical path as a mathematical value: the content hash, then the path.
pub type PathLine = (Seq<char>, Seq<char>);

/// The logical paths that a list holds, in order.
pub open spec fn path_lines(lookup: Seq<SoundPath>) -> Seq<PathLine> {
    Seq::new(lookup.len(), |i: int| (lookup[i].hash@, lookup[i].path@))
}

/// The content hashes that a list of logical paths names, in order.
pub open spec fn path_hashes(lookup: Seq<SoundPath>) -> Seq<Seq<char>> {
    Seq::new(lookup.len(), |i: int| lookup[i].hash@)
}

/// The name of the metadata entry.
pub open spec fn metadata_name() -> Seq<char> {
    "pack.mcmeta"@
}

/// The description of a pack whose sounds were raised by `gain` decibels.
pub open spec fn description_text(gain: u32) -> Seq<char> {
    "all vanilla sounds are increased by "@ + decimal_digits(gain as nat) + "db."@
}

/// The metadata document: a JSON object `pack` with the members
/// `description` and `pack_format`, in that order and without white space.
pub open spec fn metadata_document(description: Seq<char>, pack_format: u32) -> Seq<char> {
    "{\"pack\":{\"description\":"@ + json_literal(description) + ",\"pack_format\":"@
        + decimal_digits(pack_format as nat) + "}}"@
}

/// Every hash that `lookup` names has a payload in `results`.
pub open spec fn is_complete(lookup: Seq<SoundPath>, results: Payloads) -> bool {
    forall|i: int| 0 <= i < lookup.len() ==> results.contains_key((#[trigger] lookup[i]).hash@)
}

/// Entry `i` of `lookup` is the first whose hash has no payload in `results`.
pub open spec fn is_first_missing(lookup: Seq<SoundPath>, results: Payloads, i: int) -> bool {
    &&& 0 <= i < lookup.len()
    &&& !results.contains_key(lookup[i].hash@)
    &&& is_complete(lookup.take(i), results)
}

/// The logical paths of `lookup` whose hash has a payload in `results`, in
/// the order of `lookup`.
pub open spec fn lines_with_payload(lookup: Seq<SoundPath>, results: Payloads) -> Seq<PathLine>
    decreases lookup.len(),
{
    if lookup.len() == 0 {
        Seq::empty()
    } else {
        let earlier = lines_with_payload(lookup.drop_last(), results);
        let last = lookup.last();
        if results.contains_key(last.hash@) {
            earlier.push((last.hash@, last.path@))
        } else {
            earlier
        }
    }
}

/// Some entry of `lookup` has the path `path`.
pub open spec fn path_listed(lookup: Seq<SoundPath>, path: Seq<char>) -> bool {
    exists|j: int| 0 <= j < lookup.len() && (#[trigger] lookup[j]).path@ == path
}

/// The asset entries of the pack: for each path of `lookup`, where it occurs
/// first, the payload of its hash. The entries stand in the order of `lookup`.
pub open spec fn asset_entries(lookup: Seq<SoundPath>, results: Payloads) -> Entries
    decreases lookup.len(),
{
    if lookup.len() == 0 {
        Seq::empty()
    } else {
        let earlier = lookup.drop_last();
        let last = lookup.last();
        if path_listed(earlier, last.path@) {
            asset_entries(earlier, results)
        } else {
            asset_entries(earlier, results).push((last.path@, results[last.hash@]))
        }
    }
}

/// All entries of the pack: the metadata entry, then the asset entries.
pub open spec fn pack_entries(
    pack_version: u32,
    gain: u32,
    lookup: Seq<SoundPath>,
    results: Payloads,
) -> Entries {
    seq![(metadata_name(), metadata_bytes(pack_version, gain))] + asset_entries(lookup, results)
}

/// The bytes of the metadata entry.
pub open spec fn metadata_bytes(pack_version: u32, gain: u32) -> Seq<u8> {
    encode_utf8(metadata_document(description_text(gain), pack_version))
}

/// The entries that are written when entry `i` of the lookup is reached: the
/// metadata entry and the asset entries of the paths before `i`.
pub open spec fn entries_before(
    pack_version: u32,
    gain: u32,
    lookup: Seq<SoundPath>,
    results: Payloads,
    i: int,
) -> Entries {
    pack_entries(pack_version, gain, lookup.take(i), results)
}

/// `writer` holds nothing yet and does not start the metadata entry.
pub open spec fn refuses_metadata(writer: ArchiveWriter) -> bool {
    &&& archive_entries(writer) == Entries::empty()
    &&& !archive_takes_entry(writer, metadata_name())
}

/// `writer` holds the empty metadata entry and does not take its bytes.
pub open spec fn refuses_metadata_bytes(pack_version: u32, gain: u32, writer: ArchiveWriter) -> bool {
    &&& archive_entries(writer) == seq![(metadata_name(), Seq::<u8>::empty())]
    &&& !archive_takes_data(writer, metadata_bytes(pack_version, gain))
}

/// Entry `i` of the lookup is the first with its path.
pub open spec fn is_first_listing(lookup: Seq<SoundPath>, i: int) -> bool {
    0 <= i < lookup.len() && !path_listed(lookup.take(i), lookup[i].path@)
}

/// `writer` holds the entries before entry `i` of the lookup, which is the
/// first with its path, and does not start an entry at that path.
pub open spec fn refuses_path(
    pack_version: u32,
    gain: u32,
    lookup: Seq<SoundPath>,
    results: Payloads,
    writer: ArchiveWriter,
    i: int,
) -> bool {
    &&& is_first_listing(lookup, i)
    &&& archive_entries(writer) == entries_before(pack_version, gain, lookup, results, i)
    &&& !archive_takes_entry(writer, lookup[i].path@)
}

/// `writer` holds the entries before entry `i` of the lookup, which is the
/// first with its path, and the empty entry at that path, and does not take
/// the payload.
pub open spec fn refuses_payload(
    pack_version: u32,
    gain: u32,
    lookup: Seq<SoundPath>,
    results: Payloads,
    writer: ArchiveWriter,
    i: int,
) -> bool {
    &&& is_first_listing(lookup, i)
    &&& archive_entries(writer) == entries_before(pack_version, gain, lookup, results, i).push(
        (lookup[i].path@, Seq::<u8>::empty()),
    )
    &&& !archive_takes_data(writer, results[lookup[i].hash@])
}

/// `writer` holds all entries of the pack and cannot be finished.
pub open spec fn refuses_closing(
    pack_version: u32,
    gain: u32,
    lookup: Seq<SoundPath>,
    results: Payloads,
    writer: ArchiveWriter,
) -> bool {
    &&& archive_entries(writer) == pack_entries(pack_version, gain, lookup, results)
    &&& !archive_closes(writer)
}

/// The entry at `path` was refused: a writer that held all entries of the
/// pack before it, and no other, did not start it.
pub open spec fn entry_was_refused(
    pack_version: u32,
    gain: u32,
    lookup: Seq<SoundPath>,
    results: Payloads,
    path: Seq<char>,
) -> bool {
    ||| path == metadata_name() && exists|writer: ArchiveWriter| #[trigger] refuses_metadata(writer)
    ||| exists|writer: ArchiveWriter, i: int|
        #[trigger] refuses_path(pack_version, gain, lookup, results, writer, i) && path
            == lookup[i].path@
}

/// The bytes of the entry at `path` were refused: a writer that held all
/// entries of the pack before it, and the empty entry itself, did not take
/// them.
pub open spec fn data_was_refused(
    pack_version: u32,
    gain: u32,
    lookup: Seq<SoundPath>,
    results: Payloads,
    path: Seq<char>,
) -> bool {
    ||| path == metadata_name() && exists|writer: ArchiveWriter| #[trigger]
        refuses_metadata_bytes(pack_version, gain, writer)
    ||| exists|writer: ArchiveWriter, i: int|
        #[trigger] refuses_payload(pack_version, gain, lookup, results, writer, i) && path
            == lookup[i].path@
}

/// The archive could not be closed: a writer that held exactly the entries of
/// the pack could not be finished.
pub open spec fn closing_was_refused(
    pack_version: u32,
    gain: u32,
    lookup: Seq<SoundPath>,
    results: Payloads,
) -> bool {
    exists|writer: ArchiveWriter| #[trigger]
        refuses_closing(pack_version, gain, lookup, results, writer)
}

/// Some writer refuses an entry of the pack or its bytes, when it holds the
/// entries before it.
pub open spec fn filling_is_refused(
    pack_version: u32,
    gain: u32,
    lookup: Seq<SoundPath>,
    results: Payloads,
) -> bool {
    ||| exists|path: Seq<char>| #[trigger]
        entry_was_refused(pack_version, gain, lookup, results, path)
    ||| exists|path: Seq<char>| #[trigger]
        data_was_refused(pack_version, gain, lookup, results, path)
}

/// Some writer refuses an entry of the pack, its bytes, or to be finished with
/// the entries of the pack.
pub open spec fn packing_is_refused(
    pack_version: u32,
    gain: u32,
    lookup: Seq<SoundPath>,
    results: Payloads,
) -> bool {
    ||| filling_is_refused(pack_version, gain, lookup, results)
    ||| closing_was_refused(pack_version, gain, lookup, results)
}

/// The paths that a list of logical paths holds, in order.
pub open spec fn path_names(lookup: Seq<SoundPath>) -> Seq<Seq<char>> {
    Seq::new(lookup.len(), |i: int| lookup[i].path@)
}

/// The names of the entries of an archive, in order.
pub open spec fn entry_names(entries: Entries) -> Seq<Seq<char>> {
    Seq::new(entries.len(), |i: int| entries[i].0)
}

/// The pack has one asset entry for each path of the lookup and no other: the
/// names of the asset entries are the paths of the lookup, each once, in the
/// order in which they occur first. So no name is used twice, and there are
/// no more asset entries than the lookup has paths.
pub proof fn lemma_one_entry_per_path(lookup: Seq<SoundPath>, results: Payloads)
    ensures
        entry_names(asset_entries(lookup, results)) == first_occurrences(path_names(lookup)),
        entry_names(asset_entries(lookup, results)).no_duplicates(),
        asset_entries(lookup, results).len() <= lookup.len(),
        forall|path: Seq<char>|
            #[trigger] entry_names(asset_entries(lookup, results)).contains(path) <==> path_listed(
                lookup,
                path,
            ),
    decreases lookup.len(),
{
    let names = path_names(lookup);
    lemma_first_occurrences(names);
    assert forall|path: Seq<char>| names.contains(path) <==> path_listed(lookup, path) by {
        if names.contains(path) {
            let j = choose|j: int| 0 <= j < names.len() && names[j] == path;
            assert(lookup[j].path@ == path);
        }
        if path_listed(lookup, path) {
            let j = choose|j: int| 0 <= j < lookup.len() && (#[trigger] lookup[j]).path@ == path;
            assert(names[j] == path);
        }
    }
    if lookup.len() > 0 {
        let earlier = lookup.drop_last();
        let last = lookup.last();
        lemma_one_entry_per_path(earlier, results);
        assert(names.drop_last() == path_names(earlier));
        assert(names.last() == last.path@);
        assert(path_names(earlier).contains(last.path@) <==> path_listed(earlier, last.path@)) by {
            if path_names(earlier).contains(last.path@) {
                let j = choose|j: int|
                    0 <= j < path_names(earlier).len() && path_names(earlier)[j] == last.path@;
                assert(earlier[j].path@ == last.path@);
            }
            if path_listed(earlier, last.path@) {
                let j = choose|j: int|
                    0 <= j < earlier.len() && (#[trigger] earlier[j]).path@ == last.path@;
                assert(path_names(earlier)[j] == last.path@);
            }
        }
        if !path_listed(earlier, last.path@) {
            assert(entry_names(
                asset_entries(earlier, results).push((last.path@, results[last.hash@])),
            ) == entry_names(asset_entries(earlier, results)).push(last.path@));
        }
    }
    assert(entry_names(asset_entries(lookup, results)).len() == asset_entries(
        lookup,
        results,
    ).len());
}

/// The pack starts with the metadata entry and has one more entry for each
/// path of the lookup: where no path is listed twice, one more for each entry
/// of the lookup.
pub proof fn lemma_pack_has_metadata_and_one_entry_per_path(
    pack_version: u32,
    gain: u32,
    lookup: Seq<SoundPath>,
    results: Payloads,
)
    ensures
        pack_entries(pack_version, gain, lookup, results)[0] == (
            metadata_name(),
            metadata_bytes(pack_version, gain),
        ),
        pack_entries(pack_version, gain, lookup, results).len() == 1 + first_occurrences(
            path_names(lookup),
        ).len(),
        path_names(lookup).no_duplicates() ==> pack_entries(
            pack_version,
            gain,
            lookup,
            results,
        ).len() == 1 + lookup.len(),
{
    lemma_one_entry_per_path(lookup, results);
    assert(entry_names(asset_entries(lookup, results)).len() == asset_entries(
        lookup,
        results,
    ).len());
    if path_names(lookup).no_duplicates() {
        lemma_first_occurrences_of_distinct(path_names(lookup));
    }
}

/// The entry of a path holds the payload of the hash that the path is listed
/// with where it occurs first.
pub proof fn lemma_entry_holds_payload_of_first_listing(
    lookup: Seq<SoundPath>,
    results: Payloads,
    i: int,
)
    requires
        0 <= i < lookup.len(),
        !path_listed(lookup.take(i), lookup[i].path@),
    ensures
        asset_entries(lookup, results).contains((lookup[i].path@, results[lookup[i].hash@])),
    decreases lookup.len(),
{
    let earlier = lookup.drop_last();
    let last = lookup.last();
    let entry = (lookup[i].path@, results[lookup[i].hash@]);
    if i == lookup.len() - 1 {
        assert(lookup.take(i) == earlier);
        let pushed = asset_entries(earlier, results).push(entry);
        assert(pushed[pushed.len() - 1] == entry);
    } else {
        assert(earlier.take(i) == lookup.take(i));
        assert(earlier[i] == lookup[i]);
        lemma_entry_holds_payload_of_first_listing(earlier, results, i);
        if !path_listed(earlier, last.path@) {
            lemma_push_contains(
                asset_entries(earlier, results),
                (last.path@, results[last.hash@]),
                entry,
            );
        }
    }
}

/// The description of a gain holds nothing that JSON escapes.
pub proof fn lemma_description_needs_no_escape(gain: u32)
    ensures
        needs_no_escape(description_text(gain)),
{
    let head = "all vanilla sounds are increased by "@;
    let digits = decimal_digits(gain as nat);
    let tail = "db."@;
    reveal_strlit("all vanilla sounds are increased by ");
    reveal_strlit("db.");
    lemma_decimal_digits_write_the_number(gain as nat);
    let text = description_text(gain);
    assert forall|i: int| 0 <= i < text.len() implies is_plain(#[trigger] text[i]) by {
        if i < head.len() {
            assert(text[i] == head[i]);
        } else if i < head.len() + digits.len() {
            assert(text[i] == digits[i - head.len()]);
            assert(is_digit(digits[i - head.len()]));
        } else {
            assert(text[i] == tail[i - head.len() - digits.len()]);
        }
    }
}

/// The metadata document of a pack of version `pack_version` whose sounds
/// were raised by `gain` decibels, character by character.
pub proof fn lemma_metadata_document_of_a_gain(pack_version: u32, gain: u32)
    ensures
        metadata_document(description_text(gain), pack_version)
            == "{\"pack\":{\"description\":"@ + quoted(description_text(gain))
            + ",\"pack_format\":"@ + decimal_digits(pack_version as nat) + "}}"@,
{
    lemma_description_needs_no_escape(gain);
}

/// The description of a pack whose sounds were raised by `gain` decibels.
pub fn pack_description(gain: u32) -> (description: String)
    ensures
        description@ == description_text(gain),
{
    let mut description = String::from_str("all vanilla sounds are increased by ");
    let amount = decimal_string(gain);
    description.append(amount.as_str());
    description.append("db.");
    description
}

/// The metadata of a pack of version `pack_version` whose sounds were raised
/// by `gain` decibels.
pub fn pack_metadata(pack_version: u32, gain: u32) -> (metadata: PackMetadata)
    ensures
        metadata.pack.pack_format == pack_version,
        metadata.pack.description@ == description_text(gain),
{
    PackMetadata {
        pack: PackInformationMetadata {
            description: pack_description(gain),
            pack_format: pack_version,
        },
    }
}

/// Writes the metadata document for `metadata`.
pub fn metadata_json(metadata: &PackMetadata) -> (document: String)
    ensures
        document@ == metadata_document(metadata.pack.description@, metadata.pack.pack_format),
{
    let mut document = String::from_str("{\"pack\":{\"description\":");
    // Every text has a literal, so there is no other case.
    if let Ok(literal) = quote(metadata.pack.description.as_str()) {
        document.append(literal.as_str());
    }
    document.append(",\"pack_format\":");
    let format = decimal_string(metadata.pack.pack_format);
    document.append(format.as_str());
    document.append("}}");
    document
}

/// Looks for the first entry of `lookup` whose hash has no payload in `data`.
///
/// `data` is only borrowed, and what is said here holds of a map that nothing
/// else changes during the call.
pub fn find_missing(lookup: &Vec<SoundPath>, data: &DashMap<String, Vec<u8>>) -> (missing: Option<
    usize,
>)
    ensures
        match missing {
            Some(i) => is_first_missing(lookup@, result_entries(*data), i as int),
            None => is_complete(lookup@, result_entries(*data)),
        },
{
    let mut i: usize = 0;
    while i < lookup.len()
        invariant
            i <= lookup.len(),
            is_complete(lookup@.take(i as int), result_entries(*data)),
        decreases lookup.len() - i,
    {
        if !results_contains(data, &lookup[i].hash) {
            return Some(i);
        }
        assert forall|j: int| 0 <= j < i + 1 implies result_entries(*data).contains_key(
            (#[trigger] lookup@.take(i + 1)[j]).hash@,
        ) by {
            if j < i {
                assert(lookup@.take(i + 1)[j] == lookup@.take(i as int)[j]);
            }
        }
        i += 1;
    }
    assert(lookup@.take(i as int) == lookup@);
    None
}

/// The logical paths whose hash has a payload in `data`: what is left of
/// `lookup` for a pack that is to hold the processed sounds and to pass over
/// the sounds that failed.
///
/// `data` is only borrowed, and what is said here holds of a map that nothing
/// else changes during the call.
pub fn processed_paths(lookup: &Vec<SoundPath>, data: &DashMap<String, Vec<u8>>) -> (kept: Vec<
    SoundPath,
>)
    ensures
        path_lines(kept@) == lines_with_payload(lookup@, result_entries(*data)),
        is_complete(kept@, result_entries(*data)),
{
    let mut kept: Vec<SoundPath> = Vec::new();
    let mut i: usize = 0;
    while i < lookup.len()
        invariant
            i <= lookup.len(),
            path_lines(kept@) == lines_with_payload(lookup@.take(i as int), result_entries(*data)),
            is_complete(kept@, result_entries(*data)),
        decreases lookup.len() - i,
    {
        let ghost before = kept@;
        assert(lookup@.take(i + 1).drop_last() == lookup@.take(i as int));
        assert(lookup@.take(i + 1).last() == lookup[i as int]);
        let entry = &lookup[i];
        if results_contains(data, &entry.hash) {
            kept.push(SoundPath { hash: entry.hash.clone(), path: entry.path.clone() });
            assert(path_lines(kept@) == path_lines(before).push((entry.hash@, entry.path@)));
            assert forall|j: int| 0 <= j < kept.len() implies result_entries(*data).contains_key(
                (#[trigger] kept@[j]).hash@,
            ) by {
                if j < before.len() {
                    assert(kept@[j] == before[j]);
                }
            }
        }
        i += 1;
    }
    assert(lookup@.take(i as int) == lookup@);
    kept
}

/// Whether the path of entry `i` already occurs before it in `lookup`.
pub fn path_seen_before(lookup: &Vec<SoundPath>, i: usize) -> (seen: bool)
    requires
        i < lookup.len(),
    ensures
        seen == path_listed(lookup@.take(i as int), lookup[i as int].path@),
{
    let mut j: usize = 0;
    while j < i
        invariant
            j <= i < lookup.len(),
            !path_listed(lookup@.take(j as int), lookup[i as int].path@),
        decreases i - j,
    {
        if lookup[j].path == lookup[i].path {
            assert(lookup@.take(i as int)[j as int].path@ == lookup[i as int].path@);
            return true;
        }
        assert forall|k: int| 0 <= k < j + 1 implies (#[trigger] lookup@.take(j + 1)[k]).path@
            != lookup[i as int].path@ by {
            if k < j {
                assert(lookup@.take(j as int)[k].path@ != lookup[i as int].path@);
            }
        }
        j += 1;
    }
    false
}

/// Starts a writer and writes every entry of the pack to it.
///
/// Nothing is written unless every hash of `lookup` has a payload in `data`:
/// otherwise the first hash without one is reported. Where the payloads are
/// complete, the entries are handed to the writer one by one, and the writer
/// that is returned holds exactly [`pack_entries`], unless the writer has
/// refused one of them: then the entry that it refused to start, or whose
/// bytes it refused, is reported, and with it what the writer held then.
///
/// `data` is only borrowed, and what is said here holds of a map that nothing
/// else changes during the call.
pub fn fill_archive(
    pack_version: u32,
    gain: u32,
    lookup: &Vec<SoundPath>,
    data: &DashMap<String, Vec<u8>>,
) -> (filled: Result<ArchiveWriter, PackagingError>)
    ensures
        is_complete(lookup@, result_entries(*data)) && !filling_is_refused(
            pack_version,
            gain,
            lookup@,
            result_entries(*data),
        ) ==> filled is Ok,
        match filled {
            Ok(writer) => is_complete(lookup@, result_entries(*data)) && archive_entries(writer)
                == pack_entries(pack_version, gain, lookup@, result_entries(*data)),
            Err(PackagingError::MissingResult { hash }) => exists|i: int|
                #[trigger] is_first_missing(lookup@, result_entries(*data), i) && hash@
                    == lookup[i].hash@,
            Err(PackagingError::CreateEntry { path }) => {
                &&& is_complete(lookup@, result_entries(*data))
                &&& entry_was_refused(pack_version, gain, lookup@, result_entries(*data), path@)
            },
            Err(PackagingError::WriteEntry { path }) => {
                &&& is_complete(lookup@, result_entries(*data))
                &&& data_was_refused(pack_version, gain, lookup@, result_entries(*data), path@)
            },
            Err(PackagingError::Finish) => false,
        },
{
    match find_missing(lookup, data) {
        Some(i) => {
            return Err(PackagingError::MissingResult { hash: lookup[i].hash.clone() });
        },
        None => {},
    }
    let ghost results = result_entries(*data);
    let metadata = pack_metadata(pack_version, gain);
    let document = metadata_json(&metadata);
    let mut writer = archive_new();
    let ghost fresh = writer;
    if archive_start_file(&mut writer, "pack.mcmeta").is_err() {
        assert(refuses_metadata(fresh));
        assert(entry_was_refused(pack_version, gain, lookup@, results, metadata_name()));
        return Err(PackagingError::CreateEntry { path: String::from_str("pack.mcmeta") });
    }
    let ghost started = writer;
    if archive_write_all(&mut writer, document.as_str().as_bytes()).is_err() {
        assert(refuses_metadata_bytes(pack_version, gain, started));
        assert(data_was_refused(pack_version, gain, lookup@, results, metadata_name()));
        return Err(PackagingError::WriteEntry { path: String::from_str("pack.mcmeta") });
    }
    let ghost first = (metadata_name(), metadata_bytes(pack_version, gain));
    assert(archive_entries(writer) == seq![first]) by {
        assert(Seq::<u8>::empty() + first.1 == first.1);
    }
    let mut i: usize = 0;
    while i < lookup.len()
        invariant
            i <= lookup.len(),
            results == result_entries(*data),
            is_complete(lookup@, results),
            first == (metadata_name(), metadata_bytes(pack_version, gain)),
            archive_entries(writer) == seq![first] + asset_entries(lookup@.take(i as int), results),
        decreases lookup.len() - i,
    {
        let ghost before = archive_entries(writer);
        let ghost shorter = lookup@.take(i as int);
        let ghost longer = lookup@.take(i + 1);
        assert(longer.drop_last() == shorter);
        assert(longer.last() == lookup[i as int]);
        if !path_seen_before(lookup, i) {
            let entry = &lookup[i];
            let payload = match results_get(data, &entry.hash) {
                Some(payload) => payload,
                None => {
                    // Every hash has a payload here, so this is never taken.
                    return Err(PackagingError::MissingResult { hash: entry.hash.clone() });
                },
            };
            let ghost reached = writer;
            if archive_start_file(&mut writer, entry.path.as_str()).is_err() {
                assert(refuses_path(pack_version, gain, lookup@, results, reached, i as int));
                assert(entry_was_refused(pack_version, gain, lookup@, results, entry.path@));
                return Err(PackagingError::CreateEntry { path: entry.path.clone() });
            }
            let ghost opened = writer;
            if archive_write_all(&mut writer, payload.as_slice()).is_err() {
                assert(refuses_payload(pack_version, gain, lookup@, results, opened, i as int));
                assert(data_was_refused(pack_version, gain, lookup@, results, entry.path@));
                return Err(PackagingError::WriteEntry { path: entry.path.clone() });
            }
            assert(archive_entries(writer) == before.push((entry.path@, payload@))) by {
                assert(Seq::<u8>::empty() + payload@ == payload@);
            }
            assert(before.push((entry.path@, payload@)) == seq![first] + asset_entries(
                shorter,
                results,
            ).push((entry.path@, payload@)));
        }
        i += 1;
    }
    assert(lookup@.take(i as int) == lookup@);
    Ok(writer)
}

/// Closes the archive of a writer and returns its bytes: the archive that the
/// writer holds, and nothing else. It succeeds exactly where the writer can
/// be finished; where it cannot, the error is [`PackagingError::Finish`].
pub fn finish_archive(writer: ArchiveWriter) -> (finished: Result<Vec<u8>, PackagingError>)
    ensures
        finished is Ok == archive_closes(writer),
        match finished {
            Ok(bytes) => bytes@ == archive_image(writer),
            Err(error) => error is Finish,
        },
{
    match archive_finish(writer) {
        Ok(bytes) => Ok(bytes),
        Err(_) => Err(PackagingError::Finish),
    }
}

/// Assembles the resource pack and returns the bytes of its archive.
///
/// The pack holds the metadata entry `pack.mcmeta`, which declares
/// `pack_version` and describes the gain, and one entry for each path of
/// `lookup`. Where a hash of `lookup` has no payload in `data`, the first such
/// hash is reported and no archive is made. Where the payloads are complete,
/// the entries of [`pack_entries`] are handed to an archive writer in their
/// order. The bytes that are returned are the archive of a writer that holds
/// exactly those entries. An error is returned only where the writer has
/// refused an entry, its bytes, or to be finished, and says which: the pack
/// is made wherever the payloads are complete and no writer refuses.
///
/// `data` is only borrowed, and what is said here holds of a map that nothing
/// else changes during the call.
pub fn write_resource_pack(
    pack_version: u32,
    gain: u32,
    lookup: &Vec<SoundPath>,
    data: &DashMap<String, Vec<u8>>,
) -> (packed: Result<Vec<u8>, PackagingError>)
    ensures
        is_complete(lookup@, result_entries(*data)) && !packing_is_refused(
            pack_version,
            gain,
            lookup@,
            result_entries(*data),
        ) ==> packed is Ok,
        match packed {
            Ok(bytes) => {
                &&& is_complete(lookup@, result_entries(*data))
                &&& exists|writer: ArchiveWriter|
                    #[trigger] archive_entries(writer) == pack_entries(
                        pack_version,
                        gain,
                        lookup@,
                        result_entries(*data),
                    ) && archive_closes(writer) && bytes@ == archive_image(writer)
            },
            Err(PackagingError::MissingResult { hash }) => exists|i: int|
                #[trigger] is_first_missing(lookup@, result_entries(*data), i) && hash@
                    == lookup[i].hash@,
            Err(PackagingError::CreateEntry { path }) => {
                &&& is_complete(lookup@, result_entries(*data))
                &&& entry_was_refused(pack_version, gain, lookup@, result_entries(*data), path@)
            },
            Err(PackagingError::WriteEntry { path }) => {
                &&& is_complete(lookup@, result_entries(*data))
                &&& data_was_refused(pack_version, gain, lookup@, result_entries(*data), path@)
            },
            Err(PackagingError::Finish) => {
                &&& is_complete(lookup@, result_entries(*data))
                &&& closing_was_refused(pack_version, gain, lookup@, result_entries(*data))
            },
        },
{
    match fill_archive(pack_version, gain, lookup, data) {
        Ok(writer) => {
            let ghost filled = writer;
            let finished = finish_archive(writer);
            proof {
                if finished is Err {
                    assert(refuses_closing(
                        pack_version,
                        gain,
                        lookup@,
                        result_entries(*data),
                        filled,
                    ));
                    assert(closing_was_refused(
                        pack_version,
                        gain,
                        lookup@,
                        result_entries(*data),
                    ));
                } else {
                    assert(archive_entries(filled) == pack_entries(
                        pack_version,
                        gain,
                        lookup@,
                        result_entries(*data),
                    ) && archive_closes(filled));
                }
            }
            finished
        },
        Err(error) => Err(error),
    }
}

} // verus!
