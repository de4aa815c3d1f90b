use dashmap::DashMap;
use mineardmg::distributor::process_chunk;
use mineardmg::distributor::WorkDistributor;
use mineardmg::pack::fill_archive;
use mineardmg::pack::find_missing;
use mineardmg::pack::metadata_json;
use mineardmg::pack::pack_description;
use mineardmg::pack::pack_metadata;
use mineardmg::pack::path_seen_before;
use mineardmg::pack::processed_paths;
use mineardmg::pack::finish_archive;
use mineardmg::pack::write_resource_pack;
use mineardmg::pack::PackagingError;
use mineardmg::pack::SoundPath;
use mineardmg::processor::ProcessError;
use std::io::Cursor;
use std::io::Read;
use zip::ZipArchive;

fn sound(hash: &str, path: &str) -> SoundPath {
    SoundPath { hash: hash.to_string(), path: path.to_string() }
}

fn entries(bytes: Vec<u8>) -> Vec<(String, Vec<u8>)> {
    let mut archive = ZipArchive::new(Cursor::new(bytes)).unwrap();
    let mut found = Vec::new();
    for index in 0..archive.len() {
        let mut file = archive.by_index(index).unwrap();
        let name = file.name().unwrap().to_string();
        let mut data = Vec::new();
        file.read_to_end(&mut data).unwrap();
        found.push((name, data));
    }
    found
}

#[test]
fn description_names_the_gain() {
    assert_eq!(pack_description(12), "all vanilla sounds are increased by 12db.");
    assert_eq!(pack_description(0), "all vanilla sounds are increased by 0db.");
    assert!(pack_description(12).contains("12db"));
}

#[test]
fn metadata_holds_version_and_description() {
    let metadata = pack_metadata(34, 72);
    assert_eq!(metadata.pack.pack_format, 34);
    assert_eq!(metadata.pack.description, "all vanilla sounds are increased by 72db.");
}

#[test]
fn metadata_document_is_compact_json() {
    let metadata = pack_metadata(34, 12);
    assert_eq!(
        metadata_json(&metadata),
        "{\"pack\":{\"description\":\"all vanilla sounds are increased by 12db.\",\"pack_format\":34}}"
    );
}

#[test]
fn metadata_document_escapes_the_description() {
    let mut metadata = pack_metadata(1, 1);
    metadata.pack.description = "a \"loud\" pack\n".to_string();
    assert_eq!(
        metadata_json(&metadata),
        "{\"pack\":{\"description\":\"a \\\"loud\\\" pack\\n\",\"pack_format\":1}}"
    );
}

#[test]
fn metadata_document_parses_back() {
    let metadata = pack_metadata(4294967295, 36);
    let value: serde_json::Value = serde_json::from_str(&metadata_json(&metadata)).unwrap();
    assert_eq!(value["pack"]["pack_format"].as_u64(), Some(4294967295));
    assert_eq!(
        value["pack"]["description"].as_str(),
        Some("all vanilla sounds are increased by 36db.")
    );
}

#[test]
fn find_missing_reports_the_first_gap() {
    let data: DashMap<String, Vec<u8>> = DashMap::new();
    data.insert("a1".to_string(), vec![1]);
    data.insert("c3".to_string(), vec![3]);
    let lookup = vec![sound("a1", "x"), sound("b2", "y"), sound("c3", "z"), sound("d4", "w")];
    assert_eq!(find_missing(&lookup, &data), Some(1));
    let complete = vec![sound("a1", "x"), sound("c3", "z"), sound("a1", "v")];
    assert_eq!(find_missing(&complete, &data), None);
    assert_eq!(find_missing(&Vec::new(), &data), None);
}

#[test]
fn path_seen_before_looks_at_earlier_entries_only() {
    let lookup = vec![sound("a1", "x"), sound("b2", "y"), sound("c3", "x"), sound("d4", "z")];
    assert!(!path_seen_before(&lookup, 0));
    assert!(!path_seen_before(&lookup, 1));
    assert!(path_seen_before(&lookup, 2));
    assert!(!path_seen_before(&lookup, 3));
}

#[test]
fn pack_holds_metadata_then_one_entry_per_path() {
    let data: DashMap<String, Vec<u8>> = DashMap::new();
    data.insert("a1".to_string(), vec![1, 2, 3]);
    data.insert("b2".to_string(), vec![4, 5]);
    let lookup = vec![sound("a1", "assets/sound1.ogg"), sound("b2", "assets/sound2.ogg")];
    let bytes = match write_resource_pack(15, 12, &lookup, &data) {
        Ok(bytes) => bytes,
        Err(_) => panic!("the pack should have been written"),
    };
    let found = entries(bytes);
    assert_eq!(found.len(), 3);
    assert_eq!(found[0].0, "pack.mcmeta");
    assert_eq!(
        String::from_utf8(found[0].1.clone()).unwrap(),
        "{\"pack\":{\"description\":\"all vanilla sounds are increased by 12db.\",\"pack_format\":15}}"
    );
    assert_eq!(found[1], ("assets/sound1.ogg".to_string(), vec![1, 2, 3]));
    assert_eq!(found[2], ("assets/sound2.ogg".to_string(), vec![4, 5]));
}

#[test]
fn paths_that_share_a_hash_each_get_the_payload() {
    let data: DashMap<String, Vec<u8>> = DashMap::new();
    data.insert("a1".to_string(), vec![9, 9]);
    let lookup = vec![sound("a1", "assets/one.ogg"), sound("a1", "assets/two.ogg")];
    let bytes = match write_resource_pack(1, 24, &lookup, &data) {
        Ok(bytes) => bytes,
        Err(_) => panic!("the pack should have been written"),
    };
    let found = entries(bytes);
    assert_eq!(found.len(), 3);
    assert_eq!(found[1], ("assets/one.ogg".to_string(), vec![9, 9]));
    assert_eq!(found[2], ("assets/two.ogg".to_string(), vec![9, 9]));
}

#[test]
fn a_path_listed_twice_is_written_once() {
    let data: DashMap<String, Vec<u8>> = DashMap::new();
    data.insert("a1".to_string(), vec![1]);
    data.insert("b2".to_string(), vec![2]);
    let lookup = vec![
        sound("a1", "assets/one.ogg"),
        sound("b2", "assets/one.ogg"),
        sound("b2", "assets/two.ogg"),
    ];
    let bytes = match write_resource_pack(1, 24, &lookup, &data) {
        Ok(bytes) => bytes,
        Err(_) => panic!("the pack should have been written"),
    };
    let found = entries(bytes);
    assert_eq!(found.len(), 3);
    assert_eq!(found[1], ("assets/one.ogg".to_string(), vec![1]));
    assert_eq!(found[2], ("assets/two.ogg".to_string(), vec![2]));
}

#[test]
fn payloads_without_a_path_are_left_out() {
    let data: DashMap<String, Vec<u8>> = DashMap::new();
    data.insert("a1".to_string(), vec![1]);
    data.insert("zz".to_string(), vec![2]);
    let lookup = vec![sound("a1", "assets/one.ogg")];
    let bytes = match write_resource_pack(1, 24, &lookup, &data) {
        Ok(bytes) => bytes,
        Err(_) => panic!("the pack should have been written"),
    };
    assert_eq!(entries(bytes).len(), 2);
}

#[test]
fn an_empty_lookup_gives_a_pack_with_metadata_only() {
    let data: DashMap<String, Vec<u8>> = DashMap::new();
    let bytes = match write_resource_pack(1, 48, &Vec::new(), &data) {
        Ok(bytes) => bytes,
        Err(_) => panic!("the pack should have been written"),
    };
    let found = entries(bytes);
    assert_eq!(found.len(), 1);
    assert_eq!(found[0].0, "pack.mcmeta");
}

#[test]
fn an_empty_payload_gives_an_empty_entry() {
    let data: DashMap<String, Vec<u8>> = DashMap::new();
    data.insert("a1".to_string(), Vec::new());
    let lookup = vec![sound("a1", "assets/silence.ogg")];
    let bytes = match write_resource_pack(1, 48, &lookup, &data) {
        Ok(bytes) => bytes,
        Err(_) => panic!("the pack should have been written"),
    };
    let found = entries(bytes);
    assert_eq!(found[1], ("assets/silence.ogg".to_string(), Vec::new()));
}

#[test]
fn a_missing_hash_fails_the_pack() {
    let data: DashMap<String, Vec<u8>> = DashMap::new();
    data.insert("a1".to_string(), vec![1]);
    let lookup = vec![sound("a1", "assets/sound1.ogg"), sound("b2", "assets/sound2.ogg")];
    match write_resource_pack(15, 12, &lookup, &data) {
        Err(PackagingError::MissingResult { hash }) => assert_eq!(hash, "b2"),
        _ => panic!("the missing hash should have been reported"),
    }
    assert!(matches!(
        fill_archive(15, 12, &lookup, &data),
        Err(PackagingError::MissingResult { .. })
    ));
}

#[test]
fn the_first_of_several_missing_hashes_is_reported() {
    let data: DashMap<String, Vec<u8>> = DashMap::new();
    let lookup = vec![sound("c3", "assets/c.ogg"), sound("b2", "assets/b.ogg")];
    match write_resource_pack(15, 12, &lookup, &data) {
        Err(PackagingError::MissingResult { hash }) => assert_eq!(hash, "c3"),
        _ => panic!("the missing hash should have been reported"),
    }
}

#[test]
fn an_entry_name_that_the_archive_refuses_is_reported() {
    let data: DashMap<String, Vec<u8>> = DashMap::new();
    data.insert("a1".to_string(), vec![1]);
    let lookup = vec![sound("a1", "pack.mcmeta")];
    match write_resource_pack(15, 12, &lookup, &data) {
        Err(PackagingError::CreateEntry { path }) => assert_eq!(path, "pack.mcmeta"),
        _ => panic!("the archive should have refused a second entry of the same name"),
    }
}

#[test]
fn two_sounds_processed_by_two_workers_fill_a_pack_of_three_entries() {
    let hashes = vec!["a1".to_string(), "b2".to_string()];
    let mut book = WorkDistributor::new(&hashes).unwrap();
    let first = book.next_task().unwrap();
    let second = book.next_task().unwrap();
    assert_eq!(book.next_task(), None);
    assert!(book.complete(second.clone(), Ok(second.clone().into_bytes())));
    assert!(book.complete(first.clone(), Ok(first.clone().into_bytes())));
    assert!(book.is_finished());
    assert_eq!(book.results_map().len(), 2);
    assert_eq!(book.progress(), 2);
    assert!(book.failure_list().is_empty());

    let lookup = vec![sound("a1", "assets/sound1.ogg"), sound("b2", "assets/sound2.ogg")];
    let bytes = match write_resource_pack(15, 12, &lookup, book.results_map()) {
        Ok(bytes) => bytes,
        Err(_) => panic!("the pack should have been written"),
    };
    let found = entries(bytes);
    assert_eq!(found.len(), 3);
    assert!(String::from_utf8(found[0].1.clone()).unwrap().contains("12db"));
    assert_eq!(found[1], ("assets/sound1.ogg".to_string(), b"a1".to_vec()));
    assert_eq!(found[2], ("assets/sound2.ogg".to_string(), b"b2".to_vec()));
}

#[test]
fn a_failed_sound_fails_the_pack_that_asks_for_it() {
    let hashes = vec!["a1".to_string(), "bad1".to_string()];
    let mut book = WorkDistributor::new(&hashes).unwrap();
    process_chunk(&mut book, |hash: &String| {
        if hash == "bad1" {
            Err(ProcessError::Network)
        } else {
            Ok(vec![7])
        }
    });
    let strict = vec![sound("a1", "assets/a.ogg"), sound("bad1", "assets/bad.ogg")];
    match write_resource_pack(15, 12, &strict, book.results_map()) {
        Err(PackagingError::MissingResult { hash }) => assert_eq!(hash, "bad1"),
        _ => panic!("the missing hash should have been reported"),
    }
    let lenient = vec![sound("a1", "assets/a.ogg")];
    match write_resource_pack(15, 12, &lenient, book.results_map()) {
        Ok(bytes) => assert_eq!(entries(bytes).len(), 2),
        Err(_) => panic!("the pack should have been written"),
    }
}

#[test]
fn packaging_errors_say_what_failed() {
    assert_eq!(
        PackagingError::MissingResult { hash: "b2".to_string() }.message(),
        "didn't find a processed sound for asset with hash b2"
    );
    assert_eq!(
        PackagingError::CreateEntry { path: "assets/a.ogg".to_string() }.message(),
        "failed to create an entry (assets/a.ogg)"
    );
    assert_eq!(
        PackagingError::WriteEntry { path: "assets/a.ogg".to_string() }.message(),
        "failed to write contents to an entry (assets/a.ogg)"
    );
    assert_eq!(PackagingError::Finish.message(), "failed to finish the archive");
}

#[test]
fn processed_paths_keeps_the_paths_that_have_a_payload() {
    let data: DashMap<String, Vec<u8>> = DashMap::new();
    data.insert("a1".to_string(), vec![1]);
    data.insert("c3".to_string(), vec![3]);
    let lookup = vec![
        sound("a1", "assets/one.ogg"),
        sound("b2", "assets/two.ogg"),
        sound("c3", "assets/three.ogg"),
        sound("a1", "assets/four.ogg"),
    ];
    let kept: Vec<(String, String)> = processed_paths(&lookup, &data)
        .into_iter()
        .map(|entry| (entry.hash, entry.path))
        .collect();
    assert_eq!(
        kept,
        vec![
            ("a1".to_string(), "assets/one.ogg".to_string()),
            ("c3".to_string(), "assets/three.ogg".to_string()),
            ("a1".to_string(), "assets/four.ogg".to_string()),
        ]
    );
    assert!(processed_paths(&lookup, &DashMap::new()).is_empty());
    assert!(processed_paths(&Vec::new(), &data).is_empty());
}

#[test]
fn a_filled_writer_is_finished_into_the_archive() {
    let data: DashMap<String, Vec<u8>> = DashMap::new();
    data.insert("a1".to_string(), vec![1, 2]);
    let lookup = vec![sound("a1", "assets/one.ogg")];
    let writer = match fill_archive(7, 36, &lookup, &data) {
        Ok(writer) => writer,
        Err(_) => panic!("the writer should have been filled"),
    };
    let bytes = match finish_archive(writer) {
        Ok(bytes) => bytes,
        Err(_) => panic!("the archive should have been finished"),
    };
    let found = entries(bytes);
    assert_eq!(found.len(), 2);
    assert_eq!(found[1], ("assets/one.ogg".to_string(), vec![1, 2]));
}

#[test]
fn a_pack_for_no_sounds_declares_its_version_and_gain() {
    let data: DashMap<String, Vec<u8>> = DashMap::new();
    let bytes = match write_resource_pack(15, 24, &Vec::new(), &data) {
        Ok(bytes) => bytes,
        Err(_) => panic!("the pack should have been written"),
    };
    let found = entries(bytes);
    assert_eq!(found.len(), 1);
    assert_eq!(found[0].0, "pack.mcmeta");
    let document = String::from_utf8(found[0].1.clone()).unwrap();
    assert!(document.contains("24db"));
    let value: serde_json::Value = serde_json::from_str(&document).unwrap();
    assert_eq!(value["pack"]["pack_format"].as_u64(), Some(15));
}

#[test]
fn a_payload_that_no_path_names_adds_no_entry() {
    let data: DashMap<String, Vec<u8>> = DashMap::new();
    data.insert("a1".to_string(), vec![1]);
    data.insert("b2".to_string(), vec![2]);
    data.insert("dangling".to_string(), vec![3]);
    let lookup = vec![sound("a1", "assets/one.ogg"), sound("b2", "assets/two.ogg")];
    let bytes = match write_resource_pack(15, 12, &lookup, &data) {
        Ok(bytes) => bytes,
        Err(_) => panic!("the pack should have been written"),
    };
    let found = entries(bytes);
    assert_eq!(found.len(), 1 + lookup.len());
    assert!(found.iter().all(|entry| entry.1 != vec![3]));
}
