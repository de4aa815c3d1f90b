use mineardmg::hashes::contains_hash;
use mineardmg::hashes::position;
use mineardmg::hashes::unique_hashes;
use mineardmg::models::Asset;
use mineardmg::models::AssetObject;
use mineardmg::pack::SoundPath;
use mineardmg::sounds::sound_hashes;
use mineardmg::sounds::sound_paths;
use mineardmg::text::ends_with;
use mineardmg::text::same_text;

fn object(name: &str, hash: &str) -> AssetObject {
    AssetObject { name: name.to_string(), asset: Asset { hash: hash.to_string(), size: 3 } }
}

fn lines(lookup: &Vec<SoundPath>) -> Vec<(String, String)> {
    lookup.iter().map(|entry| (entry.hash.clone(), entry.path.clone())).collect()
}

fn texts(list: &[&str]) -> Vec<String> {
    list.iter().map(|text| text.to_string()).collect()
}

#[test]
fn sounds_are_the_assets_that_end_in_ogg() {
    let objects = vec![
        object("minecraft/sounds/dig/stone1.ogg", "a1"),
        object("minecraft/lang/en_us.json", "b2"),
        object("minecraft/sounds/dig/stone2.ogg", "c3"),
        object("icons/icon.png", "d4"),
        object(".ogg", "e5"),
        object("ogg", "f6"),
        object("minecraft/sounds/upper.OGG", "g7"),
    ];
    assert_eq!(
        lines(&sound_paths(&objects)),
        vec![
            ("a1".to_string(), "assets/minecraft/sounds/dig/stone1.ogg".to_string()),
            ("c3".to_string(), "assets/minecraft/sounds/dig/stone2.ogg".to_string()),
            ("e5".to_string(), "assets/.ogg".to_string()),
        ]
    );
    assert!(sound_paths(&Vec::new()).is_empty());
}

#[test]
fn sounds_that_share_a_payload_are_fetched_once() {
    let objects = vec![
        object("one.ogg", "a1"),
        object("two.ogg", "b2"),
        object("three.ogg", "a1"),
        object("four.ogg", "c3"),
        object("five.ogg", "b2"),
    ];
    let lookup = sound_paths(&objects);
    assert_eq!(lookup.len(), 5);
    assert_eq!(sound_hashes(&lookup), texts(&["a1", "b2", "c3"]));
    assert!(sound_hashes(&Vec::new()).is_empty());
}

#[test]
fn unique_hashes_keeps_first_occurrences() {
    assert_eq!(unique_hashes(&texts(&["b", "a", "b", "c", "a", "a"])), texts(&["b", "a", "c"]));
    assert_eq!(unique_hashes(&texts(&["a", "b"])), texts(&["a", "b"]));
    assert!(unique_hashes(&Vec::new()).is_empty());
}

#[test]
fn a_hash_is_found_where_it_stands_first() {
    let list = texts(&["a", "b", "a"]);
    assert_eq!(position(&list, &"a".to_string()), Some(0));
    assert_eq!(position(&list, &"b".to_string()), Some(1));
    assert_eq!(position(&list, &"c".to_string()), None);
    assert!(contains_hash(&list, &"b".to_string()));
    assert!(!contains_hash(&list, &"".to_string()));
    assert!(!contains_hash(&Vec::new(), &"a".to_string()));
}

#[test]
fn a_text_ends_with_its_suffixes() {
    assert!(ends_with("stone.ogg", ".ogg"));
    assert!(ends_with("stone.ogg", ""));
    assert!(ends_with(".ogg", ".ogg"));
    assert!(ends_with("", ""));
    assert!(!ends_with("ogg", ".ogg"));
    assert!(!ends_with("stone.ogg.txt", ".ogg"));
    assert!(!ends_with("", ".ogg"));
    assert!(ends_with("grüße.ogg", "üße.ogg"));
    assert!(!ends_with("stone.ogg", "stone.OGG"));
}

#[test]
fn texts_are_the_same_when_their_characters_are() {
    assert!(same_text("client", "client"));
    assert!(same_text("", ""));
    assert!(!same_text("client", "Client"));
    assert!(!same_text("client", "clients"));
}
