use sb3c::sb3::asset::{asset_file_name, AssetStore, StoredAsset};
use sb3c::sb3::uid::{bytes_to_text, uuid, UUID_LEN};
use sb3c::sb3::{InputType, MonitorMode, RotationStyle, Sound};

#[test]
fn identifiers_have_twenty_printable_characters() {
    for _ in 0..200 {
        let id = uuid();
        assert_eq!(id.chars().count(), 20);
        assert_eq!(id.len(), UUID_LEN);
        assert!(id.chars().all(|c| ('!'..='~').contains(&c)), "{:?}", id);
    }
}

#[test]
fn identifiers_differ() {
    let ids: Vec<String> = (0..50).map(|_| uuid()).collect();
    for i in 0..ids.len() {
        for j in 0..i {
            assert_ne!(ids[i], ids[j]);
        }
    }
}

#[test]
fn input_kinds_have_their_codes() {
    assert_eq!(InputType::Number.code(), Some(4));
    assert_eq!(InputType::String.code(), Some(10));
    for kind in [
        InputType::PositiveNumber,
        InputType::WholeNumber,
        InputType::Integer,
        InputType::Angle,
        InputType::Color,
        InputType::Broadcast,
    ] {
        assert_eq!(kind.code(), None);
    }
}

#[test]
fn monitor_modes_have_their_names() {
    assert_eq!(MonitorMode::Small.as_str(), "default");
    assert_eq!(MonitorMode::Large.as_str(), "large");
    assert_eq!(MonitorMode::Slider.as_str(), "slider");
}

#[test]
fn rotation_styles_have_their_names() {
    assert_eq!(RotationStyle::DontRotate.as_str(), "don't rotate");
    assert_eq!(RotationStyle::LeftRight.as_str(), "left-right");
    assert_eq!(RotationStyle::AllAround.as_str(), "all around");
}

#[test]
fn sounds_hold_a_name_and_a_path() {
    let sound = Sound { name: "pop".to_string(), path: "assets/pop.wav".to_string() };
    assert_eq!(sound.name, "pop");
    assert_eq!(sound.path, "assets/pop.wav");
}

#[test]
fn asset_names_are_digest_dot_extension() {
    assert_eq!(asset_file_name("abc", Some("svg")), "abc.svg");
    assert_eq!(asset_file_name("abc", None), "abc.");
    assert_eq!(asset_file_name("", Some("")), ".");
}

#[test]
fn digests_are_md5_in_lower_case_hex() {
    let mut store = AssetStore::new();
    assert_eq!(store.add(b"", None).md5, "d41d8cd98f00b204e9800998ecf8427e");
    assert_eq!(store.add(b"hello", None).md5, "5d41402abc4b2a76b9719d911017c592");
    assert_eq!(
        store.add(b"The quick brown fox jumps over the lazy dog", None).md5,
        "9e107d9d372bb6826bd81d3542a419d6"
    );
}

#[test]
fn an_asset_is_written_once() {
    let mut store = AssetStore::new();
    let hello = "5d41402abc4b2a76b9719d911017c592";
    assert!(!store.contains(hello));
    assert_eq!(
        store.add(b"hello", Some("svg")),
        StoredAsset { md5: hello.to_string(), file_name: Some(format!("{}.svg", hello)) }
    );
    assert!(store.contains(hello));
    assert_eq!(
        store.add(b"hello", Some("png")),
        StoredAsset { md5: hello.to_string(), file_name: None }
    );
    let stored = store.add(b"world", None);
    assert_eq!(stored.md5, "7d793037a0760186574b0282f2f435e7");
    assert_eq!(stored.file_name, Some("7d793037a0760186574b0282f2f435e7.".to_string()));
    assert!(store.contains(hello));
    assert!(store.contains("7d793037a0760186574b0282f2f435e7"));
    assert!(!store.contains("d41d8cd98f00b204e9800998ecf8427e"));
}

#[test]
fn a_recorded_digest_is_not_written_again() {
    let mut store = AssetStore::new();
    assert_eq!(
        store.record("abc".to_string(), Some("svg")),
        StoredAsset { md5: "abc".to_string(), file_name: Some("abc.svg".to_string()) }
    );
    assert_eq!(
        store.record("abd".to_string(), None),
        StoredAsset { md5: "abd".to_string(), file_name: Some("abd.".to_string()) }
    );
    assert_eq!(
        store.record("abc".to_string(), Some("svg")),
        StoredAsset { md5: "abc".to_string(), file_name: None }
    );
    assert_eq!(
        store.record("abd".to_string(), Some("wav")),
        StoredAsset { md5: "abd".to_string(), file_name: None }
    );
    assert!(store.contains("abc"));
    assert!(store.contains("abd"));
    assert!(!store.contains("ab"));
    assert!(!store.contains(""));
}

#[test]
fn bytes_become_the_characters_with_their_codes() {
    assert_eq!(bytes_to_text(&vec![]), "");
    assert_eq!(bytes_to_text(&vec![33, 65, 97, 126]), "!Aa~");
    assert_eq!(bytes_to_text(&vec![0xe9, 0x20, 0xff]), "\u{e9} \u{ff}");
}
