//! Tests of the persisted store codec: both formats, both paths.

use saltpass::crypto::{Algorithm, CipherError};
use saltpass::models::{Feature, FeatureStore};
use saltpass::storage::{Storage, StorageError, StorageFormat};
use saltpass::time::Timestamp;

fn sample_store() -> FeatureStore {
    let ts = Timestamp::new(2024, 1, 15, 10, 30, 0).unwrap();
    let mut store = FeatureStore::new();
    store.add_feature(Feature::with_created(
        "GitHub".to_string(),
        "github.com".to_string(),
        Algorithm::HmacSha256,
        Some("Main account".to_string()),
        ts,
    ));
    store.add_feature(Feature::with_created(
        "Mail".to_string(),
        "mail.example.org".to_string(),
        Algorithm::Pbkdf2,
        None,
        Timestamp::new(2023, 12, 31, 23, 59, 59).unwrap(),
    ));
    store
}

fn assert_stores_equal(a: &FeatureStore, b: &FeatureStore) {
    assert_eq!(a.features.len(), b.features.len());
    for (x, y) in a.features.iter().zip(b.features.iter()) {
        assert_eq!(x.name, y.name);
        assert_eq!(x.feature, y.feature);
        assert_eq!(x.algorithm, y.algorithm);
        assert_eq!(x.created, y.created);
        assert_eq!(x.hint, y.hint);
    }
}

#[test]
fn test_json_save_load() {
    let storage = Storage::new("test_features.json".to_string(), StorageFormat::Json, false);
    let mut store = FeatureStore::new();
    store.add_feature(Feature::new(
        "GitHub".to_string(),
        "github.com".to_string(),
        Algorithm::HmacSha256,
        Some("Main account".to_string()),
    ));

    let blob = storage.save(&store).unwrap();
    let loaded = storage.load(Some(&blob)).unwrap();
    assert_eq!(loaded.features.len(), 1);
    assert_eq!(loaded.features[0].name, "GitHub");
}

#[test]
fn test_round_trip_json_plain() {
    let storage = Storage::new("f.json".to_string(), StorageFormat::Json, false);
    let store = sample_store();
    let blob = storage.save(&store).unwrap();
    let loaded = storage.load(Some(&blob)).unwrap();
    assert_stores_equal(&store, &loaded);
}

#[test]
fn test_round_trip_toml_plain() {
    let storage = Storage::new("f.toml".to_string(), StorageFormat::Toml, false);
    let store = sample_store();
    let blob = storage.save(&store).unwrap();
    let loaded = storage.load(Some(&blob)).unwrap();
    assert_stores_equal(&store, &loaded);
}

#[test]
fn test_round_trip_json_encrypted() {
    let mut storage = Storage::new("f.json.enc".to_string(), StorageFormat::Json, true);
    storage.set_password("vault-pw".to_string());
    let store = sample_store();
    let blob = storage.save(&store).unwrap();
    let loaded = storage.load(Some(&blob)).unwrap();
    assert_stores_equal(&store, &loaded);
}

#[test]
fn test_round_trip_toml_encrypted() {
    let mut storage = Storage::new("f.toml.enc".to_string(), StorageFormat::Toml, true);
    storage.set_password("vault-pw".to_string());
    let store = sample_store();
    let blob = storage.save(&store).unwrap();
    let loaded = storage.load(Some(&blob)).unwrap();
    assert_stores_equal(&store, &loaded);
}

#[test]
fn test_round_trip_empty_catalog() {
    for fmt in [StorageFormat::Json, StorageFormat::Toml] {
        let storage = Storage::new("f".to_string(), fmt, false);
        let store = FeatureStore::new();
        let blob = storage.save(&store).unwrap();
        let loaded = storage.load(Some(&blob)).unwrap();
        assert_eq!(loaded.features.len(), 0);
    }
}

#[test]
fn test_round_trip_awkward_strings() {
    let ts = Timestamp::new(2020, 2, 29, 0, 0, 1).unwrap();
    for fmt in [StorageFormat::Json, StorageFormat::Toml] {
        let storage = Storage::new("f".to_string(), fmt, false);
        let mut store = FeatureStore::new();
        store.add_feature(Feature::with_created(
            "we\"ird\\name\nwith\tcontrol\u{1}chars".to_string(),
            "π.example.org".to_string(),
            Algorithm::Scrypt,
            Some("hint with \"quotes\" and \r returns".to_string()),
            ts,
        ));
        let blob = storage.save(&store).unwrap();
        let loaded = storage.load(Some(&blob)).unwrap();
        assert_stores_equal(&store, &loaded);
    }
}

#[test]
fn test_encrypted_toml_scenario() {
    let mut storage = Storage::new("features.toml.enc".to_string(), StorageFormat::Toml, true);
    storage.set_password("right-password".to_string());
    let ts = Timestamp::new(2024, 6, 1, 12, 0, 0).unwrap();
    let mut store = FeatureStore::new();
    store.add_feature(Feature::with_created(
        "GitHub".to_string(),
        "github.com".to_string(),
        Algorithm::HmacSha256,
        Some("Main account".to_string()),
        ts,
    ));

    let blob = storage.save(&store).unwrap();

    let loaded = storage.load(Some(&blob)).unwrap();
    assert_eq!(loaded.features.len(), 1);
    assert_eq!(loaded.features[0].name, "GitHub");
    assert_eq!(loaded.features[0].feature, "github.com");
    assert_eq!(loaded.features[0].algorithm, Algorithm::HmacSha256);
    assert_eq!(loaded.features[0].hint, Some("Main account".to_string()));
    assert_eq!(loaded.features[0].created, ts);

    let mut wrong = Storage::new("features.toml.enc".to_string(), StorageFormat::Toml, true);
    wrong.set_password("wrong-password".to_string());
    let r = wrong.load(Some(&blob));
    assert_eq!(r.unwrap_err(), StorageError::Cipher(CipherError::AuthFailed));
}

#[test]
fn test_missing_file_is_empty_catalog() {
    let storage = Storage::new("f.json".to_string(), StorageFormat::Json, false);
    let loaded = storage.load(None).unwrap();
    assert_eq!(loaded.features.len(), 0);
}

#[test]
fn test_missing_password_is_config_error() {
    let storage = Storage::new("f.json.enc".to_string(), StorageFormat::Json, true);
    let store = sample_store();
    assert_eq!(storage.save(&store).unwrap_err(), StorageError::MissingPassword);
    assert_eq!(
        storage.load(Some("whatever")).unwrap_err(),
        StorageError::MissingPassword
    );
}

#[test]
fn test_format_mismatch_is_format_error() {
    let json_storage = Storage::new("f.json".to_string(), StorageFormat::Json, false);
    let toml_storage = Storage::new("f.toml".to_string(), StorageFormat::Toml, false);
    let store = sample_store();
    let json_blob = json_storage.save(&store).unwrap();
    let r = toml_storage.load(Some(&json_blob));
    assert_eq!(r.unwrap_err(), StorageError::InvalidFormat);
}

#[test]
fn test_ciphertext_as_plaintext_is_format_error() {
    let mut enc = Storage::new("f.json.enc".to_string(), StorageFormat::Json, true);
    enc.set_password("pw".to_string());
    let store = sample_store();
    let blob = enc.save(&store).unwrap();
    let plain = Storage::new("f.json".to_string(), StorageFormat::Json, false);
    let r = plain.load(Some(&blob));
    assert_eq!(r.unwrap_err(), StorageError::InvalidFormat);
}

#[test]
fn test_export_decrypted_toml_verbatim() {
    let storage = Storage::new("f.toml".to_string(), StorageFormat::Toml, false);
    let store = sample_store();
    let blob = storage.save(&store).unwrap();
    let exported = storage.export_decrypted(Some(&blob)).unwrap();
    assert_eq!(exported, blob);
}

#[test]
fn test_export_decrypted_json_renders_toml() {
    let json_storage = Storage::new("f.json".to_string(), StorageFormat::Json, false);
    let toml_storage = Storage::new("f.toml".to_string(), StorageFormat::Toml, false);
    let store = sample_store();
    let json_blob = json_storage.save(&store).unwrap();
    let toml_blob = toml_storage.save(&store).unwrap();
    let exported = json_storage.export_decrypted(Some(&json_blob)).unwrap();
    assert_eq!(exported, toml_blob);
}

#[test]
fn test_export_decrypted_encrypted_store() {
    let mut enc = Storage::new("f.toml.enc".to_string(), StorageFormat::Toml, true);
    enc.set_password("pw".to_string());
    let plain = Storage::new("f.toml".to_string(), StorageFormat::Toml, false);
    let store = sample_store();
    let blob = enc.save(&store).unwrap();
    let exported = enc.export_decrypted(Some(&blob)).unwrap();
    assert_eq!(exported, plain.save(&store).unwrap());
}

#[test]
fn test_export_decrypted_missing_is_not_found() {
    let storage = Storage::new("f.toml".to_string(), StorageFormat::Toml, false);
    assert_eq!(storage.export_decrypted(None).unwrap_err(), StorageError::NotFound);
}

#[test]
fn test_export_decrypted_wrong_password() {
    let mut enc = Storage::new("f.toml.enc".to_string(), StorageFormat::Toml, true);
    enc.set_password("pw".to_string());
    let store = sample_store();
    let blob = enc.save(&store).unwrap();
    let mut wrong = Storage::new("f.toml.enc".to_string(), StorageFormat::Toml, true);
    wrong.set_password("other".to_string());
    assert_eq!(
        wrong.export_decrypted(Some(&blob)).unwrap_err(),
        StorageError::Cipher(CipherError::AuthFailed)
    );
}

#[test]
fn test_extension() {
    assert_eq!(StorageFormat::Json.extension(), "json");
    assert_eq!(StorageFormat::Toml.extension(), "toml");
}

#[test]
fn test_from_extension() {
    assert_eq!(StorageFormat::from_extension("json"), Some(StorageFormat::Json));
    assert_eq!(StorageFormat::from_extension("JSON"), Some(StorageFormat::Json));
    assert_eq!(StorageFormat::from_extension("Toml"), Some(StorageFormat::Toml));
    assert_eq!(StorageFormat::from_extension("txt"), None);
}

#[test]
fn test_storage_accessors() {
    let mut storage = Storage::new("somewhere.toml".to_string(), StorageFormat::Toml, true);
    assert_eq!(storage.file_path(), "somewhere.toml");
    assert!(storage.is_encrypted());
    storage.set_password("pw".to_string());
    let plain = Storage::new("p.json".to_string(), StorageFormat::Json, false);
    assert!(!plain.is_encrypted());
}

#[test]
fn test_catalog_operations() {
    let mut store = FeatureStore::default();
    assert_eq!(store.list_features().len(), 0);
    store.add_feature(Feature::new(
        "A".to_string(),
        "a.com".to_string(),
        Algorithm::HmacSha256,
        None,
    ));
    store.add_feature(Feature::new(
        "B".to_string(),
        "b.com".to_string(),
        Algorithm::Scrypt,
        None,
    ));
    assert_eq!(store.list_features().len(), 2);
    let removed = store.remove_feature(0).unwrap();
    assert_eq!(removed.name, "A");
    assert_eq!(store.list_features().len(), 1);
    assert_eq!(store.list_features()[0].name, "B");
    assert!(store.remove_feature(5).is_none());
}

#[test]
fn test_timestamp_ranges() {
    assert!(Timestamp::new(2024, 1, 1, 0, 0, 0).is_some());
    assert!(Timestamp::new(0, 1, 1, 0, 0, 0).is_none());
    assert!(Timestamp::new(2024, 13, 1, 0, 0, 0).is_none());
    assert!(Timestamp::new(2024, 1, 32, 0, 0, 0).is_none());
    assert!(Timestamp::new(2024, 1, 1, 24, 0, 0).is_none());
    assert!(Timestamp::new(2024, 1, 1, 0, 60, 0).is_none());
    assert!(Timestamp::new(2024, 1, 1, 0, 0, 60).is_none());
    let ts = Timestamp::new(2024, 7, 8, 9, 10, 11).unwrap();
    assert_eq!(ts.year(), 2024);
    assert_eq!(ts.month(), 7);
    assert_eq!(ts.day(), 8);
    assert_eq!(ts.hour(), 9);
    assert_eq!(ts.minute(), 10);
    assert_eq!(ts.second(), 11);
}

#[test]
fn test_feature_new_stamps_current_time() {
    let f = Feature::new(
        "X".to_string(),
        "x.org".to_string(),
        Algorithm::HmacSha256,
        None,
    );
    let m = f.created.month();
    let d = f.created.day();
    assert!((1..=12).contains(&m));
    assert!((1..=31).contains(&d));
    assert!(f.created.hour() <= 23);
}

#[test]
fn test_json_blob_readable_by_serde_json() {
    let storage = Storage::new("f.json".to_string(), StorageFormat::Json, false);
    let store = sample_store();
    let blob = storage.save(&store).unwrap();
    let v: serde_json::Value = serde_json::from_str(&blob).unwrap();
    let features = v.get("features").unwrap().as_array().unwrap();
    assert_eq!(features.len(), 2);
    assert_eq!(features[0].get("name").unwrap().as_str().unwrap(), "GitHub");
    assert_eq!(
        features[0].get("algorithm").unwrap().as_str().unwrap(),
        "HmacSha256"
    );
    assert_eq!(
        features[0].get("created").unwrap().as_str().unwrap(),
        "2024-01-15T10:30:00Z"
    );
    assert!(features[1].get("hint").unwrap().is_null());
}

#[test]
fn test_toml_blob_readable_by_toml_crate() {
    let storage = Storage::new("f.toml".to_string(), StorageFormat::Toml, false);
    let store = sample_store();
    let blob = storage.save(&store).unwrap();
    let v: toml::Value = toml::from_str(&blob).unwrap();
    let features = v.get("features").unwrap().as_array().unwrap();
    assert_eq!(features.len(), 2);
    assert_eq!(
        features[0].get("name").unwrap().as_str().unwrap(),
        "GitHub"
    );
    assert_eq!(
        features[1].get("feature").unwrap().as_str().unwrap(),
        "mail.example.org"
    );
    assert!(features[1].get("hint").is_none());
}

#[test]
fn test_empty_toml_catalog_readable_by_toml_crate() {
    let storage = Storage::new("f.toml".to_string(), StorageFormat::Toml, false);
    let blob = storage.save(&FeatureStore::new()).unwrap();
    let v: toml::Value = toml::from_str(&blob).unwrap();
    assert_eq!(v.get("features").unwrap().as_array().unwrap().len(), 0);
}
