use aqmon::config::{ConfigError, WifiConfig};
use aqmon::store::ConfigStore;

#[test]
fn save_then_load_round_trips() {
    let mut store = ConfigStore::new();
    let cfg = WifiConfig { ssid: String::from("home"), password: String::from("secret") };
    cfg.save(&mut store).expect("save succeeds");
    let loaded = WifiConfig::load(&store).expect("load succeeds");
    assert_eq!(loaded, cfg);
}

#[test]
fn save_then_load_round_trips_empty_strings() {
    let mut store = ConfigStore::new();
    let cfg = WifiConfig { ssid: String::new(), password: String::new() };
    cfg.save(&mut store).expect("save succeeds");
    let loaded = WifiConfig::load(&store).expect("load succeeds");
    assert_eq!(loaded, cfg);
}

#[test]
fn save_then_load_round_trips_long_and_non_ascii_text() {
    // A password longer than 127 bytes forces a two-byte length prefix, and
    // multi-byte characters exercise the text round trip.
    let mut store = ConfigStore::new();
    let cfg = WifiConfig {
        ssid: String::from("caf\u{e9} \u{1f4f6}"),
        password: "x".repeat(200),
    };
    cfg.save(&mut store).expect("save succeeds");
    let loaded = WifiConfig::load(&store).expect("load succeeds");
    assert_eq!(loaded, cfg);
}

#[test]
fn load_on_empty_store_returns_defaults() {
    let store = ConfigStore::new();
    let loaded = WifiConfig::load(&store).expect("absent key is not an error");
    assert_eq!(loaded.ssid, "");
    assert_eq!(loaded.password, "");
}

#[test]
fn save_replaces_prior_value_wholesale() {
    let mut store = ConfigStore::new();
    let first = WifiConfig { ssid: String::from("old"), password: String::from("old-pw") };
    let second = WifiConfig { ssid: String::from("new"), password: String::from("new-pw") };
    first.save(&mut store).expect("first save succeeds");
    second.save(&mut store).expect("second save succeeds");
    let loaded = WifiConfig::load(&store).expect("load succeeds");
    assert_eq!(loaded, second);
}

#[test]
fn load_of_truncated_bytes_is_corrupt() {
    let mut store = ConfigStore::new();
    // A continuation bit with nothing after it is not a stored record.
    store.put("WIFI_CONFIG", vec![0xFF]);
    assert_eq!(WifiConfig::load(&store), Err(ConfigError::Corrupt));
}

#[test]
fn load_of_invalid_utf8_is_corrupt() {
    let mut store = ConfigStore::new();
    // Structurally sound (one-byte ssid, empty password) but the ssid byte
    // is not UTF-8.
    store.put("WIFI_CONFIG", vec![1, 0xFF, 0]);
    assert_eq!(WifiConfig::load(&store), Err(ConfigError::Corrupt));
}

#[test]
fn load_of_trailing_bytes_is_corrupt() {
    let mut store = ConfigStore::new();
    let cfg = WifiConfig { ssid: String::from("a"), password: String::from("b") };
    let mut bytes = cfg.to_bytes();
    bytes.push(0);
    store.put("WIFI_CONFIG", bytes);
    assert_eq!(WifiConfig::load(&store), Err(ConfigError::Corrupt));
}

#[test]
fn serialized_form_is_length_prefixed() {
    let cfg = WifiConfig { ssid: String::from("ab"), password: String::from("c") };
    assert_eq!(cfg.to_bytes(), vec![2, b'a', b'b', 1, b'c']);
}

#[test]
fn try_from_bytes_inverts_to_bytes() {
    let cfg = WifiConfig { ssid: String::from("net"), password: String::from("pw") };
    let decoded = WifiConfig::try_from_bytes(&cfg.to_bytes()).expect("decodes");
    assert_eq!(decoded, cfg);
}

#[test]
fn save_leaves_other_keys_untouched() {
    let mut store = ConfigStore::new();
    store.put("other", vec![42]);
    let cfg = WifiConfig { ssid: String::from("s"), password: String::from("p") };
    cfg.save(&mut store).expect("save succeeds");
    assert_eq!(store.get("other"), Some(vec![42]));
}

#[test]
fn store_get_and_put_by_key() {
    let mut store = ConfigStore::new();
    assert_eq!(store.get("a"), None);
    store.put("a", vec![1, 2]);
    store.put("b", vec![3]);
    assert_eq!(store.get("a"), Some(vec![1, 2]));
    assert_eq!(store.get("b"), Some(vec![3]));
    store.put("a", vec![9]);
    assert_eq!(store.get("a"), Some(vec![9]));
    assert_eq!(store.get("c"), None);
}
