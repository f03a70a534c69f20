use aqmon::command::{parse_command, run_command, run_command_str, Command, CommandError};
use aqmon::config::WifiConfig;
use aqmon::dispatch::{CommandDispatcher, LineOutcome};
use aqmon::store::ConfigStore;

fn parsed_config(line: &str) -> WifiConfig {
    match parse_command(line) {
        Ok(Command::SetWifiConfig(cfg)) => cfg,
        Err(e) => panic!("line {:?} should parse, got {:?}", line, e),
    }
}

#[test]
fn set_wifi_line_applies_and_persists() {
    // One JSON line on the control channel, then a load: the store holds
    // exactly the credentials the line carried.
    let mut store = ConfigStore::new();
    let mut dispatcher = CommandDispatcher::new();
    let line = "{\"SetWifiConfig\":{\"ssid\":\"home\",\"password\":\"secret\"}}\n";
    dispatcher.process_chunk(line.as_bytes(), &mut store);
    let loaded = WifiConfig::load(&store).expect("load succeeds");
    assert_eq!(loaded.ssid, "home");
    assert_eq!(loaded.password, "secret");
}

#[test]
fn command_line_parses_to_credentials() {
    let cfg = parsed_config("{\"SetWifiConfig\":{\"ssid\":\"home\",\"password\":\"secret\"}}");
    assert_eq!(cfg.ssid, "home");
    assert_eq!(cfg.password, "secret");
}

#[test]
fn members_may_come_in_either_order() {
    let cfg = parsed_config("{\"SetWifiConfig\":{\"password\":\"p\",\"ssid\":\"s\"}}");
    assert_eq!(cfg.ssid, "s");
    assert_eq!(cfg.password, "p");
}

#[test]
fn whitespace_between_tokens_is_accepted() {
    let cfg =
        parsed_config(" { \"SetWifiConfig\" : { \"ssid\" : \"s\" , \"password\" : \"p\" } } ");
    assert_eq!(cfg.ssid, "s");
    assert_eq!(cfg.password, "p");
}

#[test]
fn string_escapes_are_resolved() {
    let cfg = parsed_config(
        "{\"SetWifiConfig\":{\"ssid\":\"a\\\"b\\\\c\",\"password\":\"tab\\there\\n\"}}",
    );
    assert_eq!(cfg.ssid, "a\"b\\c");
    assert_eq!(cfg.password, "tab\there\n");
}

#[test]
fn empty_credentials_parse() {
    let cfg = parsed_config("{\"SetWifiConfig\":{\"ssid\":\"\",\"password\":\"\"}}");
    assert_eq!(cfg.ssid, "");
    assert_eq!(cfg.password, "");
}

#[test]
fn line_built_by_a_json_serializer_parses() {
    // The control tool emits the line with a stock JSON serializer; the
    // decoder must accept its output byte for byte.
    let mut inner = std::collections::BTreeMap::new();
    inner.insert("ssid".to_string(), "caf\u{e9} net".to_string());
    inner.insert("password".to_string(), "p\"w\\1".to_string());
    let mut outer = std::collections::BTreeMap::new();
    outer.insert("SetWifiConfig".to_string(), inner);
    let line = serde_json::to_string(&outer).expect("serializes");
    let cfg = parsed_config(&line);
    assert_eq!(cfg.ssid, "caf\u{e9} net");
    assert_eq!(cfg.password, "p\"w\\1");
}

#[test]
fn malformed_lines_are_rejected() {
    for line in [
        "",
        "hello",
        "{\"OtherCommand\":{\"ssid\":\"s\",\"password\":\"p\"}}",
        "{\"SetWifiConfig\":{\"ssid\":\"s\"}}",
        "{\"SetWifiConfig\":{\"ssid\":\"s\",\"ssid\":\"p\"}}",
        "{\"SetWifiConfig\":{\"ssid\":\"s\",\"password\":\"p\"}} trailing",
        "{\"SetWifiConfig\":{\"ssid\":\"s\",\"password\":\"p\"",
        "{\"SetWifiConfig\":{\"ssid\":\"s\",\"password\":\"p\\q\"}}",
        "{\"SetWifiConfig\":[\"s\",\"p\"]}",
    ] {
        assert_eq!(
            parse_command(line).expect_err("line should be rejected"),
            CommandError::Malformed,
            "line {:?} should be rejected",
            line
        );
    }
}

#[test]
fn run_command_saves_credentials() {
    let mut store = ConfigStore::new();
    let cmd = Command::SetWifiConfig(WifiConfig {
        ssid: String::from("n"),
        password: String::from("p"),
    });
    run_command(cmd, &mut store).expect("command applies");
    let loaded = WifiConfig::load(&store).expect("load succeeds");
    assert_eq!(loaded.ssid, "n");
    assert_eq!(loaded.password, "p");
}

#[test]
fn run_command_str_leaves_store_untouched_on_error() {
    let mut store = ConfigStore::new();
    let good = WifiConfig { ssid: String::from("keep"), password: String::from("kept") };
    good.save(&mut store).expect("save succeeds");
    run_command_str(&mut store, "not a command").expect_err("malformed line fails");
    let loaded = WifiConfig::load(&store).expect("load succeeds");
    assert_eq!(loaded, good);
}

#[test]
fn dispatcher_handles_bytes_split_across_chunks() {
    let mut store = ConfigStore::new();
    let mut dispatcher = CommandDispatcher::new();
    let line = "{\"SetWifiConfig\":{\"ssid\":\"ap\",\"password\":\"pw\"}}\n";
    let bytes = line.as_bytes();
    dispatcher.process_chunk(&bytes[..10], &mut store);
    dispatcher.process_chunk(&bytes[10..30], &mut store);
    dispatcher.process_chunk(&bytes[30..], &mut store);
    let loaded = WifiConfig::load(&store).expect("load succeeds");
    assert_eq!(loaded.ssid, "ap");
    assert_eq!(loaded.password, "pw");
}

#[test]
fn dispatcher_reports_one_outcome_per_line() {
    let mut store = ConfigStore::new();
    let mut dispatcher = CommandDispatcher::new();
    for b in "{\"SetWifiConfig\":{\"ssid\":\"a\",\"password\":\"b\"}}".bytes() {
        assert_eq!(dispatcher.push_byte(b, &mut store), LineOutcome::Pending);
    }
    assert_eq!(dispatcher.push_byte(b'\n', &mut store), LineOutcome::Applied);
    for b in "nonsense".bytes() {
        assert_eq!(dispatcher.push_byte(b, &mut store), LineOutcome::Pending);
    }
    assert_eq!(dispatcher.push_byte(b'\n', &mut store), LineOutcome::Rejected);
}

#[test]
fn rejected_line_clears_buffer_and_keeps_going() {
    let mut store = ConfigStore::new();
    let mut dispatcher = CommandDispatcher::new();
    dispatcher.process_chunk(b"garbage line\n", &mut store);
    dispatcher.process_chunk(
        b"{\"SetWifiConfig\":{\"ssid\":\"later\",\"password\":\"ok\"}}\n",
        &mut store,
    );
    let loaded = WifiConfig::load(&store).expect("load succeeds");
    assert_eq!(loaded.ssid, "later");
}

#[test]
fn empty_line_is_rejected_and_cleared() {
    let mut store = ConfigStore::new();
    let mut dispatcher = CommandDispatcher::new();
    assert_eq!(dispatcher.push_byte(b'\n', &mut store), LineOutcome::Rejected);
    dispatcher.process_chunk(
        b"{\"SetWifiConfig\":{\"ssid\":\"next\",\"password\":\"ok\"}}\n",
        &mut store,
    );
    let loaded = WifiConfig::load(&store).expect("load succeeds");
    assert_eq!(loaded.ssid, "next");
}

#[test]
fn invalid_utf8_line_stays_buffered() {
    // A line whose bytes are not UTF-8 is abandoned without being consumed:
    // the buffer keeps growing, so even a later well-formed line is never
    // seen on its own.
    let mut store = ConfigStore::new();
    let mut dispatcher = CommandDispatcher::new();
    assert_eq!(dispatcher.push_byte(0xFF, &mut store), LineOutcome::Pending);
    assert_eq!(dispatcher.push_byte(b'\n', &mut store), LineOutcome::Pending);
    dispatcher.process_chunk(
        b"{\"SetWifiConfig\":{\"ssid\":\"s\",\"password\":\"p\"}}\n",
        &mut store,
    );
    let loaded = WifiConfig::load(&store).expect("load succeeds");
    assert_eq!(loaded.ssid, "");
    assert_eq!(loaded.password, "");
}
