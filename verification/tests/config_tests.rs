use diggeo::config::{parse_api_key, unreadable_config_message, ConfigError};

#[test]
fn well_formed_config_returns_value() {
    let content = "# a comment\n\n  api_key =  abc123  # trailing comment\nother = 1\n";
    assert_eq!(parse_api_key(content).unwrap(), "abc123");
}

#[test]
fn plain_entry_without_decoration() {
    assert_eq!(parse_api_key("api_key = k1").unwrap(), "k1");
}

#[test]
fn first_matching_line_wins() {
    let content = "api_key = first\napi_key = second\n";
    assert_eq!(parse_api_key(content).unwrap(), "first");
}

#[test]
fn value_keeps_later_equals_signs() {
    assert_eq!(parse_api_key("api_key = a=b").unwrap(), "a=b");
}

#[test]
fn tabs_around_key_and_value() {
    assert_eq!(parse_api_key("\tapi_key\t=\tk2\t\n").unwrap(), "k2");
}

#[test]
fn missing_key_is_an_error() {
    let content = "# only comments\nuser = me\n";
    assert_eq!(parse_api_key(content), Err(ConfigError::KeyNotFound));
}

#[test]
fn empty_file_is_an_error() {
    assert_eq!(parse_api_key(""), Err(ConfigError::KeyNotFound));
}

#[test]
fn empty_value_is_an_error() {
    assert_eq!(parse_api_key("api_key =\n"), Err(ConfigError::KeyNotFound));
}

#[test]
fn empty_value_line_is_skipped_not_fatal() {
    let content = "api_key =\napi_key = real\n";
    assert_eq!(parse_api_key(content).unwrap(), "real");
}

#[test]
fn commented_out_entry_is_ignored() {
    let content = "# api_key = hidden\napi_key = visible\n";
    assert_eq!(parse_api_key(content).unwrap(), "visible");
}

#[test]
fn other_keys_are_ignored() {
    assert_eq!(parse_api_key("api_keys = x\n"), Err(ConfigError::KeyNotFound));
}

#[test]
fn key_not_found_message() {
    assert_eq!(
        ConfigError::KeyNotFound.message(),
        "api_key not found in config file"
    );
}

#[test]
fn unreadable_message_names_path_and_cause() {
    assert_eq!(
        unreadable_config_message("/etc/diggeo.conf", "permission denied"),
        "Failed to read config /etc/diggeo.conf: permission denied"
    );
}
