use modbus_prometheus_api_server::clients::{Client, Coil, Register};
use modbus_prometheus_api_server::errors::{ErrorRuntime, ErrorRuntimeNoRejection};
use modbus_prometheus_api_server::json::{JsonNumber, JsonValue};
use modbus_prometheus_api_server::text::{is_valid_name, str_eq};
use modbus_prometheus_api_server::utils::{
    check_client_strings, check_if_client_exist, config_file_name, config_file_path, create_ctx,
    parse_bool, parse_ipv4, parse_u16, SocketTarget,
};

const TEST_CLIENT_JSON_NOT_OK: &str = r#"{
        "name": "wrong name",
        "ip_address": "127.0.0.1",
        "port": 502,
        "protocol": "tcp",
        "registers": [
          {
            "name": "test_register_1",
            "objecttype": "holding",
            "address": 0,
            "length": 1,
            "datatype": "int16",
            "factor": 0,
            "value": 0
          },
          {
            "name": "test_register_2",
            "objecttype": "holding",
            "address": 1,
            "length": 1,
            "datatype": "int16",
            "factor": 0,
            "value": 0
          },
          {
            "name": "test_register_3",
            "objecttype": "input",
            "address": 0,
            "length": 1,
            "datatype": "int16",
            "factor": 0,
            "value": 0
          }
        ],
        "coils": [
          {
            "name": "test_coil_1",
            "objecttype": "coil",
            "address": 0,
            "value": false
          },
          {
            "name": "test_coil_2",
            "objecttype": "discrete",
            "address": 0,
            "value": false
          }
        ]
      }"#;

fn text(s: &str) -> JsonValue {
    JsonValue::Text(s.to_string())
}

fn object(members: Vec<(&str, JsonValue)>) -> JsonValue {
    JsonValue::Object(members.into_iter().map(|(k, v)| (k.to_string(), v)).collect())
}

#[test]
fn test_check_if_client_exist() {
    let client_file_name = "test_client.json";
    let config = "/etc/modbus-prometheus-api-server/config";
    let kept = config_file_path(config, "test_client");
    let local_files = Ok(vec![kept[config.len() + 1..].to_string()]);
    let result = check_if_client_exist(client_file_name, &local_files);
    assert_eq!(result.is_ok(), false);
}

#[test]
fn test_check_client_strings() {
    let client_json = JsonValue::parse(TEST_CLIENT_JSON_NOT_OK).unwrap();
    let result = check_client_strings(&client_json);
    assert_eq!(result.is_ok(), false);
}

#[test]
fn existing_file_is_refused_and_others_are_not() {
    let files = Ok(vec!["a.json".to_string(), "test_client.json".to_string()]);
    assert_eq!(check_if_client_exist("test_client.json", &files), Err(ErrorRuntime::ClientExists));
    assert_eq!(check_if_client_exist("a.json", &files), Err(ErrorRuntime::ClientExists));
    assert_eq!(check_if_client_exist("test_client", &files), Ok(()));
    assert_eq!(check_if_client_exist("b.json", &files), Ok(()));
    assert_eq!(check_if_client_exist("b.json", &Ok(Vec::new())), Ok(()));
    assert_eq!(check_if_client_exist("a.json", &Err(ErrorRuntime::FSReadDirError)), Ok(()));
}

#[test]
fn naming_check_looks_at_every_text_but_the_address() {
    assert_eq!(check_client_strings(&text("ok_name_1")), Ok(()));
    assert_eq!(check_client_strings(&text("Not Ok")), Err(ErrorRuntime::RegexError));
    assert_eq!(check_client_strings(&text("")), Err(ErrorRuntime::RegexError));
    assert_eq!(check_client_strings(&JsonValue::Null), Ok(()));
    assert_eq!(check_client_strings(&JsonValue::Boolean(true)), Ok(()));
    assert_eq!(check_client_strings(&JsonValue::Number(JsonNumber::NegInt(-3))), Ok(()));
    assert_eq!(check_client_strings(&JsonValue::Array(vec![])), Ok(()));
    assert_eq!(
        check_client_strings(&JsonValue::Array(vec![text("a"), text("b c")])),
        Err(ErrorRuntime::RegexError)
    );
    assert_eq!(
        check_client_strings(&object(vec![("ip_address", text("127.0.0.1")), ("name", text("a"))])),
        Ok(())
    );
    assert_eq!(
        check_client_strings(&object(vec![("Any Key", text("a"))])),
        Ok(())
    );
    assert_eq!(
        check_client_strings(&object(vec![("address", text("127.0.0.1"))])),
        Err(ErrorRuntime::RegexError)
    );
    assert_eq!(
        check_client_strings(&object(vec![(
            "outer",
            JsonValue::Array(vec![object(vec![("ip_address", text("x y")), ("deep", text("X"))])])
        )])),
        Err(ErrorRuntime::RegexError)
    );
    assert_eq!(
        check_client_strings(&object(vec![(
            "ip_address",
            JsonValue::Array(vec![text("anything goes"), object(vec![("k", text("Even This"))])])
        )])),
        Ok(())
    );
}

#[test]
fn accepted_description_passes_the_naming_check() {
    let ok = TEST_CLIENT_JSON_NOT_OK.replace("wrong name", "right_name");
    assert_eq!(check_client_strings(&JsonValue::parse(&ok).unwrap()), Ok(()));
}

#[test]
fn device_names_follow_the_naming_rule() {
    assert!(is_valid_name("test_client"));
    assert!(!is_valid_name("test client"));
    assert!(!is_valid_name("Test_Client"));
    assert!(is_valid_name("_"));
    assert!(is_valid_name("0"));
    assert!(is_valid_name("a1_b2"));
    assert!(!is_valid_name(""));
    assert!(!is_valid_name("a-b"));
    assert!(!is_valid_name("a\n"));
    assert!(!is_valid_name("\u{e4}"));
    assert!(!is_valid_name("a.b"));
}

#[test]
fn naming_rule_agrees_with_the_pattern() {
    let pattern = regex::Regex::new(r"^[a-z0-9_]+$").unwrap();
    for candidate in [
        "", "a", "z", "0", "9", "_", "abc_123", "A", "aB", "a b", " a", "a ", "a\n", "\na", "a-b",
        "a.b", "a/b", "`", "{", "/", ":", "@", "[", "\u{e9}", "a\u{e9}", "test_client",
        "Test_Client", "test client", "\u{ff41}", "a\0",
    ] {
        assert_eq!(is_valid_name(candidate), pattern.is_match(candidate), "{:?}", candidate);
    }
}

#[test]
fn texts_compare_character_by_character() {
    assert!(str_eq("", ""));
    assert!(str_eq("tcp", "tcp"));
    assert!(!str_eq("tcp", "tcp "));
    assert!(!str_eq("tcp", "udp"));
    assert!(!str_eq("", "a"));
    assert!(str_eq("gr\u{fc}n", "gr\u{fc}n"));
    assert!(!str_eq("gr\u{fc}n", "grun"));
}

#[test]
fn sixteen_bit_numbers_are_read_like_the_standard_library_reads_them() {
    for candidate in [
        "0", "1", "9", "10", "65535", "65536", "65540", "70000", "99999", "100000", "4294967296",
        "00", "007", "000065535", "+5", "+0", "+65535", "+65536", "+", "", "-", "-0", "-1", "++1",
        "1+", " 1", "1 ", "1_000", "0x10", "1.0", "1e3", "\u{661}", "12a", "a12", "655350",
        "18446744073709551616",
    ] {
        assert_eq!(parse_u16(candidate), candidate.parse::<u16>().ok(), "{:?}", candidate);
    }
    assert_eq!(parse_u16("65535"), Some(65535));
    assert_eq!(parse_u16("+12"), Some(12));
    assert_eq!(parse_u16("65536"), None);
}

#[test]
fn truth_values_are_read_like_the_standard_library_reads_them() {
    for candidate in ["true", "false", "", "True", "FALSE", "1", "0", " true", "true ", "yes", "t"] {
        assert_eq!(parse_bool(candidate), candidate.parse::<bool>().ok(), "{:?}", candidate);
    }
    assert_eq!(parse_bool("true"), Some(true));
    assert_eq!(parse_bool("false"), Some(false));
}

#[test]
fn dotted_quads_are_read_octet_by_octet() {
    assert_eq!(parse_ipv4("127.0.0.1"), Some((127, 0, 0, 1)));
    assert_eq!(parse_ipv4("0.0.0.0"), Some((0, 0, 0, 0)));
    assert_eq!(parse_ipv4("255.255.255.255"), Some((255, 255, 255, 255)));
    assert_eq!(parse_ipv4("192.168.10.200"), Some((192, 168, 10, 200)));
    assert_eq!(parse_ipv4("1.2.3.4"), Some((1, 2, 3, 4)));
    for bad in [
        "", ".", "...", "1", "1.2", "1.2.3", "1.2.3.", ".1.2.3", "1.2.3.4.", "1.2.3.4.5", "1..2.3",
        "256.1.1.1", "1.1.1.256", "1.1.1.999", "1.1.1.1000", "01.2.3.4", "1.2.3.04", "00.0.0.0",
        "1.2.3.4 ", " 1.2.3.4", "1.2.3.a", "1.2.3.-4", "+1.2.3.4", "1,2,3,4", "localhost",
        "1.2.3.4/24", "1.2.3.4:502", "::1", "0x7f.0.0.1", "1.2.3.\u{664}",
    ] {
        assert_eq!(parse_ipv4(bad), None, "{:?}", bad);
    }
}

#[test]
fn session_target_is_the_address_and_the_port_of_the_device() {
    let mut client = Client {
        name: "plant".to_string(),
        ip_address: "10.1.2.3".to_string(),
        port: 1502,
        protocol: "tcp".to_string(),
        registers: Vec::<Register>::new(),
        coils: Vec::<Coil>::new(),
    };
    assert_eq!(create_ctx(&client), Ok(SocketTarget { octets: (10, 1, 2, 3), port: 1502 }));
    client.ip_address = "plant.local".to_string();
    assert_eq!(create_ctx(&client), Err(ErrorRuntimeNoRejection::InvalidIpAddress));
    client.ip_address = "10.1.2".to_string();
    assert_eq!(create_ctx(&client), Err(ErrorRuntimeNoRejection::InvalidIpAddress));
}

#[test]
fn description_files_are_named_after_their_device() {
    assert_eq!(config_file_name("plant"), "plant.json");
    assert_eq!(config_file_name(""), ".json");
    assert_eq!(
        config_file_path("/etc/modbus-prometheus-api-server/config", "test_client"),
        "/etc/modbus-prometheus-api-server/config/test_client.json"
    );
    assert_eq!(config_file_path("", "a"), "/a.json");
}

#[test]
fn parsed_documents_keep_their_shape() {
    assert_eq!(JsonValue::parse("null"), Some(JsonValue::Null));
    assert_eq!(JsonValue::parse(" true "), Some(JsonValue::Boolean(true)));
    assert_eq!(JsonValue::parse("7"), Some(JsonValue::Number(JsonNumber::PosInt(7))));
    assert_eq!(JsonValue::parse("-7"), Some(JsonValue::Number(JsonNumber::NegInt(-7))));
    assert_eq!(JsonValue::parse("7.5"), Some(JsonValue::Number(JsonNumber::Float)));
    assert_eq!(JsonValue::parse("1e2"), Some(JsonValue::Number(JsonNumber::Float)));
    assert_eq!(
        JsonValue::parse("18446744073709551615"),
        Some(JsonValue::Number(JsonNumber::PosInt(u64::MAX)))
    );
    assert_eq!(JsonValue::parse("18446744073709551616"), Some(JsonValue::Number(JsonNumber::Float)));
    assert_eq!(JsonValue::parse("\"a\\nb\""), Some(text("a\nb")));
    assert_eq!(
        JsonValue::parse("[1, \"x\", []]"),
        Some(JsonValue::Array(vec![
            JsonValue::Number(JsonNumber::PosInt(1)),
            text("x"),
            JsonValue::Array(vec![])
        ]))
    );
    assert_eq!(
        JsonValue::parse("{\"a\": {\"b\": null}}"),
        Some(object(vec![("a", object(vec![("b", JsonValue::Null)]))]))
    );
    assert_eq!(JsonValue::parse(""), None);
    assert_eq!(JsonValue::parse("{"), None);
    assert_eq!(JsonValue::parse("{} x"), None);
    assert_eq!(JsonValue::parse("{'a': 1}"), None);
}
