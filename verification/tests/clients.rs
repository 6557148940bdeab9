use modbus_prometheus_api_server::clients::{make_point_key, Client, Coil, Register, ScaledValue};
use modbus_prometheus_api_server::errors::ErrorRuntime;
use modbus_prometheus_api_server::json::{JsonNumber, JsonValue};

const TEST_CLIENT_JSON_OK: &str = r#"{
      "name": "test_client",
      "ip_address": "127.0.0.1",
      "port": 502,
      "protocol": "tcp",
      "registers": [
        {
          "name": "test_register_1",
          "objecttype": "holding",
          "address": 0,
          "length": 1,
          "datatype": "int16",
          "factor": 0,
          "value": 0
        },
        {
          "name": "test_register_2",
          "objecttype": "holding",
          "address": 1,
          "length": 1,
          "datatype": "int16",
          "factor": 0,
          "value": 0
        },
        {
          "name": "test_register_3",
          "objecttype": "input",
          "address": 0,
          "length": 1,
          "datatype": "int16",
          "factor": 0,
          "value": 0
        }
      ],
      "coils": [
        {
          "name": "test_coil_1",
          "objecttype": "coil",
          "address": 0,
          "value": false
        },
        {
          "name": "test_coil_2",
          "objecttype": "discrete",
          "address": 0,
          "value": false
        }
      ]
    }"#;
/// Test object as input JSON with a wrong client name
const TEST_CLIENT_JSON_NOT_OK_WRONG_NAME: &str = r#"{
      "name": "wrong client name",
      "ip_address": "127.0.0.1",
      "port": 502,
      "protocol": "tcp",
      "registers": [
        {
          "name": "test_register_1",
          "objecttype": "holding",
          "address": 0,
          "length": 1,
          "datatype": "int16",
          "factor": 0,
          "value": 0
        },
        {
          "name": "test_register_2",
          "objecttype": "holding",
          "address": 1,
          "length": 1,
          "datatype": "int16",
          "factor": 0,
          "value": 0
        },
        {
          "name": "test_register_3",
          "objecttype": "input",
          "address": 0,
          "length": 1,
          "datatype": "int16",
          "factor": 0,
          "value": 0
        }
      ],
      "coils": [
        {
          "name": "test_coil_1",
          "objecttype": "coil",
          "address": 0,
          "value": false
        },
        {
          "name": "test_coil_2",
          "objecttype": "discrete",
          "address": 0,
          "value": false
        }
      ]
    }"#;
/// Test object as input JSON with a not supported protocol
const TEST_CLIENT_JSON_NOT_OK_WRONG_PROTOCOL: &str = r#"{
      "name": "test_client",
      "ip_address": "127.0.0.1",
      "port": 502,
      "protocol": "not supported protocol",
      "registers": [
        {
          "name": "test_register_1",
          "objecttype": "holding",
          "address": 0,
          "length": 1,
          "datatype": "int16",
          "factor": 0,
          "value": 0
        },
        {
          "name": "test_register_2",
          "objecttype": "holding",
          "address": 1,
          "length": 1,
          "datatype": "int16",
          "factor": 0,
          "value": 0
        },
        {
          "name": "test_register_3",
          "objecttype": "input",
          "address": 0,
          "length": 1,
          "datatype": "int16",
          "factor": 0,
          "value": 0
        }
      ],
      "coils": [
        {
          "name": "test_coil_1",
          "objecttype": "coil",
          "address": 0,
          "value": false
        },
        {
          "name": "test_coil_2",
          "objecttype": "discrete",
          "address": 0,
          "value": false
        }
      ]
    }"#;
/// Test object as input JSON with a wrong register name
const TEST_CLIENT_JSON_NOT_OK_WRONG_REG_NAME: &str = r#"{
      "name": "test_client",
      "ip_address": "127.0.0.1",
      "port": 502,
      "protocol": "tcp",
      "registers": [
        {
          "name": "wrong name",
          "objecttype": "holding",
          "address": 0,
          "length": 1,
          "datatype": "int16",
          "factor": 0,
          "value": 0
        },
        {
          "name": "test_register_2",
          "objecttype": "holding",
          "address": 1,
          "length": 1,
          "datatype": "int16",
          "factor": 0,
          "value": 0
        },
        {
          "name": "test_register_3",
          "objecttype": "input",
          "address": 0,
          "length": 1,
          "datatype": "int16",
          "factor": 0,
          "value": 0
        }
      ],
      "coils": [
        {
          "name": "test_coil_1",
          "objecttype": "coil",
          "address": 0,
          "value": false
        },
        {
          "name": "test_coil_2",
          "objecttype": "discrete",
          "address": 0,
          "value": false
        }
      ]
    }"#;
/// Test object as input JSON with a wrong register objecttype
const TEST_CLIENT_JSON_NOT_OK_WRONG_REG_OBJECTTYPE: &str = r#"{
      "name": "test_client",
      "ip_address": "127.0.0.1",
      "port": 502,
      "protocol": "tcp",
      "registers": [
        {
          "name": "test_register_1",
          "objecttype": "wrong objecttype",
          "address": 0,
          "length": 1,
          "datatype": "int16",
          "factor": 0,
          "value": 0
        },
        {
          "name": "test_register_2",
          "objecttype": "holding",
          "address": 1,
          "length": 1,
          "datatype": "int16",
          "factor": 0,
          "value": 0
        },
        {
          "name": "test_register_3",
          "objecttype": "input",
          "address": 0,
          "length": 1,
          "datatype": "int16",
          "factor": 0,
          "value": 0
        }
      ],
      "coils": [
        {
          "name": "test_coil_1",
          "objecttype": "coil",
          "address": 0,
          "value": false
        },
        {
          "name": "test_coil_2",
          "objecttype": "discrete",
          "address": 0,
          "value": false
        }
      ]
    }"#;
/// Test object as input JSON with a wrong register datatype
const TEST_CLIENT_JSON_NOT_OK_WRONG_REG_DATATYPE: &str = r#"{
      "name": "test_client",
      "ip_address": "127.0.0.1",
      "port": 502,
      "protocol": "tcp",
      "registers": [
        {
          "name": "test_register_1",
          "objecttype": "holding",
          "address": 0,
          "length": 1,
          "datatype": "float32",
          "factor": 0,
          "value": 0
        },
        {
          "name": "test_register_2",
          "objecttype": "holding",
          "address": 1,
          "length": 1,
          "datatype": "int16",
          "factor": 0,
          "value": 0
        },
        {
          "name": "test_register_3",
          "objecttype": "input",
          "address": 0,
          "length": 1,
          "datatype": "int16",
          "factor": 0,
          "value": 0
        }
      ],
      "coils": [
        {
          "name": "test_coil_1",
          "objecttype": "coil",
          "address": 0,
          "value": false
        },
        {
          "name": "test_coil_2",
          "objecttype": "discrete",
          "address": 0,
          "value": false
        }
      ]
    }"#;

/// The number a scaled value stands for.
fn exported(value: ScaledValue) -> f64 {
    (value.mantissa as f64) * (10_f64.powf(value.exponent as f64))
}

fn register(datatype: &str, factor: i8, value: u16) -> Register {
    Register {
        name: "test".to_string(),
        objecttype: "holding".to_string(),
        address: 0,
        length: 1,
        datatype: datatype.to_string(),
        factor,
        value,
    }
}

#[test]
fn test_client_ok() {
    let client = Client::new(TEST_CLIENT_JSON_OK.to_string());
    assert_eq!(client.is_ok(), true);
    println!("Client: {:?}", client);
}

#[test]
fn test_client_not_ok() {
    let client = Client::new(TEST_CLIENT_JSON_NOT_OK_WRONG_NAME.to_string());
    assert_eq!(client.is_err(), true);
    println!("Client error: {:?}", client);
}

#[test]
fn test_calc_final_value_for_registry_int16_minus128_factor0_ok() {
    let register = register("int16", 0, 65408);
    let result = register.calc_final_value_for_registry();
    assert_eq!(result.is_ok(), true);
    assert_eq!(exported(result.unwrap()), -128.0);
}

#[test]
fn test_calc_final_value_for_registry_int16_minus128_factor1_ok() {
    let register = register("int16", 1, 65408);
    let result = register.calc_final_value_for_registry();
    assert_eq!(result.is_ok(), true);
    assert_eq!(exported(result.unwrap()), -1280.0);
}

#[test]
fn test_calc_final_value_for_registry_int16_minus128_factorminus1_ok() {
    let register = register("int16", -1, 65408);
    let result = register.calc_final_value_for_registry();
    assert_eq!(result.is_ok(), true);
    assert_eq!(exported(result.unwrap()), -12.80);
}

#[test]
fn test_calc_final_value_for_registry_int16_minus128_factorminus126_ok() {
    let register = register("int16", -126, 65408);
    let result = register.calc_final_value_for_registry();
    assert_eq!(result.is_ok(), true);
    assert_eq!(exported(result.unwrap()), -1.28e-124);
}

#[test]
fn test_calc_final_value_for_registry_uint16_128_factor0_ok() {
    let register = register("uint16", 0, 128);
    let result = register.calc_final_value_for_registry();
    assert_eq!(result.is_ok(), true);
    assert_eq!(exported(result.unwrap()), 128.0);
}

#[test]
fn test_calc_final_value_for_registry_uint16_128_factor1_ok() {
    let register = register("uint16", 1, 128);
    let result = register.calc_final_value_for_registry();
    assert_eq!(result.is_ok(), true);
    assert_eq!(exported(result.unwrap()), 1280.0);
}

#[test]
fn test_calc_final_value_for_registry_uint16_128_factorminus1_ok() {
    let register = register("uint16", -1, 128);
    let result = register.calc_final_value_for_registry();
    assert_eq!(result.is_ok(), true);
    assert_eq!(exported(result.unwrap()), 12.80);
}

#[test]
fn test_calc_final_value_for_registry_uint16_128_factorminus126_ok() {
    let register = register("uint16", -126, 128);
    let result = register.calc_final_value_for_registry();
    assert_eq!(result.is_ok(), true);
    assert_eq!(exported(result.unwrap()), 1.28e-124);
}

#[test]
fn test_client_verify_ok() {
    let client = Client::new(TEST_CLIENT_JSON_OK.to_string());
    println!("{:?}", client);
    assert_eq!(client.is_ok(), true);
}

#[test]
fn test_client_verify_not_ok_wrong_name() {
    let client = Client::new(TEST_CLIENT_JSON_NOT_OK_WRONG_NAME.to_string());
    assert_eq!(client.is_err(), true);
}

#[test]
fn test_client_verify_not_ok_wrong_protocol() {
    let client = Client::new(TEST_CLIENT_JSON_NOT_OK_WRONG_PROTOCOL.to_string());
    assert_eq!(client.is_err(), true);
}

#[test]
fn test_client_verify_not_ok_wrong_register_name() {
    let client = Client::new(TEST_CLIENT_JSON_NOT_OK_WRONG_REG_NAME.to_string());
    assert_eq!(client.is_err(), true);
}

#[test]
fn test_client_verify_not_ok_wrong_register_objecttype() {
    let client = Client::new(TEST_CLIENT_JSON_NOT_OK_WRONG_REG_OBJECTTYPE.to_string());
    println!("{:?}", client);
    assert_eq!(client.is_err(), true);
}

#[test]
fn accepted_description_keeps_every_field() {
    let client = Client::new(TEST_CLIENT_JSON_OK.to_string()).unwrap();
    assert_eq!(client.name, "test_client");
    assert_eq!(client.ip_address, "127.0.0.1");
    assert_eq!(client.port, 502);
    assert_eq!(client.protocol, "tcp");
    assert_eq!(client.registers.len(), 3);
    assert_eq!(client.registers[1].name, "test_register_2");
    assert_eq!(client.registers[1].address, 1);
    assert_eq!(client.registers[2].objecttype, "input");
    assert_eq!(client.coils.len(), 2);
    assert_eq!(client.coils[1].objecttype, "discrete");
    assert_eq!(client.coils[0].value, false);
}

#[test]
fn wrong_name_is_a_naming_error() {
    let client = Client::new(TEST_CLIENT_JSON_NOT_OK_WRONG_NAME.to_string());
    assert_eq!(client.unwrap_err(), ErrorRuntime::RegexError);
}

#[test]
fn wrong_protocol_is_reported_as_such() {
    let client = Client::new(TEST_CLIENT_JSON_NOT_OK_WRONG_PROTOCOL.to_string());
    assert_eq!(client.unwrap_err(), ErrorRuntime::ClientProtocolNotSupported);
}

#[test]
fn wrong_register_name_is_a_naming_error() {
    let client = Client::new(TEST_CLIENT_JSON_NOT_OK_WRONG_REG_NAME.to_string());
    assert_eq!(client.unwrap_err(), ErrorRuntime::RegexError);
}

#[test]
fn wrong_register_objecttype_is_reported_as_such() {
    let client = Client::new(TEST_CLIENT_JSON_NOT_OK_WRONG_REG_OBJECTTYPE.to_string());
    assert_eq!(client.unwrap_err(), ErrorRuntime::ClientRegisterObjecttypeNotSupported);
}

#[test]
fn wrong_register_datatype_is_reported_as_such() {
    let client = Client::new(TEST_CLIENT_JSON_NOT_OK_WRONG_REG_DATATYPE.to_string());
    assert_eq!(client.unwrap_err(), ErrorRuntime::ClientRegisterDatatypeNotSupported);
}

#[test]
fn text_that_is_no_document_is_malformed() {
    assert_eq!(Client::new("{".to_string()).unwrap_err(), ErrorRuntime::ClientJsonParseError);
    assert_eq!(Client::new("".to_string()).unwrap_err(), ErrorRuntime::ClientJsonParseError);
    assert_eq!(Client::new("[1, 2]".to_string()).unwrap_err(), ErrorRuntime::ClientJsonParseError);
}

#[test]
fn unknown_datatype_exports_nothing() {
    let result = register("float32", 0, 1).calc_final_value_for_registry();
    assert_eq!(result.unwrap_err(), ErrorRuntime::ClientRegisterDatatypeNotSupported);
}

#[test]
fn int16_is_read_as_twos_complement() {
    assert_eq!(register("int16", 3, 65535).calc_final_value_for_registry().unwrap(), ScaledValue { mantissa: -1, exponent: 3 });
    assert_eq!(register("int16", 0, 32768).calc_final_value_for_registry().unwrap(), ScaledValue { mantissa: -32768, exponent: 0 });
    assert_eq!(register("int16", 0, 32767).calc_final_value_for_registry().unwrap(), ScaledValue { mantissa: 32767, exponent: 0 });
    assert_eq!(register("uint16", -2, 65535).calc_final_value_for_registry().unwrap(), ScaledValue { mantissa: 65535, exponent: -2 });
    assert_eq!(register("uint16", 0, 32768).calc_final_value_for_registry().unwrap(), ScaledValue { mantissa: 32768, exponent: 0 });
}

fn text(s: &str) -> JsonValue {
    JsonValue::Text(s.to_string())
}

fn number(n: u64) -> JsonValue {
    JsonValue::Number(JsonNumber::PosInt(n))
}

fn object(members: Vec<(&str, JsonValue)>) -> JsonValue {
    JsonValue::Object(members.into_iter().map(|(k, v)| (k.to_string(), v)).collect())
}

fn register_members() -> Vec<(&'static str, JsonValue)> {
    vec![
        ("name", text("flow")),
        ("objecttype", text("input")),
        ("address", number(65535)),
        ("length", number(1)),
        ("datatype", text("uint16")),
        ("factor", JsonValue::Number(JsonNumber::NegInt(-3))),
        ("value", number(17)),
    ]
}

fn coil_members() -> Vec<(&'static str, JsonValue)> {
    vec![
        ("name", text("pump")),
        ("objecttype", text("coil")),
        ("address", number(9)),
        ("value", JsonValue::Boolean(true)),
    ]
}

fn client_members() -> Vec<(&'static str, JsonValue)> {
    vec![
        ("name", text("plant")),
        ("ip_address", text("10.0.0.1")),
        ("port", number(502)),
        ("protocol", text("tcp")),
        ("registers", JsonValue::Array(vec![object(register_members())])),
        ("coils", JsonValue::Array(vec![object(coil_members())])),
    ]
}

fn with(mut members: Vec<(&'static str, JsonValue)>, key: &'static str, value: JsonValue) -> JsonValue {
    for member in members.iter_mut() {
        if member.0 == key {
            member.1 = value;
            return object(members);
        }
    }
    members.push((key, value));
    object(members)
}

fn without(members: Vec<(&'static str, JsonValue)>, key: &str) -> JsonValue {
    object(members.into_iter().filter(|m| m.0 != key).collect())
}

fn flow() -> Register {
    Register {
        name: "flow".to_string(),
        objecttype: "input".to_string(),
        address: 65535,
        length: 1,
        datatype: "uint16".to_string(),
        factor: -3,
        value: 17,
    }
}

fn pump() -> Coil {
    Coil { name: "pump".to_string(), objecttype: "coil".to_string(), address: 9, value: true }
}

fn plant() -> Client {
    Client {
        name: "plant".to_string(),
        ip_address: "10.0.0.1".to_string(),
        port: 502,
        protocol: "tcp".to_string(),
        registers: vec![flow()],
        coils: vec![pump()],
    }
}

#[test]
fn description_is_read_member_by_member() {
    assert_eq!(Register::from_json(&object(register_members())), Some(flow()));
    assert_eq!(Coil::from_json(&object(coil_members())), Some(pump()));
    assert_eq!(Client::decode(&object(client_members())), Some(plant()));
    assert_eq!(Client::from_json(&object(client_members())), Ok(plant()));
}

#[test]
fn description_may_hold_more_than_is_read() {
    let more = with(client_members(), "comment", text("Anything At All"));
    assert_eq!(Client::from_json(&more), Ok(plant()));
    let mut reordered = client_members();
    reordered.reverse();
    assert_eq!(Client::from_json(&object(reordered)), Ok(plant()));
}

#[test]
fn first_member_of_a_name_is_the_one_that_is_read() {
    let mut twice = client_members();
    twice.push(("port", number(1)));
    twice.insert(0, ("name", text("first")));
    let client = Client::from_json(&object(twice)).unwrap();
    assert_eq!(client.port, 502);
    assert_eq!(client.name, "first");
}

#[test]
fn description_without_a_member_is_malformed() {
    for key in ["name", "ip_address", "port", "protocol", "registers", "coils"] {
        assert_eq!(
            Client::from_json(&without(client_members(), key)),
            Err(ErrorRuntime::ClientJsonParseError),
            "{}",
            key
        );
    }
    for key in ["name", "objecttype", "address", "length", "datatype", "factor", "value"] {
        assert_eq!(Register::from_json(&without(register_members(), key)), None, "{}", key);
        let registers = JsonValue::Array(vec![without(register_members(), key)]);
        assert_eq!(
            Client::from_json(&with(client_members(), "registers", registers)),
            Err(ErrorRuntime::ClientJsonParseError)
        );
    }
    for key in ["name", "objecttype", "address", "value"] {
        assert_eq!(Coil::from_json(&without(coil_members(), key)), None, "{}", key);
    }
}

#[test]
fn description_of_another_shape_is_malformed() {
    for value in [
        JsonValue::Null,
        JsonValue::Boolean(true),
        number(1),
        text("plant"),
        JsonValue::Array(vec![]),
        JsonValue::Array(vec![object(client_members())]),
        object(vec![]),
    ] {
        assert_eq!(Client::from_json(&value), Err(ErrorRuntime::ClientJsonParseError));
        assert_eq!(Register::from_json(&value), None);
        assert_eq!(Coil::from_json(&value), None);
    }
    assert_eq!(
        Client::from_json(&with(client_members(), "name", number(1))),
        Err(ErrorRuntime::ClientJsonParseError)
    );
    assert_eq!(
        Client::from_json(&with(client_members(), "port", text("502"))),
        Err(ErrorRuntime::ClientJsonParseError)
    );
    assert_eq!(
        Client::from_json(&with(client_members(), "registers", object(register_members()))),
        Err(ErrorRuntime::ClientJsonParseError)
    );
    assert_eq!(
        Client::from_json(&with(client_members(), "coils", JsonValue::Null)),
        Err(ErrorRuntime::ClientJsonParseError)
    );
    assert_eq!(Coil::from_json(&with(coil_members(), "value", number(1))), None);
    assert_eq!(Coil::from_json(&with(coil_members(), "value", text("true"))), None);
}

#[test]
fn numbers_must_fit_their_member() {
    assert_eq!(Register::from_json(&with(register_members(), "address", number(0))).unwrap().address, 0);
    assert_eq!(Register::from_json(&with(register_members(), "address", number(65536))), None);
    assert_eq!(Register::from_json(&with(register_members(), "value", number(65535))).unwrap().value, 65535);
    assert_eq!(Register::from_json(&with(register_members(), "value", number(u64::MAX))), None);
    assert_eq!(
        Register::from_json(&with(register_members(), "length", JsonValue::Number(JsonNumber::NegInt(-1)))),
        None
    );
    assert_eq!(
        Register::from_json(&with(register_members(), "length", JsonValue::Number(JsonNumber::Float))),
        None
    );
    let factor = |n: JsonNumber| {
        Register::from_json(&with(register_members(), "factor", JsonValue::Number(n))).map(|r| r.factor)
    };
    assert_eq!(factor(JsonNumber::PosInt(0)), Some(0));
    assert_eq!(factor(JsonNumber::PosInt(127)), Some(127));
    assert_eq!(factor(JsonNumber::PosInt(128)), None);
    assert_eq!(factor(JsonNumber::NegInt(-128)), Some(-128));
    assert_eq!(factor(JsonNumber::NegInt(-129)), None);
    assert_eq!(factor(JsonNumber::NegInt(i64::MIN)), None);
    assert_eq!(factor(JsonNumber::NegInt(5)), Some(5));
    assert_eq!(factor(JsonNumber::Float), None);
    assert_eq!(Client::decode(&with(client_members(), "port", number(65535))).unwrap().port, 65535);
    assert_eq!(Client::decode(&with(client_members(), "port", number(65536))), None);
}

#[test]
fn numbers_in_a_text_must_fit_their_member() {
    let description = |port: &str, factor: &str| {
        format!(
            r#"{{"name": "a", "ip_address": "x", "port": {}, "protocol": "tcp", "coils": [],
                "registers": [{{"name": "r", "objecttype": "input", "address": 1, "length": 1,
                                "datatype": "int16", "factor": {}, "value": 0}}]}}"#,
            port, factor
        )
    };
    assert_eq!(Client::new(description("65535", "-128")).unwrap().registers[0].factor, -128);
    assert_eq!(Client::new(description("0", "127")).unwrap().port, 0);
    for (port, factor) in [
        ("65536", "0"), ("-1", "0"), ("1.0", "0"), ("1e2", "0"), ("\"502\"", "0"), ("null", "0"),
        ("502", "128"), ("502", "-129"), ("502", "0.0"), ("502", "\"0\""), ("502", "true"),
    ] {
        assert_eq!(
            Client::new(description(port, factor)),
            Err(ErrorRuntime::ClientJsonParseError),
            "{} {}",
            port,
            factor
        );
    }
}

#[test]
fn rules_are_checked_in_a_fixed_order() {
    let mut client = plant();
    assert_eq!(client.verify(), Ok(()));
    client.coils[0].objecttype = "relay".to_string();
    assert_eq!(client.verify(), Err(ErrorRuntime::ClientRegisterObjecttypeNotSupported));
    client.coils.insert(0, Coil { name: "Bad".to_string(), ..pump() });
    assert_eq!(client.verify(), Err(ErrorRuntime::RegexError));
    client.registers.push(Register {
        name: "level".to_string(),
        objecttype: "analog".to_string(),
        ..flow()
    });
    assert_eq!(client.verify(), Err(ErrorRuntime::ClientRegisterObjecttypeNotSupported));
    client.registers[1].datatype = "float32".to_string();
    assert_eq!(client.verify(), Err(ErrorRuntime::ClientRegisterDatatypeNotSupported));
    client.registers[1].name = "no good".to_string();
    assert_eq!(client.verify(), Err(ErrorRuntime::RegexError));
    client.registers[0].objecttype = "coil".to_string();
    assert_eq!(client.verify(), Err(ErrorRuntime::ClientRegisterObjecttypeNotSupported));
    client.protocol = "rtu".to_string();
    assert_eq!(client.verify(), Err(ErrorRuntime::ClientProtocolNotSupported));
    client.name = "".to_string();
    assert_eq!(client.verify(), Err(ErrorRuntime::RegexError));
}

#[test]
fn every_unsupported_protocol_is_refused_as_such() {
    for protocol in ["", "TCP", "tcp ", "udp", "rtu", "tcp_ip", "not supported protocol"] {
        let client = Client { protocol: protocol.to_string(), ..plant() };
        assert_eq!(client.verify(), Err(ErrorRuntime::ClientProtocolNotSupported), "{:?}", protocol);
    }
}

#[test]
fn points_are_held_to_their_own_rules() {
    assert_eq!(flow().verify(), Ok(()));
    assert_eq!(Register { objecttype: "holding".to_string(), ..flow() }.verify(), Ok(()));
    assert_eq!(Register { datatype: "int16".to_string(), ..flow() }.verify(), Ok(()));
    assert_eq!(Register { name: "Flow".to_string(), ..flow() }.verify(), Err(ErrorRuntime::RegexError));
    for datatype in ["", "int", "int32", "uint8", "INT16", "float"] {
        assert_eq!(
            Register { datatype: datatype.to_string(), ..flow() }.verify(),
            Err(ErrorRuntime::ClientRegisterDatatypeNotSupported)
        );
    }
    for kind in ["", "coil", "discrete", "Holding", "inputs"] {
        assert_eq!(
            Register { objecttype: kind.to_string(), ..flow() }.verify(),
            Err(ErrorRuntime::ClientRegisterObjecttypeNotSupported)
        );
    }
    assert_eq!(pump().verify(), Ok(()));
    assert_eq!(Coil { objecttype: "discrete".to_string(), ..pump() }.verify(), Ok(()));
    assert_eq!(Coil { name: "".to_string(), ..pump() }.verify(), Err(ErrorRuntime::RegexError));
    for kind in ["", "holding", "input", "Coil"] {
        assert_eq!(
            Coil { objecttype: kind.to_string(), ..pump() }.verify(),
            Err(ErrorRuntime::ClientRegisterObjecttypeNotSupported)
        );
    }
}

#[test]
fn device_without_points_is_accepted() {
    let mut members = client_members();
    members.retain(|m| m.0 != "registers" && m.0 != "coils");
    members.push(("registers", JsonValue::Array(vec![])));
    members.push(("coils", JsonValue::Array(vec![])));
    let client = Client::from_json(&object(members)).unwrap();
    assert!(client.registers.is_empty());
    assert!(client.coils.is_empty());
}

#[test]
fn name_must_be_new_to_its_own_list() {
    let twice = with(
        client_members(),
        "registers",
        JsonValue::Array(vec![object(register_members()), object(register_members())]),
    );
    assert_eq!(Client::from_json(&twice), Err(ErrorRuntime::RegexError));
    let mut client = plant();
    client.registers.push(Register { name: "level".to_string(), ..flow() });
    client.registers.push(Register { datatype: "float32".to_string(), ..flow() });
    assert_eq!(client.verify(), Err(ErrorRuntime::RegexError));
    client.registers.pop();
    assert_eq!(client.verify(), Ok(()));
    client.coils.push(Coil { name: "valve".to_string(), ..pump() });
    client.coils.push(Coil { name: "valve".to_string(), objecttype: "relay".to_string(), ..pump() });
    assert_eq!(client.verify(), Err(ErrorRuntime::RegexError));
    client.coils.pop();
    assert_eq!(client.verify(), Ok(()));
}

#[test]
fn register_and_coil_may_share_a_name() {
    let mut client = plant();
    client.coils.push(Coil { name: "flow".to_string(), ..pump() });
    client.registers.push(Register { name: "pump".to_string(), ..flow() });
    assert_eq!(client.verify(), Ok(()));
}

#[test]
fn point_keys_join_device_and_point() {
    assert_eq!(make_point_key("plant", "flow"), "plant_flow");
    assert_eq!(make_point_key("a_b", "c"), "a_b_c");
    assert_eq!(make_point_key("a", "b_c"), "a_b_c");
    assert_eq!(make_point_key("", ""), "_");
}
