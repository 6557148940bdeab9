use modbus_prometheus_api_server::clients::{Client, Clients, Coil, Register};
use modbus_prometheus_api_server::errors::ErrorRuntime;
use modbus_prometheus_api_server::prometheus::{metrics_text, PrometheusMetrics};

fn register(name: &str, datatype: &str, objecttype: &str) -> Register {
    Register {
        name: name.to_string(),
        objecttype: objecttype.to_string(),
        address: 0,
        length: 1,
        datatype: datatype.to_string(),
        factor: 0,
        value: 0,
    }
}

fn coil(name: &str, objecttype: &str) -> Coil {
    Coil { name: name.to_string(), objecttype: objecttype.to_string(), address: 0, value: false }
}

fn device(name: &str, registers: Vec<Register>, coils: Vec<Coil>) -> Client {
    Client {
        name: name.to_string(),
        ip_address: "127.0.0.1".to_string(),
        port: 502,
        protocol: "tcp".to_string(),
        registers,
        coils,
    }
}

fn plant() -> Client {
    device(
        "plant",
        vec![register("flow", "int16", "holding"), register("level", "uint16", "input")],
        vec![coil("pump", "coil"), coil("alarm", "discrete")],
    )
}

fn has(metrics: &PrometheusMetrics, keys: &[&str]) -> bool {
    keys.iter().all(|k| metrics.instrument(k).is_some())
}

fn lacks(metrics: &PrometheusMetrics, keys: &[&str]) -> bool {
    keys.iter().all(|k| metrics.instrument(k).is_none())
}

const PLANT_KEYS: [&str; 4] = ["plant_flow", "plant_level", "plant_pump", "plant_alarm"];

#[test]
fn new_registry_has_no_gauges() {
    let metrics = PrometheusMetrics::new();
    assert!(lacks(&metrics, &PLANT_KEYS));
    assert!(metrics.registry().gather().is_empty());
    assert_eq!(metrics.render(), Ok(String::new()));
}

#[test]
fn register_gives_every_point_a_gauge() {
    let mut metrics = PrometheusMetrics::new();
    assert_eq!(metrics.register_client(&plant()), Ok(()));
    assert!(has(&metrics, &PLANT_KEYS));
    assert!(lacks(&metrics, &["plant", "flow", "plant_", "other_flow"]));
    let families = metrics.registry().gather();
    let names: Vec<&str> = families.iter().map(|f| f.get_name()).collect();
    assert_eq!(names, vec!["plant_alarm", "plant_flow", "plant_level", "plant_pump"]);
    let helps: Vec<&str> = families.iter().map(|f| f.get_help()).collect();
    assert_eq!(helps, vec!["discrete", "int16 holding", "uint16 input", "coil"]);
}

#[test]
fn gauge_on_file_is_the_gauge_that_is_exported() {
    let mut metrics = PrometheusMetrics::new();
    metrics.register_client(&plant()).unwrap();
    metrics.instrument("plant_flow").unwrap().gauge.set(-12.5);
    metrics.instrument("plant_pump").unwrap().gauge.set(1.0);
    let text = metrics.render().unwrap();
    assert!(text.contains("# HELP plant_flow int16 holding\n"));
    assert!(text.contains("# TYPE plant_flow gauge\n"));
    assert!(text.contains("plant_flow -12.5\n"));
    assert!(text.contains("plant_pump 1\n"));
    assert!(text.contains("plant_level 0\n"));
}

#[test]
fn unregister_takes_every_gauge_away() {
    let mut metrics = PrometheusMetrics::new();
    metrics.register_client(&plant()).unwrap();
    assert_eq!(metrics.unregister_client(&plant()), Ok(()));
    assert!(lacks(&metrics, &PLANT_KEYS));
    assert!(metrics.registry().gather().is_empty());
    assert_eq!(metrics.render(), Ok(String::new()));
}

#[test]
fn registered_again_after_unregistering() {
    let mut metrics = PrometheusMetrics::new();
    metrics.register_client(&plant()).unwrap();
    metrics.unregister_client(&plant()).unwrap();
    assert_eq!(metrics.register_client(&plant()), Ok(()));
    assert!(has(&metrics, &PLANT_KEYS));
    assert_eq!(metrics.registry().gather().len(), 4);
}

#[test]
fn keys_follow_the_devices_through_a_sequence_of_calls() {
    let north = device("north", vec![register("a", "int16", "holding")], vec![coil("b", "coil")]);
    let south = device("south", vec![register("a", "int16", "holding")], vec![]);
    let empty = device("empty", vec![], vec![]);
    let mut metrics = PrometheusMetrics::new();
    assert_eq!(metrics.register_client(&north), Ok(()));
    assert_eq!(metrics.register_client(&empty), Ok(()));
    assert_eq!(metrics.register_client(&south), Ok(()));
    assert!(has(&metrics, &["north_a", "north_b", "south_a"]));
    assert_eq!(metrics.registry().gather().len(), 3);
    assert_eq!(metrics.unregister_client(&north), Ok(()));
    assert!(has(&metrics, &["south_a"]));
    assert!(lacks(&metrics, &["north_a", "north_b"]));
    assert_eq!(metrics.registry().gather().len(), 1);
    assert_eq!(metrics.register_client(&plant()), Ok(()));
    assert_eq!(metrics.unregister_client(&south), Ok(()));
    assert_eq!(metrics.unregister_client(&empty), Ok(()));
    assert!(has(&metrics, &PLANT_KEYS));
    assert!(lacks(&metrics, &["north_a", "north_b", "south_a"]));
    assert_eq!(metrics.registry().gather().len(), 4);
}

#[test]
fn register_twice_fails_at_the_first_gauge() {
    let mut metrics = PrometheusMetrics::new();
    metrics.register_client(&plant()).unwrap();
    assert_eq!(
        metrics.register_client(&plant()),
        Err(ErrorRuntime::PrometheusErrorRegistryRegister)
    );
    assert!(has(&metrics, &PLANT_KEYS));
    assert_eq!(metrics.registry().gather().len(), 4);
}

#[test]
fn register_stops_at_a_key_that_is_in_use_and_keeps_the_gauges_before_it() {
    let mut metrics = PrometheusMetrics::new();
    let clash = device(
        "plant",
        vec![register("first", "int16", "holding"), register("same", "int16", "holding")],
        vec![coil("same", "coil"), coil("last", "coil")],
    );
    assert_eq!(
        metrics.register_client(&clash),
        Err(ErrorRuntime::PrometheusErrorRegistryRegister)
    );
    assert!(has(&metrics, &["plant_first", "plant_same"]));
    assert!(lacks(&metrics, &["plant_last"]));
}

#[test]
fn register_fails_for_a_key_that_is_no_metric_name() {
    let mut metrics = PrometheusMetrics::new();
    let digits_first = device("1plant", vec![register("flow", "int16", "holding")], vec![]);
    assert_eq!(
        metrics.register_client(&digits_first),
        Err(ErrorRuntime::PrometheusErrorGaugeNew)
    );
    assert!(lacks(&metrics, &["1plant_flow"]));
    let dashed = device("plant", vec![register("ok", "int16", "holding")], vec![coil("a-b", "coil")]);
    assert_eq!(metrics.register_client(&dashed), Err(ErrorRuntime::PrometheusErrorGaugeNew));
    assert!(has(&metrics, &["plant_ok"]));
    assert!(lacks(&metrics, &["plant_a-b"]));
}

#[test]
fn register_fails_for_an_empty_help() {
    let mut metrics = PrometheusMetrics::new();
    let no_kind = device("plant", vec![], vec![coil("pump", "")]);
    assert_eq!(metrics.register_client(&no_kind), Err(ErrorRuntime::PrometheusErrorGaugeNew));
    assert!(lacks(&metrics, &["plant_pump"]));
    let no_text = device("plant", vec![register("flow", "", "")], vec![]);
    assert_eq!(metrics.register_client(&no_text), Ok(()));
    assert_eq!(metrics.registry().gather()[0].get_help(), " ");
}

#[test]
fn unregister_of_an_unknown_device_reports_the_missing_gauge() {
    let mut metrics = PrometheusMetrics::new();
    assert_eq!(
        metrics.unregister_client(&plant()),
        Err(ErrorRuntime::PrometheusErrorGaugeRemove)
    );
    metrics.register_client(&plant()).unwrap();
    let more = device(
        "plant",
        vec![register("flow", "int16", "holding"), register("extra", "int16", "holding")],
        vec![coil("pump", "coil")],
    );
    assert_eq!(metrics.unregister_client(&more), Err(ErrorRuntime::PrometheusErrorGaugeRemove));
    assert!(lacks(&metrics, &["plant_flow"]));
    assert!(has(&metrics, &["plant_level", "plant_pump", "plant_alarm"]));
}

#[test]
fn unregister_of_a_device_without_points_succeeds() {
    let mut metrics = PrometheusMetrics::new();
    metrics.register_client(&plant()).unwrap();
    assert_eq!(metrics.unregister_client(&device("ghost", vec![], vec![])), Ok(()));
    assert!(has(&metrics, &PLANT_KEYS));
}

#[test]
fn init_gives_every_device_of_the_table_its_gauges() {
    let mut table = Clients::new("cfg");
    table.add_client("plant".to_string(), plant());
    table.add_client(
        "north".to_string(),
        device("north", vec![register("a", "int16", "holding")], vec![]),
    );
    let mut metrics = PrometheusMetrics::new();
    assert_eq!(metrics.init(&table), Ok(()));
    assert!(has(&metrics, &PLANT_KEYS));
    assert!(has(&metrics, &["north_a"]));
    assert_eq!(metrics.registry().gather().len(), 5);
}

#[test]
fn init_on_an_empty_table_does_nothing() {
    let table = Clients::new("cfg");
    let mut metrics = PrometheusMetrics::new();
    assert_eq!(metrics.init(&table), Ok(()));
    assert_eq!(metrics.init(&table), Ok(()));
    assert!(metrics.registry().gather().is_empty());
}

#[test]
fn init_again_fails_and_changes_nothing() {
    let mut table = Clients::new("cfg");
    table.add_client("plant".to_string(), plant());
    let mut metrics = PrometheusMetrics::new();
    assert_eq!(metrics.init(&table), Ok(()));
    assert_eq!(metrics.init(&table), Err(ErrorRuntime::PrometheusErrorRegistryRegister));
    assert!(has(&metrics, &PLANT_KEYS));
    assert_eq!(metrics.registry().gather().len(), 4);
}

#[test]
fn init_stops_at_the_first_device_that_fails() {
    let mut table = Clients::new("cfg");
    table.add_client("plant".to_string(), plant());
    table.add_client("bad".to_string(), device("9bad", vec![], vec![coil("x", "coil")]));
    table.add_client("late".to_string(), device("late", vec![], vec![coil("x", "coil")]));
    let mut metrics = PrometheusMetrics::new();
    assert_eq!(metrics.init(&table), Err(ErrorRuntime::PrometheusErrorGaugeNew));
    assert!(has(&metrics, &PLANT_KEYS));
    assert!(lacks(&metrics, &["9bad_x", "late_x"]));
}

#[test]
fn bytes_become_text_only_where_they_are_utf8() {
    assert_eq!(metrics_text(b"plant_flow 1\n".to_vec()), Ok("plant_flow 1\n".to_string()));
    assert_eq!(metrics_text("gr\u{fc}n".as_bytes().to_vec()), Ok("gr\u{fc}n".to_string()));
    assert_eq!(metrics_text(Vec::new()), Ok(String::new()));
    assert_eq!(metrics_text(vec![0x66, 0xff, 0x6f]), Err(ErrorRuntime::PrometheusErrorEncoder));
    assert_eq!(metrics_text(vec![0xc3]), Err(ErrorRuntime::PrometheusErrorEncoder));
}

#[test]
fn snapshot_has_one_record_for_each_gauge_on_file() {
    let mut metrics = PrometheusMetrics::new();
    metrics.register_client(&plant()).unwrap();
    let text = metrics.render().unwrap();
    for key in PLANT_KEYS {
        assert_eq!(text.matches(&format!("# TYPE {} gauge\n", key)).count(), 1, "{}", key);
        assert_eq!(text.matches(&format!("\n{} 0\n", key)).count(), 1, "{}", key);
    }
    assert_eq!(text.matches("# TYPE ").count(), 4);
    metrics.unregister_client(&plant()).unwrap();
    assert_eq!(metrics.render(), Ok(String::new()));
}

const DESCRIBED: &str = r#"{
      "name": "test_client",
      "ip_address": "127.0.0.1",
      "port": 502,
      "protocol": "tcp",
      "registers": [
        {"name": "test_register_1", "objecttype": "holding", "address": 0, "length": 1,
         "datatype": "int16", "factor": 0, "value": 0},
        {"name": "test_register_2", "objecttype": "holding", "address": 1, "length": 1,
         "datatype": "int16", "factor": 0, "value": 0},
        {"name": "test_register_3", "objecttype": "input", "address": 0, "length": 1,
         "datatype": "int16", "factor": 0, "value": 0}
      ],
      "coils": [
        {"name": "test_coil_1", "objecttype": "coil", "address": 0, "value": false},
        {"name": "test_coil_2", "objecttype": "discrete", "address": 0, "value": false}
      ]
    }"#;

const DESCRIBED_KEYS: [&str; 5] = [
    "test_client_test_register_1",
    "test_client_test_register_2",
    "test_client_test_register_3",
    "test_client_test_coil_1",
    "test_client_test_coil_2",
];

#[test]
fn described_device_gets_its_five_gauges_and_loses_them_again() {
    let client = Client::new(DESCRIBED.to_string()).unwrap();
    let mut metrics = PrometheusMetrics::new();
    assert_eq!(metrics.register_client(&client), Ok(()));
    assert!(has(&metrics, &DESCRIBED_KEYS));
    assert_eq!(metrics.registry().gather().len(), 5);
    assert_eq!(metrics.unregister_client(&client), Ok(()));
    assert!(lacks(&metrics, &DESCRIBED_KEYS));
    assert!(metrics.registry().gather().is_empty());
}

#[test]
fn unregister_fails_for_a_key_that_occurs_twice() {
    let mut metrics = PrometheusMetrics::new();
    let once = device("plant", vec![register("same", "int16", "holding")], vec![]);
    metrics.register_client(&once).unwrap();
    let twice = device("plant", vec![register("same", "int16", "holding")], vec![coil("same", "coil")]);
    assert_eq!(metrics.unregister_client(&twice), Err(ErrorRuntime::PrometheusErrorGaugeRemove));
    assert!(lacks(&metrics, &["plant_same"]));
}

#[test]
fn exporter_refuses_a_name_it_knows_with_another_help() {
    let mut metrics = PrometheusMetrics::new();
    let first = device("plant", vec![register("flow", "int16", "holding")], vec![]);
    metrics.register_client(&first).unwrap();
    metrics.unregister_client(&first).unwrap();
    let changed = device("plant", vec![register("flow", "uint16", "holding")], vec![]);
    assert_eq!(metrics.register_client(&changed), Err(ErrorRuntime::PrometheusErrorRegistryRegister));
    assert!(lacks(&metrics, &["plant_flow"]));
    assert_eq!(metrics.register_client(&first), Ok(()));
}
