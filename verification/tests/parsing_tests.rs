use podkit::container::{Container, ContainerError};
use podkit::limits::{
    parse_cpu_limit, parse_decimal_scaled, parse_memory_limit, parse_network_rate, LimitError,
    LimitValue,
};
use podkit::names::{is_uuid_str, parse_container_name, NameError};

fn container_named(name: &str) -> Container {
    Container {
        name: String::from(name),
        image: String::from("example:latest"),
        command: None,
        ports: None,
        volume_mounts: None,
        memory_limit: None,
        cpu_limit: None,
        network_limit: None,
        resource_thresholds: None,
    }
}

const UUID: &str = "123e4567-e89b-12d3-a456-426614174000";

#[test]
fn runtime_name_round_trip() {
    let c = container_named("api");
    let name = c.generate_runtime_name("web", 7, UUID).unwrap();
    assert_eq!(name, format!("web__7__api__{}", UUID));
    let parts = parse_container_name(&name).unwrap();
    assert_eq!(parts.service_name, "web");
    assert_eq!(parts.pod_number, 7);
    assert_eq!(parts.container_name, "api");
    assert_eq!(parts.uuid, UUID);
}

#[test]
fn runtime_name_round_trip_three_digit_pod() {
    let c = container_named("worker");
    let name = c.generate_runtime_name("queue", 255, UUID).unwrap();
    let parts = parse_container_name(&name).unwrap();
    assert_eq!(parts.pod_number, 255);
    assert_eq!(parts.service_name, "queue");
}

#[test]
fn generate_rejects_long_names() {
    let long = "a".repeat(61);
    let c = container_named("api");
    assert_eq!(
        c.generate_runtime_name(&long, 0, UUID),
        Err(ContainerError::ServiceNameTooLong(60))
    );
    let c2 = container_named(&long);
    assert_eq!(
        c2.generate_runtime_name("web", 0, UUID),
        Err(ContainerError::ContainerNameTooLong(60))
    );
}

#[test]
fn parse_rejects_bad_shapes() {
    assert!(matches!(parse_container_name("only_one_part"), Err(NameError::BadShape)));
    assert!(matches!(parse_container_name("a__b__c"), Err(NameError::BadShape)));
    assert!(matches!(
        parse_container_name(&format!("web__nope__api__{}", UUID)),
        Err(NameError::BadPodNumber)
    ));
    assert!(matches!(
        parse_container_name(&format!("web__300__api__{}", UUID)),
        Err(NameError::BadPodNumber)
    ));
    assert!(matches!(
        parse_container_name("web__1__api__not-a-uuid"),
        Err(NameError::BadUuid)
    ));
}

#[test]
fn uuid_shape() {
    assert!(is_uuid_str(UUID));
    assert!(is_uuid_str("ABCDEF01-2345-6789-abcd-ef0123456789"));
    assert!(!is_uuid_str("123e4567e89b12d3a456426614174000"));
    assert!(!is_uuid_str("123e4567-e89b-12d3-a456-42661417400g"));
}

#[test]
fn fresh_uuid_is_well_formed() {
    let u = podkit::ext::fresh_uuid();
    assert!(is_uuid_str(&u));
    let c = container_named("api");
    let name = c.generate_runtime_name("web", 0, &u).unwrap();
    let parts = parse_container_name(&name).unwrap();
    assert_eq!(parts.uuid, u);
}

#[test]
fn memory_limit_values() {
    assert_eq!(parse_memory_limit(&LimitValue::Text(String::from("1Gi"))), Ok(1073741824));
    assert_eq!(parse_memory_limit(&LimitValue::Text(String::from("1G"))), Ok(1073741824));
    assert_eq!(parse_memory_limit(&LimitValue::Number(String::from("1"))), Ok(1073741824));
    assert_eq!(parse_memory_limit(&LimitValue::Text(String::from("512Mi"))), Ok(536870912));
    assert_eq!(parse_memory_limit(&LimitValue::Text(String::from("2Ki"))), Ok(2048));
    assert_eq!(parse_memory_limit(&LimitValue::Text(String::from("1.5G"))), Ok(1610612736));
}

#[test]
fn memory_limit_errors() {
    assert_eq!(
        parse_memory_limit(&LimitValue::Text(String::from("1X"))),
        Err(LimitError::InvalidFormat)
    );
    assert_eq!(
        parse_memory_limit(&LimitValue::Text(String::from("G"))),
        Err(LimitError::InvalidFormat)
    );
    assert_eq!(
        parse_memory_limit(&LimitValue::Number(String::from("abc"))),
        Err(LimitError::InvalidNumber)
    );
    assert_eq!(
        parse_memory_limit(&LimitValue::Unsupported),
        Err(LimitError::UnsupportedType)
    );
}

#[test]
fn cpu_limit_values() {
    assert_eq!(parse_cpu_limit(&LimitValue::Text(String::from("0.5"))), Ok(500_000_000));
    assert_eq!(parse_cpu_limit(&LimitValue::Number(String::from("2"))), Ok(2_000_000_000));
    assert_eq!(parse_cpu_limit(&LimitValue::Text(String::from("1.25"))), Ok(1_250_000_000));
}

#[test]
fn cpu_limit_errors() {
    assert_eq!(
        parse_cpu_limit(&LimitValue::Number(String::from("0"))),
        Err(LimitError::OutOfRange)
    );
    assert_eq!(
        parse_cpu_limit(&LimitValue::Number(String::from("99999999999.5"))),
        Err(LimitError::OutOfRange)
    );
    assert_eq!(
        parse_cpu_limit(&LimitValue::Text(String::from("half"))),
        Err(LimitError::InvalidFormat)
    );
    assert_eq!(parse_cpu_limit(&LimitValue::Unsupported), Err(LimitError::UnsupportedType));
}

#[test]
fn network_rate_values() {
    assert_eq!(parse_network_rate("10Mbps"), Ok(10_000_000));
    assert_eq!(parse_network_rate("1Kbps"), Ok(1_000));
    assert_eq!(parse_network_rate("2.5Gbps"), Ok(2_500_000_000));
    assert_eq!(parse_network_rate("10Tbps"), Err(LimitError::InvalidFormat));
    assert_eq!(parse_network_rate("fast"), Err(LimitError::InvalidFormat));
}

#[test]
fn decimal_scaling_truncates_and_saturates() {
    assert_eq!(parse_decimal_scaled("0.3", 1000), Some(300));
    assert_eq!(parse_decimal_scaled("0.000000001", 1000), Some(0));
    assert_eq!(parse_decimal_scaled("0.0000000001", 1000), None);
    assert_eq!(parse_decimal_scaled("99999999999999999999999999", 1024), Some(u64::MAX));
    assert_eq!(parse_decimal_scaled("1.", 1000), Some(1000));
    assert_eq!(parse_decimal_scaled(".5", 1000), Some(500));
    assert_eq!(parse_decimal_scaled(".", 1000), None);
    assert_eq!(parse_decimal_scaled("1.2.3", 1000), None);
    assert_eq!(parse_decimal_scaled("", 1000), None);
}
