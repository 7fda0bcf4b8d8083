use neuroheat::cli::{log_level_from_name, parse_log_level, Args, LogLevel};
use neuroheat::error::NeuroheatError;
use neuroheat::relay::{is_output_direction, parse_relay_state, relay_state_from_trimmed, GPIOController};
use neuroheat::temperature_sensor::{parse_report, DS18B20};

const GOOD: &str = "72 01 4b 46 7f ff 0e 10 57 : crc=57 YES\n72 01 4b 46 7f ff 0e 10 57 t=23125\n";

#[test]
fn report_with_valid_checksum_parsed() {
    assert_eq!(parse_report(GOOD.as_bytes()), Ok(23125));
}

#[test]
fn report_with_crlf_line_endings_parsed() {
    let r = "aa : crc=57 YES\r\naa t=500\r\n";
    assert_eq!(parse_report(r.as_bytes()), Ok(500));
}

#[test]
fn report_without_final_newline_parsed() {
    assert_eq!(parse_report(b"crc=57 YES\nt=0"), Ok(0));
    assert_eq!(parse_report(b"crc=57 YES\nt=+50000"), Ok(50000));
}

#[test]
fn report_failing_checksum_rejected() {
    let r = "72 01 : crc=57 NO\n72 01 t=23125\n";
    assert!(matches!(parse_report(r.as_bytes()), Err(NeuroheatError::SensorError(_))));
}

#[test]
fn report_errors() {
    for r in [
        "",
        "crc=57 YES",
        "crc=57 YES\n",
        "crc=57 YES\n72 01 23125\n",
        "crc=57 YES\nt=\n",
        "crc=57 YES\nt=-\n",
        "crc=57 YES\nt=12a\n",
        "crc=57 YES\nt=-1\n",
        "crc=57 YES\nt=50001\n",
        "crc=57 YES\nt=99999999999999999999\n",
        "crc=57 YES\r\n\r\n",
    ] {
        assert!(
            matches!(parse_report(r.as_bytes()), Err(NeuroheatError::SensorError(_))),
            "{:?}",
            r
        );
    }
}

#[test]
fn report_marker_first_occurrence_used() {
    assert_eq!(parse_report(b"YES\nt=1 t=2"), Err(NeuroheatError::SensorError(
        "Temperature out of range or unreadable".to_string()
    )));
    assert_eq!(parse_report(b"YES\nxt=-0"), Ok(0));
    assert_eq!(parse_report(b"YES\nt=00042"), Ok(42));
}

#[test]
fn sensor_file_path() {
    let s = DS18B20::new("28-0000".to_string());
    assert_eq!(s.id, "28-0000");
    assert_eq!(s.file_path, "/sys/devices/w1_bus_master1//28-0000/w1_slave");
}

#[test]
fn relay_values() {
    assert_eq!(parse_relay_state("1\n"), Ok(true));
    assert_eq!(parse_relay_state("  0 \n"), Ok(false));
    assert!(matches!(parse_relay_state("2\n"), Err(NeuroheatError::RelayError(_))));
    assert!(matches!(parse_relay_state(""), Err(NeuroheatError::RelayError(_))));
    assert_eq!(relay_state_from_trimmed("1"), Ok(true));
    assert!(relay_state_from_trimmed("1\n").is_err());
}

#[test]
fn pin_direction() {
    assert!(is_output_direction("out\n"));
    assert!(!is_output_direction("in\n"));
    assert!(!is_output_direction(""));
}

#[test]
fn gpio_controller_pin() {
    assert_eq!(GPIOController::new(17).pin, 17);
}

fn args(level: &str) -> Args {
    Args {
        log_level: level.to_string(),
        database_path: "neuroheat.db".to_string(),
        api_port: 3030,
        heating_config_path: "heating_config.json".to_string(),
    }
}

#[test]
fn log_levels() {
    assert_eq!(parse_log_level(&args("DEBUG")), LogLevel::Debug);
    assert_eq!(parse_log_level(&args("Warn")), LogLevel::Warn);
    assert_eq!(parse_log_level(&args("error")), LogLevel::Error);
    assert_eq!(parse_log_level(&args("info")), LogLevel::Info);
    assert_eq!(parse_log_level(&args("verbose")), LogLevel::Info);
    assert_eq!(log_level_from_name("DEBUG"), LogLevel::Info);
    assert_eq!(log_level_from_name("debug"), LogLevel::Debug);
}

#[test]
fn error_descriptions() {
    let e = NeuroheatError::ConfigurationError("missing".to_string());
    assert_eq!(e.describe(), "Configuration error: missing");
    let e = NeuroheatError::SensorError("CRC check failed".to_string());
    assert_eq!(e.describe(), "Sensor error: CRC check failed");
    let e = NeuroheatError::DatabaseError("locked".to_string());
    assert_eq!(e.describe(), "Database error: locked");
}
