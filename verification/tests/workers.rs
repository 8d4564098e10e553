use ser2tcp_tester::text::{AddressError, IntErrorKind};
use ser2tcp_tester::workers::{create_worker, serial_worker_config, udp_worker_config, WorkerConfig, WorkerError};

#[test]
fn test_create_udp_worker() {
    assert!(create_worker("udp,127.0.0.1:8000,127.0.0.1:8001").is_ok());
}

#[test]
fn test_create_udp_worker_without_local_port() {
    assert!(create_worker("udp,,127.0.0.1:8001").is_err());
}

#[test]
fn test_create_udp_worker_from_invalid_url() {
    assert!(create_worker("invalid,127.0.0.1:8000,127.0.0.1:8001").is_err());
}

#[test]
fn test_create_serial_with_invalid_baudrate() {
    assert!(serial_worker_config("serial,/tmp/serial1,invalid").is_err())
}

#[test]
fn udp_worker_keeps_both_addresses() {
    match create_worker("udp,127.0.0.1:8000,127.0.0.1:8001") {
        Ok(WorkerConfig::Udp { local, remote }) => {
            assert_eq!(local, "127.0.0.1:8000");
            assert_eq!(remote, "127.0.0.1:8001");
        }
        _ => panic!("expected a UDP worker"),
    }
}

#[test]
fn udp_worker_without_local_port_names_the_local_address() {
    assert_eq!(
        create_worker("udp,,127.0.0.1:8001").err(),
        Some(WorkerError::InvalidLocalAddress(AddressError::MissingPort))
    );
}

#[test]
fn udp_worker_leaves_the_remote_address_to_the_connect() {
    // The local address is bound before the remote one is tried, so only the
    // local address is refused here; a bad remote address fails on connect.
    match udp_worker_config("udp,127.0.0.1:80,nowhere") {
        Ok(WorkerConfig::Udp { local, remote }) => {
            assert_eq!(local, "127.0.0.1:80");
            assert_eq!(remote, "nowhere");
        }
        _ => panic!("expected a UDP worker"),
    }
    assert_eq!(
        udp_worker_config("udp,127.0.0.1:x,nowhere").err(),
        Some(WorkerError::InvalidLocalAddress(AddressError::InvalidPort))
    );
}

#[test]
fn udp_worker_accepts_host_names_syntactically() {
    match udp_worker_config("udp,127.0.0.1:8000,invalid:8001") {
        Ok(WorkerConfig::Udp { local, remote }) => {
            assert_eq!(local, "127.0.0.1:8000");
            assert_eq!(remote, "invalid:8001");
        }
        _ => panic!("expected a UDP worker"),
    }
}

#[test]
fn serial_worker_reads_device_and_baud_rate() {
    match create_worker("serial,/tmp/serial1,115200") {
        Ok(WorkerConfig::Serial { device, baud_rate }) => {
            assert_eq!(device, "/tmp/serial1");
            assert_eq!(baud_rate, 115200);
        }
        _ => panic!("expected a serial worker"),
    }
    match create_worker("serial,COM3:9600") {
        Ok(WorkerConfig::Serial { device, baud_rate }) => {
            assert_eq!(device, "COM3");
            assert_eq!(baud_rate, 9600);
        }
        _ => panic!("expected a serial worker"),
    }
}

#[test]
fn serial_worker_rejects_baud_rates_out_of_range() {
    assert_eq!(
        create_worker("serial,/dev/ttyS0,4294967296").err(),
        Some(WorkerError::InvalidBaudRate(IntErrorKind::PosOverflow))
    );
    match create_worker("serial,/dev/ttyS0,4294967295") {
        Ok(WorkerConfig::Serial { baud_rate, .. }) => assert_eq!(baud_rate, u32::MAX),
        _ => panic!("expected a serial worker"),
    }
    assert_eq!(
        create_worker("serial,/dev/ttyS0,-9600").err(),
        Some(WorkerError::InvalidBaudRate(IntErrorKind::InvalidDigit))
    );
}

#[test]
fn unknown_worker_kind() {
    assert_eq!(
        create_worker("tcp,127.0.0.1:1,127.0.0.1:2").err(),
        Some(WorkerError::NoCompatibleWorker)
    );
    assert_eq!(create_worker("").err(), Some(WorkerError::NoCompatibleWorker));
}

#[test]
fn udp_prefix_wins_over_serial() {
    // "udpserial" starts with "udp", so it is read as a UDP description.
    assert!(matches!(
        create_worker("udpserial,127.0.0.1:1,127.0.0.1:2"),
        Ok(WorkerConfig::Udp { .. })
    ));
}

#[test]
fn serial_description_forms_agree() {
    let with_colon = serial_worker_config("serial,/tmp/serial1:115200");
    let with_comma = serial_worker_config("serial,/tmp/serial1,115200");
    match (with_colon, with_comma) {
        (
            Ok(WorkerConfig::Serial { device: d1, baud_rate: b1 }),
            Ok(WorkerConfig::Serial { device: d2, baud_rate: b2 }),
        ) => {
            assert_eq!(d1, "/tmp/serial1");
            assert_eq!(d1, d2);
            assert_eq!(b1, 115200);
            assert_eq!(b1, b2);
        }
        _ => panic!("expected two serial workers"),
    }
}

#[test]
fn worker_error_messages() {
    assert_eq!(
        create_worker("invalid,127.0.0.1:8000,127.0.0.1:8001").unwrap_err().message(),
        "No compatible worker found"
    );
    assert_eq!(
        create_worker("udp,,127.0.0.1:8001").unwrap_err().message(),
        "Failed to bind udp client"
    );
    assert_eq!(
        serial_worker_config("serial,/tmp/serial1,invalid").unwrap_err().message(),
        "invalid digit found in string"
    );
    assert_eq!(WorkerError::SendFailed.message(), "Failed to send data");
    assert_eq!(WorkerError::ReceiveFailed.message(), "Failed to receive data");
    assert_eq!(WorkerError::Io("boom".to_string()).message(), "boom");
}
