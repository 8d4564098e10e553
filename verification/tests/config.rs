use ser2tcp_tester::device::{parse_device_config, serial_device_config, DeviceConfig, DeviceConfigError};
use ser2tcp_tester::plan::{plan_run, DeviceRole, Mode, Stream};
use ser2tcp_tester::sender::{create_sender, try_create_sender, SenderError, SenderTarget};
use ser2tcp_tester::text::IntErrorKind;

#[test]
fn tcp_device_keeps_its_address() {
    match parse_device_config("tcp:127.0.0.1:4000") {
        Ok(DeviceConfig::Tcp { address }) => assert_eq!(address, "127.0.0.1:4000"),
        _ => panic!("expected a TCP device"),
    }
}

#[test]
fn serial_device_reads_path_and_baud_rate() {
    match parse_device_config("serial:/tmp/serial0:115200") {
        Ok(DeviceConfig::Serial { device, baud_rate }) => {
            assert_eq!(device, "/tmp/serial0");
            assert_eq!(baud_rate, 115200);
        }
        _ => panic!("expected a serial device"),
    }
    match parse_device_config("serial:COM1:9600:ignored") {
        Ok(DeviceConfig::Serial { device, baud_rate }) => {
            assert_eq!(device, "COM1");
            assert_eq!(baud_rate, 9600);
        }
        _ => panic!("expected a serial device"),
    }
}

#[test]
fn serial_device_errors() {
    assert_eq!(
        parse_device_config("serial:/tmp/serial0").err(),
        Some(DeviceConfigError::MissingBaudRate)
    );
    assert_eq!(
        parse_device_config("serial:/tmp/serial0:fast").err(),
        Some(DeviceConfigError::InvalidBaudRate(IntErrorKind::InvalidDigit))
    );
    assert_eq!(
        serial_device_config("/tmp/serial0:").err(),
        Some(DeviceConfigError::InvalidBaudRate(IntErrorKind::Empty))
    );
    assert_eq!(serial_device_config("").err(), Some(DeviceConfigError::MissingBaudRate));
}

#[test]
fn plans_of_each_mode() {
    let p = plan_run(Mode::Normal, "serial:/tmp/serial1:115200");
    assert_eq!(p.streams, vec![Stream::Upstream, Stream::Downstream]);
    assert_eq!(
        p.devices,
        vec![
            DeviceRole { config: 0, tx: Some(Stream::Upstream), rx: Some(Stream::Downstream) },
            DeviceRole { config: 1, tx: Some(Stream::Downstream), rx: Some(Stream::Upstream) },
        ]
    );
    let p = plan_run(Mode::UpStream, "serial:/tmp/serial1:115200");
    assert_eq!(p.streams, vec![Stream::Upstream]);
    assert_eq!(
        p.devices,
        vec![
            DeviceRole { config: 0, tx: Some(Stream::Upstream), rx: None },
            DeviceRole { config: 1, tx: None, rx: Some(Stream::Upstream) },
        ]
    );
    let p = plan_run(Mode::DownStream, "serial:/tmp/serial1:115200");
    assert_eq!(p.streams, vec![Stream::Downstream]);
    assert_eq!(
        p.devices,
        vec![
            DeviceRole { config: 0, tx: None, rx: Some(Stream::Downstream) },
            DeviceRole { config: 1, tx: Some(Stream::Downstream), rx: None },
        ]
    );
    let p = plan_run(Mode::Echo, "-");
    assert_eq!(p.streams, vec![Stream::Echo]);
    assert_eq!(
        p.devices,
        vec![DeviceRole { config: 0, tx: Some(Stream::Echo), rx: Some(Stream::Echo) }]
    );
}

#[test]
fn every_stream_has_one_sender_and_one_checker() {
    for mode in [Mode::Normal, Mode::UpStream, Mode::DownStream, Mode::Echo] {
        let p = plan_run(mode, "tcp:127.0.0.1:3000");
        for s in p.streams.iter() {
            let senders: Vec<&DeviceRole> = p.devices.iter().filter(|d| d.tx == Some(*s)).collect();
            let checkers: Vec<&DeviceRole> = p.devices.iter().filter(|d| d.rx == Some(*s)).collect();
            assert_eq!(senders.len(), 1);
            assert_eq!(checkers.len(), 1);
            if mode != Mode::Echo {
                assert_ne!(senders[0].config, checkers[0].config);
            }
        }
    }
}

#[test]
fn stream_names() {
    assert_eq!(Stream::Upstream.name(), "upstream");
    assert_eq!(Stream::Downstream.name(), "downstream");
    assert_eq!(Stream::Echo.name(), "echo");
}

#[test]
fn udp_sender_sends_to_the_host_part() {
    match try_create_sender("udp://127.0.0.1:8000".to_string()) {
        Ok(SenderTarget::Udp { dest }) => assert_eq!(dest, "127.0.0.1:8000"),
        _ => panic!("expected a UDP sender"),
    }
    match create_sender("UDP://localhost:9/path".to_string()) {
        SenderTarget::Udp { dest } => assert_eq!(dest, "localhost:9/path"),
        _ => panic!("expected a UDP sender"),
    }
}

#[test]
fn serial_sender_names_the_whole_url() {
    match try_create_sender("serial:///dev/ttyUSB0".to_string()) {
        Ok(SenderTarget::Serial { dest_port }) => assert_eq!(dest_port, "serial:///dev/ttyUSB0"),
        _ => panic!("expected a serial sender"),
    }
}

#[test]
fn no_sender_for_other_urls() {
    assert!(matches!(
        try_create_sender("http://127.0.0.1:80".to_string()),
        Err(SenderError::NoSenderFound)
    ));
    match try_create_sender("not a url".to_string()) {
        Err(SenderError::InvalidUrl(text)) => assert_eq!(text, "RelativeUrlWithoutBase"),
        _ => panic!("expected a URL error"),
    }
    assert!(matches!(
        try_create_sender("".to_string()),
        Err(SenderError::InvalidUrl(_))
    ));
}

#[test]
fn documented_device_examples() {
    match parse_device_config("serial:/dev/ttyUSB0:115200") {
        Ok(DeviceConfig::Serial { device, baud_rate }) => {
            assert_eq!(device, "/dev/ttyUSB0");
            assert_eq!(baud_rate, 115200);
        }
        _ => panic!("expected a serial device"),
    }
    match parse_device_config("serial:COM1:115200") {
        Ok(DeviceConfig::Serial { device, baud_rate }) => {
            assert_eq!(device, "COM1");
            assert_eq!(baud_rate, 115200);
        }
        _ => panic!("expected a serial device"),
    }
    match parse_device_config("tcp:192.168.7.1:7") {
        Ok(DeviceConfig::Tcp { address }) => assert_eq!(address, "192.168.7.1:7"),
        _ => panic!("expected a TCP device"),
    }
}

#[test]
fn echo_in_place_of_the_second_device_selects_echo_mode() {
    for mode in [Mode::Normal, Mode::UpStream, Mode::DownStream, Mode::Echo] {
        let p = plan_run(mode, "echo");
        assert_eq!(p.mode, Mode::Echo);
        assert_eq!(p.streams, vec![Stream::Echo]);
        assert_eq!(
            p.devices,
            vec![DeviceRole { config: 0, tx: Some(Stream::Echo), rx: Some(Stream::Echo) }]
        );
    }
    assert_eq!(plan_run(Mode::Normal, "echo2").mode, Mode::Normal);
    assert_eq!(plan_run(Mode::UpStream, "-").mode, Mode::UpStream);
}

#[test]
fn baud_rate_error_kinds() {
    assert_eq!(
        serial_device_config("/dev/x:99999999999").err(),
        Some(DeviceConfigError::InvalidBaudRate(IntErrorKind::PosOverflow))
    );
    assert_eq!(
        serial_device_config("/dev/x:99999999999z").err(),
        Some(DeviceConfigError::InvalidBaudRate(IntErrorKind::PosOverflow))
    );
    assert_eq!(
        serial_device_config("/dev/x:12z99999999999").err(),
        Some(DeviceConfigError::InvalidBaudRate(IntErrorKind::InvalidDigit))
    );
    assert_eq!(
        serial_device_config("/dev/x:+").err(),
        Some(DeviceConfigError::InvalidBaudRate(IntErrorKind::InvalidDigit))
    );
}
