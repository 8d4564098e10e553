//! Devices under test: how a device is described on the command line, and
//! the interface of a running device.

use vstd::prelude::*;
use crate::text::{
    IntErrorKind, has_prefix, parse_unsigned, parse_unsigned_result, split_fields, split_spec,
    decimal_digits, decimal_value, free_of, lemma_parse_unsigned_cases, lemma_split_append_field,
    lemma_split_plain,
};

verus! {

/// A TCP server or a serial port to exchange test data with.
#[derive(Debug)]
pub enum DeviceConfig {
    /// A TCP server at `address` (`host:port`).
    Tcp { address: String },
    /// A serial device opened at a baud rate.
    Serial { device: String, baud_rate: u32 },
}

/// The mathematical value of a `DeviceConfig`.
pub enum DeviceSpec {
    Tcp { address: Seq<char> },
    Serial { device: Seq<char>, baud_rate: nat },
}

impl View for DeviceConfig {
    type V = DeviceSpec;

    open spec fn view(&self) -> DeviceSpec {
        match self {
            DeviceConfig::Tcp { address } => DeviceSpec::Tcp { address: address@ },
            DeviceConfig::Serial { device, baud_rate } => DeviceSpec::Serial {
                device: device@,
                baud_rate: *baud_rate as nat,
            },
        }
    }
}

/// Why a serial device description is refused.
#[derive(Debug, Clone, Copy, PartialEq, Eq, Structural)]
pub enum DeviceConfigError {
    /// No `:` separates the device from a baud rate.
    MissingBaudRate,
    /// The baud rate is not a number that fits in `u32`, for the reason given.
    InvalidBaudRate(IntErrorKind),
}

/// Whether `config` names a kind of device: `tcp:` or `serial:`.
pub open spec fn names_device(config: Seq<char>) -> bool {
    "tcp:"@.is_prefix_of(config) || "serial:"@.is_prefix_of(config)
}

/// The serial port that `device:baud` describes; fields after the baud rate
/// are ignored.
pub open spec fn serial_device_spec(config: Seq<char>) -> Result<DeviceSpec, DeviceConfigError> {
    let fields = split_spec(config, seq![':']);
    if fields.len() < 2 {
        Err(DeviceConfigError::MissingBaudRate)
    } else {
        match parse_unsigned_result(fields[1], u32::MAX as nat) {
            Err(k) => Err(DeviceConfigError::InvalidBaudRate(k)),
            Ok(b) => Ok(DeviceSpec::Serial { device: fields[0], baud_rate: b }),
        }
    }
}

/// The device that `tcp:host:port` or `serial:device:baud` describes.
pub open spec fn device_spec(config: Seq<char>) -> Result<DeviceSpec, DeviceConfigError> {
    if "tcp:"@.is_prefix_of(config) {
        Ok(DeviceSpec::Tcp { address: config.skip(4) })
    } else {
        serial_device_spec(config.skip(7))
    }
}

/// Whether `r` is the outcome that `expected` describes.
pub open spec fn device_outcome(
    r: Result<DeviceConfig, DeviceConfigError>,
    expected: Result<DeviceSpec, DeviceConfigError>,
) -> bool {
    match expected {
        Ok(d) => r matches Ok(c) && c@ == d,
        Err(e) => r == Err::<DeviceConfig, DeviceConfigError>(e),
    }
}

/// Reads `device:baud`, the part of a serial description after `serial:`.
pub fn serial_device_config(config: &str) -> (r: Result<DeviceConfig, DeviceConfigError>)
    ensures
        device_outcome(r, serial_device_spec(config@)),
{
    let seps = vec![':'];
    assert(seps@ =~= seq![':']);
    let fields = split_fields(config, seps.as_slice());
    proof {
        crate::text::lemma_split_nonempty(config@, seq![':']);
    }
    if fields.len() < 2 {
        return Err(DeviceConfigError::MissingBaudRate);
    }
    assert(fields@[0]@ == split_spec(config@, seq![':'])[0]);
    assert(fields@[1]@ == split_spec(config@, seq![':'])[1]);
    match parse_unsigned(fields[1].as_str(), 0xffff_ffff) {
        Err(k) => Err(DeviceConfigError::InvalidBaudRate(k)),
        Ok(b) => Ok(DeviceConfig::Serial { device: fields[0].clone(), baud_rate: b as u32 }),
    }
}

/// Reads a device description: `tcp:host:port` or `serial:device:baud`.
pub fn parse_device_config(config: &str) -> (r: Result<DeviceConfig, DeviceConfigError>)
    requires
        names_device(config@),
    ensures
        device_outcome(r, device_spec(config@)),
{
    let n = config.unicode_len();
    if has_prefix(config, "tcp:") {
        proof {
            reveal_strlit("tcp:");
        }
        let address = config.substring_char(4, n);
        assert(address@ =~= config@.skip(4));
        Ok(DeviceConfig::Tcp { address: address.to_owned() })
    } else {
        proof {
            reveal_strlit("serial:");
        }
        let rest = config.substring_char(7, n);
        assert(rest@ =~= config@.skip(7));
        serial_device_config(rest)
    }
}

/// A serial description `serial:device:baud` opens `device` at the baud
/// rate its digits spell, for any rate that fits in `u32` (up to
/// 4294967295); a larger rate overflows, and a description without a second
/// `:` has no baud rate. A TCP description `tcp:address` connects to
/// `address`, whatever it is.
pub proof fn lemma_device_descriptions(device: Seq<char>, baud: Seq<char>, address: Seq<char>)
    requires
        free_of(device, seq![':']),
        free_of(baud, seq![':']),
    ensures
        ({
            let serial = "serial:"@ + device + seq![':'] + baud;
            &&& names_device(serial)
            &&& decimal_digits(baud) && decimal_value(baud) <= 4294967295 ==> device_spec(serial)
                == Ok::<DeviceSpec, DeviceConfigError>(
                DeviceSpec::Serial { device, baud_rate: decimal_value(baud) },
            )
            &&& decimal_digits(baud) && decimal_value(baud) > 4294967295 ==> device_spec(serial)
                == Err::<DeviceSpec, DeviceConfigError>(
                DeviceConfigError::InvalidBaudRate(IntErrorKind::PosOverflow),
            )
        }),
        names_device("serial:"@ + device),
        device_spec("serial:"@ + device) == Err::<DeviceSpec, DeviceConfigError>(
            DeviceConfigError::MissingBaudRate,
        ),
        names_device("tcp:"@ + address),
        device_spec("tcp:"@ + address) == Ok::<DeviceSpec, DeviceConfigError>(
            DeviceSpec::Tcp { address },
        ),
{
    reveal_strlit("serial:");
    reveal_strlit("tcp:");
    let seps = seq![':'];
    let head = "serial:"@;
    let serial = head + device + seq![':'] + baud;
    assert(serial.take(7) =~= head);
    assert(serial.skip(7) =~= device + seq![':'] + baud);
    assert(!"tcp:"@.is_prefix_of(serial)) by {
        assert(serial[0] == 's');
    }
    lemma_split_plain(device, seps);
    lemma_split_append_field(device, seq![':'], baud, seps);
    assert(seq![device].push(baud) =~= seq![device, baud]);
    lemma_parse_unsigned_cases(baud, u32::MAX as nat);
    let bare = head + device;
    assert(bare.take(7) =~= head);
    assert(bare.skip(7) =~= device);
    assert(!"tcp:"@.is_prefix_of(bare)) by {
        assert(bare[0] == 's');
    }
    let tcp = "tcp:"@ + address;
    assert(tcp.take(4) =~= "tcp:"@);
    assert(tcp.skip(4) =~= address);
}

/// A running device: data handed to its sender goes out, data it receives
/// comes out of its receiver, which can be taken once.
pub trait Device {
    /// A handle that sends data out through the device.
    fn sender(&self) -> Result<std::sync::mpsc::Sender<Vec<u8>>, DeviceError>;

    /// The end at which received data arrives.
    fn receiver(&mut self) -> Result<std::sync::mpsc::Receiver<Vec<u8>>, DeviceError>;
}

/// Why a running device cannot hand out a channel end.
#[derive(Debug, Clone, Copy, PartialEq, Eq, Structural)]
pub enum DeviceError {
    /// The receiver was taken before.
    ReceiverTaken,
}

/// The sending half of a standard channel.
#[verifier::external_type_specification]
#[verifier::external_body]
#[verifier::reject_recursive_types(T)]
pub struct ExChannelSender<T>(std::sync::mpsc::Sender<T>);

/// The receiving half of a standard channel.
#[verifier::external_type_specification]
#[verifier::external_body]
#[verifier::reject_recursive_types(T)]
pub struct ExChannelReceiver<T>(std::sync::mpsc::Receiver<T>);

} // verus!
