//! Workers: the two kinds of link a port description names, and the
//! interface that a running worker offers.

use vstd::prelude::*;
use crate::text::{
    AddressError, IntErrorKind, address_port, address_port_spec, free_of, has_prefix,
    int_error_text, lemma_split_append_field, lemma_split_plain, parse_unsigned,
    parse_unsigned_result, split_fields, split_spec, decimal_digits, decimal_value,
    lemma_address_port_shape, lemma_parse_unsigned_cases,
};

verus! {

/// Why no worker can be set up for a port description.
#[derive(Debug, PartialEq, Eq)]
pub enum WorkerError {
    /// The description names neither `udp` nor `serial`.
    NoCompatibleWorker,
    /// The local address of a UDP worker is not a `host:port` address, so
    /// no socket can be bound to it.
    InvalidLocalAddress(AddressError),
    /// The baud rate of a serial worker is not a number that fits in `u32`,
    /// for the reason given.
    InvalidBaudRate(IntErrorKind),
    /// The operating system refused a step of setting up or running a worker.
    Io(String),
    /// A running worker could not take data to send.
    SendFailed,
    /// A running worker had no data to hand out.
    ReceiveFailed,
}

/// The text that reports a worker error.
pub open spec fn worker_error_text(e: WorkerError) -> Seq<char> {
    match e {
        WorkerError::NoCompatibleWorker => "No compatible worker found"@,
        WorkerError::InvalidLocalAddress(_) => "Failed to bind udp client"@,
        WorkerError::InvalidBaudRate(k) => int_error_text(k),
        WorkerError::Io(text) => text@,
        WorkerError::SendFailed => "Failed to send data"@,
        WorkerError::ReceiveFailed => "Failed to receive data"@,
    }
}

impl WorkerError {
    /// The text that reports this error.
    pub fn message(&self) -> (m: &str)
        ensures
            m@ == worker_error_text(*self),
    {
        match self {
            WorkerError::NoCompatibleWorker => "No compatible worker found",
            WorkerError::InvalidLocalAddress(_) => "Failed to bind udp client",
            WorkerError::InvalidBaudRate(k) => k.description(),
            WorkerError::Io(text) => text.as_str(),
            WorkerError::SendFailed => "Failed to send data",
            WorkerError::ReceiveFailed => "Failed to receive data",
        }
    }
}

/// What a worker is set up from.
#[derive(Debug)]
pub enum WorkerConfig {
    /// A UDP socket bound to `local` and connected to `remote`.
    Udp { local: String, remote: String },
    /// A serial device opened at a baud rate.
    Serial { device: String, baud_rate: u32 },
}

/// The mathematical value of a `WorkerConfig`.
pub enum WorkerSpec {
    Udp { local: Seq<char>, remote: Seq<char> },
    Serial { device: Seq<char>, baud_rate: nat },
}

impl View for WorkerConfig {
    type V = WorkerSpec;

    open spec fn view(&self) -> WorkerSpec {
        match self {
            WorkerConfig::Udp { local, remote } => WorkerSpec::Udp { local: local@, remote: remote@ },
            WorkerConfig::Serial { device, baud_rate } => WorkerSpec::Serial {
                device: device@,
                baud_rate: *baud_rate as nat,
            },
        }
    }
}

/// The separators of a UDP port description: `udp,local_ip:port,remote_ip:port`.
pub open spec fn udp_separators() -> Seq<char> {
    seq![',']
}

/// The separators of a serial port description: `serial,device,baud` (or
/// `serial,device:baud`).
pub open spec fn serial_separators() -> Seq<char> {
    seq![',', ':']
}

/// A UDP description names exactly three fields.
pub open spec fn udp_port_well_formed(port: Seq<char>) -> bool {
    split_spec(port, udp_separators()).len() == 3
}

/// A serial description names exactly three fields.
pub open spec fn serial_port_well_formed(port: Seq<char>) -> bool {
    split_spec(port, serial_separators()).len() == 3
}

/// The worker that a UDP description asks for. The local address is bound
/// first, so a local address that cannot be bound is refused before the
/// remote address is looked at; the remote address is only tried when the
/// socket connects.
pub open spec fn udp_worker_spec(port: Seq<char>) -> Result<WorkerSpec, WorkerError> {
    let fields = split_spec(port, udp_separators());
    match address_port_spec(fields[1]) {
        Err(e) => Err(WorkerError::InvalidLocalAddress(e)),
        Ok(_) => Ok(WorkerSpec::Udp { local: fields[1], remote: fields[2] }),
    }
}

/// The worker that a serial description asks for.
pub open spec fn serial_worker_spec(port: Seq<char>) -> Result<WorkerSpec, WorkerError> {
    let fields = split_spec(port, serial_separators());
    match parse_unsigned_result(fields[2], u32::MAX as nat) {
        Err(k) => Err(WorkerError::InvalidBaudRate(k)),
        Ok(b) => Ok(WorkerSpec::Serial { device: fields[1], baud_rate: b }),
    }
}

/// Whether a description names a UDP worker by its first letters.
pub open spec fn names_udp(port: Seq<char>) -> bool {
    "udp"@.is_prefix_of(port)
}

/// Whether a description names a serial worker by its first letters.
pub open spec fn names_serial(port: Seq<char>) -> bool {
    "serial"@.is_prefix_of(port)
}

/// The descriptions a worker can be asked for: one that names a kind of
/// worker lists exactly three fields.
pub open spec fn worker_port_well_formed(port: Seq<char>) -> bool {
    &&& names_udp(port) ==> udp_port_well_formed(port)
    &&& (!names_udp(port) && names_serial(port)) ==> serial_port_well_formed(port)
}

/// The worker that a port description asks for.
pub open spec fn create_worker_spec(port: Seq<char>) -> Result<WorkerSpec, WorkerError> {
    if names_udp(port) {
        udp_worker_spec(port)
    } else if names_serial(port) {
        serial_worker_spec(port)
    } else {
        Err(WorkerError::NoCompatibleWorker)
    }
}

/// Whether `r` is the outcome that `expected` describes.
pub open spec fn worker_outcome(
    r: Result<WorkerConfig, WorkerError>,
    expected: Result<WorkerSpec, WorkerError>,
) -> bool {
    match expected {
        Ok(w) => r matches Ok(c) && c@ == w,
        Err(e) => r == Err::<WorkerConfig, WorkerError>(e),
    }
}

/// Reads a UDP description `udp,local_ip:port,remote_ip:port`.
pub fn udp_worker_config(port: &str) -> (r: Result<WorkerConfig, WorkerError>)
    requires
        udp_port_well_formed(port@),
    ensures
        worker_outcome(r, udp_worker_spec(port@)),
{
    let seps = vec![','];
    assert(seps@ =~= udp_separators());
    let fields = split_fields(port, seps.as_slice());
    assert(fields@[1]@ == split_spec(port@, udp_separators())[1]);
    assert(fields@[2]@ == split_spec(port@, udp_separators())[2]);
    let local = fields[1].clone();
    let remote = fields[2].clone();
    match address_port(local.as_str()) {
        Err(e) => return Err(WorkerError::InvalidLocalAddress(e)),
        Ok(_) => {},
    }
    Ok(WorkerConfig::Udp { local, remote })
}

/// Reads a serial description `serial,device,baud`.
pub fn serial_worker_config(port: &str) -> (r: Result<WorkerConfig, WorkerError>)
    requires
        serial_port_well_formed(port@),
    ensures
        worker_outcome(r, serial_worker_spec(port@)),
{
    let seps = vec![',', ':'];
    assert(seps@ =~= serial_separators());
    let fields = split_fields(port, seps.as_slice());
    assert(fields@[1]@ == split_spec(port@, serial_separators())[1]);
    assert(fields@[2]@ == split_spec(port@, serial_separators())[2]);
    let device = fields[1].clone();
    match parse_unsigned(fields[2].as_str(), 0xffff_ffff) {
        Err(k) => Err(WorkerError::InvalidBaudRate(k)),
        Ok(b) => Ok(WorkerConfig::Serial { device, baud_rate: b as u32 }),
    }
}

/// Picks the worker a port description names: `udp,...` or `serial,...`.
pub fn create_worker(port: &str) -> (r: Result<WorkerConfig, WorkerError>)
    requires
        worker_port_well_formed(port@),
    ensures
        worker_outcome(r, create_worker_spec(port@)),
{
    if has_prefix(port, "udp") {
        udp_worker_config(port)
    } else if has_prefix(port, "serial") {
        serial_worker_config(port)
    } else {
        Err(WorkerError::NoCompatibleWorker)
    }
}

/// The two ways to write a serial description, `serial,device:baud` and
/// `serial,device,baud`, ask for the same worker: `,` and `:` both separate
/// fields, and the fields are the kind, the device and the baud rate.
pub proof fn lemma_serial_description_forms(device: Seq<char>, baud: Seq<char>)
    requires
        free_of(device, serial_separators()),
        free_of(baud, serial_separators()),
    ensures
        ({
            let with_colon = "serial"@ + seq![','] + device + seq![':'] + baud;
            let with_comma = "serial"@ + seq![','] + device + seq![','] + baud;
            &&& split_spec(with_colon, serial_separators()) == seq!["serial"@, device, baud]
            &&& split_spec(with_comma, serial_separators()) == seq!["serial"@, device, baud]
            &&& worker_port_well_formed(with_colon)
            &&& worker_port_well_formed(with_comma)
            &&& create_worker_spec(with_colon) == create_worker_spec(with_comma)
            &&& create_worker_spec(with_colon) == match parse_unsigned_result(baud, u32::MAX as nat) {
                Err(k) => Err(WorkerError::InvalidBaudRate(k)),
                Ok(b) => Ok(WorkerSpec::Serial { device, baud_rate: b }),
            }
            &&& decimal_digits(baud) && decimal_value(baud) <= 4294967295 ==> create_worker_spec(
                with_colon,
            ) == Ok::<WorkerSpec, WorkerError>(
                WorkerSpec::Serial { device, baud_rate: decimal_value(baud) },
            )
        }),
{
    reveal_strlit("serial");
    reveal_strlit("udp");
    let seps = serial_separators();
    let kind = "serial"@;
    let comma = seq![','];
    let colon = seq![':'];
    assert(free_of(kind, seps));
    lemma_split_plain(kind, seps);
    lemma_split_append_field(kind, comma, device, seps);
    assert(seq![kind].push(device) =~= seq![kind, device]);
    lemma_split_append_field(kind + comma + device, colon, baud, seps);
    lemma_split_append_field(kind + comma + device, comma, baud, seps);
    assert(seq![kind, device].push(baud) =~= seq![kind, device, baud]);
    let with_colon = kind + comma + device + colon + baud;
    let with_comma = kind + comma + device + comma + baud;
    assert(with_colon.take(6) =~= kind);
    assert(with_comma.take(6) =~= kind);
    assert(!names_udp(with_colon)) by {
        assert(with_colon[0] == 's');
    }
    assert(!names_udp(with_comma)) by {
        assert(with_comma[0] == 's');
    }
    assert(names_serial(with_colon));
    assert(names_serial(with_comma));
    lemma_parse_unsigned_cases(baud, u32::MAX as nat);
}

/// A UDP description `udp,host:port,remote` asks for a worker bound to
/// `host:port` and connected to `remote`, for any port from 0 to 65535
/// (0 asks the system for a free port) and whatever the remote address is;
/// a local address without a `:` is refused before anything is bound.
pub proof fn lemma_udp_description(host: Seq<char>, port: Seq<char>, remote: Seq<char>)
    requires
        free_of(host, udp_separators()),
        free_of(remote, udp_separators()),
        decimal_digits(port),
    ensures
        ({
            let local = host + seq![':'] + port;
            let description = "udp"@ + seq![','] + local + seq![','] + remote;
            &&& worker_port_well_formed(description)
            &&& decimal_value(port) <= 65535 ==> create_worker_spec(description) == Ok::<
                WorkerSpec,
                WorkerError,
            >(WorkerSpec::Udp { local, remote })
            &&& decimal_value(port) > 65535 ==> create_worker_spec(description) == Err::<
                WorkerSpec,
                WorkerError,
            >(WorkerError::InvalidLocalAddress(AddressError::InvalidPort))
        }),
        (forall|i: int| 0 <= i < host.len() ==> #[trigger] host[i] != ':') ==> create_worker_spec(
            "udp"@ + seq![','] + host + seq![','] + remote,
        ) == Err::<WorkerSpec, WorkerError>(WorkerError::InvalidLocalAddress(AddressError::MissingPort)),
{
    reveal_strlit("udp");
    let seps = udp_separators();
    let kind = "udp"@;
    let comma = seq![','];
    let local = host + seq![':'] + port;
    assert(free_of(local, seps)) by {
        assert forall|i: int| 0 <= i < local.len() implies !seps.contains(#[trigger] local[i]) by {
            if i < host.len() {
                assert(local[i] == host[i]);
            } else if i > host.len() {
                assert(local[i] == port[i - host.len() - 1]);
                assert(!seps.contains(local[i]));
            } else {
                assert(local[i] == ':');
                assert(!seps.contains(':'));
            }
        }
    }
    assert(free_of(kind, seps));
    lemma_split_plain(kind, seps);
    lemma_split_append_field(kind, comma, local, seps);
    assert(seq![kind].push(local) =~= seq![kind, local]);
    lemma_split_append_field(kind + comma + local, comma, remote, seps);
    assert(seq![kind, local].push(remote) =~= seq![kind, local, remote]);
    let description = kind + comma + local + comma + remote;
    assert(description.take(3) =~= kind);
    lemma_address_port_shape(host, port, host);
    lemma_split_append_field(kind, comma, host, seps);
    assert(seq![kind].push(host) =~= seq![kind, host]);
    lemma_split_append_field(kind + comma + host, comma, remote, seps);
    assert(seq![kind, host].push(remote) =~= seq![kind, host, remote]);
    let bare = kind + comma + host + comma + remote;
    assert(bare.take(3) =~= kind);
}

/// A description that begins with neither `u` nor `s` names no worker.
pub proof fn lemma_no_worker_named(port: Seq<char>)
    requires
        port.len() == 0 || (port[0] != 'u' && port[0] != 's'),
    ensures
        create_worker_spec(port) == Err::<WorkerSpec, WorkerError>(WorkerError::NoCompatibleWorker),
{
    reveal_strlit("udp");
    reveal_strlit("serial");
    if port.len() > 0 {
        assert("udp"@[0] == 'u');
        assert("serial"@[0] == 's');
    }
}

/// A running link that sends and receives packets.
pub trait Worker {
    /// Hands `buf` to the link; returns how many bytes were taken.
    fn send(&self, buf: Vec<u8>, timeout: Option<std::time::Duration>) -> Result<usize, WorkerError>;

    /// Waits for the next packet, at most `timeout` when one is given.
    fn receive(&self, timeout: Option<std::time::Duration>) -> Result<Vec<u8>, WorkerError>;

    /// Sets up a worker of this kind from a port description.
    fn create(port: &str) -> Result<Self, WorkerError> where Self: Sized;
}

} // verus!
