//! The test modes, and which device sends and which device checks each test
//! stream in a mode.

use vstd::prelude::*;
use crate::text::same_text;

verus! {

/// What a test run measures.
#[derive(Debug, Clone, Copy, PartialEq, Eq, Structural)]
pub enum Mode {
    /// Both directions at once: the first device to the second and back.
    Normal,
    /// From the first device to the second only.
    UpStream,
    /// From the second device to the first only.
    DownStream,
    /// The first device sends and receives its own data, which the far side
    /// echoes.
    Echo,
}

/// A test stream, each produced and checked by one generator.
#[derive(Debug, Clone, Copy, PartialEq, Eq, Structural)]
pub enum Stream {
    Upstream,
    Downstream,
    Echo,
}

/// The name of a stream's generator.
pub open spec fn stream_name(s: Stream) -> Seq<char> {
    match s {
        Stream::Upstream => "upstream"@,
        Stream::Downstream => "downstream"@,
        Stream::Echo => "echo"@,
    }
}

impl Stream {
    /// The name of the stream's generator.
    pub fn name(&self) -> (n: &'static str)
        ensures
            n@ == stream_name(*self),
    {
        match self {
            Stream::Upstream => "upstream",
            Stream::Downstream => "downstream",
            Stream::Echo => "echo",
        }
    }
}

/// The part one device plays: which of the two device descriptions it is
/// opened from, the stream it sends, and the stream it checks.
#[derive(Debug, Clone, Copy, PartialEq, Eq, Structural)]
pub struct DeviceRole {
    pub config: usize,
    pub tx: Option<Stream>,
    pub rx: Option<Stream>,
}

/// The devices to open and the streams they carry.
#[derive(Debug)]
pub struct RunPlan {
    /// The mode the run is made in.
    pub mode: Mode,
    /// The streams whose generators are made, one each.
    pub streams: Vec<Stream>,
    /// The devices, in the order they are opened.
    pub devices: Vec<DeviceRole>,
}

/// The streams of a mode.
pub open spec fn mode_streams(mode: Mode) -> Seq<Stream> {
    match mode {
        Mode::Normal => seq![Stream::Upstream, Stream::Downstream],
        Mode::UpStream => seq![Stream::Upstream],
        Mode::DownStream => seq![Stream::Downstream],
        Mode::Echo => seq![Stream::Echo],
    }
}

/// The devices of a mode.
pub open spec fn mode_devices(mode: Mode) -> Seq<DeviceRole> {
    match mode {
        Mode::Normal => seq![
            DeviceRole { config: 0, tx: Some(Stream::Upstream), rx: Some(Stream::Downstream) },
            DeviceRole { config: 1, tx: Some(Stream::Downstream), rx: Some(Stream::Upstream) },
        ],
        Mode::UpStream => seq![
            DeviceRole { config: 0, tx: Some(Stream::Upstream), rx: None },
            DeviceRole { config: 1, tx: None, rx: Some(Stream::Upstream) },
        ],
        Mode::DownStream => seq![
            DeviceRole { config: 0, tx: None, rx: Some(Stream::Downstream) },
            DeviceRole { config: 1, tx: Some(Stream::Downstream), rx: None },
        ],
        Mode::Echo => seq![
            DeviceRole { config: 0, tx: Some(Stream::Echo), rx: Some(Stream::Echo) },
        ],
    }
}

/// The mode a run is made in: `echo` in place of the second device
/// description selects echo mode, whatever mode was asked for.
pub open spec fn run_mode(mode: Mode, second_config: Seq<char>) -> Mode {
    if second_config == "echo"@ {
        Mode::Echo
    } else {
        mode
    }
}

/// The plan of a test run asked for in `mode`, where `second_config` is the
/// second device description.
pub fn plan_run(mode: Mode, second_config: &str) -> (p: RunPlan)
    ensures
        p.mode == run_mode(mode, second_config@),
        p.streams@ == mode_streams(run_mode(mode, second_config@)),
        p.devices@ == mode_devices(run_mode(mode, second_config@)),
{
    let mode = if same_text(second_config, "echo") {
        Mode::Echo
    } else {
        mode
    };
    let p = match mode {
        Mode::Normal => RunPlan {
            mode,
            streams: vec![Stream::Upstream, Stream::Downstream],
            devices: vec![
                DeviceRole { config: 0, tx: Some(Stream::Upstream), rx: Some(Stream::Downstream) },
                DeviceRole { config: 1, tx: Some(Stream::Downstream), rx: Some(Stream::Upstream) },
            ],
        },
        Mode::UpStream => RunPlan {
            mode,
            streams: vec![Stream::Upstream],
            devices: vec![
                DeviceRole { config: 0, tx: Some(Stream::Upstream), rx: None },
                DeviceRole { config: 1, tx: None, rx: Some(Stream::Upstream) },
            ],
        },
        Mode::DownStream => RunPlan {
            mode,
            streams: vec![Stream::Downstream],
            devices: vec![
                DeviceRole { config: 0, tx: None, rx: Some(Stream::Downstream) },
                DeviceRole { config: 1, tx: Some(Stream::Downstream), rx: None },
            ],
        },
        Mode::Echo => RunPlan {
            mode,
            streams: vec![Stream::Echo],
            devices: vec![DeviceRole { config: 0, tx: Some(Stream::Echo), rx: Some(Stream::Echo) }],
        },
    };
    assert(p.streams@ =~= mode_streams(mode));
    assert(p.devices@ =~= mode_devices(mode));
    p
}

/// Every stream of a mode is sent by exactly one device and checked by
/// exactly one device; no device uses a stream the mode does not make; each
/// device is opened from a distinct one of the two descriptions; and except
/// in echo mode, a stream is checked on a different device than the one that
/// sends it, so it crosses the link under test.
pub proof fn lemma_plan_wiring(mode: Mode)
    ensures
        ({
            let streams = mode_streams(mode);
            let devices = mode_devices(mode);
            &&& forall|s: Stream| #[trigger] streams.contains(s) ==> {
                &&& exists|i: int| 0 <= i < devices.len() && devices[i].tx == Some(s)
                &&& exists|i: int| 0 <= i < devices.len() && devices[i].rx == Some(s)
                &&& forall|i: int, j: int|
                    0 <= i < devices.len() && 0 <= j < devices.len() && devices[i].tx == Some(s)
                        && devices[j].tx == Some(s) ==> i == j
                &&& forall|i: int, j: int|
                    0 <= i < devices.len() && 0 <= j < devices.len() && devices[i].rx == Some(s)
                        && devices[j].rx == Some(s) ==> i == j
                &&& mode != Mode::Echo ==> forall|i: int, j: int|
                    0 <= i < devices.len() && 0 <= j < devices.len() && devices[i].tx == Some(s)
                        && devices[j].rx == Some(s) ==> i != j
            }
            &&& forall|i: int| #![trigger devices[i]]
                0 <= i < devices.len() ==> {
                    &&& devices[i].tx matches Some(s) ==> streams.contains(s)
                    &&& devices[i].rx matches Some(s) ==> streams.contains(s)
                    &&& devices[i].config == i
                    &&& devices[i].config < 2
                }
            &&& forall|i: int, j: int|
                0 <= i < streams.len() && 0 <= j < streams.len() && i != j ==> streams[i] != streams[j]
        }),
{
    let streams = mode_streams(mode);
    let devices = mode_devices(mode);
    assert forall|s: Stream| #[trigger] streams.contains(s) implies {
        &&& exists|i: int| 0 <= i < devices.len() && devices[i].tx == Some(s)
        &&& exists|i: int| 0 <= i < devices.len() && devices[i].rx == Some(s)
    } by {
        let k = choose|k: int| 0 <= k < streams.len() && streams[k] == s;
        match mode {
            Mode::Normal => {
                if s == Stream::Upstream {
                    assert(devices[0].tx == Some(s));
                    assert(devices[1].rx == Some(s));
                } else {
                    assert(devices[1].tx == Some(s));
                    assert(devices[0].rx == Some(s));
                }
            },
            Mode::UpStream => {
                assert(devices[0].tx == Some(s));
                assert(devices[1].rx == Some(s));
            },
            Mode::DownStream => {
                assert(devices[1].tx == Some(s));
                assert(devices[0].rx == Some(s));
            },
            Mode::Echo => {
                assert(devices[0].tx == Some(s));
                assert(devices[0].rx == Some(s));
            },
        }
    }
    assert forall|i: int| #![trigger devices[i]] 0 <= i < devices.len() implies {
        &&& devices[i].tx matches Some(s) ==> streams.contains(s)
        &&& devices[i].rx matches Some(s) ==> streams.contains(s)
    } by {
        match mode {
            Mode::Normal => {
                assert(streams[0] == Stream::Upstream);
                assert(streams[1] == Stream::Downstream);
            },
            _ => {
                assert(streams[0] == streams[0]);
            },
        }
    }
}

/// `echo` in place of the second device description makes a run in echo
/// mode: one device, opened from the first description, checks the stream it
/// sends itself, and the second description is never opened.
pub proof fn lemma_echo_placeholder(mode: Mode)
    ensures
        run_mode(mode, "echo"@) == Mode::Echo,
        mode_streams(run_mode(mode, "echo"@)) == seq![Stream::Echo],
        mode_devices(run_mode(mode, "echo"@)) == seq![
            DeviceRole { config: 0, tx: Some(Stream::Echo), rx: Some(Stream::Echo) },
        ],
{
}

/// Whether some device opened from description `from` sends stream `s` and
/// some device opened from description `to` checks it.
pub open spec fn carries(devices: Seq<DeviceRole>, s: Stream, from: usize, to: usize) -> bool {
    &&& exists|i: int| 0 <= i < devices.len() && devices[i].tx == Some(s) && devices[i].config == from
    &&& exists|j: int| 0 <= j < devices.len() && devices[j].rx == Some(s) && devices[j].config == to
}

/// The mode asked for is the mode of the run unless the second description
/// is `echo`; and each mode tests the directions its name says: normal mode
/// from the first device to the second and back, upstream only from the
/// first to the second, downstream only from the second to the first, echo
/// from the first device back to itself.
pub proof fn lemma_modes_test_their_directions(mode: Mode, second_config: Seq<char>)
    ensures
        second_config != "echo"@ ==> run_mode(mode, second_config) == mode,
        mode_streams(Mode::Normal).len() == 2,
        carries(mode_devices(Mode::Normal), Stream::Upstream, 0, 1),
        carries(mode_devices(Mode::Normal), Stream::Downstream, 1, 0),
        mode_streams(Mode::UpStream) == seq![Stream::Upstream],
        carries(mode_devices(Mode::UpStream), Stream::Upstream, 0, 1),
        mode_streams(Mode::DownStream) == seq![Stream::Downstream],
        carries(mode_devices(Mode::DownStream), Stream::Downstream, 1, 0),
        mode_streams(Mode::Echo) == seq![Stream::Echo],
        carries(mode_devices(Mode::Echo), Stream::Echo, 0, 0),
{
    let n = mode_devices(Mode::Normal);
    assert(n[0].tx == Some(Stream::Upstream) && n[0].config == 0);
    assert(n[1].rx == Some(Stream::Upstream) && n[1].config == 1);
    assert(n[1].tx == Some(Stream::Downstream) && n[1].config == 1);
    assert(n[0].rx == Some(Stream::Downstream) && n[0].config == 0);
    let u = mode_devices(Mode::UpStream);
    assert(u[0].tx == Some(Stream::Upstream) && u[0].config == 0);
    assert(u[1].rx == Some(Stream::Upstream) && u[1].config == 1);
    let d = mode_devices(Mode::DownStream);
    assert(d[1].tx == Some(Stream::Downstream) && d[1].config == 1);
    assert(d[0].rx == Some(Stream::Downstream) && d[0].config == 0);
    let e = mode_devices(Mode::Echo);
    assert(e[0].tx == Some(Stream::Echo) && e[0].config == 0);
    assert(e[0].rx == Some(Stream::Echo) && e[0].config == 0);
}

} // verus!
