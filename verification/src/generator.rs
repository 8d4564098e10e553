//! The test stream: a generator that first sends a synchronization marker,
//! waits until the far side has seen it, then sends random chunks and checks
//! that what comes back is exactly what it sent, in order.

use vstd::prelude::*;
use rand::Rng;

verus! {

/// How far a generator has come through its handshake.
#[derive(Debug, Clone, Copy, PartialEq, Eq, Structural)]
pub enum Phase {
    /// The synchronization marker has not been sent yet.
    SendSync,
    /// The marker was sent; the receiving side has not seen it yet.
    AwaitSync,
    /// The marker arrived; random data flows and is checked.
    Streaming,
}

/// The number of random bytes in each chunk once data flows.
pub const CHUNK_LEN: usize = 1000;

/// The bytes of the synchronization marker, the ASCII text `sync`.
pub open spec fn sync_marker() -> Seq<u8> {
    seq![115u8, 121u8, 110u8, 99u8]
}

/// Whether `data` ends with the synchronization marker.
pub open spec fn ends_with_sync(data: Seq<u8>) -> bool {
    data.len() >= 4 && data.subrange(data.len() - 4, data.len() as int) == sync_marker()
}

/// The mathematical value of a generator: its name, its phase, and the bytes
/// it has sent that have not been checked yet, oldest first.
pub struct GeneratorView {
    pub name: Seq<char>,
    pub phase: Phase,
    pub queue: Seq<u8>,
}

/// A generator named `name` that has done nothing yet.
pub open spec fn initial_view(name: Seq<char>) -> GeneratorView {
    GeneratorView { name, phase: Phase::SendSync, queue: Seq::empty() }
}

/// One call of `generate` from state `s`, where `fresh` are the random bytes
/// drawn for it: the next state and the bytes to send.
pub open spec fn generate_step(s: GeneratorView, fresh: Seq<u8>) -> (GeneratorView, Seq<u8>) {
    match s.phase {
        Phase::SendSync => (GeneratorView { phase: Phase::AwaitSync, ..s }, sync_marker()),
        Phase::AwaitSync => (s, Seq::empty()),
        Phase::Streaming => (GeneratorView { queue: s.queue + fresh, ..s }, fresh),
    }
}

/// Whether `validate` may be called on `data` in state `s`: once data flows,
/// no more bytes can be checked than have been sent.
pub open spec fn validate_allowed(s: GeneratorView, data: Seq<u8>) -> bool {
    s.phase == Phase::Streaming ==> data.len() <= s.queue.len()
}

/// One call of `validate` on received `data` in state `s`: the next state and
/// the verdict. Before data flows every input is accepted; the marker at the
/// end of a read completes the handshake. Once data flows, the oldest unchecked
/// bytes are consumed and must equal `data`.
pub open spec fn validate_step(s: GeneratorView, data: Seq<u8>) -> (GeneratorView, bool) {
    match s.phase {
        Phase::SendSync => (s, true),
        Phase::AwaitSync => if ends_with_sync(data) {
            (GeneratorView { phase: Phase::Streaming, ..s }, true)
        } else {
            (s, true)
        },
        Phase::Streaming => (
            GeneratorView { queue: s.queue.skip(data.len() as int), ..s },
            data == s.queue.take(data.len() as int),
        ),
    }
}

/// The order of the phases.
pub open spec fn phase_rank(p: Phase) -> nat {
    match p {
        Phase::SendSync => 0,
        Phase::AwaitSync => 1,
        Phase::Streaming => 2,
    }
}

/// The handshake: the bytes a fresh generator hands out first are accepted
/// when they come back, and they bring it to the streaming phase with nothing
/// else changed.
pub proof fn lemma_handshake(s: GeneratorView, fresh: Seq<u8>)
    requires
        s.phase == Phase::SendSync,
    ensures
        ({
            let (s1, out) = generate_step(s, fresh);
            let (s2, ok) = validate_step(s1, out);
            &&& validate_allowed(s1, out)
            &&& ok
            &&& s2 == GeneratorView { phase: Phase::Streaming, ..s }
        }),
{
    assert(sync_marker().subrange(0, 4) =~= sync_marker());
}

/// The verdict once data flows: a read is accepted exactly when every byte
/// of it equals the byte sent at the same place among the oldest unchecked
/// bytes, so a read that differs from what was sent in any bit of any byte
/// is rejected. Either way those bytes are dropped and the later ones stay
/// queued, in order.
pub proof fn lemma_streaming_verdict(s: GeneratorView, data: Seq<u8>)
    requires
        s.phase == Phase::Streaming,
        data.len() <= s.queue.len(),
    ensures
        validate_step(s, data).1 <==> (forall|i: int|
            0 <= i < data.len() ==> #[trigger] data[i] == s.queue[i]),
        validate_step(s, data).0.phase == Phase::Streaming,
        validate_step(s, data).0.name == s.name,
        validate_step(s, data).0.queue.len() == s.queue.len() - data.len(),
        forall|i: int|
            0 <= i < s.queue.len() - data.len() ==> #[trigger] validate_step(s, data).0.queue[i]
                == s.queue[i + data.len()],
{
    let n = data.len() as int;
    if forall|i: int| 0 <= i < n ==> #[trigger] data[i] == s.queue[i] {
        assert(data =~= s.queue.take(n));
    }
}

/// The handshake on the wire: a generator that has not sent the marker yet
/// sends the four ASCII bytes `s`, `y`, `n`, `c`; while it waits for them to
/// come back, a read completes the handshake exactly when its last four bytes
/// are those, and otherwise changes nothing.
pub proof fn lemma_handshake_bytes(s: GeneratorView, fresh: Seq<u8>, data: Seq<u8>)
    ensures
        s.phase == Phase::SendSync ==> generate_step(s, fresh).1 == seq![115u8, 121u8, 110u8, 99u8],
        s.phase == Phase::SendSync ==> generate_step(s, fresh).0 == (GeneratorView {
            phase: Phase::AwaitSync,
            ..s
        }),
        s.phase == Phase::AwaitSync ==> generate_step(s, fresh).1.len() == 0
            && generate_step(s, fresh).0 == s,
        s.phase == Phase::SendSync ==> validate_step(s, data) == (s, true),
        s.phase == Phase::AwaitSync ==> ({
            let n = data.len() as int;
            let seen = n >= 4 && data[n - 4] == 115u8 && data[n - 3] == 121u8 && data[n - 2]
                == 110u8 && data[n - 1] == 99u8;
            &&& validate_step(s, data).1
            &&& (seen ==> validate_step(s, data).0 == (GeneratorView {
                phase: Phase::Streaming,
                ..s
            }))
            &&& (!seen ==> validate_step(s, data).0 == s)
        }),
{
    let n = data.len() as int;
    if n >= 4 {
        let tail = data.subrange(n - 4, n);
        if data[n - 4] == 115u8 && data[n - 3] == 121u8 && data[n - 2] == 110u8 && data[n - 1]
            == 99u8 {
            assert(tail =~= sync_marker());
        } else {
            assert(tail[0] == data[n - 4]);
            assert(tail[1] == data[n - 3]);
            assert(tail[2] == data[n - 2]);
            assert(tail[3] == data[n - 1]);
        }
    }
}

/// Once data flows, `generate` sends exactly the bytes drawn for it and
/// queues them after the bytes still unchecked.
pub proof fn lemma_streaming_generate(s: GeneratorView, fresh: Seq<u8>)
    requires
        s.phase == Phase::Streaming,
    ensures
        generate_step(s, fresh).1 == fresh,
        generate_step(s, fresh).0.phase == Phase::Streaming,
        generate_step(s, fresh).0.name == s.name,
        generate_step(s, fresh).0.queue.len() == s.queue.len() + fresh.len(),
        forall|i: int|
            0 <= i < s.queue.len() ==> #[trigger] generate_step(s, fresh).0.queue[i] == s.queue[i],
        forall|i: int|
            0 <= i < fresh.len() ==> #[trigger] generate_step(s, fresh).0.queue[s.queue.len() + i]
                == fresh[i],
{
}

/// The round trip: once data flows, the bytes still unchecked and then a new
/// chunk, received back in order, are both accepted, and afterwards nothing is
/// left unchecked.
pub proof fn lemma_round_trip(s: GeneratorView, fresh: Seq<u8>)
    requires
        s.phase == Phase::Streaming,
    ensures
        ({
            let (s1, out) = generate_step(s, fresh);
            let (s2, ok1) = validate_step(s1, s.queue);
            let (s3, ok2) = validate_step(s2, out);
            &&& validate_allowed(s1, s.queue)
            &&& validate_allowed(s2, out)
            &&& ok1
            &&& ok2
            &&& s3 == GeneratorView { queue: Seq::<u8>::empty(), ..s }
        }),
{
    let q = s.queue;
    let q1 = q + fresh;
    assert(q1.take(q.len() as int) =~= q);
    assert(q1.skip(q.len() as int) =~= fresh);
    assert(fresh.take(fresh.len() as int) =~= fresh);
    assert(fresh.skip(fresh.len() as int) =~= Seq::<u8>::empty());
}

/// Reads of any size: once data flows, checking `a` and then `b` gives the
/// same final state as checking `a + b` in one read, and both reads are
/// accepted exactly when the single read is.
pub proof fn lemma_split_reads(s: GeneratorView, a: Seq<u8>, b: Seq<u8>)
    requires
        s.phase == Phase::Streaming,
        a.len() + b.len() <= s.queue.len(),
    ensures
        validate_allowed(s, a),
        validate_allowed(validate_step(s, a).0, b),
        validate_allowed(s, a + b),
        validate_step(validate_step(s, a).0, b).0 == validate_step(s, a + b).0,
        (validate_step(s, a).1 && validate_step(validate_step(s, a).0, b).1) == validate_step(
            s,
            a + b,
        ).1,
{
    let q = s.queue;
    let la = a.len() as int;
    let lb = b.len() as int;
    assert(q.skip(la).skip(lb) =~= q.skip(la + lb));
    assert(q.take(la + lb).take(la) =~= q.take(la));
    assert(q.take(la + lb).skip(la) =~= q.skip(la).take(lb));
    assert((a + b).take(la) =~= a);
    assert((a + b).skip(la) =~= b);
    if a == q.take(la) && b == q.skip(la).take(lb) {
        assert(a + b =~= q.take(la + lb));
    }
    if a + b == q.take(la + lb) {
        assert(a =~= q.take(la));
        assert(b =~= q.skip(la).take(lb));
    }
}

/// Phases only move forward, and a generator keeps its name: only
/// `generate` leaves the first phase (by sending the marker), and only
/// `validate` starts the streaming phase (by seeing the marker come back).
pub proof fn lemma_phase_monotone(s: GeneratorView, fresh: Seq<u8>, data: Seq<u8>)
    ensures
        phase_rank(generate_step(s, fresh).0.phase) >= phase_rank(s.phase),
        phase_rank(validate_step(s, data).0.phase) >= phase_rank(s.phase),
        generate_step(s, fresh).0.name == s.name,
        validate_step(s, data).0.name == s.name,
        s.phase != Phase::Streaming ==> generate_step(s, fresh).0.phase != Phase::Streaming,
        s.phase == Phase::SendSync ==> validate_step(s, data).0.phase == Phase::SendSync,
{
}

/// Before data flows nothing received is rejected, and the generator keeps
/// nothing queued: a state with an empty queue before streaming keeps that
/// property through both steps.
pub proof fn lemma_handshake_keeps_queue_empty(s: GeneratorView, fresh: Seq<u8>, data: Seq<u8>)
    requires
        s.phase != Phase::Streaming ==> s.queue.len() == 0,
    ensures
        s.phase != Phase::Streaming ==> validate_step(s, data).1,
        generate_step(s, fresh).0.phase != Phase::Streaming ==> generate_step(s, fresh).0.queue.len()
            == 0,
        validate_step(s, data).0.phase != Phase::Streaming ==> validate_step(s, data).0.queue.len()
            == 0,
{
}

/// Nothing is queued before data flows.
pub open spec fn queue_empty_before_streaming(s: GeneratorView) -> bool {
    s.phase != Phase::Streaming ==> s.queue.len() == 0
}

/// A call made on a generator: `generate` with the random bytes drawn for
/// it, or `validate` on received data.
pub enum GeneratorCall {
    Generate(Seq<u8>),
    Validate(Seq<u8>),
}

/// The state after one call.
pub open spec fn apply_call(s: GeneratorView, call: GeneratorCall) -> GeneratorView {
    match call {
        GeneratorCall::Generate(fresh) => generate_step(s, fresh).0,
        GeneratorCall::Validate(data) => validate_step(s, data).0,
    }
}

/// The state after a sequence of calls, first call first.
pub open spec fn apply_calls(s: GeneratorView, calls: Seq<GeneratorCall>) -> GeneratorView
    decreases calls.len(),
{
    if calls.len() == 0 {
        s
    } else {
        apply_call(apply_calls(s, calls.drop_last()), calls.last())
    }
}

/// Any sequence of calls on a fresh generator: the name never changes,
/// nothing is queued before data flows, and the phase never goes back.
pub proof fn lemma_reachable_generators(name: Seq<char>, calls: Seq<GeneratorCall>)
    ensures
        apply_calls(initial_view(name), calls).name == name,
        queue_empty_before_streaming(apply_calls(initial_view(name), calls)),
        forall|i: int, j: int|
            0 <= i <= j <= calls.len() ==> phase_rank(
                #[trigger] apply_calls(initial_view(name), calls.take(i)).phase,
            ) <= phase_rank(#[trigger] apply_calls(initial_view(name), calls.take(j)).phase),
    decreases calls.len(),
{
    let init = initial_view(name);
    if calls.len() > 0 {
        let prev = calls.drop_last();
        lemma_reachable_generators(name, prev);
        let s = apply_calls(init, prev);
        match calls.last() {
            GeneratorCall::Generate(fresh) => {
                lemma_phase_monotone(s, fresh, Seq::empty());
                lemma_handshake_keeps_queue_empty(s, fresh, Seq::empty());
            },
            GeneratorCall::Validate(data) => {
                lemma_phase_monotone(s, Seq::empty(), data);
                lemma_handshake_keeps_queue_empty(s, Seq::empty(), data);
            },
        }
        assert forall|i: int, j: int| 0 <= i <= j <= calls.len() implies phase_rank(
            #[trigger] apply_calls(init, calls.take(i)).phase,
        ) <= phase_rank(#[trigger] apply_calls(init, calls.take(j)).phase) by {
            assert(calls.take(calls.len() as int) =~= calls);
            if j < calls.len() {
                assert(prev.take(i) =~= calls.take(i));
                assert(prev.take(j) =~= calls.take(j));
            } else if i < calls.len() {
                assert(prev.take(i) =~= calls.take(i));
                assert(prev.take(prev.len() as int) =~= prev);
            }
        }
    } else {
        assert forall|i: int, j: int| 0 <= i <= j <= calls.len() implies phase_rank(
            #[trigger] apply_calls(init, calls.take(i)).phase,
        ) <= phase_rank(#[trigger] apply_calls(init, calls.take(j)).phase) by {
            assert(calls.take(i) =~= calls);
            assert(calls.take(j) =~= calls);
        }
    }
}

/// Produces test data and checks what comes back.
pub struct Generator {
    name: String,
    queue: Vec<u8>,
    phase: Phase,
}

impl Generator {
    /// Nothing is queued before data flows.
    #[verifier::type_invariant]
    spec fn queue_empty_until_streaming(self) -> bool {
        self.phase != Phase::Streaming ==> self.queue@.len() == 0
    }
}

impl View for Generator {
    type V = GeneratorView;

    closed spec fn view(&self) -> GeneratorView {
        GeneratorView { name: self.name@, phase: self.phase, queue: self.queue@ }
    }
}

/// The random number generator of the current thread, seeded by the system.
#[verifier::external_type_specification]
#[verifier::external_body]
pub struct ExThreadRng(rand::rngs::ThreadRng);

/// Calls `rand::thread_rng`. Nothing is claimed of the generator it hands
/// back; it panics only where the system cannot seed it.
#[verifier::external_body]
fn thread_rng() -> rand::rngs::ThreadRng {
    rand::thread_rng()
}

/// Calls `Rng::sample` with the `Standard` distribution for one byte. The
/// byte is random: no clause states its value, any `u8` may come back.
#[verifier::external_body]
fn random_byte(rng: &mut rand::rngs::ThreadRng) -> u8 {
    rng.sample(rand::distributions::Standard)
}

/// `len` random bytes.
fn random_bytes(len: usize) -> (v: Vec<u8>)
    ensures
        v@.len() == len,
{
    let mut rng = thread_rng();
    let mut v: Vec<u8> = Vec::new();
    while v.len() < len
        invariant
            v@.len() <= len,
        decreases len - v@.len(),
    {
        let b = random_byte(&mut rng);
        v.push(b);
    }
    v
}

/// The synchronization marker as a byte vector.
fn sync_marker_bytes() -> (v: Vec<u8>)
    ensures
        v@ == sync_marker(),
{
    let v = vec![115u8, 121u8, 110u8, 99u8];
    assert(v@ =~= sync_marker());
    v
}

/// Whether `data` ends with the synchronization marker.
fn data_ends_with_sync(data: &[u8]) -> (b: bool)
    ensures
        b == ends_with_sync(data@),
{
    let n = data.len();
    if n < 4 {
        return false;
    }
    let marker = sync_marker_bytes();
    let mut i: usize = 0;
    while i < 4
        invariant
            n == data@.len(),
            n >= 4,
            marker@ == sync_marker(),
            i <= 4,
            forall|j: int| 0 <= j < i ==> data@[n - 4 + j] == sync_marker()[j],
        decreases 4 - i,
    {
        if data[n - 4 + i] != marker[i] {
            assert(data@.subrange(n - 4, n as int)[i as int] != sync_marker()[i as int]);
            return false;
        }
        i = i + 1;
    }
    assert(data@.subrange(n - 4, n as int) =~= sync_marker());
    true
}

impl Generator {
    /// A generator named `name`, about to send the synchronization marker.
    pub fn create(name: &str) -> (r: Result<Generator, std::convert::Infallible>)
        ensures
            r matches Ok(g) && g@ == initial_view(name@),
            r matches Ok(g) && queue_empty_before_streaming(g@),
    {
        Ok(Generator { name: name.to_owned(), queue: Vec::new(), phase: Phase::SendSync })
    }

    /// The generator's name.
    pub fn name(&self) -> (n: &str)
        ensures
            n@ == self@.name,
    {
        self.name.as_str()
    }

    /// How far the handshake has come.
    pub fn phase(&self) -> (p: Phase)
        ensures
            p == self@.phase,
            queue_empty_before_streaming(self@),
    {
        proof {
            use_type_invariant(self);
        }
        self.phase
    }

    /// How many sent bytes are still unchecked.
    pub fn queued_len(&self) -> (n: usize)
        ensures
            n == self@.queue.len(),
            queue_empty_before_streaming(self@),
    {
        proof {
            use_type_invariant(self);
        }
        self.queue.len()
    }

    /// The next bytes to send, given the random bytes `fresh` drawn for them
    /// (used only once data flows).
    pub fn next_chunk(&mut self, fresh: Vec<u8>) -> (out: Vec<u8>)
        ensures
            (final(self)@, out@) == generate_step(old(self)@, fresh@),
            queue_empty_before_streaming(final(self)@),
    {
        proof {
            use_type_invariant(&*self);
        }
        match self.phase {
            Phase::SendSync => {
                self.phase = Phase::AwaitSync;
                sync_marker_bytes()
            },
            Phase::AwaitSync => Vec::new(),
            Phase::Streaming => {
                let mut copy = fresh.clone();
                assert(copy@ =~= fresh@);
                let mut queue: Vec<u8> = Vec::new();
                std::mem::swap(&mut queue, &mut self.queue);
                queue.append(&mut copy);
                self.queue = queue;
                fresh
            },
        }
    }

    /// The next bytes to send: the marker first, nothing while the far side
    /// has not seen it, then `CHUNK_LEN` random bytes at a time, which are
    /// remembered until checked.
    pub fn generate(&mut self) -> (out: Vec<u8>)
        ensures
            (final(self)@, out@) == generate_step(old(self)@, out@),
            old(self)@.phase == Phase::Streaming ==> out@.len() == CHUNK_LEN,
            queue_empty_before_streaming(final(self)@),
    {
        let fresh = if self.phase == Phase::Streaming {
            random_bytes(CHUNK_LEN)
        } else {
            Vec::new()
        };
        let out = self.next_chunk(fresh);
        out
    }

    /// Checks received `data`. Before data flows it always answers `true`,
    /// and the marker at the end of `data` completes the handshake; then it
    /// answers whether `data` equals the oldest unchecked bytes sent, and
    /// drops them.
    pub fn validate(&mut self, data: &[u8]) -> (ok: bool)
        requires
            validate_allowed(old(self)@, data@),
        ensures
            (final(self)@, ok) == validate_step(old(self)@, data@),
            queue_empty_before_streaming(final(self)@),
    {
        proof {
            use_type_invariant(&*self);
        }
        match self.phase {
            Phase::SendSync => true,
            Phase::AwaitSync => {
                if data_ends_with_sync(data) {
                    self.phase = Phase::Streaming;
                }
                true
            },
            Phase::Streaming => {
                let n = data.len();
                let mut reference: Vec<u8> = Vec::new();
                std::mem::swap(&mut reference, &mut self.queue);
                let rest = reference.split_off(n);
                self.queue = rest;
                assert(reference@ =~= old(self)@.queue.take(n as int));
                assert(self.queue@ =~= old(self)@.queue.skip(n as int));
                let mut i: usize = 0;
                while i < n
                    invariant
                        n == data@.len(),
                        old(self)@.phase == Phase::Streaming,
                        self@ == validate_step(old(self)@, data@).0,
                        reference@ == old(self)@.queue.take(n as int),
                        reference@.len() == n,
                        i <= n,
                        forall|j: int| 0 <= j < i ==> reference@[j] == data@[j],
                    decreases n - i,
                {
                    if reference[i] != data[i] {
                        assert(reference@[i as int] != data@[i as int]);
                        assert(reference@ != data@);
                        return false;
                    }
                    i = i + 1;
                }
                assert(reference@ =~= data@);
                true
            },
        }
    }
}

impl Default for Generator {
    fn default() -> (g: Generator)
        ensures
            g@ == initial_view(Seq::empty()),
            queue_empty_before_streaming(g@),
    {
        Generator { name: String::new(), queue: Vec::new(), phase: Phase::SendSync }
    }
}

} // verus!
