//! Animation sequences: lists of frame descriptors, read either as stored
//! or by following the jumps the way the engine plays them.

use std::collections::{HashMap, HashSet};
use vstd::prelude::*;

use super::super::error::{DvFileError, FileType};
use super::super::show::append_decimal;
use super::super::text::decimal;
use super::constants::{EVENT_MARKER, FRAME_DESCRIPTOR_SIZE};
use super::frame::{descriptor_at, descriptor_bytes, lemma_descriptor_roundtrip, FrameDescriptor};
use super::parse_config::ParseConfig;
use vstd::string::StringExecFns;

verus! {

broadcast use vstd::std_specs::hash::group_hash_axioms;

/// What parsing an animation sequence saw.
#[derive(Debug, Clone, Copy, PartialEq, Eq)]
pub struct SequenceParseStats {
    /// Bytes of the distinct descriptor positions read
    pub bytes_consumed: usize,
    /// Number of distinct descriptor positions read
    pub unique_frame_positions: usize,
    /// Whether parsing stopped at an end marker
    pub terminated_by_end_marker: bool,
    /// Whether parsing stopped because a position was visited too often
    pub loop_detected: bool,
}

impl SequenceParseStats {
    /// Whether parsing stopped at an end marker without a loop.
    pub fn ended_cleanly(&self) -> (r: bool)
        ensures
            r == (self.terminated_by_end_marker && !self.loop_detected),
    {
        self.terminated_by_end_marker && !self.loop_detected
    }
}

/// The bytes of a list of descriptors.
pub open spec fn descriptors_bytes(fs: Seq<FrameDescriptor>) -> Seq<u8>
    decreases fs.len(),
{
    if fs.len() == 0 {
        Seq::empty()
    } else {
        descriptors_bytes(fs.drop_last()) + descriptor_bytes(fs.last())
    }
}

/// The bytes of `n` descriptors are `4 * n` bytes.
pub proof fn lemma_descriptors_bytes_len(fs: Seq<FrameDescriptor>)
    ensures
        descriptors_bytes(fs).len() == FRAME_DESCRIPTOR_SIZE * fs.len(),
    decreases fs.len(),
{
    if fs.len() > 0 {
        lemma_descriptors_bytes_len(fs.drop_last());
    }
}

/// The descriptors stored from `off` on, up to and including the first end
/// marker; or the number of bytes that were needed to read the next
/// descriptor, if the data ends first.
pub open spec fn raw_descriptors(data: Seq<u8>, off: int) -> Result<Seq<FrameDescriptor>, int>
    decreases data.len() - off,
{
    if off < 0 || off + FRAME_DESCRIPTOR_SIZE > data.len() {
        Err(off + FRAME_DESCRIPTOR_SIZE)
    } else if descriptor_at(data, off) is End {
        Ok(seq![FrameDescriptor::End])
    } else {
        match raw_descriptors(data, off + FRAME_DESCRIPTOR_SIZE) {
            Ok(rest) => Ok(seq![descriptor_at(data, off)] + rest),
            Err(n) => Err(n),
        }
    }
}

/// Whether a list of descriptors reads back as stored: it ends with its
/// only end marker, and no frame id is one of the marker values.
pub open spec fn is_stored_form(fs: Seq<FrameDescriptor>) -> bool {
    &&& fs.len() > 0
    &&& fs.last() is End
    &&& forall|i: int| 0 <= i < fs.len() - 1 ==> !(#[trigger] fs[i] is End)
    &&& forall|i: int|
        0 <= i < fs.len() ==> ((#[trigger] fs[i]) matches FrameDescriptor::Frame { frame_id, .. }
            ==> frame_id < EVENT_MARKER)
}

/// The bytes of two lists one after the other.
pub proof fn lemma_descriptors_bytes_add(a: Seq<FrameDescriptor>, b: Seq<FrameDescriptor>)
    ensures
        descriptors_bytes(a + b) == descriptors_bytes(a) + descriptors_bytes(b),
    decreases b.len(),
{
    if b.len() == 0 {
        assert(a + b =~= a);
        assert(descriptors_bytes(a) + descriptors_bytes(b) =~= descriptors_bytes(a));
    } else {
        lemma_descriptors_bytes_add(a, b.drop_last());
        assert((a + b).drop_last() =~= a + b.drop_last());
        assert(descriptors_bytes(a + b) =~= descriptors_bytes(a) + descriptors_bytes(b));
    }
}

/// Data holding the bytes of a stored-form list at `off` reads back as
/// that list from `off`.
pub proof fn lemma_raw_descriptors_of(data: Seq<u8>, off: int, fs: Seq<FrameDescriptor>)
    requires
        0 <= off,
        off + FRAME_DESCRIPTOR_SIZE * fs.len() <= data.len(),
        data.subrange(off, off + FRAME_DESCRIPTOR_SIZE * fs.len()) == descriptors_bytes(fs),
        is_stored_form(fs),
    ensures
        raw_descriptors(data, off) == Ok::<Seq<FrameDescriptor>, int>(fs),
    decreases fs.len(),
{
    let d = fs[0];
    let rest = fs.drop_first();
    assert(fs =~= seq![d] + rest);
    lemma_descriptors_bytes_add(seq![d], rest);
    assert(descriptors_bytes(seq![d]) =~= descriptor_bytes(d)) by {
        assert(seq![d].drop_last() =~= Seq::<FrameDescriptor>::empty());
        assert(seq![d].last() == d);
        assert(descriptors_bytes(Seq::<FrameDescriptor>::empty()) =~= Seq::<u8>::empty());
        assert(descriptors_bytes(seq![d]) == descriptors_bytes(seq![d].drop_last())
            + descriptor_bytes(seq![d].last()));
    }
    lemma_descriptors_bytes_len(rest);
    let db = descriptor_bytes(d);
    assert(db.len() == 4);
    assert(descriptors_bytes(fs) == db + descriptors_bytes(rest));
    assert(data.subrange(off, off + 4) =~= (db + descriptors_bytes(rest)).subrange(0, 4));
    assert((db + descriptors_bytes(rest)).subrange(0, 4) =~= db);
    assert(fs[0] == d);
    lemma_descriptor_roundtrip(d, data, off);
    if fs.len() == 1 {
        assert(d is End);
    } else {
        assert(!(fs[0] is End));
        assert(data.subrange(off + 4, off + 4 + FRAME_DESCRIPTOR_SIZE * rest.len())
            =~= (db + descriptors_bytes(rest)).subrange(4, 4 + FRAME_DESCRIPTOR_SIZE * rest.len()));
        assert((db + descriptors_bytes(rest)).subrange(4, 4 + FRAME_DESCRIPTOR_SIZE * rest.len())
            =~= descriptors_bytes(rest));
        assert forall|i: int| 0 <= i < rest.len() - 1 implies !(#[trigger] rest[i] is End) by {
            assert(rest[i] == fs[i + 1]);
        }
        assert forall|i: int| 0 <= i < rest.len() implies ((#[trigger] rest[i]) matches FrameDescriptor::Frame {
            frame_id,
            ..
        } ==> frame_id < EVENT_MARKER) by {
            assert(rest[i] == fs[i + 1]);
        }
        lemma_raw_descriptors_of(data, off + 4, rest);
    }
}

/// Reading the bytes of a stored-form list as stored gives the list back.
pub proof fn lemma_raw_roundtrip(fs: Seq<FrameDescriptor>)
    requires
        is_stored_form(fs),
    ensures
        raw_descriptors(descriptors_bytes(fs), 0) == Ok::<Seq<FrameDescriptor>, int>(fs),
{
    lemma_descriptors_bytes_len(fs);
    assert(descriptors_bytes(fs).subrange(0, FRAME_DESCRIPTOR_SIZE * fs.len()) =~= descriptors_bytes(
        fs,
    ));
    lemma_raw_descriptors_of(descriptors_bytes(fs), 0, fs);
}

/// The state of the sequence simulation: the position, the number of
/// steps taken, the visits of each position, the positions read and the
/// descriptors collected.
pub type SimState = (int, int, Map<int, int>, Set<int>, Seq<FrameDescriptor>);

/// How a simulation ends: the descriptors and statistics, or a failure
/// (`None` for too many steps, or the bytes needed and available).
pub type SimOutcome = Result<(Seq<FrameDescriptor>, SequenceParseStats), Option<(int, int)>>;

/// The statistics for the positions read and how parsing stopped.
pub open spec fn stats_of(seen: Set<int>, ended: bool, looped: bool) -> SequenceParseStats {
    SequenceParseStats {
        bytes_consumed: (seen.len() * FRAME_DESCRIPTOR_SIZE) as usize,
        unique_frame_positions: seen.len() as usize,
        terminated_by_end_marker: ended,
        loop_detected: looped,
    }
}

/// The visits of a position so far.
pub open spec fn visits_of(visits: Map<int, int>, i: int) -> int {
    if visits.contains_key(i) {
        visits[i]
    } else {
        0
    }
}

/// One step of the simulation: count the step and the visit of the
/// position, read the descriptor there and act on it (stop at an end
/// marker, go to a jump's target, else go to the next position). `Ok`
/// carries the next state, `Err` the outcome.
pub open spec fn sim_step(data: Seq<u8>, cfg: ParseConfig, st: SimState) -> Result<SimState, SimOutcome> {
    let (i, steps, visits, seen, frames) = st;
    let v = visits_of(visits, i) + 1;
    if steps + 1 > cfg.max_iterations {
        Err(Err(None))
    } else if v > cfg.max_visits_per_index {
        Err(Ok((frames, stats_of(seen, false, true))))
    } else if FRAME_DESCRIPTOR_SIZE * i + FRAME_DESCRIPTOR_SIZE > data.len() {
        Err(Err(Some((FRAME_DESCRIPTOR_SIZE * i + FRAME_DESCRIPTOR_SIZE, data.len() as int))))
    } else {
        let d = descriptor_at(data, FRAME_DESCRIPTOR_SIZE * i);
        let seen2 = seen.insert(i);
        let visits2 = visits.insert(i, v);
        match d {
            FrameDescriptor::End => Err(Ok((frames.push(d), stats_of(seen2, true, false)))),
            FrameDescriptor::Jump { target } => Ok(
                (target as int, steps + 1, visits2, seen2, frames.push(d)),
            ),
            _ => Ok((i + 1, steps + 1, visits2, seen2, frames.push(d))),
        }
    }
}

/// The outcome of running the simulation for at most `fuel` steps.
pub open spec fn sim_run(data: Seq<u8>, cfg: ParseConfig, st: SimState, fuel: nat) -> SimOutcome
    decreases fuel,
{
    if fuel == 0 {
        Err(None)
    } else {
        match sim_step(data, cfg, st) {
            Ok(next) => sim_run(data, cfg, next, (fuel - 1) as nat),
            Err(outcome) => outcome,
        }
    }
}

/// The outcome of simulating the sequence in `data` from position 0; the
/// step limit ends every run within `max_iterations + 1` steps.
pub open spec fn simulate(data: Seq<u8>, cfg: ParseConfig) -> SimOutcome {
    sim_run(
        data,
        cfg,
        (0, 0, Map::empty(), Set::empty(), Seq::empty()),
        (cfg.max_iterations + 1) as nat,
    )
}

/// What reading descriptors as stored from `off` gives lies in the data,
/// one descriptor per position, ending with its only end marker.
pub proof fn lemma_raw_positions(data: Seq<u8>, off: int, fs: Seq<FrameDescriptor>)
    requires
        0 <= off,
        raw_descriptors(data, off) == Ok::<Seq<FrameDescriptor>, int>(fs),
    ensures
        fs.len() > 0,
        fs.last() is End,
        forall|j: int| 0 <= j < fs.len() - 1 ==> !(#[trigger] fs[j] is End),
        forall|j: int|
            0 <= j < fs.len() ==> off + FRAME_DESCRIPTOR_SIZE * j + FRAME_DESCRIPTOR_SIZE <= data.len()
                && descriptor_at(data, off + FRAME_DESCRIPTOR_SIZE * j) == #[trigger] fs[j],
    decreases data.len() - off,
{
    if descriptor_at(data, off) is End {
    } else {
        let rest = raw_descriptors(data, off + FRAME_DESCRIPTOR_SIZE)->Ok_0;
        lemma_raw_positions(data, off + FRAME_DESCRIPTOR_SIZE, rest);
        assert(fs == seq![descriptor_at(data, off)] + rest);
        assert forall|j: int| 0 <= j < fs.len() implies off + FRAME_DESCRIPTOR_SIZE * j
            + FRAME_DESCRIPTOR_SIZE <= data.len() && descriptor_at(data, off + FRAME_DESCRIPTOR_SIZE * j)
            == #[trigger] fs[j] by {
            if j > 0 {
                assert(fs[j] == rest[j - 1]);
            }
        }
        assert forall|j: int| 0 <= j < fs.len() - 1 implies !(#[trigger] fs[j] is End) by {
            if j > 0 {
                assert(fs[j] == rest[j - 1]);
            }
        }
    }
}

/// A simulation from position `i` of a list without jumps, each position
/// visited for the first time, collects the whole list.
proof fn lemma_sim_straight(
    data: Seq<u8>,
    cfg: ParseConfig,
    fs: Seq<FrameDescriptor>,
    i: int,
    visits: Map<int, int>,
    seen: Set<int>,
    fuel: nat,
)
    requires
        fs.len() > 0,
        fs.last() is End,
        forall|j: int| 0 <= j < fs.len() - 1 ==> !(#[trigger] fs[j] is End),
        forall|j: int| 0 <= j < fs.len() ==> !(#[trigger] fs[j] is Jump),
        forall|j: int|
            0 <= j < fs.len() ==> FRAME_DESCRIPTOR_SIZE * j + FRAME_DESCRIPTOR_SIZE <= data.len()
                && descriptor_at(data, FRAME_DESCRIPTOR_SIZE * j) == #[trigger] fs[j],
        0 <= i < fs.len(),
        fs.len() <= cfg.max_iterations,
        cfg.max_visits_per_index >= 1,
        forall|j: int| j >= i ==> !(#[trigger] visits.contains_key(j)),
        fuel >= fs.len() - i,
    ensures
        sim_run(data, cfg, (i, i, visits, seen, fs.subrange(0, i)), fuel) matches Ok((r, _)) && r == fs,
    decreases fuel,
{
    let d = fs[i];
    assert(descriptor_at(data, FRAME_DESCRIPTOR_SIZE * i) == d);
    assert(!visits.contains_key(i));
    assert(visits_of(visits, i) == 0);
    if d is End {
        assert(i == fs.len() - 1);
        assert(fs.subrange(0, i).push(d) =~= fs);
    } else {
        assert(fs.subrange(0, i).push(d) =~= fs.subrange(0, i + 1));
        let visits2 = visits.insert(i, 1);
        assert forall|j: int| j >= i + 1 implies !(#[trigger] visits2.contains_key(j)) by {}
        lemma_sim_straight(data, cfg, fs, i + 1, visits2, seen.insert(i), (fuel - 1) as nat);
    }
}

/// Following the jumps of a list read as stored, when it has none and at
/// most 5000 descriptors, gives the same list.
pub proof fn lemma_simulate_straight(data: Seq<u8>, fs: Seq<FrameDescriptor>)
    requires
        raw_descriptors(data, 0) == Ok::<Seq<FrameDescriptor>, int>(fs),
        forall|j: int| 0 <= j < fs.len() ==> !(#[trigger] fs[j] is Jump),
        fs.len() <= 5000,
    ensures
        simulate(data, ParseConfig::default_spec()) matches Ok((r, _)) && r == fs,
{
    lemma_raw_positions(data, 0, fs);
    assert forall|j: int| 0 <= j < fs.len() implies FRAME_DESCRIPTOR_SIZE * j + FRAME_DESCRIPTOR_SIZE
        <= data.len() && descriptor_at(data, FRAME_DESCRIPTOR_SIZE * j) == #[trigger] fs[j] by {
        assert(0 + FRAME_DESCRIPTOR_SIZE * j == FRAME_DESCRIPTOR_SIZE * j);
    }
    assert(fs.subrange(0, 0) =~= Seq::<FrameDescriptor>::empty());
    lemma_sim_straight(data, ParseConfig::default_spec(), fs, 0, Map::empty(), Set::empty(), 5001);
}

/// A simulation from position `i` of a list whose jumps each go to the
/// position right after them, each position visited for the first time,
/// collects the whole list and stops at its end marker.
proof fn lemma_sim_forward(
    data: Seq<u8>,
    cfg: ParseConfig,
    fs: Seq<FrameDescriptor>,
    i: int,
    visits: Map<int, int>,
    seen: Set<int>,
    fuel: nat,
)
    requires
        fs.len() > 0,
        fs.last() is End,
        forall|j: int| 0 <= j < fs.len() - 1 ==> !(#[trigger] fs[j] is End),
        forall|j: int|
            0 <= j < fs.len() ==> (#[trigger] fs[j] matches FrameDescriptor::Jump { target } ==> target
                == j + 1),
        forall|j: int|
            0 <= j < fs.len() ==> FRAME_DESCRIPTOR_SIZE * j + FRAME_DESCRIPTOR_SIZE <= data.len()
                && descriptor_at(data, FRAME_DESCRIPTOR_SIZE * j) == #[trigger] fs[j],
        0 <= i < fs.len(),
        fs.len() <= cfg.max_iterations,
        cfg.max_visits_per_index >= 1,
        forall|j: int| j >= i ==> !(#[trigger] visits.contains_key(j)),
        seen == vstd::set_lib::set_int_range(0, i),
        fuel >= fs.len() - i,
    ensures
        sim_run(data, cfg, (i, i, visits, seen, fs.subrange(0, i)), fuel) == Ok::<
            (Seq<FrameDescriptor>, SequenceParseStats),
            Option<(int, int)>,
        >((fs, stats_of(vstd::set_lib::set_int_range(0, fs.len() as int), true, false))),
    decreases fuel,
{
    let d = fs[i];
    assert(descriptor_at(data, FRAME_DESCRIPTOR_SIZE * i) == d);
    assert(!visits.contains_key(i));
    assert(visits_of(visits, i) == 0);
    let seen2 = seen.insert(i);
    assert(seen2 =~= vstd::set_lib::set_int_range(0, i + 1));
    if d is End {
        assert(i == fs.len() - 1);
        assert(fs.subrange(0, i).push(d) =~= fs);
    } else {
        assert(fs.subrange(0, i).push(d) =~= fs.subrange(0, i + 1));
        let visits2 = visits.insert(i, 1);
        assert forall|j: int| j >= i + 1 implies !(#[trigger] visits2.contains_key(j)) by {}
        lemma_sim_forward(data, cfg, fs, i + 1, visits2, seen2, (fuel - 1) as nat);
    }
}

/// A sequence whose every jump goes to the descriptor right after it is
/// played straight through: following the jumps gives every descriptor in
/// order up to its end marker, which stops it with no loop detected, each
/// position read once.
pub proof fn lemma_forward_jumps(
    data: Seq<u8>,
    cfg: ParseConfig,
    fs: Seq<FrameDescriptor>,
    r: Result<(AnimationSequence, SequenceParseStats), DvFileError>,
)
    requires
        raw_descriptors(data, 0) == Ok::<Seq<FrameDescriptor>, int>(fs),
        forall|j: int|
            0 <= j < fs.len() ==> (#[trigger] fs[j] matches FrameDescriptor::Jump { target } ==> target
                == j + 1),
        fs.len() <= cfg.max_iterations,
        cfg.max_visits_per_index >= 1,
        AnimationSequence::simulated(data, cfg, r),
    ensures
        r matches Ok((s, st)) && s.spec_frames() == fs && st.terminated_by_end_marker
            && !st.loop_detected && st.unique_frame_positions == fs.len(),
{
    lemma_raw_positions(data, 0, fs);
    assert forall|j: int| 0 <= j < fs.len() implies FRAME_DESCRIPTOR_SIZE * j + FRAME_DESCRIPTOR_SIZE
        <= data.len() && descriptor_at(data, FRAME_DESCRIPTOR_SIZE * j) == #[trigger] fs[j] by {
        assert(0 + FRAME_DESCRIPTOR_SIZE * j == FRAME_DESCRIPTOR_SIZE * j);
    }
    assert(fs.subrange(0, 0) =~= Seq::<FrameDescriptor>::empty());
    assert(vstd::set_lib::set_int_range(0, 0) =~= Set::<int>::empty());
    lemma_sim_forward(
        data,
        cfg,
        fs,
        0,
        Map::empty(),
        Set::empty(),
        (cfg.max_iterations + 1) as nat,
    );
    vstd::set_lib::lemma_int_range(0, fs.len() as int);
    assert(simulate(data, cfg) == sim_run(
        data,
        cfg,
        (0, 0, Map::empty(), Set::empty(), fs.subrange(0, 0)),
        (cfg.max_iterations + 1) as nat,
    ));
}

/// A sequence that starts with a jump lands on the jump's target: when the
/// descriptor at the target is an end marker, playing it gives the jump and
/// that end marker, stopping there with two positions read.
pub proof fn lemma_jump_lands_on_target(
    data: Seq<u8>,
    cfg: ParseConfig,
    target: u16,
    r: Result<(AnimationSequence, SequenceParseStats), DvFileError>,
)
    requires
        1 <= target,
        FRAME_DESCRIPTOR_SIZE * target + FRAME_DESCRIPTOR_SIZE <= data.len(),
        descriptor_at(data, 0) == (FrameDescriptor::Jump { target }),
        descriptor_at(data, FRAME_DESCRIPTOR_SIZE * target) is End,
        cfg.max_iterations >= 2,
        cfg.max_visits_per_index >= 1,
        AnimationSequence::simulated(data, cfg, r),
    ensures
        r matches Ok((s, st)) && s.spec_frames() == seq![
            FrameDescriptor::Jump { target },
            FrameDescriptor::End,
        ] && st.terminated_by_end_marker && !st.loop_detected && st.unique_frame_positions == 2,
{
    let st0: SimState = (0, 0, Map::empty(), Set::empty(), Seq::empty());
    let seen1 = Set::<int>::empty().insert(0);
    let st1: SimState = (
        target as int,
        1,
        Map::<int, int>::empty().insert(0, 1),
        seen1,
        seq![FrameDescriptor::Jump { target }],
    );
    assert(sim_step(data, cfg, st0) == Ok::<SimState, SimOutcome>(st1));
    let seen2 = seen1.insert(target as int);
    assert(seen2.len() == 2) by {
        assert(seen1.len() == 1);
        assert(!seen1.contains(target as int));
    }
    assert(seq![FrameDescriptor::Jump { target }].push(FrameDescriptor::End) =~= seq![
        FrameDescriptor::Jump { target },
        FrameDescriptor::End,
    ]);
    let fuel = (cfg.max_iterations + 1) as nat;
    assert(sim_run(data, cfg, st0, fuel) == sim_run(data, cfg, st1, (fuel - 1) as nat));
    assert(sim_run(data, cfg, st1, (fuel - 1) as nat) == Ok::<
        (Seq<FrameDescriptor>, SequenceParseStats),
        Option<(int, int)>,
    >((seq![FrameDescriptor::Jump { target }, FrameDescriptor::End], stats_of(seen2, true, false))));
}

/// Whether `e` is the error for too many simulation steps.
pub open spec fn is_too_many_steps(e: DvFileError) -> bool {
    e matches DvFileError::EntryNotFound { file_type, message } && file_type == FileType::Anm
        && message@ == "Maximum iterations exceeded - possible infinite loop in animation sequence"@
}

/// A list of frame descriptors.
#[derive(Debug, Clone, PartialEq, Eq)]
pub struct AnimationSequence {
    frames: Vec<FrameDescriptor>,
}

impl AnimationSequence {
    /// The descriptors.
    pub closed spec fn spec_frames(&self) -> Seq<FrameDescriptor> {
        self.frames@
    }

    /// An empty sequence.
    pub fn new() -> (r: Self)
        ensures
            r.spec_frames() == Seq::<FrameDescriptor>::empty(),
    {
        AnimationSequence { frames: Vec::new() }
    }

    /// A sequence of the given descriptors.
    pub fn from_frames(frames: Vec<FrameDescriptor>) -> (r: Self)
        ensures
            r.spec_frames() == frames@,
    {
        AnimationSequence { frames }
    }

    /// The descriptors.
    pub fn frames(&self) -> (r: &[FrameDescriptor])
        ensures
            r@ == self.spec_frames(),
    {
        self.frames.as_slice()
    }

    /// The descriptors, for changing in place.
    pub fn frames_mut(&mut self) -> (r: &mut Vec<FrameDescriptor>)
        ensures
            r@ == old(self).spec_frames(),
            final(self).spec_frames() == final(r)@,
    {
        &mut self.frames
    }

    /// Appends a descriptor.
    pub fn add_frame(&mut self, frame: FrameDescriptor)
        ensures
            final(self).spec_frames() == old(self).spec_frames().push(frame),
    {
        self.frames.push(frame);
    }

    /// Appends an end marker.
    pub fn add_end_marker(&mut self)
        ensures
            final(self).spec_frames() == old(self).spec_frames().push(FrameDescriptor::End),
    {
        self.frames.push(FrameDescriptor::End);
    }

    /// Appends an end marker, which holds the last frame.
    pub fn add_hold_marker(&mut self)
        ensures
            final(self).spec_frames() == old(self).spec_frames().push(FrameDescriptor::End),
    {
        self.add_end_marker();
    }

    /// A one-line description: the number of descriptors.
    pub fn to_string(&self) -> (r: String)
        ensures
            r@ == "AnimationSequence("@ + decimal(self.spec_frames().len()) + " frames)"@,
    {
        let mut s = String::from_str("AnimationSequence(");
        append_decimal(&mut s, self.frames.len() as u64);
        s.append(" frames)");
        s
    }

    /// The number of descriptors.
    pub fn len(&self) -> (r: usize)
        ensures
            r == self.spec_frames().len(),
    {
        self.frames.len()
    }

    /// Whether there are no descriptors.
    pub fn is_empty(&self) -> (r: bool)
        ensures
            r == (self.spec_frames().len() == 0),
    {
        self.frames.len() == 0
    }

    /// Whether the last descriptor is the end marker.
    pub fn has_end_marker(&self) -> (r: bool)
        ensures
            r == (self.spec_frames().len() > 0 && self.spec_frames().last() is End),
    {
        let n = self.frames.len();
        n > 0 && self.frames[n - 1].is_end()
    }

    /// The number of bytes the descriptors take.
    pub fn byte_size(&self) -> (r: usize)
        requires
            FRAME_DESCRIPTOR_SIZE * self.spec_frames().len() <= usize::MAX,
        ensures
            r == FRAME_DESCRIPTOR_SIZE * self.spec_frames().len(),
    {
        self.frames.len() * FRAME_DESCRIPTOR_SIZE
    }

    /// The bytes of the descriptors.
    pub fn to_bytes(&self) -> (r: Vec<u8>)
        ensures
            r@ == descriptors_bytes(self.spec_frames()),
    {
        let mut out: Vec<u8> = Vec::new();
        let mut i: usize = 0;
        while i < self.frames.len()
            invariant
                i <= self.frames@.len(),
                out@ == descriptors_bytes(self.frames@.subrange(0, i as int)),
            decreases self.frames@.len() - i,
        {
            let b = self.frames[i].to_bytes();
            out.push(b[0]);
            out.push(b[1]);
            out.push(b[2]);
            out.push(b[3]);
            assert(self.frames@.subrange(0, i + 1).drop_last() =~= self.frames@.subrange(
                0,
                i as int,
            ));
            assert(out@ =~= descriptors_bytes(self.frames@.subrange(0, i + 1)));
            i = i + 1;
        }
        assert(self.frames@.subrange(0, self.frames@.len() as int) =~= self.frames@);
        out
    }

    /// Reads a sequence by following its jumps, with the default limits.
    pub fn from_bytes(data: &[u8]) -> (r: Result<(Self, SequenceParseStats), DvFileError>)
        ensures
            AnimationSequence::simulated(data@, ParseConfig::default_spec(), r),
    {
        AnimationSequence::from_bytes_with_config(data, &ParseConfig::default())
    }

    /// Reads the descriptors as stored, up to and including the first end
    /// marker, with the number of bytes read.
    pub fn from_bytes_raw(data: &[u8]) -> (r: Result<(Self, usize), DvFileError>)
        ensures
            match raw_descriptors(data@, 0) {
                Ok(fs) => r matches Ok((s, n)) && s.spec_frames() == fs && n
                    == FRAME_DESCRIPTOR_SIZE * fs.len(),
                Err(needed) => r == Err::<(AnimationSequence, usize), DvFileError>(
                    DvFileError::InsufficientData {
                        file_type: FileType::Anm,
                        expected: needed as usize,
                        actual: data@.len() as usize,
                    },
                ),
            },
    {
        let ghost d = data@;
        let mut frames: Vec<FrameDescriptor> = Vec::new();
        let mut offset: usize = 0;
        let _len = data.len();
        loop
            invariant
                d == data@,
                d.len() <= usize::MAX,
                offset == FRAME_DESCRIPTOR_SIZE * frames@.len(),
                offset <= d.len(),
                raw_descriptors(d, 0) == match raw_descriptors(d, offset as int) {
                    Ok(rest) => Ok(frames@ + rest),
                    Err(n) => Err(n),
                },
            decreases d.len() - offset,
        {
            if data.len() - offset < FRAME_DESCRIPTOR_SIZE {
                return Err(
                    DvFileError::insufficient_data(
                        FileType::Anm,
                        (offset as u128 + 4) as usize,
                        data.len(),
                    ),
                );
            }
            let frame = FrameDescriptor::at(data, offset);
            let ghost before = frames@;
            frames.push(frame);
            offset = offset + FRAME_DESCRIPTOR_SIZE;
            if frame.is_end() {
                assert(raw_descriptors(d, offset - 4) == Ok::<Seq<FrameDescriptor>, int>(
                    seq![FrameDescriptor::End],
                ));
                assert(frames@ =~= before + seq![FrameDescriptor::End]);
                return Ok((AnimationSequence { frames }, offset));
            }
            proof {
                match raw_descriptors(d, offset as int) {
                    Ok(rest) => {
                        assert(before + (seq![frame] + rest) =~= frames@ + rest);
                    },
                    Err(n) => {},
                }
            }
        }
    }

    /// Whether `r` is what simulating the sequence in `data` gives.
    pub open spec fn simulated(
        data: Seq<u8>,
        cfg: ParseConfig,
        r: Result<(AnimationSequence, SequenceParseStats), DvFileError>,
    ) -> bool {
        match simulate(data, cfg) {
            Ok((fs, stats)) => r matches Ok((s, st)) && s.spec_frames() == fs && st == stats,
            Err(None) => r matches Err(e) && is_too_many_steps(e),
            Err(Some((needed, len))) => r == Err::<(AnimationSequence, SequenceParseStats), DvFileError>(
                DvFileError::InsufficientData {
                    file_type: FileType::Anm,
                    expected: needed as usize,
                    actual: len as usize,
                },
            ),
        }
    }

    /// Reads a sequence the way the engine plays it: from position 0, an
    /// end marker stops, a jump continues at its target and anything else
    /// at the next position. Stops with a loop flag once a position is
    /// visited more than `max_visits_per_index` times, and fails after
    /// `max_iterations` steps or when a position lies past the data.
    pub fn from_bytes_with_config(data: &[u8], config: &ParseConfig) -> (r: Result<
        (Self, SequenceParseStats),
        DvFileError,
    >)
        ensures
            AnimationSequence::simulated(data@, *config, r),
    {
        let ghost d = data@;
        let ghost cfg = *config;
        let ghost fuel = (cfg.max_iterations + 1) as nat;
        let len = data.len();
        let n = len / FRAME_DESCRIPTOR_SIZE;
        let mut visit_counts: HashMap<usize, usize> = HashMap::new();
        let mut visited: HashSet<usize> = HashSet::new();
        let mut frames: Vec<FrameDescriptor> = Vec::new();
        let mut frame_index: usize = 0;
        let mut iterations: usize = 0;
        let mut unique: usize = 0;
        let ghost mut visits: Map<int, int> = Map::empty();
        let ghost mut seen: Set<int> = Set::empty();
        loop
            invariant
                d == data@,
                cfg == *config,
                len == d.len(),
                n == len / FRAME_DESCRIPTOR_SIZE,
                fuel == cfg.max_iterations + 1,
                iterations <= cfg.max_iterations,
                frame_index <= n || frame_index <= 0xFFFF,
                n * FRAME_DESCRIPTOR_SIZE <= len,
                vstd::std_specs::hash::obeys_key_model::<usize>(),
                vstd::std_specs::hash::builds_valid_hashers::<std::collections::hash_map::RandomState>(),
                forall|j: usize| #[trigger] visit_counts@.contains_key(j) <==> visits.contains_key(j as int),
                forall|j: usize| #[trigger] visit_counts@.contains_key(j) ==> visit_counts@[j] == visits[j as int]
                    && visit_counts@[j] <= iterations,
                forall|j: usize| #[trigger] visited@.contains(j) <==> seen.contains(j as int),
                forall|j: int| #[trigger] visits.contains_key(j) ==> 0 <= j < n,
                forall|j: int| #[trigger] seen.contains(j) ==> 0 <= j < n,
                seen.finite(),
                unique == seen.len(),
                unique <= n,
                simulate(d, cfg) == sim_run(
                    d,
                    cfg,
                    (frame_index as int, iterations as int, visits, seen, frames@),
                    (fuel - iterations) as nat,
                ),
            decreases cfg.max_iterations - iterations,
        {
            let ghost st = (frame_index as int, iterations as int, visits, seen, frames@);
            assert(fuel - iterations > 0);
            if iterations >= config.max_iterations {
                return Err(
                    DvFileError::EntryNotFound {
                        file_type: FileType::Anm,
                        message: String::from_str(
                            "Maximum iterations exceeded - possible infinite loop in animation sequence",
                        ),
                    },
                );
            }
            let v: usize = match visit_counts.get(&frame_index) {
                Some(c) => *c + 1,
                None => 1,
            };
            assert(v == visits_of(visits, frame_index as int) + 1);
            if v > config.max_visits_per_index {
                let stats = SequenceParseStats {
                    bytes_consumed: unique * FRAME_DESCRIPTOR_SIZE,
                    unique_frame_positions: unique,
                    terminated_by_end_marker: false,
                    loop_detected: true,
                };
                return Ok((AnimationSequence { frames }, stats));
            }
            if frame_index >= n {
                return Err(
                    DvFileError::insufficient_data(
                        FileType::Anm,
                        (frame_index as u128 * 4 + 4) as usize,
                        len,
                    ),
                );
            }
            let offset = frame_index * FRAME_DESCRIPTOR_SIZE;
            visit_counts.insert(frame_index, v);
            proof {
                visits = visits.insert(frame_index as int, v as int);
            }
            if visited.insert(frame_index) {
                unique = unique + 1;
            }
            proof {
                seen = seen.insert(frame_index as int);
                vstd::set_lib::lemma_int_range(0, n as int);
                assert(seen.subset_of(vstd::set_lib::set_int_range(0, n as int)));
                vstd::set_lib::lemma_len_subset(seen, vstd::set_lib::set_int_range(0, n as int));
            }
            let frame = FrameDescriptor::at(data, offset);
            frames.push(frame);
            iterations = iterations + 1;
            match frame {
                FrameDescriptor::End => {
                    let stats = SequenceParseStats {
                        bytes_consumed: unique * FRAME_DESCRIPTOR_SIZE,
                        unique_frame_positions: unique,
                        terminated_by_end_marker: true,
                        loop_detected: false,
                    };
                    return Ok((AnimationSequence { frames }, stats));
                },
                FrameDescriptor::Jump { target } => {
                    frame_index = target as usize;
                },
                _ => {
                    frame_index = frame_index + 1;
                },
            }
        }
    }
}

impl Default for AnimationSequence {
    fn default() -> (r: Self)
        ensures
            r.spec_frames() == Seq::<FrameDescriptor>::empty(),
    {
        AnimationSequence::new()
    }
}

impl ParseConfig {
    /// The default limits: 5000 steps, 128 visits per position.
    pub open spec fn default_spec() -> ParseConfig {
        ParseConfig { max_iterations: 5000, max_visits_per_index: 128 }
    }
}

} // verus!
