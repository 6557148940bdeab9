//! The poll cycle: which device and point is read next, and what a reading
//! changes. The cycle is a state machine that is handed the outcome of each
//! step it asked for and answers with the next step to take.

use vstd::prelude::*;
use vstd::string::*;
use crate::clients::{
    coil_gauge_value, coil_kind, interpret, make_point_key, point_key, register_kind,
    supported_datatype, Client, ClientView, Register, ScaledValue,
};
use crate::text::str_eq;

verus! {

/// Where a poll cycle stands: between two cycles, opening a session to a
/// device, or at one of its registers or coils.
#[derive(Debug, Clone, Copy, PartialEq, Eq, Structural)]
pub enum PollState {
    Idle,
    PollingDevice(usize),
    PollingRegister(usize, usize),
    PollingCoil(usize, usize),
}

/// What is to be done next for the cycle.
#[derive(Debug, Clone, Copy, PartialEq, Eq, Structural)]
pub enum PollAction {
    AwaitTick,
    OpenSession { device: usize },
    ReadHoldingRegisters { address: u16, count: u16 },
    ReadInputRegisters { address: u16, count: u16 },
    ReadCoils { address: u16, count: u16 },
    ReadDiscreteInputs { address: u16, count: u16 },
    SkipPoint,
}

/// How the step that was asked for ended.
#[derive(Debug, PartialEq, Eq)]
pub enum PollEvent {
    Tick,
    SessionOpened,
    SessionFailed,
    Registers(Vec<u16>),
    Coils(Vec<bool>),
    ReadFailed,
    Skipped,
}

/// What a reading changes: the raw value of a point, and the gauge filed
/// under the point's key. A register of an unsupported datatype has no
/// value for its gauge.
#[derive(Debug, PartialEq, Eq)]
pub enum PointUpdate {
    Register { device: usize, register: usize, word: u16, key: String, value: Option<ScaledValue> },
    Coil { device: usize, coil: usize, state: bool, key: String, level: ScaledValue },
}

/// The answer to an event: the new state, the change a reading brought,
/// whether the session of the device just left is to be closed, and what
/// to do next.
#[derive(Debug, PartialEq, Eq)]
pub struct PollStep {
    pub state: PollState,
    pub update: Option<PointUpdate>,
    pub close_session: bool,
    pub action: PollAction,
}

/// The mathematical form of a [`PointUpdate`].
pub enum PointUpdateView {
    Register { device: usize, register: usize, word: u16, key: Seq<char>, value: Option<ScaledValue> },
    Coil { device: usize, coil: usize, state: bool, key: Seq<char>, level: ScaledValue },
}

/// The mathematical form of a [`PollStep`].
pub struct PollStepView {
    pub state: PollState,
    pub update: Option<PointUpdateView>,
    pub close_session: bool,
    pub action: PollAction,
}

impl View for PointUpdate {
    type V = PointUpdateView;

    open spec fn view(&self) -> PointUpdateView {
        match *self {
            PointUpdate::Register { device, register, word, key, value } => PointUpdateView::Register {
                device,
                register,
                word,
                key: key@,
                value,
            },
            PointUpdate::Coil { device, coil, state, key, level } => PointUpdateView::Coil {
                device,
                coil,
                state,
                key: key@,
                level,
            },
        }
    }
}

impl View for PollStep {
    type V = PollStepView;

    open spec fn view(&self) -> PollStepView {
        PollStepView {
            state: self.state,
            update: match self.update {
                Some(u) => Some(u@),
                None => None,
            },
            close_session: self.close_session,
            action: self.action,
        }
    }
}

/// The devices of a snapshot in mathematical form.
pub open spec fn snapshot_view(devices: Seq<Client>) -> Seq<ClientView> {
    Seq::new(devices.len(), |i: int| devices[i]@)
}

/// The step that rests until the next tick.
pub open spec fn rest() -> PollStepView {
    PollStepView {
        state: PollState::Idle,
        update: None,
        close_session: false,
        action: PollAction::AwaitTick,
    }
}

/// Leaving device `d`: on to the next device of the snapshot, or to rest
/// after the last.
pub open spec fn leave_device(devices: Seq<ClientView>, d: usize, close_session: bool) -> PollStepView {
    if d + 1 < devices.len() {
        PollStepView {
            state: PollState::PollingDevice((d + 1) as usize),
            update: None,
            close_session,
            action: PollAction::OpenSession { device: (d + 1) as usize },
        }
    } else {
        PollStepView {
            state: PollState::Idle,
            update: None,
            close_session,
            action: PollAction::AwaitTick,
        }
    }
}

/// Turning to coil `j` of device `d`: a coil is read as its kind says, a
/// coil of another kind is skipped, and after the last coil the session
/// is closed and the device left.
pub open spec fn enter_coil(devices: Seq<ClientView>, d: usize, j: usize) -> PollStepView {
    let coils = devices[d as int].coils;
    if j < coils.len() {
        PollStepView {
            state: PollState::PollingCoil(d, j),
            update: None,
            close_session: false,
            action: if coils[j as int].objecttype == "coil"@ {
                PollAction::ReadCoils { address: coils[j as int].address, count: 1 }
            } else if coils[j as int].objecttype == "discrete"@ {
                PollAction::ReadDiscreteInputs { address: coils[j as int].address, count: 1 }
            } else {
                PollAction::SkipPoint
            },
        }
    } else {
        leave_device(devices, d, true)
    }
}

/// Turning to register `i` of device `d`: a register is read as its kind
/// says, a register of another kind is skipped, and after the last
/// register the coils follow.
pub open spec fn enter_register(devices: Seq<ClientView>, d: usize, i: usize) -> PollStepView {
    let registers = devices[d as int].registers;
    if i < registers.len() {
        PollStepView {
            state: PollState::PollingRegister(d, i),
            update: None,
            close_session: false,
            action: if registers[i as int].objecttype == "input"@ {
                PollAction::ReadInputRegisters {
                    address: registers[i as int].address,
                    count: registers[i as int].length,
                }
            } else if registers[i as int].objecttype == "holding"@ {
                PollAction::ReadHoldingRegisters {
                    address: registers[i as int].address,
                    count: registers[i as int].length,
                }
            } else {
                PollAction::SkipPoint
            },
        }
    } else {
        enter_coil(devices, d, 0)
    }
}

/// What the outcome of reading register `i` of device `d` changes: the
/// first word that was read becomes the raw value, and the gauge gets the
/// value the register exports. No words, a failure, or a register that is
/// not read at all change nothing.
pub open spec fn register_update(devices: Seq<ClientView>, d: usize, i: usize, event: PollEvent) -> Option<
    PointUpdateView,
> {
    let r = devices[d as int].registers[i as int];
    match event {
        PollEvent::Registers(words) => if words@.len() > 0 && register_kind(r.objecttype) {
            Some(
                PointUpdateView::Register {
                    device: d,
                    register: i,
                    word: words@[0],
                    key: point_key(devices[d as int].name, r.name),
                    value: if supported_datatype(r.datatype) {
                        Some(
                            ScaledValue {
                                mantissa: interpret(words@[0], r.datatype) as i32,
                                exponent: r.factor,
                            },
                        )
                    } else {
                        None
                    },
                },
            )
        } else {
            None
        },
        _ => None,
    }
}

/// What the outcome of reading coil `j` of device `d` changes: the first
/// bit that was read becomes the raw value, and the gauge shows one for
/// set and zero for clear.
pub open spec fn coil_update(devices: Seq<ClientView>, d: usize, j: usize, event: PollEvent) -> Option<
    PointUpdateView,
> {
    let c = devices[d as int].coils[j as int];
    match event {
        PollEvent::Coils(bits) => if bits@.len() > 0 && coil_kind(c.objecttype) {
            Some(
                PointUpdateView::Coil {
                    device: d,
                    coil: j,
                    state: bits@[0],
                    key: point_key(devices[d as int].name, c.name),
                    level: ScaledValue { mantissa: if bits@[0] { 1i32 } else { 0i32 }, exponent: 0 },
                },
            )
        } else {
            None
        },
        _ => None,
    }
}

/// Whether a state names a place of the snapshot.
pub open spec fn state_in_range(devices: Seq<ClientView>, state: PollState) -> bool {
    match state {
        PollState::Idle => true,
        PollState::PollingDevice(d) => d < devices.len(),
        PollState::PollingRegister(d, i) => d < devices.len() && i < devices[d as int].registers.len(),
        PollState::PollingCoil(d, j) => d < devices.len() && j < devices[d as int].coils.len(),
    }
}

/// The poll cycle, step by step. A tick starts a cycle at the first device.
/// A session that opened leads to the device's registers, then its coils;
/// one that did not leads to the next device. Whatever the outcome of
/// reading a point, the next point follows. A state that names no place of
/// the snapshot leads to rest.
pub open spec fn step(devices: Seq<ClientView>, state: PollState, event: PollEvent) -> PollStepView {
    if !state_in_range(devices, state) {
        rest()
    } else {
        match state {
            PollState::Idle => if event is Tick && devices.len() > 0 {
                PollStepView {
                    state: PollState::PollingDevice(0),
                    update: None,
                    close_session: false,
                    action: PollAction::OpenSession { device: 0 },
                }
            } else {
                rest()
            },
            PollState::PollingDevice(d) => if event is SessionOpened {
                enter_register(devices, d, 0)
            } else {
                leave_device(devices, d, false)
            },
            PollState::PollingRegister(d, i) => PollStepView {
                update: register_update(devices, d, i, event),
                ..enter_register(devices, d, (i + 1) as usize)
            },
            PollState::PollingCoil(d, j) => PollStepView {
                update: coil_update(devices, d, j, event),
                ..enter_coil(devices, d, (j + 1) as usize)
            },
        }
    }
}

/// Whether the lists of a snapshot are short enough to be counted.
pub open spec fn countable(devices: Seq<ClientView>) -> bool {
    &&& devices.len() <= usize::MAX
    &&& forall|d: int|
        0 <= d < devices.len() ==> (#[trigger] devices[d]).registers.len() <= usize::MAX
            && devices[d].coils.len() <= usize::MAX
}

/// How many devices a state has yet to go through.
pub open spec fn devices_left(devices: Seq<ClientView>, state: PollState) -> int {
    match state {
        PollState::Idle => 0,
        PollState::PollingDevice(d) => devices.len() - d,
        PollState::PollingRegister(d, _) => devices.len() - d,
        PollState::PollingCoil(d, _) => devices.len() - d,
    }
}

/// How many stages of its device a state has yet to go through.
pub open spec fn stages_left(state: PollState) -> int {
    match state {
        PollState::Idle => 0,
        PollState::PollingDevice(_) => 3,
        PollState::PollingRegister(_, _) => 2,
        PollState::PollingCoil(_, _) => 1,
    }
}

/// How many points of its list a state has yet to go through.
pub open spec fn points_left(devices: Seq<ClientView>, state: PollState) -> int {
    match state {
        PollState::Idle => 0,
        PollState::PollingDevice(_) => 0,
        PollState::PollingRegister(d, i) => devices[d as int].registers.len() - i,
        PollState::PollingCoil(d, j) => devices[d as int].coils.len() - j,
    }
}

/// The changes that a cycle brings from a state on, in the order in which
/// they come, where `answers` tells for every state how the step that is
/// asked for in it ends.
pub open spec fn changes_from(
    devices: Seq<ClientView>,
    answers: spec_fn(PollState) -> PollEvent,
    state: PollState,
) -> Seq<PointUpdateView>
    decreases devices_left(devices, state), stages_left(state), points_left(devices, state),
{
    if state is Idle || !state_in_range(devices, state) || !countable(devices) {
        Seq::empty()
    } else {
        let next = step(devices, state, answers(state));
        let head = match next.update {
            Some(u) => seq![u],
            None => Seq::empty(),
        };
        head + changes_from(devices, answers, next.state)
    }
}

/// The changes that a whole cycle brings.
pub open spec fn cycle_changes(devices: Seq<ClientView>, answers: spec_fn(PollState) -> PollEvent) -> Seq<
    PointUpdateView,
> {
    changes_from(devices, answers, step(devices, PollState::Idle, PollEvent::Tick).state)
}

/// A change that the step out of a state brings, or that comes after it, is
/// among the changes from that state on.
proof fn lemma_changes_unfold(
    devices: Seq<ClientView>,
    answers: spec_fn(PollState) -> PollEvent,
    state: PollState,
    u: PointUpdateView,
)
    requires
        countable(devices),
        state_in_range(devices, state),
        !(state is Idle),
        step(devices, state, answers(state)).update == Some(u) || changes_from(
            devices,
            answers,
            step(devices, state, answers(state)).state,
        ).contains(u),
    ensures
        changes_from(devices, answers, state).contains(u),
{
    let next = step(devices, state, answers(state));
    let head = match next.update {
        Some(v) => seq![v],
        None => Seq::empty(),
    };
    let tail = changes_from(devices, answers, next.state);
    assert(changes_from(devices, answers, state) == head + tail);
    if next.update == Some(u) {
        assert((head + tail)[0] == u);
    } else {
        let k = choose|k: int| 0 <= k < tail.len() && tail[k] == u;
        assert((head + tail)[head.len() + k] == u);
    }
}

/// Whether a state comes no later in a cycle than the opening of device
/// `d`.
pub open spec fn before_device(state: PollState, d: usize) -> bool {
    match state {
        PollState::Idle => false,
        PollState::PollingDevice(e) => e <= d,
        PollState::PollingRegister(e, _) => e < d,
        PollState::PollingCoil(e, _) => e < d,
    }
}

proof fn lemma_device_reached(
    devices: Seq<ClientView>,
    answers: spec_fn(PollState) -> PollEvent,
    state: PollState,
    d: usize,
    u: PointUpdateView,
)
    requires
        countable(devices),
        d < devices.len(),
        state_in_range(devices, state),
        before_device(state, d),
        changes_from(devices, answers, PollState::PollingDevice(d)).contains(u),
    ensures
        changes_from(devices, answers, state).contains(u),
    decreases devices_left(devices, state), stages_left(state), points_left(devices, state),
{
    if state != PollState::PollingDevice(d) {
        let next = step(devices, state, answers(state)).state;
        lemma_device_reached(devices, answers, next, d, u);
        lemma_changes_unfold(devices, answers, state, u);
    }
}

/// Whether a state of device `d`, whose session opened, comes no later
/// than register `i`.
pub open spec fn before_register(state: PollState, d: usize, i: usize) -> bool {
    match state {
        PollState::Idle => false,
        PollState::PollingDevice(e) => e == d,
        PollState::PollingRegister(e, k) => e == d && k <= i,
        PollState::PollingCoil(_, _) => false,
    }
}

proof fn lemma_register_reached(
    devices: Seq<ClientView>,
    answers: spec_fn(PollState) -> PollEvent,
    state: PollState,
    d: usize,
    i: usize,
    u: PointUpdateView,
)
    requires
        countable(devices),
        d < devices.len(),
        i < devices[d as int].registers.len(),
        answers(PollState::PollingDevice(d)) is SessionOpened,
        state_in_range(devices, state),
        before_register(state, d, i),
        changes_from(devices, answers, PollState::PollingRegister(d, i)).contains(u),
    ensures
        changes_from(devices, answers, state).contains(u),
    decreases devices_left(devices, state), stages_left(state), points_left(devices, state),
{
    if state != PollState::PollingRegister(d, i) {
        let next = step(devices, state, answers(state)).state;
        lemma_register_reached(devices, answers, next, d, i, u);
        lemma_changes_unfold(devices, answers, state, u);
    }
}

/// Whether a state of device `d`, whose session opened, comes no later
/// than coil `j`.
pub open spec fn before_coil(state: PollState, d: usize, j: usize) -> bool {
    match state {
        PollState::Idle => false,
        PollState::PollingDevice(e) => e == d,
        PollState::PollingRegister(e, _) => e == d,
        PollState::PollingCoil(e, k) => e == d && k <= j,
    }
}

proof fn lemma_coil_reached(
    devices: Seq<ClientView>,
    answers: spec_fn(PollState) -> PollEvent,
    state: PollState,
    d: usize,
    j: usize,
    u: PointUpdateView,
)
    requires
        countable(devices),
        d < devices.len(),
        j < devices[d as int].coils.len(),
        answers(PollState::PollingDevice(d)) is SessionOpened,
        state_in_range(devices, state),
        before_coil(state, d, j),
        changes_from(devices, answers, PollState::PollingCoil(d, j)).contains(u),
    ensures
        changes_from(devices, answers, state).contains(u),
    decreases devices_left(devices, state), stages_left(state), points_left(devices, state),
{
    if state != PollState::PollingCoil(d, j) {
        let next = step(devices, state, answers(state)).state;
        lemma_coil_reached(devices, answers, next, d, j, u);
        lemma_changes_unfold(devices, answers, state, u);
    }
}

/// The state that a cycle is in after `n` steps from a state on.
pub open spec fn state_after(
    devices: Seq<ClientView>,
    answers: spec_fn(PollState) -> PollEvent,
    state: PollState,
    n: nat,
) -> PollState
    decreases n,
{
    if n == 0 {
        state
    } else {
        state_after(devices, answers, step(devices, state, answers(state)).state, (n - 1) as nat)
    }
}

/// Every cycle ends: from whatever state, and however the steps that are
/// asked for end, the cycle comes to rest after finitely many steps. No
/// failure holds it at a device or at a point.
pub proof fn lemma_cycle_ends(
    devices: Seq<ClientView>,
    answers: spec_fn(PollState) -> PollEvent,
    state: PollState,
)
    requires
        countable(devices),
    ensures
        exists|n: nat| #[trigger] state_after(devices, answers, state, n) is Idle,
    decreases devices_left(devices, state), stages_left(state), points_left(devices, state),
{
    if state is Idle {
        assert(state_after(devices, answers, state, 0) is Idle);
    } else if !state_in_range(devices, state) {
        assert(state_after(devices, answers, state, 1) is Idle) by {
            reveal_with_fuel(state_after, 2);
        }
    } else {
        let next = step(devices, state, answers(state)).state;
        lemma_cycle_ends(devices, answers, next);
        let n = choose|n: nat| #[trigger] state_after(devices, answers, next, n) is Idle;
        assert(state_after(devices, answers, state, n + 1) == state_after(devices, answers, next, n));
    }
}

/// Whether a state is one that a cycle gets to only through a session that
/// opened: a state at a point stands at a device whose session opened.
pub open spec fn session_open(answers: spec_fn(PollState) -> PollEvent, state: PollState) -> bool {
    match state {
        PollState::Idle => true,
        PollState::PollingDevice(_) => true,
        PollState::PollingRegister(d, _) => answers(PollState::PollingDevice(d)) is SessionOpened,
        PollState::PollingCoil(d, _) => answers(PollState::PollingDevice(d)) is SessionOpened,
    }
}

/// Whether a change is what a reading that succeeded brings, at a point of
/// a device whose session opened.
pub open spec fn from_reading(
    devices: Seq<ClientView>,
    answers: spec_fn(PollState) -> PollEvent,
    u: PointUpdateView,
) -> bool {
    ||| exists|d: usize, i: usize|
        d < devices.len() && i < devices[d as int].registers.len() && answers(
            PollState::PollingDevice(d),
        ) is SessionOpened && #[trigger] register_update(
            devices,
            d,
            i,
            answers(PollState::PollingRegister(d, i)),
        ) == Some(u)
    ||| exists|d: usize, j: usize|
        d < devices.len() && j < devices[d as int].coils.len() && answers(
            PollState::PollingDevice(d),
        ) is SessionOpened && #[trigger] coil_update(
            devices,
            d,
            j,
            answers(PollState::PollingCoil(d, j)),
        ) == Some(u)
}

proof fn lemma_changes_from_readings(
    devices: Seq<ClientView>,
    answers: spec_fn(PollState) -> PollEvent,
    state: PollState,
    u: PointUpdateView,
)
    requires
        session_open(answers, state),
        changes_from(devices, answers, state).contains(u),
    ensures
        from_reading(devices, answers, u),
    decreases devices_left(devices, state), stages_left(state), points_left(devices, state),
{
    if state is Idle || !state_in_range(devices, state) || !countable(devices) {
        assert(changes_from(devices, answers, state) =~= Seq::<PointUpdateView>::empty());
    } else {
        let next = step(devices, state, answers(state));
        let head = match next.update {
            Some(v) => seq![v],
            None => Seq::empty(),
        };
        let tail = changes_from(devices, answers, next.state);
        assert(changes_from(devices, answers, state) == head + tail);
        let k = choose|k: int| 0 <= k < (head + tail).len() && (head + tail)[k] == u;
        if k < head.len() {
            assert(next.update == Some(u));
            match state {
                PollState::PollingRegister(d, i) => {
                    assert(register_update(devices, d, i, answers(PollState::PollingRegister(d, i)))
                        == Some(u));
                },
                PollState::PollingCoil(d, j) => {
                    assert(coil_update(devices, d, j, answers(PollState::PollingCoil(d, j))) == Some(
                        u,
                    ));
                },
                _ => {},
            }
        } else {
            assert(tail[k - head.len()] == u);
            lemma_changes_from_readings(devices, answers, next.state, u);
        }
    }
}

/// Every change of a cycle is what a reading that succeeded brings, at a
/// point of a device whose session opened: a failure brings no change of
/// its own.
pub proof fn lemma_changes_are_readings(
    devices: Seq<ClientView>,
    answers: spec_fn(PollState) -> PollEvent,
    u: PointUpdateView,
)
    requires
        cycle_changes(devices, answers).contains(u),
    ensures
        from_reading(devices, answers, u),
{
    lemma_changes_from_readings(
        devices,
        answers,
        step(devices, PollState::Idle, PollEvent::Tick).state,
        u,
    );
}

/// A register reading that succeeded arrives among the changes of its
/// cycle, whatever happens at the other devices and at the other points of
/// its device: sessions that do not open and reads that fail there take
/// nothing away from it. It is owed for a register of a kind that is
/// read, on a device whose session opened, when the read brought at least
/// one word.
pub proof fn lemma_register_reading_arrives(
    devices: Seq<ClientView>,
    answers: spec_fn(PollState) -> PollEvent,
    d: usize,
    i: usize,
)
    requires
        countable(devices),
        d < devices.len(),
        i < devices[d as int].registers.len(),
        answers(PollState::PollingDevice(d)) is SessionOpened,
        register_update(devices, d, i, answers(PollState::PollingRegister(d, i))) is Some,
    ensures
        cycle_changes(devices, answers).contains(
            register_update(devices, d, i, answers(PollState::PollingRegister(d, i))).unwrap(),
        ),
{
    let at = PollState::PollingRegister(d, i);
    let u = register_update(devices, d, i, answers(at)).unwrap();
    lemma_changes_unfold(devices, answers, at, u);
    lemma_register_reached(devices, answers, PollState::PollingDevice(d), d, i, u);
    lemma_device_reached(devices, answers, PollState::PollingDevice(0), d, u);
}

/// A coil reading that succeeded arrives among the changes of its cycle,
/// whatever happens at the other devices and at the other points of its
/// device. It is owed for a coil of a kind that is read, on a device
/// whose session opened, when the read brought at least one bit.
pub proof fn lemma_coil_reading_arrives(
    devices: Seq<ClientView>,
    answers: spec_fn(PollState) -> PollEvent,
    d: usize,
    j: usize,
)
    requires
        countable(devices),
        d < devices.len(),
        j < devices[d as int].coils.len(),
        answers(PollState::PollingDevice(d)) is SessionOpened,
        coil_update(devices, d, j, answers(PollState::PollingCoil(d, j))) is Some,
    ensures
        cycle_changes(devices, answers).contains(
            coil_update(devices, d, j, answers(PollState::PollingCoil(d, j))).unwrap(),
        ),
{
    let at = PollState::PollingCoil(d, j);
    let u = coil_update(devices, d, j, answers(at)).unwrap();
    lemma_changes_unfold(devices, answers, at, u);
    lemma_coil_reached(devices, answers, PollState::PollingDevice(d), d, j, u);
    lemma_device_reached(devices, answers, PollState::PollingDevice(0), d, u);
}

/// The snapshot of a table is short enough to be counted.
pub proof fn lemma_snapshot_countable(devices: Vec<Client>)
    ensures
        countable(snapshot_view(devices@)),
{
    assert(devices@.len() == devices.len());
    assert forall|d: int| 0 <= d < snapshot_view(devices@).len() implies (#[trigger] snapshot_view(
        devices@,
    )[d]).registers.len() <= usize::MAX && snapshot_view(devices@)[d].coils.len() <= usize::MAX by {
        assert(snapshot_view(devices@)[d] == devices@[d]@);
        assert(devices@[d].registers@.len() == devices@[d].registers.len());
        assert(devices@[d].coils@.len() == devices@[d].coils.len());
    }
}

fn step_rest() -> (r: PollStep)
    ensures
        r@ == rest(),
{
    PollStep { state: PollState::Idle, update: None, close_session: false, action: PollAction::AwaitTick }
}

fn step_leave_device(devices: &Vec<Client>, d: usize, close_session: bool) -> (r: PollStep)
    requires
        d < devices@.len(),
    ensures
        r@ == leave_device(snapshot_view(devices@), d, close_session),
{
    let count = devices.len();
    if d + 1 < count {
        PollStep {
            state: PollState::PollingDevice(d + 1),
            update: None,
            close_session,
            action: PollAction::OpenSession { device: d + 1 },
        }
    } else {
        PollStep { state: PollState::Idle, update: None, close_session, action: PollAction::AwaitTick }
    }
}

fn step_enter_coil(devices: &Vec<Client>, d: usize, j: usize) -> (r: PollStep)
    requires
        d < devices@.len(),
    ensures
        r@ == enter_coil(snapshot_view(devices@), d, j),
{
    let client = &devices[d];
    if j < client.coils.len() {
        let coil = &client.coils[j];
        let action = if str_eq(coil.objecttype.as_str(), "coil") {
            PollAction::ReadCoils { address: coil.address, count: 1 }
        } else if str_eq(coil.objecttype.as_str(), "discrete") {
            PollAction::ReadDiscreteInputs { address: coil.address, count: 1 }
        } else {
            PollAction::SkipPoint
        };
        PollStep { state: PollState::PollingCoil(d, j), update: None, close_session: false, action }
    } else {
        step_leave_device(devices, d, true)
    }
}

fn step_enter_register(devices: &Vec<Client>, d: usize, i: usize) -> (r: PollStep)
    requires
        d < devices@.len(),
    ensures
        r@ == enter_register(snapshot_view(devices@), d, i),
{
    let client = &devices[d];
    if i < client.registers.len() {
        let register = &client.registers[i];
        let action = if str_eq(register.objecttype.as_str(), "input") {
            PollAction::ReadInputRegisters { address: register.address, count: register.length }
        } else if str_eq(register.objecttype.as_str(), "holding") {
            PollAction::ReadHoldingRegisters { address: register.address, count: register.length }
        } else {
            PollAction::SkipPoint
        };
        PollStep { state: PollState::PollingRegister(d, i), update: None, close_session: false, action }
    } else {
        step_enter_coil(devices, d, 0)
    }
}

fn make_register_update(devices: &Vec<Client>, d: usize, i: usize, event: &PollEvent) -> (r: Option<
    PointUpdate,
>)
    requires
        d < devices@.len(),
        i < devices@[d as int].registers@.len(),
    ensures
        match r {
            Some(u) => register_update(snapshot_view(devices@), d, i, *event) == Some(u@),
            None => register_update(snapshot_view(devices@), d, i, *event) is None,
        },
{
    let client = &devices[d];
    let register = &client.registers[i];
    match event {
        PollEvent::Registers(words) => {
            let kind = register.objecttype.as_str();
            if words.len() > 0 && (str_eq(kind, "holding") || str_eq(kind, "input")) {
                let word = words[0];
                let reading = Register {
                    name: register.name.clone(),
                    objecttype: register.objecttype.clone(),
                    address: register.address,
                    length: register.length,
                    datatype: register.datatype.clone(),
                    factor: register.factor,
                    value: word,
                };
                let value = match reading.calc_final_value_for_registry() {
                    Ok(v) => Some(v),
                    Err(_) => None,
                };
                Some(
                    PointUpdate::Register {
                        device: d,
                        register: i,
                        word,
                        key: make_point_key(client.name.as_str(), register.name.as_str()),
                        value,
                    },
                )
            } else {
                None
            }
        },
        _ => None,
    }
}

fn make_coil_update(devices: &Vec<Client>, d: usize, j: usize, event: &PollEvent) -> (r: Option<
    PointUpdate,
>)
    requires
        d < devices@.len(),
        j < devices@[d as int].coils@.len(),
    ensures
        match r {
            Some(u) => coil_update(snapshot_view(devices@), d, j, *event) == Some(u@),
            None => coil_update(snapshot_view(devices@), d, j, *event) is None,
        },
{
    let client = &devices[d];
    let coil = &client.coils[j];
    match event {
        PollEvent::Coils(bits) => {
            let kind = coil.objecttype.as_str();
            if bits.len() > 0 && (str_eq(kind, "coil") || str_eq(kind, "discrete")) {
                let state = bits[0];
                Some(
                    PointUpdate::Coil {
                        device: d,
                        coil: j,
                        state,
                        key: make_point_key(client.name.as_str(), coil.name.as_str()),
                        level: coil_gauge_value(state),
                    },
                )
            } else {
                None
            }
        },
        _ => None,
    }
}

/// Takes the poll cycle one step on: from the state it is in and the
/// outcome of the step it asked for last, to the next state and the next
/// step to take, over a snapshot of the devices that stays the same for
/// the whole cycle.
pub fn read_data(devices: &Vec<Client>, state: PollState, event: &PollEvent) -> (r: PollStep)
    ensures
        r@ == step(snapshot_view(devices@), state, *event),
{
    match state {
        PollState::Idle => {
            match event {
                PollEvent::Tick => {
                    if devices.len() > 0 {
                        PollStep {
                            state: PollState::PollingDevice(0),
                            update: None,
                            close_session: false,
                            action: PollAction::OpenSession { device: 0 },
                        }
                    } else {
                        step_rest()
                    }
                },
                _ => step_rest(),
            }
        },
        PollState::PollingDevice(d) => {
            if d >= devices.len() {
                return step_rest();
            }
            match event {
                PollEvent::SessionOpened => step_enter_register(devices, d, 0),
                _ => step_leave_device(devices, d, false),
            }
        },
        PollState::PollingRegister(d, i) => {
            if d >= devices.len() {
                return step_rest();
            }
            if i >= devices[d].registers.len() {
                return step_rest();
            }
            let update = make_register_update(devices, d, i, event);
            let next = step_enter_register(devices, d, i + 1);
            PollStep { state: next.state, update, close_session: next.close_session, action: next.action }
        },
        PollState::PollingCoil(d, j) => {
            if d >= devices.len() {
                return step_rest();
            }
            if j >= devices[d].coils.len() {
                return step_rest();
            }
            let update = make_coil_update(devices, d, j, event);
            let next = step_enter_coil(devices, d, j + 1);
            PollStep { state: next.state, update, close_session: next.close_session, action: next.action }
        },
    }
}

} // verus!
