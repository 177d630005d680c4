//! Carrying out requests to change the brightness.
//!
//! A task works through a queue of requests. It holds the brightness of the
//! monitors that it is working on; requests for a monitor that another task holds
//! are handed to that task, which takes them up before it lets go of the monitor. A
//! change is made at once or faded into, and a fade can be cut short by a request that
//! arrives meanwhile.
//!
//! Each type of this module is a task that waits for something: for its turn, for
//! how large the changes are, for the end of commands, for the next step of a fade.
//! What it waits for is given to the method that leads on from there.
use std::collections::VecDeque;
use vstd::prelude::*;

use crate::daemon::config::persistent::DaemonOptions;
use crate::daemon::config::runtime::{BrightnessInputInfo, ForwardedBrightnessInput, Light};
use crate::daemon::engine::commands::{
    as_calls, calls_for, create_xrandr_commands, monitors_for, CommandLine,
};
use crate::daemon::engine::display::{
    ascending, lemma_ascending, lemma_chosen_by_names, CollectiveMonitorStateInternal, Screen, Screens,
};
use crate::daemon::util::io::{Note, Reply, SocketMessageHolder};
use crate::level::{percent_level, Level};
use crate::shared::{BrightnessChange, BrightnessInput, MonitorOverride};
use crate::text::{concat2, concat3, decimal, decimal_text};

verus! {

// ---------------------------------------------------------------------------
// which monitors a request is meant for
// ---------------------------------------------------------------------------

/// The monitors that a request chooses, if not those of the configuration.
pub open spec fn named_choice(input: BrightnessInput, config: DaemonOptions) -> MonitorOverride {
    match input.override_monitor {
        Some(monitors) => monitors,
        None => config.monitor_default_behavior,
    }
}

/// The monitors that a request is meant for: only connected monitors can be changed,
/// so choosing all of them is choosing the connected ones.
pub open spec fn choice_of(input: BrightnessInput, config: DaemonOptions) -> MonitorOverride {
    match named_choice(input, config) {
        MonitorOverride::All => MonitorOverride::Enabled,
        monitors => monitors,
    }
}

/// The positions of the monitors that a request is meant for.
pub open spec fn relevant(
    request: ForwardedBrightnessInput,
    screens: Screens,
    config: DaemonOptions,
) -> Seq<usize> {
    match request.info {
        BrightnessInputInfo::Processed { relevant_monitor_indices } => relevant_monitor_indices@,
        BrightnessInputInfo::UnProcessed => screens.chosen(
            choice_of(request.brightness_input, config),
        ),
    }
}

/// The positions of the monitors that a request chooses.
fn chosen_indices(
    input: &BrightnessInput,
    states: &CollectiveMonitorStateInternal,
    config: &DaemonOptions,
) -> (indices: Vec<usize>)
    requires
        states.wf(),
    ensures
        indices@ == states@.chosen(choice_of(*input, *config)),
{
    let monitors: &MonitorOverride = match &input.override_monitor {
        Some(monitors) => monitors,
        None => &config.monitor_default_behavior,
    };
    match monitors {
        MonitorOverride::All => states.get_monitor_override_indices(&MonitorOverride::Enabled),
        _ => states.get_monitor_override_indices(monitors),
    }
}

/// The positions of the monitors that a request is meant for.
pub fn relevant_indices(
    request: &ForwardedBrightnessInput,
    states: &CollectiveMonitorStateInternal,
    config: &DaemonOptions,
) -> (indices: Vec<usize>)
    requires
        states.wf(),
    ensures
        indices@ == relevant(*request, states@, *config),
{
    match &request.info {
        BrightnessInputInfo::Processed { relevant_monitor_indices } => {
            let mut indices: Vec<usize> = Vec::new();
            let mut k: usize = 0;
            while k < relevant_monitor_indices.len()
                invariant
                    0 <= k <= relevant_monitor_indices@.len(),
                    indices@ == relevant_monitor_indices@.take(k as int),
                decreases relevant_monitor_indices@.len() - k,
            {
                indices.push(relevant_monitor_indices[k]);
                k += 1;
                assert(indices@ =~= relevant_monitor_indices@.take(k as int));
            }
            assert(indices@ =~= relevant_monitor_indices@);
            indices
        },
        BrightnessInputInfo::UnProcessed => chosen_indices(
            &request.brightness_input,
            states,
            config,
        ),
    }
}

/// Whether there is a monitor at each of some positions.
pub fn all_exist(states: &CollectiveMonitorStateInternal, indices: &Vec<usize>) -> (exist: bool)
    ensures
        exist == states@.has_all(indices@),
{
    let mut k: usize = 0;
    while k < indices.len()
        invariant
            0 <= k <= indices@.len(),
            forall|j: int| 0 <= j < k ==> (#[trigger] indices@[j]) < states@.list.len(),
        decreases indices@.len() - k,
    {
        if indices[k] >= states.available_adapter_list.len() {
            assert(!(indices@[k as int] < states@.list.len()));
            return false;
        }
        k += 1;
    }
    true
}

/// What there is to say of a monitor that is not connected.
pub open spec fn not_connected(name: Seq<char>) -> Note {
    ("Monitor "@ + name + " is not connected"@, true)
}

/// What there is to say of those of some monitors that are not connected.
pub open spec fn complaints(indices: Seq<usize>, screens: Screens) -> Seq<Note>
    decreases indices.len(),
{
    if indices.len() == 0 {
        Seq::empty()
    } else {
        let before = complaints(indices.drop_last(), screens);
        if screens.enabled.contains(indices.last()) {
            before
        } else {
            before.push(not_connected(screens.list[indices.last() as int].name))
        }
    }
}

/// Queues an error for each of some monitors that is not connected. Says whether
/// there was one.
fn queue_complaints(
    holder: &mut SocketMessageHolder,
    states: &CollectiveMonitorStateInternal,
    indices: &Vec<usize>,
) -> (any: bool)
    requires
        states@.has_all(indices@),
    ensures
        final(holder).socket == old(holder).socket,
        final(holder).queued() == old(holder).queued() + complaints(indices@, states@),
        any == (complaints(indices@, states@).len() > 0),
        !any ==> *final(holder) == *old(holder),
{
    let mut any: bool = false;
    let mut k: usize = 0;
    assert(indices@.take(0).len() == 0);
    assert(holder.queued() =~= old(holder).queued() + complaints(indices@.take(0), states@));
    while k < indices.len()
        invariant
            0 <= k <= indices@.len(),
            states@.has_all(indices@),
            holder.socket == old(holder).socket,
            holder.queued() == old(holder).queued() + complaints(
                indices@.take(k as int),
                states@,
            ),
            any == (complaints(indices@.take(k as int), states@).len() > 0),
            !any ==> *holder == *old(holder),
        decreases indices@.len() - k,
    {
        let index: usize = indices[k];
        assert(indices@[k as int] < states@.list.len());
        assert(indices@.take(k + 1).drop_last() =~= indices@.take(k as int));
        assert(indices@.take(k + 1).last() == index);
        let ghost before = holder.queued();
        if !states.is_monitor_index_enabled(index) {
            let name: &String = states.available_adapter_list[index].get_monitor_name();
            holder.queue_error(concat3("Monitor ", name.as_str(), " is not connected"));
            any = true;
            assert(holder.queued() =~= old(holder).queued() + complaints(
                indices@.take(k + 1),
                states@,
            ));
        }
        k += 1;
    }
    assert(indices@.take(k as int) =~= indices@);
    any
}

// ---------------------------------------------------------------------------
// who holds which brightness
// ---------------------------------------------------------------------------

/// The monitors after the brightness of some of them was let go of.
pub open spec fn let_go(screens: Screens, indices: Seq<usize>) -> Screens {
    Screens {
        list: Seq::new(
            screens.list.len(),
            |i: int|
                Screen {
                    light: Light {
                        held: screens.list[i].light.held && !indices.contains(i as usize),
                        ..screens.list[i].light
                    },
                    ..screens.list[i]
                },
        ),
        ..screens
    }
}

/// The monitors after the brightness of some of them was taken hold of.
pub open spec fn taken(screens: Screens, indices: Seq<usize>) -> Screens {
    Screens {
        list: Seq::new(
            screens.list.len(),
            |i: int|
                Screen {
                    light: Light {
                        held: screens.list[i].light.held || indices.contains(i as usize),
                        ..screens.list[i].light
                    },
                    ..screens.list[i]
                },
        ),
        ..screens
    }
}

/// The monitors after requests were handed to whoever holds the brightness of one
/// of them.
pub open spec fn passed_on(
    screens: Screens,
    index: usize,
    requests: Seq<ForwardedBrightnessInput>,
) -> Screens {
    let light = screens.list[index as int].light;
    screens.relit(index as int, Light { inbox: light.inbox + requests, ..light })
}

/// The requests that were handed to the holder of some monitors and wait there, in
/// the order of the monitors.
pub open spec fn waiting_at(indices: Seq<usize>, screens: Screens) -> Seq<ForwardedBrightnessInput>
    decreases indices.len(),
{
    if indices.len() == 0 {
        Seq::empty()
    } else {
        let before = waiting_at(indices.drop_last(), screens);
        if indices.drop_last().contains(indices.last()) {
            before
        } else {
            before + screens.list[indices.last() as int].light.inbox
        }
    }
}

/// The monitors after the requests that wait at some of them were taken away.
pub open spec fn emptied(screens: Screens, indices: Seq<usize>) -> Screens {
    Screens {
        list: Seq::new(
            screens.list.len(),
            |i: int|
                Screen {
                    light: Light {
                        inbox: if indices.contains(i as usize) {
                            Seq::empty()
                        } else {
                            screens.list[i].light.inbox
                        },
                        ..screens.list[i].light
                    },
                    ..screens.list[i]
                },
        ),
        ..screens
    }
}

/// The first of some monitors whose brightness somebody else holds.
pub open spec fn first_blocked(
    indices: Seq<usize>,
    held: Seq<usize>,
    screens: Screens,
) -> Option<usize>
    decreases indices.len(),
{
    if indices.len() == 0 {
        None
    } else if first_blocked(indices.drop_last(), held, screens) is Some {
        first_blocked(indices.drop_last(), held, screens)
    } else if !held.contains(indices.last()) && screens.list[indices.last() as int].light.held {
        Some(indices.last())
    } else {
        None
    }
}

/// The same positions in ascending order, each once.
pub open spec fn in_order(indices: Seq<usize>, bound: nat) -> Seq<usize> {
    ascending(indices.to_set(), bound)
}

/// Whether the monitors at some positions exist and their brightness is held.
pub open spec fn holds(screens: Screens, indices: Seq<usize>) -> bool {
    forall|k: int|
        0 <= k < indices.len() ==> (#[trigger] indices[k]) < screens.list.len()
            && screens.list[indices[k] as int].light.held
}

fn contains(list: &Vec<usize>, item: usize) -> (found: bool)
    ensures
        found == list@.contains(item),
{
    let mut k: usize = 0;
    while k < list.len()
        invariant
            0 <= k <= list@.len(),
            forall|j: int| 0 <= j < k ==> list@[j] != item,
        decreases list@.len() - k,
    {
        if list[k] == item {
            assert(list@[k as int] == item);
            return true;
        }
        k += 1;
    }
    false
}

/// Takes the requests that wait at one monitor to the end of a queue.
fn gather_from(
    states: &mut CollectiveMonitorStateInternal,
    index: usize,
    inputs: &mut VecDeque<ForwardedBrightnessInput>,
)
    requires
        old(states).wf(),
        index < old(states)@.list.len(),
        old(states)@.list[index as int].light.held,
    ensures
        final(states).wf(),
        final(states)@ == emptied(old(states)@, seq![index]),
        final(inputs)@ == old(inputs)@ + old(states)@.list[index as int].light.inbox,
{
    let ghost screens = states@;
    let ghost inbox = screens.list[index as int].light.inbox;
    let ghost mut count: int = 0;
    assert(states@ =~= screens.relit(
        index as int,
        Light { inbox: inbox.skip(0), ..screens.list[index as int].light },
    )) by {
        assert(inbox.skip(0) =~= inbox);
    }
    assert(inputs@ =~= old(inputs)@ + inbox.take(0));
    loop
        invariant
            states.wf(),
            index < screens.list.len(),
            screens.list[index as int].light.held,
            inbox == screens.list[index as int].light.inbox,
            0 <= count <= inbox.len(),
            states@ == screens.relit(
                index as int,
                Light { inbox: inbox.skip(count), ..screens.list[index as int].light },
            ),
            inputs@ == old(inputs)@ + inbox.take(count),
        ensures
            count == inbox.len(),
        decreases inbox.len() - count,
    {
        assert(states@.list[index as int].light.inbox == inbox.skip(count));
        match states.take_message(index) {
            Some(request) => {
                inputs.push_back(request);
                proof {
                    assert(inbox.skip(count).drop_first() =~= inbox.skip(count + 1));
                    assert(inbox.take(count + 1) =~= inbox.take(count).push(request));
                    assert(inputs@ =~= old(inputs)@ + inbox.take(count + 1));
                    count = count + 1;
                    assert(states@ =~= screens.relit(
                        index as int,
                        Light { inbox: inbox.skip(count), ..screens.list[index as int].light },
                    ));
                }
            },
            None => {
                break;
            },
        }
    }
    proof {
        assert(inbox.take(count) =~= inbox);
        assert(inbox.skip(count) =~= Seq::<ForwardedBrightnessInput>::empty());
        assert(seq![index][0] == index);
        assert(states@ =~= emptied(screens, seq![index]));
    }
}

/// Takes the requests that wait at some monitors to the end of a queue.
fn gather(
    states: &mut CollectiveMonitorStateInternal,
    indices: &Vec<usize>,
    inputs: &mut VecDeque<ForwardedBrightnessInput>,
)
    requires
        old(states).wf(),
        holds(old(states)@, indices@),
    ensures
        final(states).wf(),
        final(states)@ == emptied(old(states)@, indices@),
        final(inputs)@ == old(inputs)@ + waiting_at(indices@, old(states)@),
{
    let ghost screens = states@;
    let mut k: usize = 0;
    assert(indices@.take(0).len() == 0);
    assert(states@ =~= emptied(screens, indices@.take(0)));
    assert(inputs@ =~= old(inputs)@ + waiting_at(indices@.take(0), screens));
    while k < indices.len()
        invariant
            0 <= k <= indices@.len(),
            states.wf(),
            screens == old(states)@,
            holds(screens, indices@),
            states@ == emptied(screens, indices@.take(k as int)),
            inputs@ == old(inputs)@ + waiting_at(indices@.take(k as int), screens),
        decreases indices@.len() - k,
    {
        let index: usize = indices[k];
        let ghost front = indices@.take(k as int);
        let ghost before = states@;
        let ghost queue = inputs@;
        assert(indices@[k as int] < screens.list.len() && screens.list[index as int].light.held);
        gather_from(states, index, inputs);
        proof {
            assert(indices@.take(k + 1).drop_last() =~= front);
            assert(indices@.take(k + 1).last() == index);
            lemma_take_contains(indices@, k as int);
            assert forall|item: usize| #[trigger] seq![index].contains(item) <==> item == index by {
                assert(seq![index][0] == index);
            }
            assert(states@ =~= emptied(screens, indices@.take(k + 1)));
            assert(inputs@ =~= old(inputs)@ + waiting_at(indices@.take(k + 1), screens));
        }
        k += 1;
    }
    assert(indices@.take(k as int) =~= indices@);
}

/// Lets go of the brightness of some monitors.
fn release_all(states: &mut CollectiveMonitorStateInternal, indices: &Vec<usize>)
    requires
        old(states).wf(),
        old(states)@.has_all(indices@),
    ensures
        final(states).wf(),
        final(states)@ == let_go(old(states)@, indices@),
{
    let mut k: usize = 0;
    assert(states@ =~= let_go(old(states)@, indices@.take(0)));
    while k < indices.len()
        invariant
            0 <= k <= indices@.len(),
            states.wf(),
            old(states)@.has_all(indices@),
            states@ == let_go(old(states)@, indices@.take(k as int)),
        decreases indices@.len() - k,
    {
        assert(indices@[k as int] < old(states)@.list.len());
        let ghost before = states@;
        states.release(indices[k]);
        proof {
            lemma_take_contains(indices@, k as int);
            assert(states@ =~= let_go(old(states)@, indices@.take(k + 1)));
        }
        k += 1;
    }
    assert(indices@.take(k as int) =~= indices@);
}

/// One more element of a list adds that element to those contained.
proof fn lemma_take_contains(list: Seq<usize>, k: int)
    requires
        0 <= k < list.len(),
    ensures
        forall|item: usize| #[trigger]
            list.take(k + 1).contains(item) <==> (list.take(k).contains(item) || item == list[k]),
{
    assert forall|item: usize| #[trigger] list.take(k + 1).contains(item) <==> (list.take(
        k,
    ).contains(item) || item == list[k]) by {
        if list.take(k).contains(item) {
            let j = list.take(k).index_of(item);
            assert(list.take(k + 1)[j] == item);
        }
        if item == list[k] {
            assert(list.take(k + 1)[k] == item);
        }
        if list.take(k + 1).contains(item) {
            let j = list.take(k + 1).index_of(item);
            if j < k {
                assert(list.take(k)[j] == item);
            }
        }
    }
}

// ---------------------------------------------------------------------------
// what is to become of a monitor
// ---------------------------------------------------------------------------

/// The least brightness, in per cent, that an adjustment leads to.
pub const LOWEST_ADJUSTED: i32 = 10;

/// The greatest brightness, in per cent, that an adjustment leads to.
pub const HIGHEST_ADJUSTED: i32 = 100;

/// The brightness, in per cent, that a change leads to from a level.
pub open spec fn target_of(change: Option<BrightnessChange>, level: Level) -> int {
    match change {
        Some(BrightnessChange::SetTo(percent)) => percent as int,
        Some(BrightnessChange::Adjustment(shift)) => {
            let sum = shift + level.truncated(-32768, 32767);
            if sum < LOWEST_ADJUSTED {
                LOWEST_ADJUSTED as int
            } else if sum > HIGHEST_ADJUSTED {
                HIGHEST_ADJUSTED as int
            } else {
                sum
            }
        },
        None => level.truncated(0, 255),
    }
}

/// The brightness, in per cent, that a change leads to from a level.
pub fn target(change: &Option<BrightnessChange>, level: Level) -> (percent: u8)
    ensures
        percent == target_of(*change, level),
{
    match change {
        Some(BrightnessChange::SetTo(new_brightness)) => *new_brightness,
        Some(BrightnessChange::Adjustment(brightness_shift)) => {
            let sum: i32 = *brightness_shift as i32 + level.whole_percent() as i32;
            if sum < LOWEST_ADJUSTED {
                LOWEST_ADJUSTED as u8
            } else if sum > HIGHEST_ADJUSTED {
                HIGHEST_ADJUSTED as u8
            } else {
                sum as u8
            }
        },
        None => level.unsigned_percent(),
    }
}

/// A monitor whose brightness is held, where its brightness comes from and where it
/// goes to.
#[derive(Clone, Copy, Debug, PartialEq, Eq, Structural)]
pub struct Change {
    pub index: usize,
    pub start: Level,
    pub target: u8,
}

/// The positions of the monitors that are to be changed.
pub open spec fn indices_of(changes: Seq<Change>) -> Seq<usize> {
    Seq::new(changes.len(), |k: int| changes[k].index)
}

/// What is to become of the monitors at some positions.
pub open spec fn changes_of(
    indices: Seq<usize>,
    change: Option<BrightnessChange>,
    screens: Screens,
) -> Seq<Change> {
    Seq::new(
        indices.len(),
        |k: int|
            {
                let level = screens.list[indices[k] as int].light.level;
                Change { index: indices[k], start: level, target: target_of(change, level) as u8 }
            },
    )
}

/// The positions of the monitors that are to be changed.
pub(crate) fn change_indices(changes: &Vec<Change>) -> (indices: Vec<usize>)
    ensures
        indices@ == indices_of(changes@),
{
    let mut indices: Vec<usize> = Vec::new();
    let mut k: usize = 0;
    while k < changes.len()
        invariant
            0 <= k <= changes@.len(),
            indices@.len() == k,
            forall|j: int| 0 <= j < k ==> indices@[j] == changes@[j].index,
        decreases changes@.len() - k,
    {
        indices.push(changes[k].index);
        k += 1;
    }
    assert(indices@ =~= indices_of(changes@));
    indices
}

// ---------------------------------------------------------------------------
// taking up a request
// ---------------------------------------------------------------------------

/// A task that is about to take up the next request.
pub struct BrightnessTask {
    /// The requests that wait, the oldest first.
    pub inputs: VecDeque<ForwardedBrightnessInput>,
    /// The positions of the monitors whose brightness the task holds.
    pub held: Vec<usize>,
}

/// A task that has to know how large the changes are.
pub struct Measurement {
    pub inputs: VecDeque<ForwardedBrightnessInput>,
    /// The request that is being carried out.
    pub input: BrightnessInput,
    /// The messages for the client who sent it.
    pub holder: SocketMessageHolder,
    /// What is to become of each monitor. The task holds these monitors.
    pub changes: Vec<Change>,
}

impl Measurement {
    /// Whether the task holds the monitors that it is to change.
    pub open spec fn wf(self, screens: Screens) -> bool {
        holds(screens, indices_of(self.changes@))
    }
}

/// What comes of a task's turn.
pub enum Turn {
    /// There was nothing to do any more: no request is left, and none waits at the
    /// monitors that were held.
    Finished,
    /// All requests went to the task that holds the brightness of a monitor.
    HandedOver { to: usize },
    /// The request could not be carried out: this is the answer.
    Respond { reply: Reply, task: BrightnessTask },
    /// The request is being carried out.
    Measure(Measurement),
}

/// What there is to say where no monitor is meant.
pub open spec fn no_monitors() -> Note {
    ("No monitors found to change brightness"@, true)
}

/// Whether this is the request with the monitors that it is meant for written down.
pub open spec fn is_processed_form(
    processed: ForwardedBrightnessInput,
    request: ForwardedBrightnessInput,
    indices: Seq<usize>,
) -> bool {
    &&& processed.brightness_input == request.brightness_input
    &&& processed.socket_message_holder == request.socket_message_holder
    &&& processed.info matches BrightnessInputInfo::Processed { relevant_monitor_indices }
        && relevant_monitor_indices@ == indices
}

impl BrightnessTask {
    /// Whether the task holds what it says that it holds.
    pub open spec fn wf(self, screens: Screens) -> bool {
        holds(screens, self.held@)
    }

    /// The requests that the task has to carry out: its own, and behind them those that
    /// wait at the monitors that it holds.
    pub open spec fn queue(self, screens: Screens) -> Seq<ForwardedBrightnessInput> {
        self.inputs@ + waiting_at(self.held@, screens)
    }

    /// The monitors that the next request is meant for.
    pub open spec fn next_relevant(self, screens: Screens, config: DaemonOptions) -> Seq<usize> {
        relevant(self.queue(screens)[0], screens, config)
    }

    /// What a turn of the task comes to, and what it makes of the monitors.
    pub open spec fn leads_to(
        self,
        turn: Turn,
        screens: Screens,
        after: Screens,
        config: DaemonOptions,
    ) -> bool {
        let queue = self.queue(screens);
        let gathered = emptied(screens, self.held@);
        if queue.len() == 0 {
            turn is Finished && after == let_go(gathered, self.held@)
        } else {
            let request = queue[0];
            let rest = queue.drop_first();
            let socket = request.socket_message_holder.socket;
            let queued = request.socket_message_holder.queued();
            let indices = self.next_relevant(screens, config);
            let blocked = first_blocked(indices, self.held@, screens);
            if indices.len() == 0 {
                turn matches Turn::Respond { reply, task } && reply.tells(
                    socket,
                    queued.push(no_monitors()),
                ) && task.inputs@ == rest && task.held@ == self.held@ && after == gathered
            } else if complaints(indices, screens).len() > 0 {
                turn matches Turn::Respond { reply, task } && reply.tells(
                    socket,
                    queued + complaints(indices, screens),
                ) && task.inputs@ == rest && task.held@ == self.held@ && after == gathered
            } else if blocked is Some {
                turn == Turn::HandedOver { to: blocked->0 } && exists|
                    processed: ForwardedBrightnessInput,
                | #[trigger]
                    is_processed_form(processed, request, indices) && after == passed_on(
                        let_go(gathered, self.held@),
                        blocked->0,
                        seq![processed] + rest,
                    )
            } else {
                turn matches Turn::Measure(measurement) && measurement.inputs@ == rest
                    && measurement.input == request.brightness_input && measurement.holder
                    == request.socket_message_holder && measurement.changes@ == changes_of(
                    in_order(indices, screens.list.len()),
                    request.brightness_input.brightness,
                    screens,
                ) && after == taken(let_go(gathered, self.held@), indices)
            }
        }
    }

    /// A task for one request.
    pub fn new(
        brightness_change: BrightnessInput,
        socket_holder: SocketMessageHolder,
    ) -> (task: BrightnessTask)
        ensures
            task.inputs@ == seq![
                ForwardedBrightnessInput {
                    brightness_input: brightness_change,
                    info: BrightnessInputInfo::UnProcessed,
                    socket_message_holder: socket_holder,
                },
            ],
            task.held@ == Seq::<usize>::empty(),
    {
        let mut inputs: VecDeque<ForwardedBrightnessInput> = VecDeque::new();
        inputs.push_back(
            ForwardedBrightnessInput::new_unprocessed(brightness_change, socket_holder),
        );
        BrightnessTask { inputs, held: Vec::new() }
    }

    /// Whether there is a monitor at each position that the next request is meant
    /// for.
    pub fn is_ready(&self, states: &CollectiveMonitorStateInternal, config: &DaemonOptions) -> (ready:
        bool)
        requires
            states.wf(),
            self.wf(states@),
        ensures
            ready == (self.queue(states@).len() > 0 ==> states@.has_all(
                self.next_relevant(states@, *config),
            )),
    {
        if self.inputs.len() > 0 {
            assert(self.queue(states@)[0] == self.inputs@[0]);
            let indices: Vec<usize> = relevant_indices(&self.inputs[0], states, config);
            return all_exist(states, &indices);
        }
        let mut k: usize = 0;
        assert(self.held@.take(0).len() == 0);
        while k < self.held.len()
            invariant
                0 <= k <= self.held@.len(),
                states.wf(),
                self.wf(states@),
                self.inputs@.len() == 0,
                waiting_at(self.held@.take(k as int), states@).len() == 0,
            decreases self.held@.len() - k,
        {
            let index: usize = self.held[k];
            assert(self.held@[k as int] < states@.list.len());
            let inbox: &VecDeque<ForwardedBrightnessInput> =
                &states.available_adapter_list[index].brightness_state.brightness.write_mutex;
            assert(inbox@ == states@.list[index as int].light.inbox);
            proof {
                assert(self.held@.take(k + 1).drop_last() =~= self.held@.take(k as int));
                assert(self.held@.take(k + 1).last() == index);
                if self.held@.take(k as int).contains(index) {
                    lemma_waiting_somewhere(self.held@.take(k as int), states@, index);
                }
            }
            if inbox.len() > 0 {
                let indices: Vec<usize> = relevant_indices(&inbox[0], states, config);
                proof {
                    assert(waiting_at(self.held@.take(k + 1), states@) =~= inbox@);
                    lemma_waiting_prefix(self.held@, states@, k + 1);
                    assert(self.queue(states@)[0] == inbox@[0]);
                }
                return all_exist(states, &indices);
            }
            k += 1;
        }
        assert(self.held@.take(k as int) =~= self.held@);
        true
    }

    /// Takes up the next request. Lets go of the monitors that it is not meant for
    /// and takes hold of those that it is meant for. The task has finished when it has
    /// no request any more and none waits at the monitors that it holds.
    pub fn next(
        self,
        states: &mut CollectiveMonitorStateInternal,
        config: &DaemonOptions,
    ) -> (turn: Turn)
        requires
            old(states).wf(),
            self.wf(old(states)@),
            self.queue(old(states)@).len() > 0 ==> old(states)@.has_all(
                self.next_relevant(old(states)@, *config),
            ),
        ensures
            final(states).wf(),
            self.leads_to(turn, old(states)@, final(states)@, *config),
            turn is Finished ==> self.inputs@.len() == 0 && forall|k: int|
                0 <= k < self.held@.len() ==> old(states)@.list[(
                #[trigger] self.held@[k]) as int].light.inbox.len() == 0,
            turn matches Turn::Respond { task, .. } ==> task.wf(final(states)@),
            turn matches Turn::Measure(measurement) ==> measurement.wf(final(states)@),
    {
        let ghost original = states@;
        let mut inputs: VecDeque<ForwardedBrightnessInput> = self.inputs;
        let held: Vec<usize> = self.held;
        gather(states, &held, &mut inputs);
        let ghost screens = states@;
        let ghost queue = self.queue(original);
        proof {
            lemma_gathered(original, held@);
        }
        match inputs.pop_front() {
            None => {
                assert(queue.len() == 0);
                proof {
                    assert forall|k: int| 0 <= k < held@.len() implies original.list[(
                    #[trigger] held@[k]) as int].light.inbox.len() == 0 by {
                        lemma_waiting_somewhere(held@, original, held@[k]);
                    }
                }
                release_all(states, &held);
                Turn::Finished
            },
            Some(request) => {
                assert(inputs@ =~= queue.drop_first());
                let ForwardedBrightnessInput { brightness_input, info, socket_message_holder } = request;
                let mut info: BrightnessInputInfo = info;
                if info.is_unprocessed() {
                    info.transform_unprocessed(chosen_indices(&brightness_input, states, config));
                }
                let indices: Vec<usize> = match info {
                    BrightnessInputInfo::Processed { relevant_monitor_indices } => {
                        relevant_monitor_indices
                    },
                    BrightnessInputInfo::UnProcessed => Vec::new(),
                };
                proof {
                    assert(indices@ == relevant(queue[0], screens, *config));
                    assert(screens == emptied(original, held@));
                    assert(indices@ == self.next_relevant(original, *config));
                    assert(original.has_all(indices@));
                    assert(complaints(indices@, screens) == complaints(indices@, original));
                    assert(first_blocked(indices@, held@, screens) == first_blocked(
                        indices@,
                        held@,
                        original,
                    ));
                }
                let mut holder: SocketMessageHolder = socket_message_holder;
                if indices.len() == 0 {
                    holder.queue_error("No monitors found to change brightness".to_owned());
                    return Turn::Respond {
                        reply: holder.consume(),
                        task: BrightnessTask { inputs, held },
                    };
                }
                if queue_complaints(&mut holder, states, &indices) {
                    return Turn::Respond {
                        reply: holder.consume(),
                        task: BrightnessTask { inputs, held },
                    };
                }
                match find_blocked(states, &indices, &held) {
                    Some(index) => {
                        release_all(states, &held);
                        let ghost released = states@;
                        let processed = ForwardedBrightnessInput::new_processed(
                            brightness_input,
                            holder,
                            indices,
                        );
                        states.forward(index, processed);
                        assert(is_processed_form(processed, queue[0], indices@));
                        proof {
                            let inbox = released.list[index as int].light.inbox;
                            assert(inbox.push(processed) =~= inbox + seq![processed]);
                            assert(states@ =~= passed_on(released, index, seq![processed]));
                        }
                        forward_all(states, index, inputs);
                        proof {
                            let rest = queue.drop_first();
                            assert(released.list[index as int].light.inbox + seq![processed] + rest
                                =~= released.list[index as int].light.inbox + (seq![processed]
                                + rest));
                            assert(states@ =~= passed_on(
                                released,
                                index,
                                seq![processed] + rest,
                            ));
                        }
                        Turn::HandedOver { to: index }
                    },
                    None => {
                        release_all(states, &held);
                        let changes: Vec<Change> = take_all(
                            states,
                            &indices,
                            &brightness_input.brightness,
                        );
                        proof {
                            let released = let_go(screens, held@);
                            assert(changes_of(
                                in_order(indices@, screens.list.len()),
                                brightness_input.brightness,
                                released,
                            ) =~= changes_of(
                                in_order(indices@, screens.list.len()),
                                brightness_input.brightness,
                                screens,
                            )) by {
                                lemma_in_order(indices@, screens.list.len());
                            }
                            let ordered = in_order(indices@, screens.list.len());
                            assert(original.has_all(ordered)) by {
                                lemma_in_order(indices@, screens.list.len());
                            }
                            assert(changes_of(ordered, brightness_input.brightness, screens)
                                == changes_of(ordered, brightness_input.brightness, original));
                        }
                        proof {
                            lemma_in_order(indices@, screens.list.len());
                            assert forall|k: int|
                                0 <= k < indices_of(changes@).len() implies (
                            #[trigger] indices_of(changes@)[k]) < states@.list.len()
                                && states@.list[indices_of(changes@)[k] as int].light.held by {
                                assert(indices_of(changes@)[k] == in_order(
                                    indices@,
                                    screens.list.len(),
                                )[k]);
                            }
                        }
                        Turn::Measure(Measurement { inputs, input: brightness_input, holder, changes })
                    },
                }
            },
        }
    }
}

/// What waits at one of some monitors is among what waits at all of them.
pub proof fn lemma_waiting_somewhere(indices: Seq<usize>, screens: Screens, index: usize)
    requires
        indices.contains(index),
        waiting_at(indices, screens).len() == 0,
    ensures
        screens.list[index as int].light.inbox.len() == 0,
    decreases indices.len(),
{
    let k = indices.index_of(index);
    if k < indices.len() - 1 {
        assert(indices.drop_last()[k] == index);
        lemma_waiting_somewhere(indices.drop_last(), screens, index);
    } else if indices.drop_last().contains(index) {
        lemma_waiting_somewhere(indices.drop_last(), screens, index);
    }
}

/// What waits at the first of some monitors comes first.
proof fn lemma_waiting_prefix(indices: Seq<usize>, screens: Screens, k: int)
    requires
        0 <= k <= indices.len(),
        waiting_at(indices.take(k), screens).len() > 0,
    ensures
        waiting_at(indices, screens).len() > 0,
        waiting_at(indices, screens)[0] == waiting_at(indices.take(k), screens)[0],
    decreases indices.len() - k,
{
    if k < indices.len() {
        assert(indices.take(k + 1).drop_last() =~= indices.take(k));
        lemma_waiting_prefix(indices, screens, k + 1);
    } else {
        assert(indices.take(k) =~= indices);
    }
}

/// Taking requests away changes neither which monitors are chosen nor what is said of
/// them.
proof fn lemma_gathered(screens: Screens, held: Seq<usize>)
    ensures
        forall|request: ForwardedBrightnessInput, config: DaemonOptions| #[trigger]
            relevant(request, emptied(screens, held), config) == relevant(request, screens, config),
        forall|indices: Seq<usize>|
            screens.has_all(indices) ==> #[trigger] complaints(indices, emptied(screens, held))
                == complaints(indices, screens),
        forall|indices: Seq<usize>|
            screens.has_all(indices) ==> #[trigger] first_blocked(
                indices,
                held,
                emptied(screens, held),
            ) == first_blocked(indices, held, screens),
        forall|indices: Seq<usize>, change: Option<BrightnessChange>|
            screens.has_all(indices) ==> #[trigger] changes_of(
                indices,
                change,
                emptied(screens, held),
            ) == changes_of(indices, change, screens),
{
    let after = emptied(screens, held);
    assert forall|request: ForwardedBrightnessInput, config: DaemonOptions| #[trigger]
        relevant(request, after, config) == relevant(request, screens, config) by {
        if request.info is UnProcessed {
            lemma_chosen_by_names(screens, after, choice_of(request.brightness_input, config));
        }
    }
    assert forall|indices: Seq<usize>| screens.has_all(indices) implies #[trigger] complaints(
        indices,
        after,
    ) == complaints(indices, screens) by {
        lemma_complaints_same(indices, screens, after);
    }
    assert forall|indices: Seq<usize>| screens.has_all(indices) implies #[trigger] first_blocked(
        indices,
        held,
        after,
    ) == first_blocked(indices, held, screens) by {
        lemma_blocked_same(indices, held, screens, after);
    }
    assert forall|indices: Seq<usize>, change: Option<BrightnessChange>|
        screens.has_all(indices) implies #[trigger] changes_of(indices, change, after)
        == changes_of(indices, change, screens) by {
        assert(changes_of(indices, change, after) =~= changes_of(indices, change, screens));
    }
}

proof fn lemma_complaints_same(indices: Seq<usize>, screens: Screens, after: Screens)
    requires
        screens.has_all(indices),
        after.list.len() == screens.list.len(),
        after.enabled == screens.enabled,
        forall|i: int|
            0 <= i < screens.list.len() ==> (#[trigger] after.list[i]).name == screens.list[i].name,
    ensures
        complaints(indices, after) == complaints(indices, screens),
    decreases indices.len(),
{
    if indices.len() > 0 {
        let front = indices.drop_last();
        assert forall|k: int| 0 <= k < front.len() implies (#[trigger] front[k])
            < screens.list.len() by {
            assert(front[k] == indices[k]);
        }
        lemma_complaints_same(front, screens, after);
        assert(indices[indices.len() - 1] < screens.list.len());
        assert(after.list[indices.last() as int].name == screens.list[indices.last() as int].name);
    }
}

proof fn lemma_blocked_same(
    indices: Seq<usize>,
    held: Seq<usize>,
    screens: Screens,
    after: Screens,
)
    requires
        screens.has_all(indices),
        after.list.len() == screens.list.len(),
        forall|i: int|
            0 <= i < screens.list.len() ==> (#[trigger] after.list[i]).light.held
                == screens.list[i].light.held,
    ensures
        first_blocked(indices, held, after) == first_blocked(indices, held, screens),
    decreases indices.len(),
{
    if indices.len() > 0 {
        let front = indices.drop_last();
        assert forall|k: int| 0 <= k < front.len() implies (#[trigger] front[k])
            < screens.list.len() by {
            assert(front[k] == indices[k]);
        }
        lemma_blocked_same(front, held, screens, after);
        assert(indices[indices.len() - 1] < screens.list.len());
        assert(after.list[indices.last() as int].light.held
            == screens.list[indices.last() as int].light.held);
    }
}

/// Positions in order are the same positions: each once, ascending.
pub proof fn lemma_in_order(indices: Seq<usize>, bound: nat)
    requires
        bound <= usize::MAX,
    ensures
        forall|k: int|
            0 <= k < in_order(indices, bound).len() ==> (#[trigger] in_order(indices, bound)[k])
                < bound && indices.contains(in_order(indices, bound)[k]),
        forall|j: int, k: int|
            0 <= j < k < in_order(indices, bound).len() ==> (#[trigger] in_order(indices, bound)[j])
                < (#[trigger] in_order(indices, bound)[k]),
        forall|i: usize|
            i < bound && #[trigger] indices.contains(i) ==> in_order(indices, bound).contains(i),
{
    lemma_ascending(indices.to_set(), bound);
    assert forall|i: usize| i < bound && #[trigger] indices.contains(i) implies in_order(
        indices,
        bound,
    ).contains(i) by {
        assert(indices.to_set().contains(i));
    }
}

/// The first of some monitors whose brightness somebody else holds.
fn find_blocked(
    states: &CollectiveMonitorStateInternal,
    indices: &Vec<usize>,
    held: &Vec<usize>,
) -> (found: Option<usize>)
    requires
        states@.has_all(indices@),
    ensures
        found == first_blocked(indices@, held@, states@),
        found matches Some(index) ==> index < states@.list.len(),
{
    let mut k: usize = 0;
    assert(indices@.take(0).len() == 0);
    while k < indices.len()
        invariant
            0 <= k <= indices@.len(),
            states@.has_all(indices@),
            first_blocked(indices@.take(k as int), held@, states@) is None,
        decreases indices@.len() - k,
    {
        let index: usize = indices[k];
        assert(indices@[k as int] < states@.list.len());
        assert(indices@.take(k + 1).drop_last() =~= indices@.take(k as int));
        assert(indices@.take(k + 1).last() == index);
        if !contains(held, index)
            && states.available_adapter_list[index].brightness_state.brightness.locked {
            proof {
                lemma_first_blocked_stays(indices@, held@, states@, k + 1);
            }
            return Some(index);
        }
        k += 1;
    }
    assert(indices@.take(k as int) =~= indices@);
    None
}

proof fn lemma_first_blocked_stays(
    indices: Seq<usize>,
    held: Seq<usize>,
    screens: Screens,
    k: int,
)
    requires
        0 <= k <= indices.len(),
        first_blocked(indices.take(k), held, screens) is Some,
    ensures
        first_blocked(indices, held, screens) == first_blocked(indices.take(k), held, screens),
    decreases indices.len() - k,
{
    if k < indices.len() {
        assert(indices.take(k + 1).drop_last() =~= indices.take(k));
        lemma_first_blocked_stays(indices, held, screens, k + 1);
    } else {
        assert(indices.take(k) =~= indices);
    }
}

/// Hands requests, in order, to whoever holds the brightness of a monitor.
fn forward_all(
    states: &mut CollectiveMonitorStateInternal,
    index: usize,
    inputs: VecDeque<ForwardedBrightnessInput>,
)
    requires
        old(states).wf(),
        index < old(states)@.list.len(),
    ensures
        final(states).wf(),
        final(states)@ == passed_on(old(states)@, index, inputs@),
{
    let mut remaining: VecDeque<ForwardedBrightnessInput> = inputs;
    let ghost mut sent: Seq<ForwardedBrightnessInput> = Seq::empty();
    assert(states@ =~= passed_on(old(states)@, index, sent));
    assert(sent + remaining@ =~= inputs@);
    loop
        invariant
            states.wf(),
            index < old(states)@.list.len(),
            states@ == passed_on(old(states)@, index, sent),
            sent + remaining@ == inputs@,
        ensures
            states.wf(),
            states@ == passed_on(old(states)@, index, inputs@),
        decreases remaining@.len(),
    {
        let ghost before = remaining@;
        match remaining.pop_front() {
            Some(input) => {
                states.forward(index, input);
                proof {
                    assert(sent + before =~= sent.push(input) + remaining@);
                    assert(states@ =~= passed_on(old(states)@, index, sent.push(input)));
                    sent = sent.push(input);
                }
            },
            None => {
                assert(sent =~= inputs@);
                break;
            },
        }
    }
}

/// Takes hold of the brightness of some monitors and says what is to become of
/// them, in ascending order of their positions.
fn take_all(
    states: &mut CollectiveMonitorStateInternal,
    indices: &Vec<usize>,
    change: &Option<BrightnessChange>,
) -> (changes: Vec<Change>)
    requires
        old(states).wf(),
        old(states)@.has_all(indices@),
    ensures
        final(states).wf(),
        final(states)@ == taken(old(states)@, indices@),
        changes@ == changes_of(
            in_order(indices@, old(states)@.list.len()),
            *change,
            old(states)@,
        ),
{
    let ghost before = states@;
    let mut changes: Vec<Change> = Vec::new();
    let mut i: usize = 0;
    assert(before.list.len() == states.available_adapter_list@.len());
    assert(states.available_adapter_list.len() <= usize::MAX);
    while i < states.available_adapter_list.len()
        invariant
            0 <= i <= states.available_adapter_list@.len(),
            states.wf(),
            before.has_all(indices@),
            before.list.len() == states.available_adapter_list@.len(),
            states@.enabled == before.enabled,
            states@.active == before.active,
            states@.named == before.named,
            forall|j: int|
                0 <= j < i ==> #[trigger] states@.list[j] == taken(before, indices@).list[j],
            forall|j: int|
                i <= j < before.list.len() ==> #[trigger] states@.list[j] == before.list[j],
            changes@ == changes_of(in_order(indices@, i as nat), *change, before),
        decreases states.available_adapter_list@.len() - i,
    {
        let ghost previous = states@;
        assert(states@.list[i as int] == before.list[i as int]);
        assert(in_order(indices@, (i + 1) as nat) == if indices@.to_set().contains(i) {
            in_order(indices@, i as nat).push(i)
        } else {
            in_order(indices@, i as nat)
        });
        if contains(indices, i) {
            let _ = states.try_hold(i);
            let level: Level = states.available_adapter_list[i].brightness_state.get();
            let change = Change { index: i, start: level, target: target(change, level) };
            changes.push(change);
        }
        proof {
            assert(states@.list[i as int] =~= taken(before, indices@).list[i as int]);
            assert(changes@ =~= changes_of(in_order(indices@, (i + 1) as nat), *change, before));
        }
        i += 1;
    }
    assert(states@ =~= taken(before, indices@));
    changes
}

// ---------------------------------------------------------------------------
// setting brightnesses and showing them
// ---------------------------------------------------------------------------

/// The level that a list of levels for some positions gives the monitor at one
/// position; the last one counts.
pub open spec fn level_at(
    indices: Seq<usize>,
    levels: Seq<Level>,
    index: usize,
    otherwise: Level,
) -> Level
    decreases indices.len(),
{
    if indices.len() == 0 {
        otherwise
    } else if indices.last() == index {
        levels[indices.len() - 1]
    } else {
        level_at(indices.drop_last(), levels, index, otherwise)
    }
}

/// The monitors after some of them were given new levels.
pub open spec fn with_levels(screens: Screens, indices: Seq<usize>, levels: Seq<Level>) -> Screens {
    Screens {
        list: Seq::new(
            screens.list.len(),
            |i: int|
                Screen {
                    light: Light {
                        level: level_at(indices, levels, i as usize, screens.list[i].light.level),
                        ..screens.list[i].light
                    },
                    ..screens.list[i]
                },
        ),
        ..screens
    }
}

/// The monitors after it was noted whether some of them are fading.
pub open spec fn with_fading(screens: Screens, indices: Seq<usize>, is_fading: bool) -> Screens {
    Screens {
        list: Seq::new(
            screens.list.len(),
            |i: int|
                Screen {
                    light: Light {
                        is_fading: if indices.contains(i as usize) {
                            is_fading
                        } else {
                            screens.list[i].light.is_fading
                        },
                        ..screens.list[i].light
                    },
                    ..screens.list[i]
                },
        ),
        ..screens
    }
}

/// The levels that changes lead to.
pub open spec fn target_levels(changes: Seq<Change>) -> Seq<Level> {
    Seq::new(changes.len(), |k: int| percent_level(changes[k].target))
}

/// Levels of a list beyond the positions do not count.
proof fn lemma_level_at_take(
    indices: Seq<usize>,
    levels: Seq<Level>,
    k: int,
    index: usize,
    otherwise: Level,
)
    requires
        0 <= k < indices.len(),
    ensures
        level_at(indices.take(k + 1), levels, index, otherwise) == if indices[k] == index {
            levels[k]
        } else {
            level_at(indices.take(k), levels, index, otherwise)
        },
{
    assert(indices.take(k + 1).drop_last() =~= indices.take(k));
}

/// Gives some monitors, whose brightness is held, new levels.
pub(crate) fn set_levels(
    states: &mut CollectiveMonitorStateInternal,
    indices: &Vec<usize>,
    levels: &Vec<Level>,
)
    requires
        old(states).wf(),
        holds(old(states)@, indices@),
        levels@.len() == indices@.len(),
    ensures
        final(states).wf(),
        final(states)@ == with_levels(old(states)@, indices@, levels@),
{
    let mut k: usize = 0;
    assert(states@ =~= with_levels(old(states)@, indices@.take(0), levels@));
    while k < indices.len()
        invariant
            0 <= k <= indices@.len(),
            states.wf(),
            holds(old(states)@, indices@),
            levels@.len() == indices@.len(),
            states@ == with_levels(old(states)@, indices@.take(k as int), levels@),
        decreases indices@.len() - k,
    {
        let index: usize = indices[k];
        assert(indices@[k as int] < old(states)@.list.len() && old(
            states,
        )@.list[index as int].light.held);
        states.set_level(index, levels[k]);
        proof {
            assert forall|i: usize, otherwise: Level| #[trigger]
                level_at(indices@.take(k + 1), levels@, i, otherwise) == if index == i {
                    levels@[k as int]
                } else {
                    level_at(indices@.take(k as int), levels@, i, otherwise)
                } by {
                lemma_level_at_take(indices@, levels@, k as int, i, otherwise);
            }
            assert(states@ =~= with_levels(old(states)@, indices@.take(k + 1), levels@));
        }
        k += 1;
    }
    assert(indices@.take(k as int) =~= indices@);
}

/// Notes of some monitors whether they are fading.
pub(crate) fn note_fading(states: &mut CollectiveMonitorStateInternal, indices: &Vec<usize>, is_fading: bool)
    requires
        old(states).wf(),
        old(states)@.has_all(indices@),
    ensures
        final(states).wf(),
        final(states)@ == with_fading(old(states)@, indices@, is_fading),
{
    let mut k: usize = 0;
    assert(states@ =~= with_fading(old(states)@, indices@.take(0), is_fading));
    while k < indices.len()
        invariant
            0 <= k <= indices@.len(),
            states.wf(),
            old(states)@.has_all(indices@),
            states@ == with_fading(old(states)@, indices@.take(k as int), is_fading),
        decreases indices@.len() - k,
    {
        assert(indices@[k as int] < old(states)@.list.len());
        states.set_fading(indices[k], is_fading);
        proof {
            lemma_take_contains(indices@, k as int);
            assert(states@ =~= with_fading(old(states)@, indices@.take(k + 1), is_fading));
        }
        k += 1;
    }
    assert(indices@.take(k as int) =~= indices@);
}

/// The levels that changes lead to.
pub(crate) fn levels_for(changes: &Vec<Change>) -> (levels: Vec<Level>)
    ensures
        levels@ == target_levels(changes@),
{
    let mut levels: Vec<Level> = Vec::new();
    let mut k: usize = 0;
    while k < changes.len()
        invariant
            0 <= k <= changes@.len(),
            levels@.len() == k,
            forall|j: int| 0 <= j < k ==> levels@[j] == percent_level(changes@[j].target),
        decreases changes@.len() - k,
    {
        levels.push(Level::from_percent(changes[k].target));
        k += 1;
    }
    assert(levels@ =~= target_levels(changes@));
    levels
}

/// Commands to run for some monitors.
#[derive(Debug)]
pub struct Refresh {
    /// The position of the monitor that each command is for.
    pub monitors: Vec<usize>,
    pub commands: Vec<CommandLine>,
    /// Whether to wait for the end of the commands and to drop the monitors for
    /// which they fail. If not, the commands are started in order, up to the first
    /// that cannot be started.
    pub auto_remove_displays: bool,
}

impl Refresh {
    /// Whether the commands show the lights of the monitors at some positions.
    pub open spec fn shows(
        self,
        indices: Seq<usize>,
        screens: Screens,
        config: DaemonOptions,
        auto_remove_displays: bool,
    ) -> bool {
        &&& self.monitors@ == monitors_for(indices, config)
        &&& self.commands@.len() == self.monitors@.len()
        &&& as_calls(self.commands@) == calls_for(indices, screens, config)
        &&& self.auto_remove_displays == auto_remove_displays
    }

    /// The commands that show the lights of the monitors at some positions.
    pub fn new(
        states: &CollectiveMonitorStateInternal,
        config: &DaemonOptions,
        monitors: &Vec<usize>,
        auto_remove_displays: bool,
    ) -> (refresh: Refresh)
        requires
            states@.has_all(monitors@),
        ensures
            refresh.shows(monitors@, states@, *config, auto_remove_displays),
    {
        let (commanded, commands): (Vec<usize>, Vec<CommandLine>) = create_xrandr_commands(
            states,
            config,
            monitors,
        );
        Refresh { monitors: commanded, commands, auto_remove_displays }
    }

    /// The position of the monitor that each command is for.
    pub fn commanded(&self) -> (monitors: Vec<usize>)
        ensures
            monitors@ == self.monitors@,
    {
        let mut monitors: Vec<usize> = Vec::new();
        let mut k: usize = 0;
        while k < self.monitors.len()
            invariant
                0 <= k <= self.monitors@.len(),
                monitors@ == self.monitors@.take(k as int),
            decreases self.monitors@.len() - k,
        {
            monitors.push(self.monitors[k]);
            k += 1;
            assert(monitors@ =~= self.monitors@.take(k as int));
        }
        assert(monitors@ =~= self.monitors@);
        monitors
    }
}

/// What there is to say if commands could not be run.
pub open spec fn fault_notes(prefix: Seq<char>, fault: Option<Seq<char>>) -> Seq<Note> {
    match fault {
        Some(reason) => seq![(prefix + reason, true)],
        None => Seq::empty(),
    }
}

/// What there is to say of changes that were made.
pub open spec fn change_notes(changes: Seq<Change>, screens: Screens) -> Seq<Note> {
    Seq::new(
        changes.len(),
        |k: int|
            (
                screens.list[changes[k].index as int].name + ": "@ + decimal(
                    changes[k].target as nat,
                ),
                false,
            ),
    )
}

/// Queues an error if commands could not be run. Says whether they could.
pub(crate) fn queue_fault(holder: &mut SocketMessageHolder, prefix: &str, done: Result<bool, String>) -> (ran:
    bool)
    ensures
        final(holder).socket == old(holder).socket,
        ran == (done is Ok),
        final(holder).queued() == old(holder).queued() + fault_notes(
            prefix@,
            match done {
                Ok(_) => None,
                Err(reason) => Some(reason@),
            },
        ),
{
    match done {
        Ok(_) => {
            assert(holder.queued() =~= old(holder).queued() + Seq::<Note>::empty());
            true
        },
        Err(reason) => {
            let message: String = concat2(prefix, reason.as_str());
            holder.queue_error(message);
            assert(holder.queued() =~= old(holder).queued() + seq![(message@, true)]);
            false
        },
    }
}

/// Queues a message for each change that was made.
pub(crate) fn queue_changes(
    holder: &mut SocketMessageHolder,
    states: &CollectiveMonitorStateInternal,
    changes: &Vec<Change>,
)
    requires
        states@.has_all(indices_of(changes@)),
    ensures
        final(holder).socket == old(holder).socket,
        final(holder).queued() == old(holder).queued() + change_notes(changes@, states@),
{
    let mut k: usize = 0;
    assert(holder.queued() =~= old(holder).queued() + change_notes(changes@, states@).take(0));
    while k < changes.len()
        invariant
            0 <= k <= changes@.len(),
            states@.has_all(indices_of(changes@)),
            holder.socket == old(holder).socket,
            holder.queued() == old(holder).queued() + change_notes(changes@, states@).take(
                k as int,
            ),
        decreases changes@.len() - k,
    {
        let change: Change = changes[k];
        assert(indices_of(changes@)[k as int] < states@.list.len());
        let name: &String = states.available_adapter_list[change.index].get_monitor_name();
        let percent: String = decimal_text(change.target as u64);
        holder.queue_success(concat3(name.as_str(), ": ", percent.as_str()));
        assert(holder.queued() =~= old(holder).queued() + change_notes(changes@, states@).take(
            k + 1,
        ));
        k += 1;
    }
    assert(change_notes(changes@, states@).take(k as int) =~= change_notes(changes@, states@));
}

} // verus!
