//! Which monitors a request to change the brightness is meant for, and that nothing
//! else depends on how they were chosen.
use vstd::prelude::*;

use crate::daemon::config::persistent::DaemonOptions;
use crate::daemon::config::runtime::ForwardedBrightnessInput;
use crate::daemon::engine::brightness::{
    choice_of, emptied, indices_of, is_processed_form, let_go, passed_on, waiting_at, with_levels,
    BrightnessTask, Change, Refresh, Turn,
};
use crate::daemon::engine::brightness_laws::lemma_blocked_exists;
use crate::daemon::engine::commands::{after_refresh, as_calls, refresh_fault, CommandOutcome};
use crate::daemon::engine::display::Screens;
use crate::daemon::engine::fade::{faded_part, Fade, Heard, Settled, Settlement};
use crate::daemon::util::io::Reply;
use crate::level::Level;
use crate::shared::{BrightnessInput, MonitorOverride};
use crate::text::texts;

verus! {

/// Whether two requests differ at most in the monitors that they choose.
pub open spec fn same_but_choice(a: BrightnessInput, b: BrightnessInput) -> bool {
    &&& a.brightness == b.brightness
    &&& a.override_fade == b.override_fade
    &&& a.terminate_fade == b.terminate_fade
}

/// Whether two tasks are about to take up requests that differ at most in the
/// monitors that they choose, and are the same otherwise.
pub open spec fn tasks_alike(a: BrightnessTask, b: BrightnessTask) -> bool {
    &&& a.inputs@.len() > 0
    &&& b.inputs@.len() > 0
    &&& same_but_choice(a.inputs@[0].brightness_input, b.inputs@[0].brightness_input)
    &&& a.inputs@[0].socket_message_holder == b.inputs@[0].socket_message_holder
    &&& a.inputs@.drop_first() == b.inputs@.drop_first()
    &&& a.held@ == b.held@
}

/// Whether two answers go to the same client and say the same.
pub open spec fn replies_alike(a: Reply, b: Reply) -> bool {
    &&& a.socket == b.socket
    &&& a.response.exit_status == b.response.exit_status
    &&& texts(a.response.messages@) == texts(b.response.messages@)
}

/// Whether two sets of commands are the same commands for the same monitors.
pub open spec fn refreshes_alike(a: Refresh, b: Refresh) -> bool {
    &&& a.monitors@ == b.monitors@
    &&& as_calls(a.commands@) == as_calls(b.commands@)
    &&& a.auto_remove_displays == b.auto_remove_displays
}

/// Whether two fades are at the same point of the same changes.
pub open spec fn fades_alike(a: Fade, b: Fade) -> bool {
    &&& a.inputs@ == b.inputs@
    &&& a.holder.socket == b.holder.socket
    &&& a.holder.queued() == b.holder.queued()
    &&& a.held@ == b.held@
    &&& a.fading@ == b.fading@
    &&& a.commanded@ == b.commanded@
    &&& a.plan == b.plan
    &&& a.steps_left == b.steps_left
}

/// Whether two turns come to the same.
pub open spec fn turns_alike(a: Turn, b: Turn) -> bool {
    match (a, b) {
        (Turn::Finished, Turn::Finished) => true,
        (Turn::HandedOver { to }, Turn::HandedOver { to: other }) => to == other,
        (Turn::Respond { reply, task }, Turn::Respond { reply: other, task: rest }) => {
            &&& replies_alike(reply, other)
            &&& task.inputs@ == rest.inputs@
            &&& task.held@ == rest.held@
        },
        (Turn::Measure(one), Turn::Measure(other)) => {
            &&& one.changes@ == other.changes@
            &&& one.inputs@ == other.inputs@
            &&& one.holder == other.holder
            &&& same_but_choice(one.input, other.input)
        },
        _ => false,
    }
}

/// Whether what comes behind the changes that are made at once is the same.
pub open spec fn settled_alike(a: Settled, b: Settled) -> bool {
    match (a, b) {
        (Settled::Respond { reply, task }, Settled::Respond { reply: other, task: rest }) => {
            &&& replies_alike(reply, other)
            &&& task.inputs@ == rest.inputs@
            &&& task.held@ == rest.held@
        },
        (Settled::Begin { fade, refresh }, Settled::Begin { fade: other, refresh: commands }) => {
            &&& fades_alike(fade, other)
            &&& refreshes_alike(refresh, commands)
        },
        _ => false,
    }
}

/// What became of a request: the turn that took it up, and if it was carried out, the
/// changes that were made at once and what came behind them. The monitors are given
/// behind each of these.
pub struct Course {
    pub task: BrightnessTask,
    pub turn: Turn,
    pub taken_up: Screens,
    pub settlement: Settlement,
    pub refresh: Refresh,
    pub made: Screens,
    pub settled: Settled,
    pub ended: Screens,
}

impl Course {
    /// Whether a request takes this course, given how large the changes are and what
    /// comes of the commands.
    pub open spec fn is_taken(
        self,
        screens: Screens,
        config: DaemonOptions,
        shifts: Seq<u8>,
        outcomes: Seq<CommandOutcome>,
    ) -> bool {
        &&& self.task.leads_to(self.turn, screens, self.taken_up, config)
        &&& match self.turn {
            Turn::Measure(measurement) => {
                &&& measurement.leads_to(
                    self.settlement,
                    self.refresh,
                    shifts,
                    self.taken_up,
                    self.made,
                    config,
                )
                &&& self.settlement.leads_to(
                    self.settled,
                    outcomes,
                    self.made,
                    self.ended,
                    config,
                )
            },
            _ => self.ended == self.taken_up,
        }
    }
}

/// Whether two courses run the same commands, give the same answers and leave every
/// monitor with the same light. Where requests were handed over, they wait at the
/// same monitor.
pub open spec fn courses_alike(a: Course, b: Course) -> bool {
    &&& turns_alike(a.turn, b.turn)
    &&& a.ended.list.len() == b.ended.list.len()
    &&& forall|i: int|
        0 <= i < a.ended.list.len() ==> (#[trigger] a.ended.list[i]).name == b.ended.list[i].name
            && a.ended.list[i].light.level == b.ended.list[i].light.level
            && a.ended.list[i].light.held == b.ended.list[i].light.held
            && a.ended.list[i].light.nightlight == b.ended.list[i].light.nightlight
            && a.ended.list[i].light.is_fading == b.ended.list[i].light.is_fading
            && a.ended.list[i].light.inbox.len() == b.ended.list[i].light.inbox.len()
    &&& a.ended.enabled == b.ended.enabled
    &&& !(a.turn is HandedOver) ==> a.ended == b.ended
    &&& a.turn is Measure ==> refreshes_alike(a.refresh, b.refresh) && settled_alike(
        a.settled,
        b.settled,
    )
}

/// Which changes are faded into does not depend on how the monitors were chosen.
proof fn lemma_same_parts(
    changes: Seq<Change>,
    shifts: Seq<u8>,
    a: BrightnessInput,
    b: BrightnessInput,
    screens: Screens,
    config: DaemonOptions,
    faded: bool,
)
    requires
        same_but_choice(a, b),
    ensures
        faded_part(changes, shifts, a, screens, config, faded) == faded_part(
            changes,
            shifts,
            b,
            screens,
            config,
            faded,
        ),
    decreases changes.len(),
{
    if changes.len() > 0 {
        lemma_same_parts(changes.drop_last(), shifts, a, b, screens, config, faded);
    }
}

/// Requests that are meant for the same monitors and ask the same of them take the
/// same course, however the monitors were chosen.
pub proof fn law_same_monitors_same_course(
    a: Course,
    b: Course,
    screens: Screens,
    config: DaemonOptions,
    shifts: Seq<u8>,
    outcomes: Seq<CommandOutcome>,
)
    requires
        tasks_alike(a.task, b.task),
        a.task.next_relevant(screens, config) == b.task.next_relevant(screens, config),
        screens.has_all(a.task.next_relevant(screens, config)),
        a.is_taken(screens, config, shifts, outcomes),
        b.is_taken(screens, config, shifts, outcomes),
    ensures
        courses_alike(a, b),
{
    let indices = a.task.next_relevant(screens, config);
    let waiting = waiting_at(a.task.held@, screens);
    let rest = a.task.inputs@.drop_first() + waiting;
    assert(a.task.queue(screens)[0] == a.task.inputs@[0]);
    assert(b.task.queue(screens)[0] == b.task.inputs@[0]);
    assert(a.task.queue(screens).drop_first() =~= rest);
    assert(b.task.queue(screens).drop_first() =~= rest);
    match (a.turn, b.turn) {
        (Turn::HandedOver { to }, Turn::HandedOver { .. }) => {
            let released = let_go(emptied(screens, a.task.held@), a.task.held@);
            let one = choose|processed: ForwardedBrightnessInput| #[trigger]
                is_processed_form(processed, a.task.inputs@[0], indices) && a.taken_up
                    == passed_on(released, to, seq![processed] + rest);
            let other = choose|processed: ForwardedBrightnessInput| #[trigger]
                is_processed_form(processed, b.task.inputs@[0], indices) && b.taken_up
                    == passed_on(released, to, seq![processed] + rest);
            assert(a.taken_up == passed_on(released, to, seq![one] + rest));
            assert(b.taken_up == passed_on(released, to, seq![other] + rest));
            lemma_blocked_exists(indices, a.task.held@, screens);
            assert(to < screens.list.len());
        },
        (Turn::Measure(one), Turn::Measure(other)) => {
            lemma_same_parts(
                one.changes@,
                shifts,
                one.input,
                other.input,
                a.taken_up,
                config,
                true,
            );
            lemma_same_parts(
                one.changes@,
                shifts,
                one.input,
                other.input,
                a.taken_up,
                config,
                false,
            );
            assert(a.made == b.made);
            assert(a.ended == b.ended);
        },
        _ => {},
    }
}

/// Choosing all monitors changes the brightness of the monitors exactly as choosing
/// the connected ones does.
pub proof fn law_all_changes_like_enabled(
    a: Course,
    b: Course,
    screens: Screens,
    config: DaemonOptions,
    shifts: Seq<u8>,
    outcomes: Seq<CommandOutcome>,
)
    requires
        screens.is_sound(),
        tasks_alike(a.task, b.task),
        a.task.inputs@[0].info is UnProcessed,
        b.task.inputs@[0].info is UnProcessed,
        a.task.inputs@[0].brightness_input.override_monitor == Some(MonitorOverride::All),
        b.task.inputs@[0].brightness_input.override_monitor == Some(MonitorOverride::Enabled),
        a.is_taken(screens, config, shifts, outcomes),
        b.is_taken(screens, config, shifts, outcomes),
    ensures
        courses_alike(a, b),
{
    crate::daemon::engine::display::lemma_chosen_exist(screens, MonitorOverride::Enabled);
    law_same_monitors_same_course(a, b, screens, config, shifts, outcomes);
}

/// A request that chooses no monitors acts exactly like one that chooses those of the
/// configuration.
pub proof fn law_no_choice_is_the_default(
    a: Course,
    b: Course,
    screens: Screens,
    config: DaemonOptions,
    shifts: Seq<u8>,
    outcomes: Seq<CommandOutcome>,
)
    requires
        screens.is_sound(),
        choice_of(a.task.inputs@[0].brightness_input, config) is Active ==> screens.has_active(),
        tasks_alike(a.task, b.task),
        a.task.inputs@[0].info is UnProcessed,
        b.task.inputs@[0].info is UnProcessed,
        a.task.inputs@[0].brightness_input.override_monitor is None,
        b.task.inputs@[0].brightness_input.override_monitor == Some(
            config.monitor_default_behavior,
        ),
        a.is_taken(screens, config, shifts, outcomes),
        b.is_taken(screens, config, shifts, outcomes),
    ensures
        courses_alike(a, b),
{
    crate::daemon::engine::display::lemma_chosen_exist(
        screens,
        choice_of(a.task.inputs@[0].brightness_input, config),
    );
    law_same_monitors_same_course(a, b, screens, config, shifts, outcomes);
}

/// What a fade does on the way, and what it is given for it.
pub enum FadeStep {
    /// The commands that belong to the beginning were run.
    Begun(Seq<CommandOutcome>),
    /// A step that is not the last was made: to these levels, shown by these commands.
    Advanced { levels: Seq<Level>, refresh: Refresh },
    /// The commands that belong to such a step were run.
    Stepped(Seq<CommandOutcome>),
    /// Requests were looked for, and the fade goes on.
    Looked,
    /// The time for a step is over.
    Ticked,
}

/// Whether two steps are given the same and run the same commands.
pub open spec fn steps_alike(a: FadeStep, b: FadeStep) -> bool {
    match (a, b) {
        (FadeStep::Advanced { refresh, .. }, FadeStep::Advanced { refresh: commands, .. }) => {
            refreshes_alike(refresh, commands)
        },
        _ => a == b,
    }
}

/// Whether two steps are given the same.
pub open spec fn steps_given_alike(a: FadeStep, b: FadeStep) -> bool {
    match (a, b) {
        (FadeStep::Advanced { levels, .. }, FadeStep::Advanced { levels: other, .. }) => {
            levels == other
        },
        _ => a == b,
    }
}

/// A step of a fade. The fade and the monitors are given before and behind it.
pub struct FadeMoment {
    pub fade: Fade,
    pub screens: Screens,
    pub step: FadeStep,
    pub next: Fade,
    pub after: Screens,
}

impl FadeMoment {
    /// Whether the fade takes this step.
    pub open spec fn is_taken(self, config: DaemonOptions) -> bool {
        match self.step {
            FadeStep::Begun(outcomes) => {
                &&& self.fade.tells_fault(
                    self.next,
                    "Error refreshing brightness: "@,
                    refresh_fault(outcomes, self.fade.plan.auto_remove_displays),
                )
                &&& self.after == after_refresh(
                    self.screens,
                    self.fade.commanded@,
                    outcomes,
                    self.fade.plan.auto_remove_displays,
                )
            },
            FadeStep::Advanced { levels, refresh } => {
                &&& self.next == self.fade
                &&& self.after == with_levels(self.screens, indices_of(self.fade.fading@), levels)
                &&& refresh.shows(indices_of(self.fade.fading@), self.after, config, false)
            },
            FadeStep::Stepped(outcomes) => {
                &&& self.fade.tells_fault(
                    self.next,
                    "Failed to set brightness during fade: "@,
                    refresh_fault(outcomes, false),
                )
                &&& self.after == self.screens
            },
            FadeStep::Looked => {
                ||| self.fade.hears(Heard::Nothing(self.next), self.screens, self.after)
                ||| self.fade.hears(Heard::Queued(self.next), self.screens, self.after)
            },
            FadeStep::Ticked => {
                &&& self.fade.steps_left > 0
                &&& self.next == (Fade {
                    steps_left: (self.fade.steps_left - 1) as u32,
                    ..self.fade
                })
                &&& self.after == self.screens
            },
        }
    }
}

/// A step leads fades that are at the same point to the same point again.
pub proof fn law_alike_fades_step_alike(a: FadeMoment, b: FadeMoment, config: DaemonOptions)
    requires
        fades_alike(a.fade, b.fade),
        a.screens == b.screens,
        steps_given_alike(a.step, b.step),
        a.is_taken(config),
        b.is_taken(config),
    ensures
        fades_alike(a.next, b.next),
        a.after == b.after,
        steps_alike(a.step, b.step),
{
}

/// Whether these are steps of one fade, each from where the one before it has led.
/// What others make of the monitors between two steps is left open.
pub open spec fn is_fading_on(moments: Seq<FadeMoment>, config: DaemonOptions) -> bool {
    &&& forall|k: int| 0 <= k < moments.len() ==> (#[trigger] moments[k]).is_taken(config)
    &&& forall|j: int, k: int|
        0 <= j < moments.len() && k == j + 1 && k < moments.len() ==> (#[trigger] moments[k]).fade
            == (#[trigger] moments[j]).next
}

/// Whether two fades are given the same, step by step, and others do the same to the
/// monitors between two steps.
pub open spec fn are_given_alike(a: Seq<FadeMoment>, b: Seq<FadeMoment>) -> bool {
    &&& a.len() == b.len()
    &&& forall|k: int|
        0 <= k < a.len() ==> steps_given_alike((#[trigger] a[k]).step, b[k].step)
    &&& forall|j: int, k: int|
        0 <= j < a.len() && k == j + 1 && k < a.len() && (#[trigger] a[j]).after == b[j].after ==> (
        #[trigger] a[k]).screens == b[k].screens
}

/// Fades that begin at the same point run the same commands at every step, and every
/// step leaves the monitors the same.
pub proof fn law_alike_fades_go_on_alike(
    a: Seq<FadeMoment>,
    b: Seq<FadeMoment>,
    config: DaemonOptions,
    k: int,
)
    requires
        is_fading_on(a, config),
        is_fading_on(b, config),
        are_given_alike(a, b),
        0 <= k < a.len(),
        fades_alike(a[0].fade, b[0].fade),
        a[0].screens == b[0].screens,
    ensures
        fades_alike(a[k].next, b[k].next),
        a[k].after == b[k].after,
        steps_alike(a[k].step, b[k].step),
    decreases k,
{
    if k > 0 {
        law_alike_fades_go_on_alike(a, b, config, k - 1);
        assert(a[k].fade == a[k - 1].next);
        assert(b[k].fade == b[k - 1].next);
        assert(a[k].screens == b[k].screens);
    }
    law_alike_fades_step_alike(a[k], b[k], config);
}

/// Fades that are at the same point are cut short alike: with the same answer, and
/// with the same requests next.
pub proof fn law_alike_fades_are_cut_short_alike(
    a: Fade,
    b: Fade,
    screens: Screens,
    found: Heard,
    other: Heard,
    after: Screens,
    others: Screens,
)
    requires
        fades_alike(a, b),
        a.hears(found, screens, after),
        b.hears(other, screens, others),
    ensures
        after == others,
        found is Interrupted <==> other is Interrupted,
        found matches Heard::Interrupted { reply, task } ==> other matches Heard::Interrupted {
            reply: answer,
            task: rest,
        } && replies_alike(reply, answer) && task.inputs@ == rest.inputs@ && task.held@
            == rest.held@,
{
}

/// Fades that are at the same point end with the same brightnesses and the same
/// answer.
pub proof fn law_alike_fades_end_alike(
    a: Fade,
    b: Fade,
    screens: Screens,
    outcomes: Seq<CommandOutcome>,
    one: Reply,
    other: Reply,
)
    requires
        fades_alike(a, b),
        a.ends_with(one, outcomes, screens),
        b.ends_with(other, outcomes, screens),
    ensures
        replies_alike(one, other),
        a.at_target(screens) == b.at_target(screens),
{
}

} // verus!
