//! The commands that make a brightness visible, and what comes of them.
use vstd::prelude::*;

use crate::daemon::config::persistent::DaemonOptions;
use crate::daemon::engine::display::{
    CollectiveMonitorStateInternal, MonitorState, Screen, Screens,
};
use crate::level::Level;
use crate::text::{decimal, decimal_text};

verus! {

/// The colour temperature of the screen while the nightlight is off.
pub const DAYLIGHT_TEMPERATURE: u32 = 6500;

/// An argument of a command.
#[derive(Debug)]
pub enum Argument {
    /// The text itself.
    Text(String),
    /// A brightness, to be written as a fraction of one with five decimal places.
    Fraction(Level),
}

/// A program to run and its arguments.
#[derive(Debug)]
pub struct CommandLine {
    pub program: String,
    pub arguments: Vec<Argument>,
}

/// An argument as a plain value.
pub enum Word {
    Text(Seq<char>),
    Fraction(Level),
}

/// A command as plain values.
#[verifier::ext_equal]
pub struct Call {
    pub program: Seq<char>,
    pub words: Seq<Word>,
}

impl View for Argument {
    type V = Word;

    open spec fn view(&self) -> Word {
        match self {
            Argument::Text(text) => Word::Text(text@),
            Argument::Fraction(level) => Word::Fraction(*level),
        }
    }
}

impl View for CommandLine {
    type V = Call;

    open spec fn view(&self) -> Call {
        Call {
            program: self.program@,
            words: Seq::new(self.arguments@.len(), |i: int| self.arguments@[i]@),
        }
    }
}

/// The call of xrandr that shows the brightness of a monitor, and its nightlight too
/// unless that is left to redshift.
pub open spec fn xrandr_call(screen: Screen, config: DaemonOptions) -> Call {
    let words = seq![
        Word::Text("--output"@),
        Word::Text(screen.name),
        Word::Text("--brightness"@),
        Word::Fraction(screen.light.level),
    ];
    Call {
        program: "xrandr"@,
        words: if !config.use_redshift && screen.light.nightlight {
            words + seq![
                Word::Text("--gamma"@),
                Word::Text(config.nightlight_options.xrandr_gamma@),
            ]
        } else {
            words
        },
    }
}

/// The call of redshift that sets the colour temperature of a monitor, and nothing
/// else. How it does so is left to the configuration of redshift, so that it does not
/// get in the way of xrandr.
pub open spec fn redshift_call(screen: Screen, config: DaemonOptions) -> Call {
    let temperature = if screen.light.nightlight {
        config.nightlight_options.redshift_temperature
    } else {
        DAYLIGHT_TEMPERATURE
    };
    Call {
        program: "redshift"@,
        words: seq![
            Word::Text("-PO"@),
            Word::Text(decimal(temperature as nat)),
        ],
    }
}

/// The calls that show the light of the monitor at a position: xrandr shows the
/// brightness; redshift, where it is used, the colour temperature.
pub open spec fn calls_of(index: usize, screens: Screens, config: DaemonOptions) -> Seq<Call> {
    let screen = screens.list[index as int];
    if config.use_redshift {
        seq![xrandr_call(screen, config), redshift_call(screen, config)]
    } else {
        seq![xrandr_call(screen, config)]
    }
}

/// The calls that show the lights of the monitors at some positions.
pub open spec fn calls_for(indices: Seq<usize>, screens: Screens, config: DaemonOptions) -> Seq<
    Call,
>
    decreases indices.len(),
{
    if indices.len() == 0 {
        Seq::empty()
    } else {
        calls_for(indices.drop_last(), screens, config) + calls_of(
            indices.last(),
            screens,
            config,
        )
    }
}

/// The position of the monitor that each of these calls is for.
pub open spec fn monitors_for(indices: Seq<usize>, config: DaemonOptions) -> Seq<usize>
    decreases indices.len(),
{
    if indices.len() == 0 {
        Seq::empty()
    } else {
        let before = monitors_for(indices.drop_last(), config);
        if config.use_redshift {
            before.push(indices.last()).push(indices.last())
        } else {
            before.push(indices.last())
        }
    }
}

/// Commands as plain values.
pub open spec fn as_calls(commands: Seq<CommandLine>) -> Seq<Call> {
    Seq::new(commands.len(), |k: int| commands[k]@)
}

fn redshift_command(state: &MonitorState, config: &DaemonOptions) -> (command: CommandLine)
    ensures
        command@ == redshift_call(state@, *config),
{
    let temperature: u32 = if state.brightness_state.nightlight.get() {
        config.nightlight_options.redshift_temperature
    } else {
        DAYLIGHT_TEMPERATURE
    };
    let mut arguments: Vec<Argument> = Vec::new();
    arguments.push(Argument::Text("-PO".to_owned()));
    arguments.push(Argument::Text(decimal_text(temperature as u64)));
    let command = CommandLine { program: "redshift".to_owned(), arguments };
    assert(command@ =~= redshift_call(state@, *config));
    command
}

fn xrandr_command(state: &MonitorState, config: &DaemonOptions) -> (command: CommandLine)
    ensures
        command@ == xrandr_call(state@, *config),
{
    let mut arguments: Vec<Argument> = Vec::new();
    arguments.push(Argument::Text("--output".to_owned()));
    arguments.push(Argument::Text(state.get_monitor_name().clone()));
    arguments.push(Argument::Text("--brightness".to_owned()));
    arguments.push(Argument::Fraction(state.brightness_state.get()));
    if !config.use_redshift && state.brightness_state.nightlight.get() {
        arguments.push(Argument::Text("--gamma".to_owned()));
        arguments.push(Argument::Text(config.nightlight_options.xrandr_gamma.clone()));
    }
    let command = CommandLine { program: "xrandr".to_owned(), arguments };
    assert(command@ =~= xrandr_call(state@, *config));
    command
}

/// The commands that show the lights of the monitors at some positions, in order,
/// and the position of the monitor that each of them is for.
pub fn create_xrandr_commands(
    states: &CollectiveMonitorStateInternal,
    config: &DaemonOptions,
    monitors: &Vec<usize>,
) -> (created: (Vec<usize>, Vec<CommandLine>))
    requires
        states@.has_all(monitors@),
    ensures
        created.0@ == monitors_for(monitors@, *config),
        as_calls(created.1@) == calls_for(monitors@, states@, *config),
        created.0@.len() == created.1@.len(),
{
    let mut commanded: Vec<usize> = Vec::new();
    let mut commands: Vec<CommandLine> = Vec::new();
    let mut k: usize = 0;
    assert(monitors@.take(0).len() == 0);
    assert(as_calls(commands@) =~= calls_for(monitors@.take(0), states@, *config));
    while k < monitors.len()
        invariant
            0 <= k <= monitors@.len(),
            states@.has_all(monitors@),
            commanded@ == monitors_for(monitors@.take(k as int), *config),
            as_calls(commands@) == calls_for(monitors@.take(k as int), states@, *config),
            commanded@.len() == commands@.len(),
        decreases monitors@.len() - k,
    {
        let index: usize = monitors[k];
        assert(monitors@[k as int] < states@.list.len());
        assert(monitors@.take(k + 1).drop_last() =~= monitors@.take(k as int));
        assert(monitors@.take(k + 1).last() == index);
        let state: &MonitorState = &states.available_adapter_list[index];
        assert(state@ == states@.list[index as int]);
        let ghost before = commands@;
        commands.push(xrandr_command(state, config));
        commanded.push(index);
        if config.use_redshift {
            commands.push(redshift_command(state, config));
            commanded.push(index);
        }
        assert(as_calls(commands@) =~= as_calls(before) + calls_of(index, states@, *config));
        k += 1;
    }
    assert(monitors@.take(k as int) =~= monitors@);
    (commanded, commands)
}

/// Whether this is the call of xrandr that sets the brightness of a monitor.
pub open spec fn sets_brightness(call: Call, screen: Screen) -> bool {
    &&& call.program == "xrandr"@
    &&& call.words.len() >= 4
    &&& call.words[0] == Word::Text("--output"@)
    &&& call.words[1] == Word::Text(screen.name)
    &&& call.words[2] == Word::Text("--brightness"@)
    &&& call.words[3] == Word::Fraction(screen.light.level)
}

/// Whatever shows the nightlight, the brightness of every monitor is set by a call of
/// xrandr.
pub proof fn law_xrandr_sets_every_brightness(
    indices: Seq<usize>,
    screens: Screens,
    config: DaemonOptions,
    k: int,
)
    requires
        0 <= k < indices.len(),
    ensures
        exists|j: int|
            0 <= j < calls_for(indices, screens, config).len() && sets_brightness(
                #[trigger] calls_for(indices, screens, config)[j],
                screens.list[indices[k] as int],
            ),
    decreases indices.len(),
{
    let front = indices.drop_last();
    let before = calls_for(front, screens, config);
    let all = calls_for(indices, screens, config);
    if k == indices.len() - 1 {
        let screen = screens.list[indices[k] as int];
        assert(all[before.len() as int] == calls_of(indices[k], screens, config)[0]);
        assert(sets_brightness(all[before.len() as int], screen));
    } else {
        law_xrandr_sets_every_brightness(front, screens, config, k);
        let j = choose|j: int|
            0 <= j < before.len() && sets_brightness(
                #[trigger] before[j],
                screens.list[front[k] as int],
            );
        assert(all[j] == before[j]);
    }
}

/// Where redshift is used, it sets the colour temperature and no brightness, and no
/// call of xrandr touches the gamma.
pub proof fn law_redshift_sets_only_the_temperature(screen: Screen, config: DaemonOptions)
    requires
        config.use_redshift,
    ensures
        redshift_call(screen, config).words == seq![
            Word::Text("-PO"@),
            Word::Text(
                decimal(
                    (if screen.light.nightlight {
                        config.nightlight_options.redshift_temperature
                    } else {
                        DAYLIGHT_TEMPERATURE
                    }) as nat,
                ),
            ),
        ],
        xrandr_call(screen, config).words.len() == 4,
{
}

/// What came of running a command.
#[derive(Debug)]
pub enum CommandOutcome {
    /// It could not be started, for this reason.
    NotStarted(String),
    /// It was started; how it ended could not be found out, for this reason.
    WaitFailed(String),
    /// It was started and ended, successfully or not.
    Exited(bool),
    /// It was started, and nobody waits for its end.
    Started,
}

/// The reason that the last of the commands whose end could not be found out gives,
/// with the place of that command.
pub open spec fn last_wait_failure(outcomes: Seq<CommandOutcome>) -> Option<(int, Seq<char>)>
    decreases outcomes.len(),
{
    if outcomes.len() == 0 {
        None
    } else {
        match outcomes.last() {
            CommandOutcome::WaitFailed(reason) => Some((outcomes.len() - 1, reason@)),
            _ => last_wait_failure(outcomes.drop_last()),
        }
    }
}

/// The reason that the first of the commands that could not be started gives.
pub open spec fn first_start_failure(outcomes: Seq<CommandOutcome>) -> Option<Seq<char>>
    decreases outcomes.len(),
{
    if outcomes.len() == 0 {
        None
    } else if first_start_failure(outcomes.drop_last()) is Some {
        first_start_failure(outcomes.drop_last())
    } else {
        match outcomes.last() {
            CommandOutcome::NotStarted(reason) => Some(reason@),
            _ => None,
        }
    }
}

/// Whether a monitor is among those whose commands, from a place on, ended without
/// success.
pub open spec fn fails_from(
    indices: Seq<usize>,
    outcomes: Seq<CommandOutcome>,
    start: int,
    index: usize,
) -> bool {
    exists|k: int|
        start <= k < outcomes.len() && #[trigger] outcomes[k] == CommandOutcome::Exited(false)
            && indices[k] == index
}

/// Where the look at the outcomes stops: behind the last command whose end could
/// not be found out.
pub open spec fn looked_at_from(outcomes: Seq<CommandOutcome>) -> int {
    match last_wait_failure(outcomes) {
        Some((place, _)) => place + 1,
        None => 0,
    }
}

/// The monitors after those whose commands failed are no longer treated as
/// connected. The outcomes are looked at from the last to the first, up to one that
/// could not be found out.
pub open spec fn without_failed(
    screens: Screens,
    indices: Seq<usize>,
    outcomes: Seq<CommandOutcome>,
) -> Screens {
    Screens {
        enabled: screens.enabled.filter(
            |i: usize| !fails_from(indices, outcomes, looked_at_from(outcomes), i),
        ),
        ..screens
    }
}

/// The monitors after the commands for some of them were run.
pub open spec fn after_refresh(
    screens: Screens,
    indices: Seq<usize>,
    outcomes: Seq<CommandOutcome>,
    auto_remove_displays: bool,
) -> Screens {
    if auto_remove_displays {
        without_failed(screens, indices, outcomes)
    } else {
        screens
    }
}

/// Why the commands could not be run, if they could not.
pub open spec fn refresh_fault(outcomes: Seq<CommandOutcome>, auto_remove_displays: bool) -> Option<
    Seq<char>,
> {
    if auto_remove_displays {
        match last_wait_failure(outcomes) {
            Some((_, reason)) => Some(reason),
            None => None,
        }
    } else {
        first_start_failure(outcomes)
    }
}

/// Draws the conclusions from the outcomes of the commands for the monitors at some
/// positions. Says whether a monitor was dropped.
pub fn finish_refresh(
    states: &mut CollectiveMonitorStateInternal,
    indices: &Vec<usize>,
    outcomes: &Vec<CommandOutcome>,
    auto_remove_displays: bool,
) -> (done: Result<bool, String>)
    requires
        old(states).wf(),
        outcomes@.len() <= indices@.len(),
    ensures
        final(states).wf(),
        final(states)@ == after_refresh(
            old(states)@,
            indices@,
            outcomes@,
            auto_remove_displays,
        ),
        match done {
            Ok(removed) => refresh_fault(outcomes@, auto_remove_displays) is None && (removed <==> (
            auto_remove_displays && exists|k: int|
                0 <= k < outcomes@.len() && #[trigger] outcomes@[k] == CommandOutcome::Exited(
                    false,
                ))),
            Err(reason) => refresh_fault(outcomes@, auto_remove_displays) == Some(reason@),
        },
{
    if auto_remove_displays {
        remove_failed(states, indices, outcomes)
    } else {
        start_result(outcomes)
    }
}

/// Draws the conclusions from the outcomes of commands that are not waited for.
pub fn start_result(outcomes: &Vec<CommandOutcome>) -> (done: Result<bool, String>)
    ensures
        match done {
            Ok(removed) => refresh_fault(outcomes@, false) is None && !removed,
            Err(reason) => refresh_fault(outcomes@, false) == Some(reason@),
        },
{
    let mut k: usize = 0;
    assert(outcomes@.take(0).len() == 0);
    while k < outcomes.len()
        invariant
            0 <= k <= outcomes@.len(),
            first_start_failure(outcomes@.take(k as int)) is None,
        decreases outcomes@.len() - k,
    {
        assert(outcomes@.take(k + 1).drop_last() =~= outcomes@.take(k as int));
        assert(outcomes@.take(k + 1).last() == outcomes@[k as int]);
        match &outcomes[k] {
            CommandOutcome::NotStarted(reason) => {
                proof {
                    lemma_first_start_failure_stays(outcomes@, k + 1);
                }
                return Err(reason.clone());
            },
            _ => {},
        }
        k += 1;
    }
    assert(outcomes@.take(k as int) =~= outcomes@);
    Ok(false)
}

proof fn lemma_first_start_failure_stays(outcomes: Seq<CommandOutcome>, k: int)
    requires
        0 <= k <= outcomes.len(),
        first_start_failure(outcomes.take(k)) is Some,
    ensures
        first_start_failure(outcomes) == first_start_failure(outcomes.take(k)),
    decreases outcomes.len() - k,
{
    if k < outcomes.len() {
        assert(outcomes.take(k + 1).drop_last() =~= outcomes.take(k));
        lemma_first_start_failure_stays(outcomes, k + 1);
    } else {
        assert(outcomes.take(k) =~= outcomes);
    }
}

fn remove_failed(
    states: &mut CollectiveMonitorStateInternal,
    indices: &Vec<usize>,
    outcomes: &Vec<CommandOutcome>,
) -> (done: Result<bool, String>)
    requires
        old(states).wf(),
        outcomes@.len() <= indices@.len(),
    ensures
        final(states).wf(),
        final(states)@ == without_failed(old(states)@, indices@, outcomes@),
        match done {
            Ok(removed) => last_wait_failure(outcomes@) is None && (removed <==> exists|k: int|
                0 <= k < outcomes@.len() && #[trigger] outcomes@[k] == CommandOutcome::Exited(
                    false,
                )),
            Err(reason) => last_wait_failure(outcomes@) is Some && (last_wait_failure(outcomes@)->0).1
                == reason@,
        },
{
    let mut removed: bool = false;
    let mut k: usize = outcomes.len();
    assert(outcomes@.take(k as int) =~= outcomes@);
    assert(states@.enabled =~= old(states)@.enabled.filter(
        |i: usize| !fails_from(indices@, outcomes@, k as int, i),
    ));
    while k > 0
        invariant
            0 <= k <= outcomes@.len() <= indices@.len(),
            states.wf(),
            states@.list == old(states)@.list,
            states@.active == old(states)@.active,
            states@.named == old(states)@.named,
            states@.enabled == old(states)@.enabled.filter(
                |i: usize| !fails_from(indices@, outcomes@, k as int, i),
            ),
            last_wait_failure(outcomes@) == last_wait_failure(outcomes@.take(k as int)),
            removed <==> exists|j: int|
                k <= j < outcomes@.len() && #[trigger] outcomes@[j] == CommandOutcome::Exited(
                    false,
                ),
        decreases k,
    {
        let ghost above = k as int;
        k -= 1;
        assert(outcomes@.take(above).drop_last() =~= outcomes@.take(k as int));
        assert(outcomes@.take(above).last() == outcomes@[k as int]);
        match &outcomes[k] {
            CommandOutcome::WaitFailed(reason) => {
                assert(looked_at_from(outcomes@) == above);
                return Err(reason.clone());
            },
            CommandOutcome::Exited(success) => {
                if !*success {
                    assert(outcomes@[k as int] == CommandOutcome::Exited(false));
                    states.remove_enabled_monitor_by_index(&indices[k]);
                    removed = true;
                }
            },
            _ => {},
        }
        assert(states@.enabled =~= old(states)@.enabled.filter(
            |i: usize| !fails_from(indices@, outcomes@, k as int, i),
        )) by {
            assert forall|i: usize| fails_from(indices@, outcomes@, k as int, i) <==> (fails_from(
                indices@,
                outcomes@,
                above,
                i,
            ) || (outcomes@[k as int] == CommandOutcome::Exited(false) && indices@[k as int] == i)) by {}
        }
    }
    Ok(removed)
}

/// Commands that are not waited for never change which monitors are connected, and
/// commands that all end well never do either.
pub proof fn law_success_removes_nothing(
    screens: Screens,
    indices: Seq<usize>,
    outcomes: Seq<CommandOutcome>,
    auto_remove_displays: bool,
)
    requires
        !auto_remove_displays || forall|k: int|
            0 <= k < outcomes.len() ==> #[trigger] outcomes[k] != CommandOutcome::Exited(false),
    ensures
        after_refresh(screens, indices, outcomes, auto_remove_displays) == screens,
{
    let after = after_refresh(screens, indices, outcomes, auto_remove_displays);
    assert(after.enabled =~= screens.enabled) by {
        if auto_remove_displays {
            assert forall|i: usize| !fails_from(indices, outcomes, looked_at_from(outcomes), i) by {
                lemma_looked_at_from(outcomes);
            }
        }
    }
}

proof fn lemma_looked_at_from(outcomes: Seq<CommandOutcome>)
    ensures
        0 <= looked_at_from(outcomes) <= outcomes.len(),
    decreases outcomes.len(),
{
    if outcomes.len() > 0 {
        lemma_looked_at_from(outcomes.drop_last());
    }
}

} // verus!
