//! Answering requests.
use vstd::prelude::*;

use crate::daemon::config::persistent::{
    overwrite_values, ConfigurationSections, DaemonOptions,
};
use crate::daemon::config::runtime::{BrightnessInputInfo, CachedState, ForwardedBrightnessInput};
use crate::daemon::engine::brightness::{BrightnessTask, Refresh};
use crate::daemon::engine::commands::{
    after_refresh, finish_refresh, refresh_fault, CommandOutcome,
};
use crate::daemon::engine::display::{
    lemma_chosen_exist, no_screens, CollectiveMonitorState,
    CollectiveMonitorStateInternal, Screens,
};
use crate::daemon::engine::monitor::{
    as_displays, displays_of, lines_of, Monitor,
};
use crate::daemon::engine::nightlight::NightlightTask;
use crate::daemon::util::io::{law_answers_say_what_was_queued, Note, Reply, SocketMessageHolder};
use crate::shared::{
    ActiveMonitorChange, ExitStatus, GetProperty, MonitorOverride, ProgramInput,
};
use crate::text::{concat2, concat3, parse_unsigned, texts, unsigned_value};

verus! {

/// Whether the daemon goes on behind a request.
#[derive(Clone, Copy, Debug, PartialEq, Eq, Structural)]
pub enum ProcessInputExitCode {
    Normal,
    Shutdown,
}

/// The state of the daemon.
pub struct Daemon {
    pub monitor_states: CollectiveMonitorState,
    pub config: DaemonOptions,
}

/// What a request leads to.
pub enum InputAction {
    /// This is the answer.
    Respond(Reply),
    /// Nightlights are to be switched over.
    ToggleNightlight(NightlightTask),
    /// Brightnesses are to be changed.
    Brightness(BrightnessTask),
    /// The displays are to be found out anew.
    QueryDisplays(SocketMessageHolder),
    /// The configuration file is to be read anew.
    ReadConfiguration(SocketMessageHolder),
    /// This state is to be saved, and the daemon is to shut down.
    Save { state: CachedState, holder: SocketMessageHolder },
}

impl InputAction {
    /// Whether the daemon goes on behind the request.
    pub fn exit_code(&self) -> (code: ProcessInputExitCode)
        ensures
            code == (if self is Save {
                ProcessInputExitCode::Shutdown
            } else {
                ProcessInputExitCode::Normal
            }),
    {
        match self {
            InputAction::Save { .. } => ProcessInputExitCode::Shutdown,
            _ => ProcessInputExitCode::Normal,
        }
    }
}

// ---------------------------------------------------------------------------
// properties
// ---------------------------------------------------------------------------

/// A truth value as a digit.
pub open spec fn flag_chars(value: bool) -> Seq<char> {
    if value {
        "1"@
    } else {
        "0"@
    }
}

fn flag_text(value: bool) -> (text: String)
    ensures
        text@ == flag_chars(value),
{
    if value {
        "1".to_owned()
    } else {
        "0".to_owned()
    }
}

/// The value of a property. `levels` holds the brightness of every monitor in
/// writing.
pub open spec fn property_text(
    property: GetProperty,
    screens: Screens,
    config: DaemonOptions,
    levels: Seq<Seq<char>>,
) -> Seq<char> {
    match property {
        GetProperty::Brightness(monitors) => screens.states_text(
            matched_by(screens, monitors),
            levels,
        ),
        GetProperty::Displays(monitors) => screens.names_text(
            match monitors {
                Some(choice) => screens.chosen(choice),
                None => screens.chosen(MonitorOverride::Enabled),
            },
        ),
        GetProperty::Mode(monitors) => screens.states_text(
            matched_by(screens, monitors),
            Seq::new(
                screens.list.len(),
                |i: int| flag_chars(screens.list[i].light.nightlight),
            ),
        ),
        GetProperty::IsFading(monitors) => screens.states_text(
            matched_by(screens, monitors),
            Seq::new(screens.list.len(), |i: int| flag_chars(screens.list[i].light.is_fading)),
        ),
        GetProperty::ActiveMonitor => screens.list[screens.active as int].name,
        GetProperty::Config => config.shown(),
    }
}

/// The positions that an optional choice of monitors stands for.
pub open spec fn matched_by(screens: Screens, monitors: Option<MonitorOverride>) -> Seq<usize> {
    match monitors {
        Some(choice) => screens.chosen(choice),
        None => screens.chosen(MonitorOverride::All),
    }
}

/// Whether a property has no value while there is no active monitor.
pub open spec fn speaks_of_active(property: GetProperty) -> bool {
    match property {
        GetProperty::Brightness(Some(MonitorOverride::Active)) => true,
        GetProperty::Mode(Some(MonitorOverride::Active)) => true,
        GetProperty::IsFading(Some(MonitorOverride::Active)) => true,
        GetProperty::Displays(Some(MonitorOverride::Active)) => true,
        GetProperty::ActiveMonitor => true,
        _ => false,
    }
}

impl Daemon {
    /// The state of the daemon is sound.
    pub open spec fn wf(self) -> bool {
        self.monitor_states.monitor_states.wf()
    }

    /// The monitors as plain values.
    pub open spec fn screens(self) -> Screens {
        self.monitor_states.monitor_states@
    }

    /// A daemon with a configuration, the monitors of a list of displays, and what
    /// is remembered of them. The list is empty if the displays could not be found
    /// out.
    pub fn new(
        config: DaemonOptions,
        cached_state: CachedState,
        displays: Vec<(Monitor, bool)>,
    ) -> (daemon: Daemon)
        ensures
            daemon.wf(),
            daemon.config == config,
            daemon.screens().restored_from(
                no_screens(cached_state.active_monitor).overwritten(as_displays(displays@)),
                cached_state.states(),
            ),
    {
        Daemon {
            monitor_states: CollectiveMonitorState::new(
                cached_state.active_monitor,
                cached_state.brightness_states,
                displays,
            ),
            config,
        }
    }

    /// What is to be remembered until the next run.
    pub fn save_configuration(&self) -> (state: CachedState)
        requires
            self.wf(),
        ensures
            state.active_monitor == self.screens().active,
            self.screens().kept_in(state.states()),
    {
        self.monitor_states.read().cached_state()
    }

    /// The commands that show the lights of all connected monitors.
    pub fn refresh_brightness_all(&self) -> (refresh: Refresh)
        requires
            self.wf(),
        ensures
            refresh.shows(
                self.screens().chosen(MonitorOverride::Enabled),
                self.screens(),
                self.config,
                true,
            ),
    {
        let states: &CollectiveMonitorStateInternal = self.monitor_states.read();
        proof {
            states.lemma_sound();
            lemma_chosen_exist(self.screens(), MonitorOverride::Enabled);
        }
        let monitors: Vec<usize> = states.get_monitor_override_indices(&MonitorOverride::Enabled);
        Refresh::new(states, &self.config, &monitors, true)
    }

    /// Draws the conclusions from the commands that show the lights of some
    /// monitors.
    pub fn refresh_configuration(
        &mut self,
        monitors: &Vec<usize>,
        outcomes: &Vec<CommandOutcome>,
    ) -> (done: Result<(), String>)
        requires
            old(self).wf(),
            outcomes@.len() <= monitors@.len(),
        ensures
            final(self).wf(),
            final(self).config == old(self).config,
            final(self).screens() == after_refresh(
                old(self).screens(),
                monitors@,
                outcomes@,
                true,
            ),
            match done {
                Ok(_) => refresh_fault(outcomes@, true) is None,
                Err(reason) => refresh_fault(outcomes@, true) == Some(reason@),
            },
    {
        match finish_refresh(self.monitor_states.write(), monitors, outcomes, true) {
            Ok(_) => Ok(()),
            Err(reason) => Err(reason),
        }
    }

    /// Whether the nightlight of each monitor is on, as digits.
    fn modes(&self) -> (shown: Vec<String>)
        ensures
            texts(shown@) == Seq::new(
                self.screens().list.len(),
                |i: int| flag_chars(self.screens().list[i].light.nightlight),
            ),
    {
        let states: &CollectiveMonitorStateInternal = self.monitor_states.read();
        let mut shown: Vec<String> = Vec::new();
        let mut i: usize = 0;
        while i < states.available_adapter_list.len()
            invariant
                0 <= i <= states.available_adapter_list@.len(),
                shown@.len() == i,
                forall|j: int|
                    0 <= j < i ==> (#[trigger] shown@[j])@ == flag_chars(
                        states@.list[j].light.nightlight,
                    ),
            decreases states.available_adapter_list@.len() - i,
        {
            shown.push(
                flag_text(states.available_adapter_list[i].brightness_state.nightlight.get()),
            );
            i += 1;
        }
        assert(texts(shown@) =~= Seq::new(
            self.screens().list.len(),
            |j: int| flag_chars(self.screens().list[j].light.nightlight),
        ));
        shown
    }

    /// Whether each monitor is fading, as digits.
    fn fading(&self) -> (shown: Vec<String>)
        ensures
            texts(shown@) == Seq::new(
                self.screens().list.len(),
                |i: int| flag_chars(self.screens().list[i].light.is_fading),
            ),
    {
        let states: &CollectiveMonitorStateInternal = self.monitor_states.read();
        let mut shown: Vec<String> = Vec::new();
        let mut i: usize = 0;
        while i < states.available_adapter_list.len()
            invariant
                0 <= i <= states.available_adapter_list@.len(),
                shown@.len() == i,
                forall|j: int|
                    0 <= j < i ==> (#[trigger] shown@[j])@ == flag_chars(
                        states@.list[j].light.is_fading,
                    ),
            decreases states.available_adapter_list@.len() - i,
        {
            shown.push(flag_text(states.available_adapter_list[i].brightness_state.is_fading));
            i += 1;
        }
        assert(texts(shown@) =~= Seq::new(
            self.screens().list.len(),
            |j: int| flag_chars(self.screens().list[j].light.is_fading),
        ));
        shown
    }

    /// The value of a property. `levels` holds the brightness of every monitor in
    /// writing.
    pub fn get_property(&self, property: &GetProperty, levels: &Vec<String>) -> (value: String)
        requires
            self.wf(),
            levels@.len() == self.screens().list.len(),
            speaks_of_active(*property) ==> self.screens().has_active(),
        ensures
            value@ == property_text(*property, self.screens(), self.config, texts(levels@)),
    {
        match property {
            GetProperty::Brightness(monitors) => {
                self.monitor_states.get_formatted_display_states(monitors.as_ref(), levels)
            },
            GetProperty::Displays(Some(monitors)) => {
                self.monitor_states.get_formatted_display_names(Some(monitors))
            },
            GetProperty::Displays(None) => {
                self.monitor_states.get_formatted_display_names(Some(&MonitorOverride::Enabled))
            },
            GetProperty::Mode(monitors) => {
                let shown: Vec<String> = self.modes();
                assert(texts(shown@).len() == self.screens().list.len());
                self.monitor_states.get_formatted_display_states_with_format(
                    monitors.as_ref(),
                    &shown,
                )
            },
            GetProperty::IsFading(monitors) => {
                let shown: Vec<String> = self.fading();
                assert(texts(shown@).len() == self.screens().list.len());
                self.monitor_states.get_formatted_display_states_with_format(
                    monitors.as_ref(),
                    &shown,
                )
            },
            GetProperty::ActiveMonitor => {
                let states: &CollectiveMonitorStateInternal = self.monitor_states.read();
                states.available_adapter_list[states.active_monitor].get_monitor_name().clone()
            },
            GetProperty::Config => self.config.show(),
        }
    }
}

// ---------------------------------------------------------------------------
// the active monitor
// ---------------------------------------------------------------------------

/// What there is to say of an attempt to make a monitor, given by its position or
/// its name, the active one.
pub open spec fn activation_note(new_monitor: Seq<char>, screens: Screens) -> Note {
    match unsigned_value(new_monitor, usize::MAX as int) {
        Some(index) => if index >= screens.list.len() {
            ("Specified index does not exist!"@, true)
        } else if !screens.enabled.contains(index as usize) {
            ("Specified monitor is not enabled!"@, true)
        } else {
            ("Set active monitor to "@ + screens.list[index].name + "!"@, false)
        },
        None => match screens.found(new_monitor) {
            Some(index) => if screens.enabled.contains(index) {
                ("Set active monitor to "@ + new_monitor + "!"@, false)
            } else {
                ("Requested monitor is disabled!"@, true)
            },
            None => ("Requested monitor does not exist!"@, true),
        },
    }
}

/// The monitors after that attempt. Only a connected monitor becomes the active one.
pub open spec fn activated(new_monitor: Seq<char>, screens: Screens) -> Screens {
    match unsigned_value(new_monitor, usize::MAX as int) {
        Some(index) => if index < screens.list.len() && screens.enabled.contains(index as usize) {
            Screens { active: index as usize, ..screens }
        } else {
            screens
        },
        None => match screens.found(new_monitor) {
            Some(index) => if screens.enabled.contains(index) {
                Screens { active: index, ..screens }
            } else {
                screens
            },
            None => screens,
        },
    }
}

impl Daemon {
    /// Makes a monitor, given by its position or its name, the active one.
    fn set_active(&mut self, new_monitor: &String, holder: &mut SocketMessageHolder)
        requires
            old(self).wf(),
        ensures
            final(self).wf(),
            final(self).config == old(self).config,
            final(self).screens() == activated(new_monitor@, old(self).screens()),
            final(holder).socket == old(holder).socket,
            final(holder).queued() == old(holder).queued().push(
                activation_note(new_monitor@, old(self).screens()),
            ),
    {
        match parse_unsigned(new_monitor.as_str(), usize::MAX as u64) {
            Some(number) => {
                let index: usize = number as usize;
                match self.monitor_states.write().set_active_monitor_by_index(index) {
                    Ok(_) => {
                        let name: &String =
                            self.monitor_states.monitor_states.available_adapter_list[index].get_monitor_name();
                        holder.queue_success(concat3("Set active monitor to ", name.as_str(), "!"));
                    },
                    Err(message) => {
                        holder.queue_error(message.to_owned());
                    },
                }
            },
            None => {
                match self.monitor_states.write().set_active_monitor_by_name(new_monitor.as_str()) {
                    Ok(_) => {
                        holder.queue_success(
                            concat3("Set active monitor to ", new_monitor.as_str(), "!"),
                        );
                    },
                    Err(message) => {
                        holder.queue_error(message.to_owned());
                    },
                }
            },
        }
    }
}

// ---------------------------------------------------------------------------
// requests
// ---------------------------------------------------------------------------

/// The monitors whose nightlight is to be switched over, if not those of the
/// configuration.
pub open spec fn nightlight_choice(
    monitor_override: Option<MonitorOverride>,
    config: DaemonOptions,
) -> MonitorOverride {
    match monitor_override {
        Some(monitors) => monitors,
        None => config.monitor_default_behavior,
    }
}

/// Whether a request cannot be answered while there is no active monitor.
pub open spec fn needs_active(input: ProgramInput, config: DaemonOptions) -> bool {
    match input {
        ProgramInput::Get(property) => speaks_of_active(property),
        ProgramInput::ToggleNightlight(monitor_override) => nightlight_choice(
            monitor_override,
            config,
        ) is Active,
        _ => false,
    }
}

/// What a request leads to, and what it makes of the monitors.
pub open spec fn serves(
    input: ProgramInput,
    action: InputAction,
    holder: SocketMessageHolder,
    screens: Screens,
    after: Screens,
    config: DaemonOptions,
    levels: Seq<Seq<char>>,
) -> bool {
    match input {
        ProgramInput::ToggleNightlight(monitor_override) => {
            let indices = screens.chosen(nightlight_choice(monitor_override, config));
            &&& after == screens
            &&& if indices.len() == 0 {
                action matches InputAction::Respond(reply) && reply.tells(
                    holder.socket,
                    holder.queued().push(("No monitors found to toggle nightlight"@, true)),
                )
            } else {
                action matches InputAction::ToggleNightlight(task) && task.indices@ == indices
                    && task.done == 0 && task.holder == holder && task.wf(after)
            }
        },
        ProgramInput::Get(property) => {
            &&& after == screens
            &&& action matches InputAction::Respond(reply)
            &&& reply.tells(
                holder.socket,
                holder.queued().push((property_text(property, screens, config, levels), false)),
            )
        },
        ProgramInput::ConfigureDisplay => {
            after == screens && action == InputAction::QueryDisplays(holder)
        },
        ProgramInput::ReloadConfiguration => {
            after == screens && action == InputAction::ReadConfiguration(holder)
        },
        ProgramInput::Shutdown => {
            &&& after == screens
            &&& action matches InputAction::Save { state, holder: kept }
            &&& kept == holder
            &&& state.active_monitor == screens.active
            &&& screens.kept_in(state.states())
        },
        ProgramInput::Brightness(change) => {
            &&& after == screens
            &&& if change.asks_for_something() {
                action matches InputAction::Brightness(task) && task.inputs@ == seq![
                    ForwardedBrightnessInput {
                        brightness_input: change,
                        info: BrightnessInputInfo::UnProcessed,
                        socket_message_holder: holder,
                    },
                ] && task.held@ == Seq::<usize>::empty()
            } else {
                action matches InputAction::Respond(reply) && reply.tells(
                    holder.socket,
                    holder.queued(),
                )
            }
        },
        ProgramInput::ChangeActiveMonitor(ActiveMonitorChange::SetActive(new_monitor)) => {
            &&& after == activated(new_monitor@, screens)
            &&& action matches InputAction::Respond(reply)
            &&& reply.tells(
                holder.socket,
                holder.queued().push(activation_note(new_monitor@, screens)),
            )
        },
    }
}

impl Daemon {
    /// Whether a request can be answered: some need an active monitor.
    pub fn can_answer(&self, program_input: &ProgramInput) -> (can: bool)
        ensures
            can == (needs_active(*program_input, self.config) ==> self.screens().has_active()),
    {
        let states: &CollectiveMonitorStateInternal = self.monitor_states.read();
        let has_active: bool = states.active_monitor < states.available_adapter_list.len();
        let needed: bool = match program_input {
            ProgramInput::Get(GetProperty::Brightness(Some(MonitorOverride::Active))) => true,
            ProgramInput::Get(GetProperty::Mode(Some(MonitorOverride::Active))) => true,
            ProgramInput::Get(GetProperty::IsFading(Some(MonitorOverride::Active))) => true,
            ProgramInput::Get(GetProperty::Displays(Some(MonitorOverride::Active))) => true,
            ProgramInput::Get(GetProperty::ActiveMonitor) => true,
            ProgramInput::ToggleNightlight(Some(MonitorOverride::Active)) => true,
            ProgramInput::ToggleNightlight(None) => {
                match self.config.monitor_default_behavior {
                    MonitorOverride::Active => true,
                    _ => false,
                }
            },
            _ => false,
        };
        !needed || has_active
    }

    /// Answers a request, or says what is to be done for it. `levels` holds the
    /// brightness of every monitor in writing.
    pub fn process_input(
        &mut self,
        program_input: ProgramInput,
        socket_holder: SocketMessageHolder,
        levels: &Vec<String>,
    ) -> (action: InputAction)
        requires
            old(self).wf(),
            levels@.len() == old(self).screens().list.len(),
            needs_active(program_input, old(self).config) ==> old(self).screens().has_active(),
        ensures
            final(self).wf(),
            final(self).config == old(self).config,
            serves(
                program_input,
                action,
                socket_holder,
                old(self).screens(),
                final(self).screens(),
                old(self).config,
                texts(levels@),
            ),
    {
        let mut holder: SocketMessageHolder = socket_holder;
        match program_input {
            ProgramInput::ToggleNightlight(monitor_override) => {
                let states: &CollectiveMonitorStateInternal = self.monitor_states.read();
                proof {
                    states.lemma_sound();
                    lemma_chosen_exist(
                        self.screens(),
                        nightlight_choice(monitor_override, self.config),
                    );
                }
                let indices: Vec<usize> = match &monitor_override {
                    Some(monitors) => states.get_monitor_override_indices(monitors),
                    None => states.get_monitor_override_indices(
                        &self.config.monitor_default_behavior,
                    ),
                };
                if indices.len() == 0 {
                    holder.queue_error("No monitors found to toggle nightlight".to_owned());
                    InputAction::Respond(holder.consume())
                } else {
                    InputAction::ToggleNightlight(NightlightTask { indices, done: 0, holder })
                }
            },
            ProgramInput::Get(property) => {
                let value: String = self.get_property(&property, levels);
                holder.queue_success(value);
                InputAction::Respond(holder.consume())
            },
            ProgramInput::ConfigureDisplay => InputAction::QueryDisplays(holder),
            ProgramInput::ReloadConfiguration => InputAction::ReadConfiguration(holder),
            ProgramInput::Shutdown => {
                InputAction::Save { state: self.save_configuration(), holder }
            },
            ProgramInput::Brightness(brightness_change) => {
                if brightness_change.is_active() {
                    InputAction::Brightness(BrightnessTask::new(brightness_change, holder))
                } else {
                    InputAction::Respond(holder.consume())
                }
            },
            ProgramInput::ChangeActiveMonitor(active_monitor_change) => {
                match active_monitor_change {
                    ActiveMonitorChange::SetActive(new_monitor) => {
                        self.set_active(&new_monitor, &mut holder);
                    },
                }
                InputAction::Respond(holder.consume())
            },
        }
    }

    /// Answers a request to find out the displays anew. `output` is what
    /// `xrandr --current` wrote, or why it could not be run.
    pub fn reconfigure_displays(
        &mut self,
        socket_holder: SocketMessageHolder,
        output: Result<Vec<u8>, String>,
    ) -> (reply: Reply)
        requires
            old(self).wf(),
        ensures
            final(self).wf(),
            final(self).config == old(self).config,
            match output {
                Ok(bytes) => final(self).screens() == old(self).screens().overwritten(
                    displays_of(lines_of(bytes@)),
                ) && reply.tells(
                    socket_holder.socket,
                    socket_holder.queued().push(("Successfully reconfigured displays!"@, false)),
                ),
                Err(reason) => final(self).screens() == old(self).screens() && reply.tells(
                    socket_holder.socket,
                    socket_holder.queued().push(
                        ("Failed to reconfigure displays: "@ + reason@, true),
                    ),
                ),
            },
            reply.socket == socket_holder.socket,
            socket_holder.messages@.len() == 0 ==> (reply.response.exit_status
                == ExitStatus::Success <==> output is Ok),
    {
        let mut holder: SocketMessageHolder = socket_holder;
        match self.monitor_states.write().refresh_displays(output) {
            Ok(_) => {
                holder.queue_success("Successfully reconfigured displays!".to_owned());
            },
            Err(reason) => {
                holder.queue_error(concat2("Failed to reconfigure displays: ", reason.as_str()));
            },
        }
        let ghost told = holder.queued();
        let reply: Reply = holder.consume();
        proof {
            law_answers_say_what_was_queued(reply, socket_holder.socket, told);
            assert(told[told.len() - 1].1 == (output is Err));
        }
        reply
    }

    /// Answers a request to read the configuration anew. `file` is what the
    /// configuration file says: why it could not be opened; or why it could not be
    /// read or is no table of options; or the options.
    pub fn reload_configuration(
        &mut self,
        socket_holder: SocketMessageHolder,
        file: Result<Result<ConfigurationSections, String>, String>,
    ) -> (reply: Reply)
        requires
            old(self).wf(),
        ensures
            final(self).wf(),
            final(self).screens() == old(self).screens(),
            match file {
                Err(reason) => final(self).config == old(self).config && reply.tells(
                    socket_holder.socket,
                    socket_holder.queued().push(
                        (
                            "Failed to open configuration file for reloading: "@ + reason@,
                            true,
                        ),
                    ),
                ),
                Ok(Err(reason)) => final(self).config == old(self).config && reply.tells(
                    socket_holder.socket,
                    socket_holder.queued().push(
                        ("Failed to parse configuration file: "@ + reason@, true),
                    ),
                ),
                Ok(Ok(sections)) => match sections.first_fault() {
                    Some(reason) => final(self).config == old(self).config && reply.tells(
                        socket_holder.socket,
                        socket_holder.queued().push(
                            ("Failed to parse configuration file: "@ + reason, true),
                        ),
                    ),
                    None => sections.describes(final(self).config) && reply.tells(
                        socket_holder.socket,
                        socket_holder.queued().push(
                            ("Successfully reloaded configuration!"@, false),
                        ),
                    ),
                },
            },
            reply.socket == socket_holder.socket,
            socket_holder.messages@.len() == 0 ==> (reply.response.exit_status
                == ExitStatus::Success <==> (file matches Ok(Ok(sections))
                && sections.first_fault() is None)),
            socket_holder.messages@.len() == 0 && reply.response.exit_status
                == ExitStatus::Failure ==> final(self).config == old(self).config,
    {
        let mut holder: SocketMessageHolder = socket_holder;
        let ghost fine = file is Ok && file->Ok_0 is Ok && file->Ok_0->Ok_0.first_fault() is None;
        match file {
            Err(reason) => {
                holder.queue_error(
                    concat2(
                        "Failed to open configuration file for reloading: ",
                        reason.as_str(),
                    ),
                );
            },
            Ok(Err(reason)) => {
                holder.queue_error(concat2("Failed to parse configuration file: ", reason.as_str()));
            },
            Ok(Ok(sections)) => {
                match overwrite_values(sections) {
                    Ok(config) => {
                        self.config = config;
                        holder.queue_success("Successfully reloaded configuration!".to_owned());
                    },
                    Err(reason) => {
                        holder.queue_error(
                            concat2("Failed to parse configuration file: ", reason.as_str()),
                        );
                    },
                }
            },
        }
        let ghost told = holder.queued();
        let reply: Reply = holder.consume();
        proof {
            law_answers_say_what_was_queued(reply, socket_holder.socket, told);
            assert(told[told.len() - 1].1 == !fine);
        }
        reply
    }
}

/// Answers a request to shut down, given whether the state could be saved.
pub fn finish_save(socket_holder: SocketMessageHolder, saved: Result<(), String>) -> (reply: Reply)
    ensures
        reply.tells(
            socket_holder.socket,
            socket_holder.queued().push(
                match saved {
                    Ok(_) => ("Successfully saved configuration!"@, false),
                    Err(reason) => ("Failed to save configuration: "@ + reason@, true),
                },
            ),
        ),
        reply.socket == socket_holder.socket,
        socket_holder.messages@.len() == 0 ==> (reply.response.exit_status == ExitStatus::Success
            <==> saved is Ok),
{
    let mut holder: SocketMessageHolder = socket_holder;
    match saved {
        Ok(_) => {
            holder.queue_success("Successfully saved configuration!".to_owned());
        },
        Err(reason) => {
            holder.queue_error(concat2("Failed to save configuration: ", reason.as_str()));
        },
    }
    let ghost told = holder.queued();
    let reply: Reply = holder.consume();
    proof {
        law_answers_say_what_was_queued(reply, socket_holder.socket, told);
        assert(told[told.len() - 1].1 == (saved is Err));
    }
    reply
}

/// Only a connected monitor can be made the active one, and an attempt that is
/// refused changes nothing.
pub proof fn law_active_is_connected(new_monitor: Seq<char>, screens: Screens)
    ensures
        activation_note(new_monitor, screens).1 ==> activated(new_monitor, screens) == screens,
        !activation_note(new_monitor, screens).1 ==> screens.enabled.contains(
            activated(new_monitor, screens).active,
        ),
        activated(new_monitor, screens).list == screens.list,
        activated(new_monitor, screens).enabled == screens.enabled,
{
}

/// Asking for a property changes nothing.
pub proof fn law_asking_changes_nothing(
    property: GetProperty,
    action: InputAction,
    holder: SocketMessageHolder,
    screens: Screens,
    after: Screens,
    config: DaemonOptions,
    levels: Seq<Seq<char>>,
)
    requires
        serves(ProgramInput::Get(property), action, holder, screens, after, config, levels),
    ensures
        after == screens,
        action is Respond,
{
}

} // verus!
