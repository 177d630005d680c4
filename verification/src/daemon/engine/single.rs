//! One light for all displays.
//!
//! What a machine needs whose displays share one brightness and one nightlight: the
//! commands for all of them, the nightlight of redshift, and the mode that is kept
//! in a file.
use vstd::prelude::*;

use crate::daemon::config::persistent::DaemonOptions;
use crate::daemon::engine::commands::{
    as_calls, xrandr_call, Argument, Call, CommandLine, Word,
};
use crate::daemon::engine::display::Screen;
use crate::daemon::engine::monitor::{
    as_display, as_displays, displays_of, lines_of, get_available_displays, Display, Monitor,
};
use crate::level::Level;
use crate::text::{
    decimal, decimal_text, join, joined, parse_unsigned, texts, unsigned_value,
};

verus! {

/// The light of all displays.
#[derive(Clone, Copy, Debug, PartialEq, Eq, Structural)]
pub struct SingleLight {
    pub level: Level,
    pub nightlight: bool,
}

/// The call that shows the light on one display. With redshift, the nightlight is
/// not xrandr's business.
pub open spec fn single_call(name: Seq<char>, light: SingleLight, config: DaemonOptions) -> Call {
    let words = seq![
        Word::Text("--output"@),
        Word::Text(name),
        Word::Text("--brightness"@),
        Word::Fraction(light.level),
    ];
    Call {
        program: "xrandr"@,
        words: if !config.use_redshift && light.nightlight {
            words + seq![
                Word::Text("--gamma"@),
                Word::Text(config.nightlight_options.xrandr_gamma@),
            ]
        } else {
            words
        },
    }
}

/// The commands that show the light on all displays, in order.
pub fn create_xrandr_commands_with_brightness(
    displays: &Vec<Monitor>,
    light: SingleLight,
    config: &DaemonOptions,
) -> (commands: Vec<CommandLine>)
    ensures
        as_calls(commands@) == Seq::new(
            displays@.len(),
            |k: int| single_call(displays@[k].adapter_name@, light, *config),
        ),
{
    let mut commands: Vec<CommandLine> = Vec::new();
    let mut k: usize = 0;
    while k < displays.len()
        invariant
            0 <= k <= displays@.len(),
            commands@.len() == k,
            forall|j: int|
                0 <= j < k ==> (#[trigger] commands@[j])@ == single_call(
                    displays@[j].adapter_name@,
                    light,
                    *config,
                ),
        decreases displays@.len() - k,
    {
        let mut arguments: Vec<Argument> = Vec::new();
        arguments.push(Argument::Text("--output".to_owned()));
        arguments.push(Argument::Text(displays[k].name().clone()));
        arguments.push(Argument::Text("--brightness".to_owned()));
        arguments.push(Argument::Fraction(light.level));
        if !config.use_redshift && light.nightlight {
            arguments.push(Argument::Text("--gamma".to_owned()));
            arguments.push(Argument::Text(config.nightlight_options.xrandr_gamma.clone()));
        }
        let command = CommandLine { program: "xrandr".to_owned(), arguments };
        assert(command@ =~= single_call(displays@[k as int].adapter_name@, light, *config));
        commands.push(command);
        k += 1;
    }
    assert(as_calls(commands@) =~= Seq::new(
        displays@.len(),
        |j: int| single_call(displays@[j].adapter_name@, light, *config),
    ));
    commands
}

/// The call of redshift that switches its nightlight on or off.
pub open spec fn redshift_switch(nightlight: bool, config: DaemonOptions) -> Call {
    Call {
        program: "redshift"@,
        words: if nightlight {
            seq![
                Word::Text("-O"@),
                Word::Text(decimal(config.nightlight_options.redshift_temperature as nat)),
            ]
        } else {
            seq![Word::Text("-x"@)]
        },
    }
}

/// The command that switches the nightlight of redshift off.
pub fn clear_redshift(config: &DaemonOptions) -> (command: CommandLine)
    ensures
        command@ == redshift_switch(false, *config),
{
    let mut arguments: Vec<Argument> = Vec::new();
    arguments.push(Argument::Text("-x".to_owned()));
    let command = CommandLine { program: "redshift".to_owned(), arguments };
    assert(command@ =~= redshift_switch(false, *config));
    command
}

/// The command that switches the nightlight of redshift on.
pub fn enable_redshift(config: &DaemonOptions) -> (command: CommandLine)
    ensures
        command@ == redshift_switch(true, *config),
{
    let mut arguments: Vec<Argument> = Vec::new();
    arguments.push(Argument::Text("-O".to_owned()));
    arguments.push(
        Argument::Text(decimal_text(config.nightlight_options.redshift_temperature as u64)),
    );
    let command = CommandLine { program: "redshift".to_owned(), arguments };
    assert(command@ =~= redshift_switch(true, *config));
    command
}

/// The command that brings the nightlight of redshift to what it is to be.
pub fn refresh_redshift(light: SingleLight, config: &DaemonOptions) -> (command: CommandLine)
    ensures
        command@ == redshift_switch(light.nightlight, *config),
{
    if light.nightlight {
        enable_redshift(config)
    } else {
        clear_redshift(config)
    }
}

/// The connected ones of some displays, in order.
pub open spec fn connected_of(displays: Seq<Display>) -> Seq<Display>
    decreases displays.len(),
{
    if displays.len() == 0 {
        Seq::empty()
    } else {
        let before = connected_of(displays.drop_last());
        if displays.last().connected {
            before.push(displays.last())
        } else {
            before
        }
    }
}

/// Reads the output of `xrandr --current`: the connected monitors.
pub fn get_current_connected_displays(output: &Vec<u8>) -> (displays: Vec<Monitor>)
    ensures
        Seq::new(displays@.len(), |k: int| as_display((displays@[k], true))) == connected_of(
            displays_of(lines_of(output@)),
        ),
{
    let all: Vec<(Monitor, bool)> = get_available_displays(output);
    let ghost listed = as_displays(all@);
    let mut displays: Vec<Monitor> = Vec::new();
    assert(listed.take(0).len() == 0);
    assert(Seq::new(displays@.len(), |k: int| as_display((displays@[k], true))) =~= Seq::<
        Display,
    >::empty());
    for entry in it: all
        invariant
            it.seq() == all@,
            listed == as_displays(all@),
            Seq::new(displays@.len(), |k: int| as_display((displays@[k], true))) == connected_of(
                listed.take(it.index()),
            ),
    {
        let ghost before = displays@;
        let ghost k = it.index();
        proof {
            assert(listed.take(k + 1).drop_last() =~= listed.take(k));
            assert(listed.take(k + 1).last() == as_display(entry));
        }
        if entry.1 {
            displays.push(entry.0);
            proof {
                let shown = Seq::new(before.len(), |j: int| as_display((before[j], true)));
                assert(Seq::new(displays@.len(), |j: int| as_display((displays@[j], true)))
                    =~= shown.push(as_display(entry)));
            }
        }
    }
    assert(listed.take(listed.len() as int) =~= listed);
    displays
}

/// The names of the displays with spaces between them.
pub fn get_formatted_displays_list(displays: &Vec<Monitor>) -> (text: String)
    ensures
        text@ == joined(
            Seq::new(displays@.len(), |k: int| displays@[k].adapter_name@),
            " "@,
        ),
{
    let mut names: Vec<String> = Vec::new();
    let mut k: usize = 0;
    while k < displays.len()
        invariant
            0 <= k <= displays@.len(),
            names@.len() == k,
            forall|j: int| 0 <= j < k ==> (#[trigger] names@[j])@ == displays@[j].adapter_name@,
        decreases displays@.len() - k,
    {
        names.push(displays[k].name().clone());
        k += 1;
    }
    assert(texts(names@) =~= Seq::new(displays@.len(), |j: int| displays@[j].adapter_name@));
    join(&names, " ")
}

/// The mode that a file holds: `0` for daylight, `1` for the nightlight.
pub open spec fn mode_in(contents: Seq<char>) -> Option<bool> {
    match unsigned_value(contents, 255) {
        Some(number) => if number == 0 {
            Some(false)
        } else if number == 1 {
            Some(true)
        } else {
            None
        },
        None => None,
    }
}

/// Reads the mode that a file holds; there is none if the file holds anything else.
pub fn get_written_mode(contents: &str) -> (mode: Option<bool>)
    ensures
        mode == mode_in(contents@),
{
    match parse_unsigned(contents, 255) {
        Some(number) => {
            if number == 0 {
                Some(false)
            } else if number == 1 {
                Some(true)
            } else {
                None
            }
        },
        None => None,
    }
}

/// The mode to start with: what the file holds, or daylight, which is then to be
/// written to the file.
pub struct InitialMode {
    pub nightlight: bool,
    pub write_default: bool,
}

/// The mode to start with, given what the file holds, if it could be read.
pub fn mode_or_default(contents: Option<&str>) -> (initial: InitialMode)
    ensures
        ({
            let found = match contents {
                Some(text) => mode_in(text@),
                None => None,
            };
            initial == (InitialMode {
                nightlight: found == Some(true),
                write_default: found is None,
            })
        }),
{
    let found: Option<bool> = match contents {
        Some(text) => get_written_mode(text),
        None => None,
    };
    match found {
        Some(nightlight) => InitialMode { nightlight, write_default: false },
        None => InitialMode { nightlight: false, write_default: true },
    }
}

/// The digit of the other mode: one for zero, and zero for anything else.
pub fn toggled_mode(digit: char) -> (other: char)
    ensures
        other == (if digit == '0' {
            '1'
        } else {
            '0'
        }),
        other != digit,
        digit == '1' ==> other == '0',
{
    if digit == '0' {
        '1'
    } else {
        '0'
    }
}

/// The text that is written for a mode.
pub open spec fn mode_chars(nightlight: bool) -> Seq<char> {
    if nightlight {
        "1"@
    } else {
        "0"@
    }
}

/// The text that is written to a file for a mode.
pub fn write_mode(nightlight: bool) -> (text: String)
    ensures
        text@ == mode_chars(nightlight),
{
    if nightlight {
        "1".to_owned()
    } else {
        "0".to_owned()
    }
}

/// The mode that was written to a file is the one that is read from it.
pub proof fn law_written_mode_is_read(nightlight: bool)
    ensures
        mode_in(mode_chars(nightlight)) == Some(nightlight),
{
    reveal_strlit("0");
    reveal_strlit("1");
    let text = mode_chars(nightlight);
    let number: nat = if nightlight {
        1
    } else {
        0
    };
    assert(text =~= decimal(number));
    crate::text::law_decimal_round_trip(number, 255);
}

/// The light of all displays is shown by xrandr as the same light of a single monitor
/// is.
pub proof fn law_single_is_like_each(
    name: Seq<char>,
    light: SingleLight,
    screen: Screen,
    config: DaemonOptions,
)
    requires
        screen.name == name,
        screen.light.level == light.level,
        screen.light.nightlight == light.nightlight,
    ensures
        single_call(name, light, config) == xrandr_call(screen, config),
{
}

/// Nothing but the two numbers that stand for the modes is read as a mode.
pub proof fn law_other_numbers_are_no_mode(number: nat)
    ensures
        mode_in(decimal(number)) == (if number == 0 {
            Some(false)
        } else if number == 1 {
            Some(true)
        } else {
            None
        }),
{
    if number <= 255 {
        crate::text::law_decimal_round_trip(number, 255);
    } else {
        crate::text::law_plus_sign_changes_nothing(number, 255);
    }
}

/// The displays that a light is shown on are the connected ones of the output, in order:
/// each connected display counts, and no other.
pub proof fn law_connected_displays_count(
    first: Seq<Display>,
    second: Seq<Display>,
    display: Display,
)
    ensures
        connected_of(first + second) == connected_of(first) + connected_of(second),
        display.connected ==> connected_of(seq![display]) == seq![display],
        !display.connected ==> connected_of(seq![display]).len() == 0,
    decreases second.len(),
{
    assert(seq![display].drop_last() =~= Seq::<Display>::empty());
    assert(connected_of(seq![display].drop_last()) =~= Seq::<Display>::empty());
    if second.len() == 0 {
        assert(first + second =~= first);
        assert(connected_of(second) =~= Seq::<Display>::empty());
    } else {
        assert((first + second).drop_last() =~= first + second.drop_last());
        law_connected_displays_count(first, second.drop_last(), display);
        assert(connected_of(first + second) =~= connected_of(first) + connected_of(second));
    }
}

} // verus!
