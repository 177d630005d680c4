//! The files that the daemon keeps.
use vstd::prelude::*;
use vstd::string::StringSliceAdditionalSpecFns;

use crate::daemon::config::persistent::{
    overwrite_values, ConfigurationSections, DaemonOptions, CONFIG_TEMPLATE,
};

verus! {

/// The configuration file, in the user's directory for configurations.
pub const CONFIG_FILE: &'static str = "config.toml";

/// The file that is kept from one run to the next, in the user's directory for
/// caches.
pub const CACHE_FILE: &'static str = "persistent_state.toml";

/// The copy of the template, in the user's directory for data.
pub const TEMPLATE_FILE: &'static str = "config_template.toml";

/// The file that holds the number of the daemon's process, in the user's directory
/// for caches.
pub const PID_FILE: &'static str = "daemon.pid";

/// How many bytes stand before the version in the first line of a template.
pub const VERSION_OFFSET: usize = 3;

/// What comes of reading a configuration: the options, or why there are none.
pub type ConfigAttempt = Result<DaemonOptions, String>;

/// The bytes before the first line break.
pub open spec fn first_line(bytes: Seq<u8>) -> Seq<u8>
    decreases bytes.len(),
{
    if bytes.len() == 0 || bytes[0] == 10 {
        Seq::empty()
    } else {
        seq![bytes[0]] + first_line(bytes.drop_first())
    }
}

/// The version that the first line of a template names.
pub open spec fn version_in(line: Seq<u8>) -> Option<Seq<u8>> {
    if line.len() < VERSION_OFFSET {
        None
    } else {
        Some(line.skip(VERSION_OFFSET as int))
    }
}

/// The version that this program's template names.
pub open spec fn current_version() -> Option<Seq<u8>> {
    version_in(first_line(CONFIG_TEMPLATE.spec_bytes()))
}

/// The length of the first line.
fn first_line_length(bytes: &[u8]) -> (length: usize)
    ensures
        length <= bytes@.len(),
        first_line(bytes@) == bytes@.take(length as int),
{
    let mut i: usize = 0;
    assert(bytes@.skip(0) =~= bytes@);
    assert(bytes@.take(0) + first_line(bytes@) =~= first_line(bytes@));
    while i < bytes.len()
        invariant
            0 <= i <= bytes@.len(),
            first_line(bytes@) == bytes@.take(i as int) + first_line(bytes@.skip(i as int)),
        decreases bytes@.len() - i,
    {
        let ghost rest = bytes@.skip(i as int);
        assert(rest[0] == bytes@[i as int]);
        if bytes[i] == 10 {
            assert(bytes@.take(i as int) + Seq::<u8>::empty() =~= bytes@.take(i as int));
            return i;
        }
        assert(rest.drop_first() =~= bytes@.skip(i + 1));
        assert(bytes@.take(i as int) + (seq![rest[0]] + first_line(rest.drop_first()))
            =~= bytes@.take(i + 1) + first_line(bytes@.skip(i + 1)));
        i += 1;
    }
    assert(bytes@.take(i as int) + first_line(bytes@.skip(i as int)) =~= bytes@.take(i as int));
    i
}

/// Whether the copy of the template is that of this program, given its first line:
/// whether it names the same version. If there is no copy, or it cannot be read,
/// there is no line, and the copy has to be written anew.
pub fn is_template_current(template_line: Option<&str>) -> (current: bool)
    ensures
        current == match template_line {
            Some(line) => version_in(line.spec_bytes()) is Some && version_in(line.spec_bytes())
                == current_version(),
            None => false,
        },
{
    match template_line {
        None => false,
        Some(line) => {
            let found: &[u8] = line.as_bytes();
            let template: &[u8] = CONFIG_TEMPLATE.as_bytes();
            let length: usize = first_line_length(template);
            assert(first_line(template@).len() == length);
            if found.len() < VERSION_OFFSET {
                return false;
            }
            if found.len() != length {
                proof {
                    if current_version() is Some {
                        assert(current_version()->0.len() == length - VERSION_OFFSET);
                        assert(version_in(found@)->0.len() == found@.len() - VERSION_OFFSET);
                    }
                }
                return false;
            }
            let mut i: usize = VERSION_OFFSET;
            while i < length
                invariant
                    VERSION_OFFSET <= i <= length == found@.len(),
                    length <= template@.len(),
                    first_line(template@) == template@.take(length as int),
                    template@ == CONFIG_TEMPLATE.spec_bytes(),
                    found@ == line.spec_bytes(),
                    template_line == Some(line),
                    forall|k: int| VERSION_OFFSET <= k < i ==> found@[k] == template@[k],
                decreases length - i,
            {
                if found[i] != template[i] {
                    proof {
                        let theirs = found@.skip(VERSION_OFFSET as int);
                        let ours = template@.take(length as int).skip(VERSION_OFFSET as int);
                        assert(version_in(found@) == Some(theirs));
                        assert(current_version() == Some(ours));
                        assert(theirs[i - VERSION_OFFSET] != ours[i - VERSION_OFFSET]);
                    }
                    return false;
                }
                i += 1;
            }
            assert(version_in(found@)->0 =~= current_version()->0);
            true
        },
    }
}

/// The configuration to start with.
pub struct InitialConfiguration {
    pub options: DaemonOptions,
    /// Whether the template is to be written to the configuration file.
    pub write_template: bool,
}

/// The configuration to start with, given what the configuration file says: there
/// is none, or why it could not be read, or the options. The default is used where
/// there is nothing better.
pub fn initial_configuration(
    contents: Option<Result<ConfigurationSections, String>>,
) -> (initial: InitialConfiguration)
    ensures
        initial.write_template == (contents is None),
        match contents {
            Some(Ok(sections)) if sections.first_fault() is None => sections.describes(
                initial.options,
            ),
            _ => initial.options.is_default(),
        },
{
    match contents {
        None => InitialConfiguration { options: DaemonOptions::default(), write_template: true },
        Some(Err(_)) => {
            InitialConfiguration { options: DaemonOptions::default(), write_template: false }
        },
        Some(Ok(sections)) => {
            let attempt: ConfigAttempt = overwrite_values(sections);
            match attempt {
                Ok(options) => InitialConfiguration { options, write_template: false },
                Err(_) => {
                    InitialConfiguration { options: DaemonOptions::default(), write_template: false }
                },
            }
        },
    }
}

/// A configuration file that says nothing leaves every option at its default.
pub proof fn law_silence_means_default(sections: ConfigurationSections, options: DaemonOptions)
    requires
        sections.use_redshift is None,
        sections.auto_remove_displays is None,
        sections.fade_options is None,
        sections.nightlight_options is None,
        sections.monitor_default_behavior is None,
    ensures
        sections.first_fault() is None,
        sections.describes(options) <==> options.is_default(),
{
}

/// The first line is the beginning of a text up to its first line break, or all of it
/// where it has none.
pub proof fn law_first_line_ends_at_the_line_break(line: Seq<u8>, rest: Seq<u8>)
    requires
        forall|k: int| 0 <= k < line.len() ==> #[trigger] line[k] != 10,
    ensures
        first_line(line) == line,
        first_line(line.push(10) + rest) == line,
    decreases line.len(),
{
    let all = line.push(10) + rest;
    if line.len() > 0 {
        let shorter = line.drop_first();
        assert forall|k: int| 0 <= k < shorter.len() implies #[trigger] shorter[k] != 10 by {
            assert(shorter[k] == line[k + 1]);
        }
        law_first_line_ends_at_the_line_break(shorter, rest);
        assert(all.drop_first() =~= shorter.push(10) + rest);
        assert(line[0] != 10);
        assert(seq![line[0]] + shorter =~= line);
    } else {
        assert(first_line(line) =~= line);
        assert(all[0] == 10);
        assert(first_line(all) =~= line);
    }
}

/// The version is all that stands behind the three bytes at the beginning of a line; a
/// shorter line names none.
pub proof fn law_version_follows_the_mark(mark: Seq<u8>, version: Seq<u8>)
    ensures
        mark.len() == 3 ==> version_in(mark + version) == Some(version),
        mark.len() < 3 ==> version_in(mark) is None,
{
    if mark.len() == 3 {
        assert((mark + version).skip(3) =~= version);
    }
}

} // verus!
