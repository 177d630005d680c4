//! Monitors as `xrandr --current` lists them.
use vstd::prelude::*;

use crate::text::{all_digits, decimal, parse_unsigned, same_text, unsigned_value};

verus! {

/// What a line of `xrandr --current` looks like that names a display adapter. The
/// groups: the name of the adapter; `disconnected` or `connected` with what
/// follows; width, height, horizontal and vertical offset of a connected monitor.
pub const DISPLAY_LINE_PATTERN: &'static str =
    "^([[:alpha:]]+-[[:digit:]]+) (disconnected|connected .*?([[:digit:]]+)x([[:digit:]]+)\\+([[:digit:]]+)\\+([[:digit:]]+))";

/// What the groups of a pattern match in a text, where the pattern as a whole
/// matches; group zero is the whole match.
pub uninterp spec fn matched_groups(pattern: Seq<char>, text: Seq<char>) -> Option<
    Seq<Option<Seq<char>>>,
>;

/// The texts of the groups that took part in a match.
pub open spec fn group_texts(groups: Seq<Option<String>>) -> Seq<Option<Seq<char>>> {
    Seq::new(
        groups.len(),
        |i: int|
            match groups[i] {
                Some(text) => Some(text@),
                None => None,
            },
    )
}

/// Whether a group took part in a match and holds a number.
pub open spec fn is_number(group: Option<Seq<char>>) -> bool {
    match group {
        Some(digits) => digits.len() > 0 && all_digits(digits),
        None => false,
    }
}

/// Whether the groups are such as a match of `DISPLAY_LINE_PATTERN` gives: a name;
/// then either `disconnected` or four numbers.
pub open spec fn are_display_groups(groups: Seq<Option<Seq<char>>>) -> bool {
    &&& groups.len() == 7
    &&& groups[1] is Some
    &&& groups[2] is Some
    &&& groups[2] == Some("disconnected"@) || (is_number(groups[3]) && is_number(groups[4])
        && is_number(groups[5]) && is_number(groups[6]))
}

/// Whether a text is the name of an adapter: letters, a hyphen, digits.
pub open spec fn is_adapter_name(name: Seq<char>) -> bool {
    exists|k: int| #[trigger] is_hyphen_of(name, k)
}

/// Whether a name has only letters before a place, a hyphen there and only digits
/// behind it, and some of each.
pub open spec fn is_hyphen_of(name: Seq<char>, k: int) -> bool {
    &&& 0 < k < name.len() - 1
    &&& forall|i: int|
        0 <= i < k ==> 'a' <= (#[trigger] name[i]) <= 'z' || 'A' <= name[i] <= 'Z'
    &&& name[k] == '-'
    &&& all_digits(name.skip(k + 1))
}

/// Whether a text begins with another one.
pub open spec fn begins_with(text: Seq<char>, start: Seq<char>) -> bool {
    start.len() <= text.len() && text.take(start.len() as int) == start
}

/// Whether the groups are such as a match of `DISPLAY_LINE_PATTERN` in a line gives:
/// the line begins with the name of the adapter, a space, and the second group.
pub open spec fn are_groups_of(groups: Seq<Option<Seq<char>>>, line: Seq<char>) -> bool {
    &&& are_display_groups(groups)
    &&& is_adapter_name(groups[1]->0)
    &&& begins_with(line, groups[1]->0 + " "@ + groups[2]->0)
    &&& groups[2] == Some("disconnected"@) || begins_with(groups[2]->0, "connected "@)
}

/// Matches a pattern against a text with `Regex::new` and `Regex::captures` and
/// hands out the text of each group. There is nothing to hand out where the
/// pattern is not a valid one or does not match. Stated besides, for
/// `DISPLAY_LINE_PATTERN`: its seven groups, of which the first two take part in
/// every match, and the four numbers in every match of its second branch; that the
/// first is letters, a hyphen and digits, and that the text begins with the first two
/// and a space between them; and that the first branch matches wherever a text begins
/// so.
#[verifier::external_body]
fn match_groups(pattern: &str, text: &str) -> (groups: Option<Vec<Option<String>>>)
    ensures
        match groups {
            Some(list) => matched_groups(pattern@, text@) == Some(group_texts(list@)),
            None => groups is None && matched_groups(pattern@, text@) is None,
        },
        pattern@ == DISPLAY_LINE_PATTERN@ && groups is Some ==> are_groups_of(
            group_texts(groups->0@),
            text@,
        ),
        pattern@ == DISPLAY_LINE_PATTERN@ ==> forall|name: Seq<char>|
            is_adapter_name(name) && #[trigger] begins_with(text@, name + " disconnected"@)
                ==> groups is Some && group_texts(groups->0@)[1] == Some(name) && group_texts(
                groups->0@,
            )[2] == Some("disconnected"@),
{
    let expression = regex::Regex::new(pattern).ok()?;
    let captures = expression.captures(text)?;
    Some(captures.iter().map(|group| group.map(|found| found.as_str().to_owned())).collect())
}

/// Where a monitor stands on the screen, and how large it is.
#[derive(Clone, Copy, Debug, PartialEq, Eq, Structural)]
pub struct MonitorMetadata {
    pub width: u32,
    pub height: u32,
    pub x_offset: u32,
    pub y_offset: u32,
}

/// What `xrandr --current` says about an adapter.
#[derive(Debug)]
pub struct Monitor {
    pub adapter_name: String,
    /// Known while a monitor is connected.
    pub monitor_metadata: Option<MonitorMetadata>,
}

/// What a line of `xrandr --current` says: the name of an adapter, the metadata of
/// the monitor, and whether it is connected.
pub struct Display {
    pub name: Seq<char>,
    pub metadata: Option<MonitorMetadata>,
    pub connected: bool,
}

/// The number in a group, if it fits into 32 bits.
pub open spec fn number_in(group: Option<Seq<char>>) -> Option<int> {
    match group {
        Some(digits) => unsigned_value(digits, u32::MAX as int),
        None => None,
    }
}

/// The display that the groups of a line describe. There is none if one of the
/// numbers does not fit into 32 bits.
pub open spec fn display_in(groups: Seq<Option<Seq<char>>>) -> Option<Display> {
    let name = groups[1]->0;
    if groups[2] == Some("disconnected"@) {
        Some(Display { name, metadata: None, connected: false })
    } else {
        match (
            number_in(groups[3]),
            number_in(groups[4]),
            number_in(groups[5]),
            number_in(groups[6]),
        ) {
            (Some(width), Some(height), Some(x_offset), Some(y_offset)) => Some(
                Display {
                    name,
                    metadata: Some(
                        MonitorMetadata {
                            width: width as u32,
                            height: height as u32,
                            x_offset: x_offset as u32,
                            y_offset: y_offset as u32,
                        },
                    ),
                    connected: true,
                },
            ),
            _ => None,
        }
    }
}

/// The display that a line describes.
pub open spec fn display_of(line: Seq<char>) -> Option<Display> {
    match matched_groups(DISPLAY_LINE_PATTERN@, line) {
        Some(groups) => display_in(groups),
        None => None,
    }
}

/// A monitor and whether it is connected, as a display.
pub open spec fn as_display(entry: (Monitor, bool)) -> Display {
    Display {
        name: entry.0.adapter_name@,
        metadata: entry.0.monitor_metadata,
        connected: entry.1,
    }
}

/// Whether what was found is what is there to be found.
pub open spec fn found_as(found: Option<(Monitor, bool)>, display: Option<Display>) -> bool {
    match found {
        Some(entry) => display == Some(as_display(entry)),
        None => display is None,
    }
}

/// Whether a line begins as a line does that tells of a display: with the name of the
/// adapter and whether a monitor is connected.
pub open spec fn tells_of(line: Seq<char>, display: Display) -> bool {
    &&& is_adapter_name(display.name)
    &&& begins_with(
        line,
        display.name + if display.connected {
            " connected "@
        } else {
            " disconnected"@
        },
    )
}

/// Whether each display has the name of an adapter.
pub open spec fn are_named(displays: Seq<Display>) -> bool {
    forall|k: int| 0 <= k < displays.len() ==> is_adapter_name((#[trigger] displays[k]).name)
}

/// Reads the number in a group.
fn parse_group(group: &Option<String>) -> (number: Option<u32>)
    ensures
        match number {
            Some(n) => number_in(group_texts(seq![*group])[0]) == Some(n as int),
            None => number_in(group_texts(seq![*group])[0]) is None,
        },
{
    match group {
        Some(digits) => {
            match parse_unsigned(digits.as_str(), u32::MAX as u64) {
                Some(n) => Some(n as u32),
                None => None,
            }
        },
        None => None,
    }
}

impl Monitor {
    /// The monitor that a line of `xrandr --current` describes, and whether it is
    /// connected. The line begins with the name of the adapter and with which of the two
    /// it is.
    pub fn new(xrandr_line: &str) -> (found: Option<(Monitor, bool)>)
        ensures
            found_as(found, display_of(xrandr_line@)),
            found matches Some(entry) ==> tells_of(xrandr_line@, as_display(entry)),
            forall|name: Seq<char>|
                is_adapter_name(name) && #[trigger] begins_with(
                    xrandr_line@,
                    name + " disconnected"@,
                ) ==> found is Some && as_display(found->0) == (Display {
                    name,
                    metadata: None,
                    connected: false,
                }),
    {
        match match_groups(DISPLAY_LINE_PATTERN, xrandr_line) {
            Some(groups) => {
                let found: Option<(Monitor, bool)> = Monitor::from_groups(&groups);
                proof {
                    if found is Some {
                        lemma_line_begins(group_texts(groups@), xrandr_line@);
                    }
                }
                found
            },
            None => None,
        }
    }

    /// The monitor that the groups of a line describe, and whether it is connected.
    pub fn from_groups(groups: &Vec<Option<String>>) -> (found: Option<(Monitor, bool)>)
        requires
            are_display_groups(group_texts(groups@)),
        ensures
            found_as(found, display_in(group_texts(groups@))),
    {
        let ghost texts = group_texts(groups@);
        assert(texts.len() == 7 && texts[1] is Some && texts[2] is Some);
        let adapter_name: String = match &groups[1] {
            Some(name) => name.clone(),
            None => String::new(),
        };
        let disconnected: bool = match &groups[2] {
            Some(state) => same_text(state.as_str(), "disconnected"),
            None => false,
        };
        if disconnected {
            return Some((Monitor { adapter_name, monitor_metadata: None }, false));
        }
        let width: u32 = match parse_group(&groups[3]) {
            Some(number) => number,
            None => return None,
        };
        let height: u32 = match parse_group(&groups[4]) {
            Some(number) => number,
            None => return None,
        };
        let x_offset: u32 = match parse_group(&groups[5]) {
            Some(number) => number,
            None => return None,
        };
        let y_offset: u32 = match parse_group(&groups[6]) {
            Some(number) => number,
            None => return None,
        };
        let metadata = MonitorMetadata { width, height, x_offset, y_offset };
        Some((Monitor { adapter_name, monitor_metadata: Some(metadata) }, true))
    }

    /// The name of the adapter.
    pub fn name(&self) -> (name: &String)
        ensures
            *name == self.adapter_name,
    {
        &self.adapter_name
    }

    /// Replaces what is known of the monitor's place and size.
    pub fn update_metadata(&mut self, new_metadata: Option<MonitorMetadata>)
        ensures
            *final(self) == (Monitor {
                adapter_name: old(self).adapter_name,
                monitor_metadata: new_metadata,
            }),
    {
        self.monitor_metadata = new_metadata;
    }
}

/// What the groups of a line say of the beginning of the line.
proof fn lemma_line_begins(groups: Seq<Option<Seq<char>>>, line: Seq<char>)
    requires
        are_groups_of(groups, line),
        display_in(groups) is Some,
    ensures
        tells_of(line, display_in(groups)->0),
{
    reveal_strlit(" ");
    reveal_strlit("connected ");
    reveal_strlit("disconnected");
    reveal_strlit(" connected ");
    reveal_strlit(" disconnected");
    let name = groups[1]->0;
    let state = groups[2]->0;
    let whole = name + " "@ + state;
    if groups[2] == Some("disconnected"@) {
        assert(whole =~= name + " disconnected"@);
    } else {
        let start = name + " connected "@;
        assert forall|i: int| 0 <= i < start.len() implies line[i] == start[i] by {
            assert(line.take(whole.len() as int)[i] == whole[i]);
            if i > name.len() {
                let k = i - name.len() - 1;
                assert(state.take("connected "@.len() as int)[k] == "connected "@[k]);
                assert(whole[i] == state[k]);
            }
        }
        assert(line.take(start.len() as int) =~= start);
    }
}

/// A line that the pattern matches describes a display, unless it gives the place
/// and size of a monitor in numbers of which one does not fit into 32 bits.
pub proof fn law_only_large_numbers_refused(groups: Seq<Option<Seq<char>>>)
    requires
        are_display_groups(groups),
        groups[2] == Some("disconnected"@) || forall|k: int|
            3 <= k < 7 ==> crate::text::digits_value((#[trigger] groups[k])->0) <= u32::MAX,
    ensures
        display_in(groups) is Some,
{
    if groups[2] != Some("disconnected"@) {
        assert forall|k: int| 3 <= k < 7 implies number_in(#[trigger] groups[k]) is Some by {
            let digits = groups[k]->0;
            assert(is_number(groups[k]));
            assert('0' <= digits[0] <= '9');
            assert(crate::text::digits_value((groups[k])->0) <= u32::MAX);
        }
        assert(number_in(groups[3]) is Some && number_in(groups[4]) is Some);
        assert(number_in(groups[5]) is Some && number_in(groups[6]) is Some);
    }
}

// ---------------------------------------------------------------------------
// the whole output
// ---------------------------------------------------------------------------

/// The pieces of an output between its line breaks; there is one more of them than
/// there are line breaks.
pub open spec fn lines_of(output: Seq<u8>) -> Seq<Seq<u8>>
    decreases output.len(),
{
    if output.len() == 0 {
        seq![Seq::<u8>::empty()]
    } else {
        let before = lines_of(output.drop_last());
        if output.last() == 10 {
            before.push(Seq::empty())
        } else {
            before.drop_last().push(before.last().push(output.last()))
        }
    }
}

/// The display that a line describes, if the line is text at all.
pub open spec fn display_of_bytes(line: Seq<u8>) -> Option<Display> {
    if vstd::utf8::valid_utf8(line) {
        display_of(vstd::utf8::decode_utf8(line))
    } else {
        None
    }
}

/// The displays that the lines describe, in order.
pub open spec fn displays_of(lines: Seq<Seq<u8>>) -> Seq<Display>
    decreases lines.len(),
{
    if lines.len() == 0 {
        Seq::empty()
    } else {
        let before = displays_of(lines.drop_last());
        match display_of_bytes(lines.last()) {
            Some(display) => before.push(display),
            None => before,
        }
    }
}

/// Monitors, each with whether it is connected, as displays.
pub open spec fn as_displays(list: Seq<(Monitor, bool)>) -> Seq<Display> {
    Seq::new(list.len(), |i: int| as_display(list[i]))
}

/// `core::str::from_utf8` accepts exactly the valid UTF-8 sequences, and gives the
/// characters that the bytes encode.
pub assume_specification<'a>[ core::str::from_utf8 ](v: &'a [u8]) -> (res: Result<
    &'a str,
    core::str::Utf8Error,
>)
    ensures
        res is Ok <==> vstd::utf8::valid_utf8(v@),
        res matches Ok(s) ==> s@ == vstd::utf8::decode_utf8(v@),
;

/// std's error for bytes that are not UTF-8.
#[verifier::external_type_specification]
#[verifier::external_body]
pub struct ExUtf8Error(core::str::Utf8Error);

/// Adds the display that a line describes to a list.
fn add_line(displays: &mut Vec<(Monitor, bool)>, line: &Vec<u8>)
    requires
        are_named(as_displays(old(displays)@)),
    ensures
        are_named(as_displays(final(displays)@)),
        as_displays(final(displays)@) == match display_of_bytes(line@) {
            Some(display) => as_displays(old(displays)@).push(display),
            None => as_displays(old(displays)@),
        },
{
    match core::str::from_utf8(line.as_slice()) {
        Ok(text) => {
            match Monitor::new(text) {
                Some(entry) => {
                    displays.push(entry);
                    assert(as_displays(displays@) =~= as_displays(old(displays)@).push(
                        as_display(entry),
                    ));
                },
                None => {},
            }
        },
        Err(_) => {},
    }
}

/// Reads the output of `xrandr --current`: each monitor, and whether it is
/// connected.
pub fn get_available_displays(output: &Vec<u8>) -> (displays: Vec<(Monitor, bool)>)
    ensures
        as_displays(displays@) == displays_of(lines_of(output@)),
        are_named(as_displays(displays@)),
{
    let mut displays: Vec<(Monitor, bool)> = Vec::new();
    let mut line: Vec<u8> = Vec::new();
    let mut i: usize = 0;
    assert(lines_of(output@.take(0)).drop_last() =~= Seq::<Seq<u8>>::empty());
    assert(as_displays(displays@) =~= Seq::<Display>::empty());
    while i < output.len()
        invariant
            0 <= i <= output@.len(),
            lines_of(output@.take(i as int)).len() > 0,
            line@ == lines_of(output@.take(i as int)).last(),
            as_displays(displays@) == displays_of(lines_of(output@.take(i as int)).drop_last()),
            are_named(as_displays(displays@)),
        decreases output@.len() - i,
    {
        let byte: u8 = output[i];
        let ghost before = lines_of(output@.take(i as int));
        let ghost after = lines_of(output@.take(i + 1));
        proof {
            assert(output@.take(i + 1).drop_last() =~= output@.take(i as int));
            assert(output@.take(i + 1).last() == byte);
        }
        if byte == 10 {
            add_line(&mut displays, &line);
            line = Vec::new();
            assert(after.drop_last() =~= before);
            assert(line@ =~= after.last());
        } else {
            line.push(byte);
            assert(after.drop_last() =~= before.drop_last());
        }
        i += 1;
    }
    assert(output@.take(i as int) =~= output@);
    add_line(&mut displays, &line);
    displays
}

/// The four numbers of a line of a connected monitor are its width, its height and its
/// horizontal and vertical offset, in this order; a monitor that is not connected has
/// none of them. The name is the first group.
pub proof fn law_display_is_as_written(
    groups: Seq<Option<Seq<char>>>,
    name: Seq<char>,
    width: u32,
    height: u32,
    x_offset: u32,
    y_offset: u32,
)
    requires
        groups.len() == 7,
        groups[1] == Some(name),
    ensures
        groups[2] == Some("disconnected"@) ==> display_in(groups) is Some && display_in(
            groups,
        )->0.name == name && !display_in(groups)->0.connected && display_in(groups)->0.metadata
            is None,
        groups[2] != Some("disconnected"@) && groups[3] == Some(decimal(width as nat)) && groups[4]
            == Some(decimal(height as nat)) && groups[5] == Some(decimal(x_offset as nat))
            && groups[6] == Some(decimal(y_offset as nat)) ==> display_in(groups) is Some
            && display_in(groups)->0.name == name && display_in(groups)->0.connected && display_in(
            groups,
        )->0.metadata == Some(MonitorMetadata { width, height, x_offset, y_offset }),
{
    crate::text::law_decimal_round_trip(width as nat, u32::MAX as int);
    crate::text::law_decimal_round_trip(height as nat, u32::MAX as int);
    crate::text::law_decimal_round_trip(x_offset as nat, u32::MAX as int);
    crate::text::law_decimal_round_trip(y_offset as nat, u32::MAX as int);
}

/// The lines of an output are what stands between its line breaks: those of two outputs
/// with a line break between them are those of the one and then those of the other, and
/// an output without line breaks is one line.
pub proof fn law_lines_are_between_line_breaks(first: Seq<u8>, second: Seq<u8>)
    ensures
        lines_of(first.push(10) + second) == lines_of(first) + lines_of(second),
        (forall|k: int| 0 <= k < first.len() ==> #[trigger] first[k] != 10) ==> lines_of(first)
            == seq![first],
        lines_of(first).len() > 0,
    decreases second.len(), first.len(),
{
    lemma_one_line(first);
    let all = first.push(10) + second;
    if second.len() == 0 {
        assert(all =~= first.push(10));
        assert(all.drop_last() =~= first);
        assert(lines_of(all) =~= lines_of(first) + lines_of(second));
    } else {
        let front = second.drop_last();
        law_lines_are_between_line_breaks(first, front);
        lemma_one_line(front);
        assert(all.drop_last() =~= first.push(10) + front);
        assert(all.last() == second.last());
        assert(lines_of(all) =~= lines_of(first) + lines_of(second));
    }
}

proof fn lemma_one_line(output: Seq<u8>)
    ensures
        lines_of(output).len() > 0,
        (forall|k: int| 0 <= k < output.len() ==> #[trigger] output[k] != 10) ==> lines_of(output)
            == seq![output],
    decreases output.len(),
{
    if output.len() > 0 {
        let front = output.drop_last();
        lemma_one_line(front);
        if forall|k: int| 0 <= k < output.len() ==> #[trigger] output[k] != 10 {
            assert forall|k: int| 0 <= k < front.len() implies #[trigger] front[k] != 10 by {
                assert(front[k] == output[k]);
            }
            assert(output[output.len() - 1] != 10);
            assert(front.push(output.last()) =~= output);
            assert(lines_of(output) =~= seq![output]);
        }
    } else {
        assert(output =~= Seq::<u8>::empty());
    }
}

/// The displays of an output are those of its lines, in order: each line adds the display
/// that it describes, if it describes one, and nothing else.
pub proof fn law_every_line_counts(first: Seq<Seq<u8>>, second: Seq<Seq<u8>>, line: Seq<u8>)
    ensures
        displays_of(first + second) == displays_of(first) + displays_of(second),
        vstd::utf8::valid_utf8(line) ==> match display_of(vstd::utf8::decode_utf8(line)) {
            Some(display) => displays_of(seq![line]) == seq![display],
            None => displays_of(seq![line]).len() == 0,
        },
        !vstd::utf8::valid_utf8(line) ==> displays_of(seq![line]).len() == 0,
    decreases second.len(),
{
    assert(seq![line].drop_last() =~= Seq::<Seq<u8>>::empty());
    assert(displays_of(seq![line].drop_last()) =~= Seq::<Display>::empty());
    if second.len() == 0 {
        assert(first + second =~= first);
        assert(displays_of(second) =~= Seq::<Display>::empty());
    } else {
        assert((first + second).drop_last() =~= first + second.drop_last());
        law_every_line_counts(first, second.drop_last(), line);
        assert(displays_of(first + second) =~= displays_of(first) + displays_of(second));
    }
}

/// What is found in a line is what the line says: the name, the place and size and whether
/// the monitor is connected; where it says nothing, nothing is found.
pub proof fn law_found_is_what_is_said(found: Option<(Monitor, bool)>, display: Option<Display>)
    requires
        found_as(found, display),
    ensures
        found is Some <==> display is Some,
        found matches Some(entry) ==> display->0.name == entry.0.adapter_name@
            && display->0.metadata == entry.0.monitor_metadata && display->0.connected == entry.1,
{
}

/// A list of monitors stands for their displays, one for one.
pub proof fn law_each_monitor_is_a_display(list: Seq<(Monitor, bool)>, k: int)
    requires
        0 <= k < list.len(),
    ensures
        as_displays(list).len() == list.len(),
        as_displays(list)[k].name == list[k].0.adapter_name@,
        as_displays(list)[k].metadata == list[k].0.monitor_metadata,
        as_displays(list)[k].connected == list[k].1,
{
}

/// The display of a line is that of the groups that the pattern matches in it.
pub proof fn law_display_is_that_of_the_groups(line: Seq<char>)
    ensures
        matched_groups(DISPLAY_LINE_PATTERN@, line) is None ==> display_of(line) is None,
        matched_groups(DISPLAY_LINE_PATTERN@, line) matches Some(groups) ==> display_of(line)
            == display_in(groups),
{
}

} // verus!
