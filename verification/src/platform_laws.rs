//! What is learned from reports of shells, from the environment and from the process tree.

use crate::platform;
use crate::terminal_laws;
use crate::text;
use crate::text_laws;
use vstd::prelude::*;
use vstd::utf8;

verus! {

/// A text in which no control string ends.
pub open spec fn is_unended(s: Seq<char>) -> bool {
    forall|i: int|
        0 <= i < s.len() ==> (#[trigger] s[i]) != '\u{7}' && s[i] != '\u{1b}' && s[i] != '\u{9c}'
}

/// The text up to its end, or up to one of the characters that end a control string.
pub open spec fn is_ended(rest: Seq<char>) -> bool {
    rest.len() == 0 || rest[0] == '\u{7}' || rest[0] == '\u{1b}' || rest[0] == '\u{9c}'
}

proof fn lemma_control_string(value: Seq<char>, rest: Seq<char>)
    requires
        is_unended(value),
        is_ended(rest),
    ensures
        platform::control_string(value + rest) == value,
    decreases value.len(),
{
    let all = value + rest;
    if value.len() == 0 {
        assert(all =~= rest);
        assert(platform::control_string(all) =~= value);
    } else {
        assert(all[0] == value[0]);
        assert(all.drop_first() =~= value.drop_first() + rest);
        assert forall|i: int| 0 <= i < value.drop_first().len() implies (
        #[trigger] value.drop_first()[i]) != '\u{7}' && value.drop_first()[i] != '\u{1b}'
            && value.drop_first()[i] != '\u{9c}' by {
            assert(value[i + 1] == value.drop_first()[i]);
        }
        lemma_control_string(value.drop_first(), rest);
        assert(platform::control_string(all) =~= value);
    }
}

proof fn lemma_from_slash(host: Seq<char>, path: Seq<char>)
    requires
        !host.contains('/'),
        path.len() > 0,
        path[0] == '/',
    ensures
        platform::from_slash(host + path) == path,
{
    let all = host + path;
    assert(all[host.len() as int] == '/');
    all.index_of_first_ensures('/');
    let first = all.index_of_first('/')->0;
    if first < host.len() {
        assert(host[first] == '/');
    }
    assert(first == host.len());
    assert(all.skip(first) =~= path);
}

proof fn lemma_report(
    before: Seq<char>,
    marker: Seq<char>,
    host: Seq<char>,
    path: Seq<char>,
    rest: Seq<char>,
)
    requires
        !host.contains('/'),
        path.len() > 0 && path[0] == '/',
        is_unended(host),
        is_unended(path),
        is_ended(rest),
        ({
            let s = before + marker + host + path + rest;
            forall|j: int| j > before.len() ==> !text::stands_at(s, marker, j)
        }),
    ensures
        platform::report_after(before + marker + host + path + rest, marker) == Some(
            Some(text::replaced(path, "%20"@, " "@)),
        ),
{
    let s = before + marker + host + path + rest;
    assert(s.subrange(before.len() as int, (before.len() + marker.len()) as int) =~= marker);
    assert(text::stands_at(s, marker, before.len() as int));
    text_laws::the_last_place_is_found(s, marker);
    let start = text::last_place(s, marker, s.len() as int)->0;
    assert(start == before.len());
    let value = host + path;
    let tail = s.skip(start + marker.len());
    assert(tail =~= value + rest);
    assert forall|i: int| 0 <= i < value.len() implies (#[trigger] value[i]) != '\u{7}' && value[i]
        != '\u{1b}' && value[i] != '\u{9c}' by {
        if i < host.len() {
            assert(value[i] == host[i]);
        } else {
            assert(value[i] == path[i - host.len()]);
        }
    }
    lemma_control_string(value, rest);
    lemma_from_slash(host, path);
}

/// The directory of a report is the path behind the name of the host, up to the end of the report.
/// The last report in the output of a shell counts, whatever stands before and behind it.
pub proof fn the_last_report_tells_the_directory(
    before: Seq<char>,
    host: Seq<char>,
    path: Seq<char>,
    rest: Seq<char>,
)
    requires
        !host.contains('/'),
        path.len() > 0 && path[0] == '/',
        is_unended(host),
        is_unended(path),
        is_ended(rest),
        ({
            let s = before + "\x1b]7;file://"@ + host + path + rest;
            forall|j: int| j > before.len() ==> !text::stands_at(s, "\x1b]7;file://"@, j)
        }),
    ensures
        platform::reported_directory(before + "\x1b]7;file://"@ + host + path + rest) == Some(
            text::replaced(path, "%20"@, " "@),
        ),
{
    lemma_report(before, "\x1b]7;file://"@, host, path, rest);
}

/// A report may start with the one character that stands for the escape and the bracket, where no
/// report starts with these two.
pub proof fn short_reports_tell_the_directory(
    before: Seq<char>,
    host: Seq<char>,
    path: Seq<char>,
    rest: Seq<char>,
)
    requires
        !host.contains('/'),
        path.len() > 0 && path[0] == '/',
        is_unended(host),
        is_unended(path),
        is_ended(rest),
        ({
            let s = before + "\u{9d}7;file://"@ + host + path + rest;
            &&& !text::has_part(s, "\x1b]7;file://"@)
            &&& forall|j: int| j > before.len() ==> !text::stands_at(s, "\u{9d}7;file://"@, j)
        }),
    ensures
        platform::reported_directory(before + "\u{9d}7;file://"@ + host + path + rest) == Some(
            text::replaced(path, "%20"@, " "@),
        ),
{
    let s = before + "\u{9d}7;file://"@ + host + path + rest;
    lemma_report(before, "\u{9d}7;file://"@, host, path, rest);
    text_laws::the_last_place_is_found(s, "\x1b]7;file://"@);
}

/// Output without a report leaves the directory.
pub proof fn output_without_a_report_tells_nothing(s: Seq<char>)
    requires
        !text::has_part(s, "\x1b]7;file://"@),
        !text::has_part(s, "\u{9d}7;file://"@),
    ensures
        platform::reported_directory(s) is None,
{
    text_laws::the_last_place_is_found(s, "\x1b]7;file://"@);
    text_laws::the_last_place_is_found(s, "\u{9d}7;file://"@);
}

/// A path with its spaces written as they are in a report.
pub open spec fn encoded(path: Seq<char>) -> Seq<char>
    decreases path.len(),
{
    if path.len() == 0 {
        path
    } else if path[0] == ' ' {
        seq!['%', '2', '0'] + encoded(path.drop_first())
    } else {
        seq![path[0]] + encoded(path.drop_first())
    }
}

/// Spaces in a reported path are read back.
pub proof fn spaces_are_read_back(path: Seq<char>)
    requires
        !path.contains('%'),
    ensures
        text::replaced(encoded(path), "%20"@, " "@) == path,
    decreases path.len(),
{
    reveal_strlit("%20");
    reveal_strlit(" ");
    assert("%20"@ =~= seq!['%', '2', '0']);
    assert(" "@ =~= seq![' ']);
    let from = "%20"@;
    let to = " "@;
    if path.len() == 0 {
        text_laws::replacing_goes_from_left_to_right(' ', path, from, to);
        assert(encoded(path) =~= Seq::empty());
        assert(path =~= Seq::empty());
    } else {
        let rest = path.drop_first();
        assert(!rest.contains('%')) by {
            if rest.contains('%') {
                let i = choose|i: int| 0 <= i < rest.len() && rest[i] == '%';
                assert(path[i + 1] == '%');
            }
        }
        spaces_are_read_back(rest);
        assert(path[0] != '%');
        text_laws::replacing_goes_from_left_to_right(path[0], encoded(rest), from, to);
        assert(seq![path[0]] + rest =~= path);
    }
}

/// The parent of a process is the number in the first line of its status that tells it.
pub proof fn the_status_tells_the_parent(status: Seq<char>, i: int, n: u32)
    requires
        0 <= i < text::split(status, '\n').len(),
        text::split(status, '\n')[i] == "PPid:\t"@ + text::decimal(n as nat),
        forall|j: int|
            0 <= j < i ==> !text::stands_at(
                #[trigger] text::split(status, '\n')[j],
                "PPid:\t"@,
                0,
            ),
    ensures
        platform::parent_of(status) == Some(n),
{
    lemma_parent_in(text::split(status, '\n'), i, n);
}

proof fn lemma_parent_in(lines: Seq<Seq<char>>, i: int, n: u32)
    requires
        0 <= i < lines.len(),
        lines[i] == "PPid:\t"@ + text::decimal(n as nat),
        forall|j: int| 0 <= j < i ==> !text::stands_at(#[trigger] lines[j], "PPid:\t"@, 0),
    ensures
        platform::parent_in(lines) == Some(n),
    decreases i,
{
    let key = "PPid:\t"@;
    if i == 0 {
        let line = lines[0];
        let shown = text::decimal(n as nat);
        assert(line.subrange(0, key.len() as int) =~= key);
        assert(line.skip(key.len() as int) =~= shown);
        lemma_digits_are_not_white(n as nat);
        let (from, to) = text_laws::trimming_takes_only_white_space(shown);
        text_laws::decimal_numbers_are_read_back(n as nat);
        assert(from == 0) by {
            if from > 0 {
                assert(text::is_white(shown[0]));
            }
        }
        assert(to == shown.len()) by {
            if to < shown.len() {
                assert(text::is_white(shown[to]));
            }
        }
        assert(text::trimmed(shown) =~= shown);
    } else {
        assert(!text::stands_at(lines[0], key, 0));
        let rest = lines.drop_first();
        assert forall|j: int| 0 <= j < i - 1 implies !text::stands_at(
            #[trigger] rest[j],
            key,
            0,
        ) by {
            assert(rest[j] == lines[j + 1]);
        }
        lemma_parent_in(rest, i - 1, n);
    }
}

proof fn lemma_digits_are_not_white(n: nat)
    ensures
        forall|i: int|
            0 <= i < text::decimal(n).len() ==> !text::is_white(#[trigger] text::decimal(n)[i]),
    decreases n,
{
    if n >= 10 {
        lemma_digits_are_not_white(n / 10);
        let front = text::decimal(n / 10);
        let all = text::decimal(n);
        assert forall|i: int| 0 <= i < all.len() implies !text::is_white(#[trigger] all[i]) by {
            if i < front.len() {
                assert(all[i] == front[i]);
            }
        }
    }
}

/// The name of a process, or nothing where it cannot be read.
pub open spec fn command_of(commands: spec_fn(u32) -> Option<Seq<char>>, pid: u32) -> Seq<char> {
    match commands(pid) {
        Some(command) => command,
        None => seq![],
    }
}

/// The processes are each the parent of the one before, and none is the top.
pub open spec fn is_line_of_parents(
    pids: Seq<u32>,
    statuses: spec_fn(u32) -> Option<Seq<char>>,
) -> bool {
    forall|i: int|
        0 <= i && i + 1 < pids.len() ==> (statuses(#[trigger] pids[i]) matches Some(status)
            && platform::parent_of(status) == Some(pids[i + 1]) && pids[i + 1] != 0 && pids[i + 1]
            != pids[i])
}

/// The nearest ancestor that is a known terminal is the one that is found, if it is among the first
/// `steps`. Without one among them, none is found.
pub proof fn the_nearest_terminal_is_found(
    pids: Seq<u32>,
    steps: nat,
    statuses: spec_fn(u32) -> Option<Seq<char>>,
    commands: spec_fn(u32) -> Option<Seq<char>>,
)
    requires
        pids.len() >= 2,
        is_line_of_parents(pids, statuses),
        pids.len() - 1 <= steps,
        forall|i: int|
            1 <= i < pids.len() - 1 ==> platform::process_terminal(
                command_of(commands, #[trigger] pids[i]),
            ) is None,
    ensures
        platform::process_terminal(command_of(commands, pids.last())) matches Some(label)
            ==> platform::terminal_above(pids[0], steps, statuses, commands) == Some(label),
        platform::process_terminal(command_of(commands, pids.last())) is None && pids.len() - 1
            == steps ==> platform::terminal_above(pids[0], steps, statuses, commands) is None,
    decreases pids.len(),
{
    assert(statuses(pids[0]) is Some);
    assert(pids[1] != 0);
    if pids.len() > 2 {
        let rest = pids.drop_first();
        assert forall|i: int| 0 <= i && i + 1 < rest.len() implies (statuses(
            #[trigger] rest[i],
        ) matches Some(status) && platform::parent_of(status) == Some(rest[i + 1]) && rest[i + 1]
            != 0 && rest[i + 1] != rest[i]) by {
            assert(rest[i] == pids[i + 1]);
            assert(statuses(pids[i + 1]) is Some);
            assert(pids[i + 1 + 1] != 0);
        }
        assert forall|i: int| 1 <= i < rest.len() - 1 implies platform::process_terminal(
            command_of(commands, #[trigger] rest[i]),
        ) is None by {
            assert(rest[i] == pids[i + 1]);
        }
        assert(platform::process_terminal(command_of(commands, pids[1])) is None);
        the_nearest_terminal_is_found(rest, (steps - 1) as nat, statuses, commands);
    } else {
        assert(pids.last() == pids[1]);
        if steps == 1 {
            reveal_with_fuel(platform::terminal_above, 2);
        }
    }
}

/// The name that is shown for a terminal program is the program, but for its capitals. Two programs
/// have another name.
pub proof fn programs_are_shown_by_their_name(program: Seq<char>)
    ensures
        ({
            let name = text::lowered(program);
            let shown = platform::program_name(program);
            &&& name != "vscode"@ && name != "apple_terminal"@ ==> text::lowered(shown) == name
            &&& name == "vscode"@ ==> shown == "VS Code"@
            &&& name == "apple_terminal"@ ==> shown == "Terminal"@
            &&& name == "kitty"@ ==> shown == "kitty"@
            &&& name == "ghostty"@ ==> shown == "Ghostty"@
            &&& name == "wezterm"@ ==> shown == "WezTerm"@
            &&& name == "alacritty"@ ==> shown == "Alacritty"@
            &&& name == "foot"@ ==> shown == "Foot"@
        }),
{
    lemma_names();
    assert("ghostty"@[0] != "wezterm"@[0]);
}

proof fn lemma_names()
    ensures
        text::lowered("kitty"@) == "kitty"@,
        text::lowered("Ghostty"@) == "ghostty"@,
        text::lowered("WezTerm"@) == "wezterm"@,
        text::lowered("Alacritty"@) == "alacritty"@,
        text::lowered("Foot"@) == "foot"@,
        text::lowered("Konsole"@) == "konsole"@,
        text::lowered("Tilix"@) == "tilix"@,
        text::lowered("Rio"@) == "rio"@,
        "kitty"@.len() == 5,
        "foot"@.len() == 4 && "foot"@[0] == 'f',
        "ghostty"@.len() == 7 && "ghostty"@[0] == 'g',
        "wezterm"@.len() == 7 && "wezterm"@[0] == 'w',
        "alacritty"@.len() == 9,
        "vscode"@.len() == 6,
        "apple_terminal"@.len() == 14,
        "Ghostty"@.len() == 7,
        "WezTerm"@.len() == 7,
        "Alacritty"@.len() == 9,
        "Foot"@.len() == 4,
        "Konsole"@.len() == 7,
        "Tilix"@.len() == 5,
        "Rio"@.len() == 3,
        "GNOME Terminal"@.len() == 14,
        "Xfce Terminal"@.len() == 13,
{
    reveal_strlit("vscode");
    reveal_strlit("apple_terminal");
    reveal_strlit("GNOME Terminal");
    reveal_strlit("Xfce Terminal");
    reveal_strlit("kitty");
    reveal_strlit("Ghostty");
    reveal_strlit("ghostty");
    reveal_strlit("WezTerm");
    reveal_strlit("wezterm");
    reveal_strlit("Alacritty");
    reveal_strlit("alacritty");
    reveal_strlit("Foot");
    reveal_strlit("foot");
    reveal_strlit("Konsole");
    reveal_strlit("konsole");
    reveal_strlit("Tilix");
    reveal_strlit("tilix");
    reveal_strlit("Rio");
    reveal_strlit("rio");
    assert(text::lowered("kitty"@) =~= "kitty"@);
    assert(text::lowered("Ghostty"@) =~= "ghostty"@);
    assert(text::lowered("WezTerm"@) =~= "wezterm"@);
    assert(text::lowered("Alacritty"@) =~= "alacritty"@);
    assert(text::lowered("Foot"@) =~= "foot"@);
    assert(text::lowered("Konsole"@) =~= "konsole"@);
    assert(text::lowered("Tilix"@) =~= "tilix"@);
    assert(text::lowered("Rio"@) =~= "rio"@);
}

/// A process is taken for a terminal whose name stands in its own name, whatever the capitals. A
/// process in whose name one of the known names stands is taken for a terminal.
pub proof fn processes_are_named_after_their_terminal(command: Seq<char>)
    ensures
        ({
            let name = text::lowered(text::trimmed(command));
            let found = platform::process_terminal(command);
            &&& found matches Some(label) ==> if label == "GNOME Terminal"@ {
                text::has_part(name, "gnome-terminal"@)
            } else if label == "Xfce Terminal"@ {
                text::has_part(name, "xfce4-terminal"@)
            } else {
                text::has_part(name, text::lowered(label))
            }
            &&& (found is None) == (!text::has_part(name, "kitty"@) && !text::has_part(
                name,
                "ghostty"@,
            ) && !text::has_part(name, "wezterm"@) && !text::has_part(name, "alacritty"@)
                && !text::has_part(name, "foot"@) && !text::has_part(name, "konsole"@)
                && !text::has_part(name, "gnome-terminal"@) && !text::has_part(
                name,
                "xfce4-terminal"@,
            ) && !text::has_part(name, "tilix"@) && !text::has_part(name, "rio"@))
        }),
{
    lemma_names();
}

/// The environment names the terminal by the variable that a program sets for itself, and by `TERM`
/// only where there is no such variable. A variable counts only where none of those before it is
/// set.
pub proof fn variables_name_their_terminal(env: spec_fn(Seq<char>) -> Option<Seq<char>>)
    ensures
        ({
            let found = platform::named_terminal(env);
            let program = env("TERM_PROGRAM"@) is Some;
            let kitty = env("KITTY_WINDOW_ID"@) is Some;
            let ghostty = env("GHOSTTY_RESOURCES_DIR"@) is Some;
            let wezterm = env("WEZTERM_PANE"@) is Some;
            let alacritty = env("ALACRITTY_WINDOW_ID"@) is Some || env("ALACRITTY_SOCKET"@) is Some;
            let konsole = env("KONSOLE_VERSION"@) is Some;
            let windows = env("WT_SESSION"@) is Some;
            &&& program ==> found == Some(platform::program_name(env("TERM_PROGRAM"@)->0))
            &&& kitty && !program ==> found == Some("kitty"@)
            &&& ghostty && !program && !kitty ==> found == Some("Ghostty"@)
            &&& wezterm && !program && !kitty && !ghostty ==> found == Some("WezTerm"@)
            &&& alacritty && !program && !kitty && !ghostty && !wezterm ==> found == Some(
                "Alacritty"@,
            )
            &&& konsole && !program && !kitty && !ghostty && !wezterm && !alacritty ==> found
                == Some("Konsole"@)
            &&& windows && !program && !kitty && !ghostty && !wezterm && !alacritty && !konsole
                ==> found == Some("Windows Terminal"@)
            &&& !program && !kitty && !ghostty && !wezterm && !alacritty && !konsole && !windows
                ==> match env("TERM"@) {
                Some(term) => match found {
                    Some(label) => text::has_part(text::lowered(term), text::lowered(label)),
                    None => !text::has_part(text::lowered(term), "kitty"@) && !text::has_part(
                        text::lowered(term),
                        "foot"@,
                    ) && !text::has_part(text::lowered(term), "wezterm"@),
                },
                None => found is None,
            }
        }),
{
    lemma_names();
}

/// The environment tells the terminal before the process tree does. Without both, it is just called
/// a terminal.
pub proof fn the_environment_comes_first(
    from_env: Option<Seq<char>>,
    from_processes: Option<Seq<char>>,
)
    ensures
        from_env matches Some(name) ==> platform::host_name(from_env, from_processes) == name,
        from_env is None ==> (from_processes matches Some(name) ==> platform::host_name(
            from_env,
            from_processes,
        ) == name),
        from_env is None && from_processes is None ==> platform::host_name(
            from_env,
            from_processes,
        ) == "terminal"@,
{
}

/// The workspace is kept below the state directory, or below the home directory where there is
/// none.
pub proof fn the_workspace_file_has_its_place(
    state_home: Option<Seq<u8>>,
    home: Option<Seq<u8>>,
    directory: Seq<u8>,
)
    requires
        directory.len() > 0,
        directory.last() != 0x2f,
    ensures
        state_home == Some(directory) ==> platform::state_path(state_home, home) == Some(
            directory + terminal_laws::ascii("/plexr/workspace.json"@),
        ),
        state_home is None && home == Some(directory) ==> platform::state_path(state_home, home)
            == Some(directory + terminal_laws::ascii("/.local/state/plexr/workspace.json"@)),
        state_home is None && home is None ==> platform::state_path(state_home, home) is None,
{
    reveal_strlit("plexr/workspace.json");
    reveal_strlit("/plexr/workspace.json");
    reveal_strlit(".local/state");
    reveal_strlit("/.local/state/plexr/workspace.json");
    utf8::is_ascii_chars_encode_utf8("plexr/workspace.json"@);
    utf8::is_ascii_chars_encode_utf8(".local/state"@);
    let file = utf8::encode_utf8("plexr/workspace.json"@);
    let below = utf8::encode_utf8(".local/state"@);
    assert(directory.push(0x2f) + file =~= directory + terminal_laws::ascii(
        "/plexr/workspace.json"@,
    ));
    let root = directory.push(0x2f) + below;
    assert(root.last() == 0x65);
    assert(root.push(0x2f) + file =~= directory + terminal_laws::ascii(
        "/.local/state/plexr/workspace.json"@,
    ));
}

/// The search ends at the top: at a process without a status, one whose status tells no parent, and
/// one that is its own parent or a child of none.
pub proof fn the_search_ends_at_the_top(
    pid: u32,
    steps: nat,
    statuses: spec_fn(u32) -> Option<Seq<char>>,
    commands: spec_fn(u32) -> Option<Seq<char>>,
)
    requires
        statuses(pid) matches Some(status) ==> (platform::parent_of(status) matches Some(parent)
            ==> parent == 0 || parent == pid),
    ensures
        platform::terminal_above(pid, steps, statuses, commands) is None,
{
}

/// A slash at the end of a directory is not doubled.
pub proof fn slashes_are_not_doubled(directory: Seq<u8>, path: Seq<u8>)
    ensures
        platform::below(directory.push(0x2f), path) == directory.push(0x2f) + path,
        directory.len() > 0 && directory.last() != 0x2f ==> platform::below(directory, path)
            == platform::below(directory.push(0x2f), path),
        platform::below(Seq::empty(), path) == path,
{
    assert(platform::below(Seq::empty(), path) =~= path);
}

} // verus!
