//! What the workspace learns from its surroundings: the terminal it runs in, and the working
//! directory that a shell reports.

use crate::terminal;
use crate::text;
use crate::text::{
    chars_of, contains_part, is_at, parse_u32, replace, rfind, same_text, shown_text, split_at_each,
    string_of, to_lower, trim,
};
use vstd::prelude::*;
use vstd::utf8;

verus! {

/// The name to show for a terminal program.
pub open spec fn program_name(program: Seq<char>) -> Seq<char> {
    let name = text::lowered(program);
    if name == "kitty"@ {
        "kitty"@
    } else if name == "ghostty"@ {
        "Ghostty"@
    } else if name == "wezterm"@ {
        "WezTerm"@
    } else if name == "alacritty"@ {
        "Alacritty"@
    } else if name == "foot"@ {
        "Foot"@
    } else if name == "vscode"@ {
        "VS Code"@
    } else if name == "apple_terminal"@ {
        "Terminal"@
    } else {
        program
    }
}

pub fn terminal_display_name(program: &str) -> (r: String)
    ensures
        r@ == program_name(program@),
{
    let lower = to_lower(program);
    let name = string_of(&lower, 0, lower.len());
    assert(name@ == text::lowered(program@));
    let name = name.as_str();
    if same_text(name, "kitty") {
        "kitty".to_owned()
    } else if same_text(name, "ghostty") {
        "Ghostty".to_owned()
    } else if same_text(name, "wezterm") {
        "WezTerm".to_owned()
    } else if same_text(name, "alacritty") {
        "Alacritty".to_owned()
    } else if same_text(name, "foot") {
        "Foot".to_owned()
    } else if same_text(name, "vscode") {
        "VS Code".to_owned()
    } else if same_text(name, "apple_terminal") {
        "Terminal".to_owned()
    } else {
        program.to_owned()
    }
}

/// The terminal that a value of `TERM` names, if it is a known one.
pub open spec fn term_name(term: Seq<char>) -> Option<Seq<char>> {
    let name = text::lowered(term);
    if text::has_part(name, "kitty"@) {
        Some("kitty"@)
    } else if text::has_part(name, "foot"@) {
        Some("Foot"@)
    } else if text::has_part(name, "wezterm"@) {
        Some("WezTerm"@)
    } else {
        None
    }
}

/// The terminal that an environment names. The variable that a terminal sets for itself tells it
/// before `TERM` does.
pub open spec fn named_terminal(env: spec_fn(Seq<char>) -> Option<Seq<char>>) -> Option<Seq<char>> {
    if env("TERM_PROGRAM"@) is Some {
        Some(program_name(env("TERM_PROGRAM"@)->0))
    } else if env("KITTY_WINDOW_ID"@) is Some {
        Some("kitty"@)
    } else if env("GHOSTTY_RESOURCES_DIR"@) is Some {
        Some("Ghostty"@)
    } else if env("WEZTERM_PANE"@) is Some {
        Some("WezTerm"@)
    } else if env("ALACRITTY_WINDOW_ID"@) is Some || env("ALACRITTY_SOCKET"@) is Some {
        Some("Alacritty"@)
    } else if env("KONSOLE_VERSION"@) is Some {
        Some("Konsole"@)
    } else if env("WT_SESSION"@) is Some {
        Some("Windows Terminal"@)
    } else if env("TERM"@) is Some {
        term_name(env("TERM"@)->0)
    } else {
        None
    }
}

/// The lookup gives the values of the environment and nothing else.
pub open spec fn looks_up<F: Fn(&str) -> Option<String>>(
    lookup: F,
    env: spec_fn(Seq<char>) -> Option<Seq<char>>,
) -> bool {
    forall|name: &str, value: Option<String>| #[trigger]
        call_ensures(lookup, (name,), value) ==> crate::session::text_of(value) == env(name@)
}

/// The terminal that the environment names, if any. `lookup` gives the value of a variable.
pub fn detect_terminal_from_env(lookup: impl Fn(&str) -> Option<String>) -> (r: Option<String>)
    requires
        forall|name: &str| call_requires(lookup, (name,)),
    ensures
        forall|env: spec_fn(Seq<char>) -> Option<Seq<char>>|
            looks_up(lookup, env) ==> crate::session::text_of(r) == #[trigger] named_terminal(env),
{
    if let Some(program) = lookup("TERM_PROGRAM") {
        return Some(terminal_display_name(program.as_str()));
    }
    if lookup("KITTY_WINDOW_ID").is_some() {
        return Some("kitty".to_owned());
    }
    if lookup("GHOSTTY_RESOURCES_DIR").is_some() {
        return Some("Ghostty".to_owned());
    }
    if lookup("WEZTERM_PANE").is_some() {
        return Some("WezTerm".to_owned());
    }
    if lookup("ALACRITTY_WINDOW_ID").is_some() {
        return Some("Alacritty".to_owned());
    }
    if lookup("ALACRITTY_SOCKET").is_some() {
        return Some("Alacritty".to_owned());
    }
    if lookup("KONSOLE_VERSION").is_some() {
        return Some("Konsole".to_owned());
    }
    if lookup("WT_SESSION").is_some() {
        return Some("Windows Terminal".to_owned());
    }
    match lookup("TERM") {
        Some(term) => {
            let lower = to_lower(term.as_str());
            if contains_part(&lower, "kitty") {
                Some("kitty".to_owned())
            } else if contains_part(&lower, "foot") {
                Some("Foot".to_owned())
            } else if contains_part(&lower, "wezterm") {
                Some("WezTerm".to_owned())
            } else {
                None
            }
        },
        None => None,
    }
}

/// The terminal that the name of a process belongs to, if it is a known one.
pub open spec fn process_terminal(command: Seq<char>) -> Option<Seq<char>> {
    let name = text::lowered(text::trimmed(command));
    if text::has_part(name, "kitty"@) {
        Some("kitty"@)
    } else if text::has_part(name, "ghostty"@) {
        Some("Ghostty"@)
    } else if text::has_part(name, "wezterm"@) {
        Some("WezTerm"@)
    } else if text::has_part(name, "alacritty"@) {
        Some("Alacritty"@)
    } else if text::has_part(name, "foot"@) {
        Some("Foot"@)
    } else if text::has_part(name, "konsole"@) {
        Some("Konsole"@)
    } else if text::has_part(name, "gnome-terminal"@) {
        Some("GNOME Terminal"@)
    } else if text::has_part(name, "xfce4-terminal"@) {
        Some("Xfce Terminal"@)
    } else if text::has_part(name, "tilix"@) {
        Some("Tilix"@)
    } else if text::has_part(name, "rio"@) {
        Some("Rio"@)
    } else {
        None
    }
}

pub fn terminal_of_process(command: &str) -> (r: Option<String>)
    ensures
        crate::session::text_of(r) == process_terminal(command@),
{
    let name = trim(command);
    let lower = to_lower(name.as_str());
    let label = if contains_part(&lower, "kitty") {
        "kitty"
    } else if contains_part(&lower, "ghostty") {
        "Ghostty"
    } else if contains_part(&lower, "wezterm") {
        "WezTerm"
    } else if contains_part(&lower, "alacritty") {
        "Alacritty"
    } else if contains_part(&lower, "foot") {
        "Foot"
    } else if contains_part(&lower, "konsole") {
        "Konsole"
    } else if contains_part(&lower, "gnome-terminal") {
        "GNOME Terminal"
    } else if contains_part(&lower, "xfce4-terminal") {
        "Xfce Terminal"
    } else if contains_part(&lower, "tilix") {
        "Tilix"
    } else if contains_part(&lower, "rio") {
        "Rio"
    } else {
        return None;
    };
    Some(label.to_owned())
}

/// The number of the parent process in the first of the given lines that tells it.
pub open spec fn parent_in(lines: Seq<Seq<char>>) -> Option<u32>
    decreases lines.len(),
{
    if lines.len() == 0 {
        None
    } else if text::stands_at(lines[0], "PPid:\t"@, 0) {
        text::number_u32(text::trimmed(lines[0].skip("PPid:\t"@.len() as int)))
    } else {
        parent_in(lines.drop_first())
    }
}

/// The number of the parent process in a process status.
pub open spec fn parent_of(status: Seq<char>) -> Option<u32> {
    parent_in(text::split(status, '\n'))
}

pub fn parent_process(status: &str) -> (r: Option<u32>)
    ensures
        r == parent_of(status@),
{
    let chars = chars_of(status);
    let lines = split_at_each(&chars, '\n');
    let ghost all = text::texts(lines@);
    let key = chars_of("PPid:\t");
    assert(all.skip(0) == all);
    for i in 0..lines.len()
        invariant
            all == text::texts(lines@),
            key@ == "PPid:\t"@,
            parent_of(status@) == parent_in(all.skip(i as int)),
    {
        let line = chars_of(lines[i].as_str());
        assert(line@ == all.skip(i as int)[0]);
        if is_at(&line, &key, 0) {
            let value = string_of(&line, key.len(), line.len());
            assert(value@ == line@.skip(key@.len() as int));
            let value = trim(value.as_str());
            return parse_u32(value.as_str());
        }
        assert(all.skip(i as int).drop_first() == all.skip(i as int + 1));
    }
    None
}

/// The terminal found among the ancestors of a process, going up at most `steps` times. The walk
/// ends at a process whose status cannot be read or tells no parent, and at the top.
pub open spec fn terminal_above(
    pid: u32,
    steps: nat,
    statuses: spec_fn(u32) -> Option<Seq<char>>,
    commands: spec_fn(u32) -> Option<Seq<char>>,
) -> Option<Seq<char>>
    decreases steps,
{
    if steps == 0 || statuses(pid) is None {
        None
    } else {
        match parent_of(statuses(pid)->0) {
            None => None,
            Some(parent) => if parent == 0 || parent == pid {
                None
            } else {
                let command = match commands(parent) {
                    Some(command) => command,
                    None => Seq::empty(),
                };
                match process_terminal(command) {
                    Some(label) => Some(label),
                    None => terminal_above(parent, (steps - 1) as nat, statuses, commands),
                }
            },
        }
    }
}

/// The reader gives the texts of the table and nothing else.
pub open spec fn reads<F: Fn(u32) -> Option<String>>(
    reader: F,
    table: spec_fn(u32) -> Option<Seq<char>>,
) -> bool {
    forall|pid: u32, value: Option<String>| #[trigger]
        call_ensures(reader, (pid,), value) ==> crate::session::text_of(value) == table(pid)
}

/// The terminal among the ancestors of the process `pid`, if there is a known one among the next
/// eight. `status` and `command` give the status and the name of a process.
pub fn detect_terminal_from_process_tree(
    pid: u32,
    status: impl Fn(u32) -> Option<String>,
    command: impl Fn(u32) -> Option<String>,
) -> (r: Option<String>)
    requires
        forall|pid: u32| call_requires(status, (pid,)),
        forall|pid: u32| call_requires(command, (pid,)),
    ensures
        forall|
            statuses: spec_fn(u32) -> Option<Seq<char>>,
            commands: spec_fn(u32) -> Option<Seq<char>>,
        |
            reads(status, statuses) && reads(command, commands) ==> crate::session::text_of(r)
                == #[trigger] terminal_above(pid, 8, statuses, commands),
{
    let mut current = pid;
    let mut steps: usize = 8;
    while steps > 0
        invariant
            steps <= 8,
            forall|pid: u32| call_requires(status, (pid,)),
            forall|pid: u32| call_requires(command, (pid,)),
            forall|
                statuses: spec_fn(u32) -> Option<Seq<char>>,
                commands: spec_fn(u32) -> Option<Seq<char>>,
            |
                reads(status, statuses) && reads(command, commands) ==> #[trigger] terminal_above(
                    pid,
                    8,
                    statuses,
                    commands,
                ) == terminal_above(current, steps as nat, statuses, commands),
        decreases steps,
    {
        let Some(text) = status(current) else {
            return None;
        };
        let Some(parent) = parent_process(text.as_str()) else {
            return None;
        };
        if parent == 0 || parent == current {
            return None;
        }
        let name = match command(parent) {
            Some(name) => name,
            None => String::new(),
        };
        if let Some(label) = terminal_of_process(name.as_str()) {
            return Some(label);
        }
        current = parent;
        steps -= 1;
    }
    None
}

/// The name to show for the terminal: what the environment tells, else what the process tree
/// tells, else a fixed text.
pub open spec fn host_name(
    from_env: Option<Seq<char>>,
    from_processes: Option<Seq<char>>,
) -> Seq<char> {
    match (from_env, from_processes) {
        (Some(name), _) => name,
        (None, Some(name)) => name,
        (None, None) => "terminal"@,
    }
}

pub fn host_terminal_name(from_env: Option<String>, from_processes: Option<String>) -> (r: String)
    ensures
        r@ == host_name(
            crate::session::text_of(from_env),
            crate::session::text_of(from_processes),
        ),
{
    match from_env {
        Some(name) => name,
        None => match from_processes {
            Some(name) => name,
            None => "terminal".to_owned(),
        },
    }
}

/// The characters that end a control string.
pub open spec fn ends_control_string(c: char) -> bool {
    c == '\u{7}' || c == '\u{1b}' || c == '\u{9c}'
}

/// The text before the first character that ends a control string.
pub open spec fn control_string(s: Seq<char>) -> Seq<char>
    decreases s.len(),
{
    if s.len() == 0 || ends_control_string(s[0]) {
        Seq::empty()
    } else {
        seq![s[0]] + control_string(s.drop_first())
    }
}

/// The text from its first slash on, or the whole text if it has none.
pub open spec fn from_slash(s: Seq<char>) -> Seq<char> {
    if s.contains('/') {
        s.skip(s.index_of_first('/')->0)
    } else {
        s
    }
}

/// The directory in the text behind the start of a report.
pub open spec fn reported_path(rest: Seq<char>) -> Option<Seq<char>> {
    let path = from_slash(control_string(rest));
    if path.len() == 0 {
        None
    } else {
        Some(text::replaced(path, "%20"@, " "@))
    }
}

/// The directory in the last report with the given start, if there is one. The outer option tells
/// whether there is a report, the inner one whether it names a directory.
pub open spec fn report_after(s: Seq<char>, marker: Seq<char>) -> Option<Option<Seq<char>>> {
    match text::last_place(s, marker, s.len() as int) {
        Some(start) => Some(reported_path(s.skip(start + marker.len()))),
        None => None,
    }
}

/// The working directory that the output of a shell reports, if any. The last report counts.
pub open spec fn reported_directory(s: Seq<char>) -> Option<Seq<char>> {
    match report_after(s, "\x1b]7;file://"@) {
        Some(path) => path,
        None => match report_after(s, "\u{9d}7;file://"@) {
            Some(path) => path,
            None => None,
        },
    }
}

fn path_of_report(rest: &Vec<char>, from: usize) -> (r: Option<String>)
    requires
        from <= rest@.len(),
    ensures
        crate::session::text_of(r) == reported_path(rest@.skip(from as int)),
{
    let ghost all = rest@.skip(from as int);
    let mut value: Vec<char> = Vec::new();
    let mut i: usize = from;
    assert(value@ + control_string(all) == control_string(all));
    while i < rest.len() && !(rest[i] == '\u{7}' || rest[i] == '\u{1b}' || rest[i] == '\u{9c}')
        invariant
            from <= i <= rest@.len(),
            value@ + control_string(rest@.skip(i as int)) == control_string(all),
        decreases rest@.len() - i,
    {
        let ghost before = value@;
        let ghost tail = rest@.skip(i as int);
        assert(tail.drop_first() == rest@.skip(i as int + 1));
        value.push(rest[i]);
        i += 1;
        assert(value@ + control_string(rest@.skip(i as int)) == before + (seq![tail[0]]
            + control_string(tail.drop_first())));
    }
    assert(control_string(rest@.skip(i as int)) == Seq::<char>::empty());
    assert(value@ + Seq::<char>::empty() == value@);
    let mut start: usize = 0;
    while start < value.len() && value[start] != '/'
        invariant
            start <= value@.len(),
            forall|j: int| 0 <= j < start ==> value@[j] != '/',
        decreases value@.len() - start,
    {
        start += 1;
    }
    proof {
        value@.index_of_first_ensures('/');
        if start < value@.len() {
            assert(value@[start as int] == '/');
            assert(value@.contains('/'));
            assert(value@.index_of_first('/')->0 == start);
        }
    }
    if start == value.len() {
        start = 0;
    }
    let path = string_of(&value, start, value.len());
    assert(path@ == value@.skip(start as int));
    assert(path@ == from_slash(value@));
    let path = chars_of(path.as_str());
    if path.len() == 0 {
        return None;
    }
    let from = chars_of("%20");
    let to = chars_of(" ");
    proof {
        reveal_strlit("%20");
    }
    let name = replace(&path, &from, &to);
    let name = string_of(&name, 0, name.len());
    assert(name@ == text::replaced(path@, "%20"@, " "@));
    Some(name)
}

/// A relative path below a directory.
pub open spec fn below(directory: Seq<u8>, path: Seq<u8>) -> Seq<u8> {
    if directory.len() == 0 || directory.last() == 0x2f {
        directory + path
    } else {
        directory.push(0x2f) + path
    }
}

/// The file in which the workspace is kept, given the state directory of the user and the home
/// directory.
pub open spec fn state_path(state_home: Option<Seq<u8>>, home: Option<Seq<u8>>) -> Option<
    Seq<u8>,
> {
    match state_home {
        Some(directory) => Some(below(directory, utf8::encode_utf8("plexr/workspace.json"@))),
        None => match home {
            Some(directory) => Some(
                below(
                    below(directory, utf8::encode_utf8(".local/state"@)),
                    utf8::encode_utf8("plexr/workspace.json"@),
                ),
            ),
            None => None,
        },
    }
}

fn join(directory: &[u8], path: &[u8]) -> (r: Vec<u8>)
    ensures
        r@ == below(directory@, path@),
{
    let mut r: Vec<u8> = Vec::new();
    r.extend_from_slice(directory);
    if directory.len() > 0 && directory[directory.len() - 1] != 0x2f {
        r.push(0x2f);
    }
    r.extend_from_slice(path);
    assert(r@ =~= below(directory@, path@));
    r
}

/// The file in which the workspace is kept: below the value of `XDG_STATE_HOME`, or below that of
/// `HOME`. Without both there is none.
pub fn workspace_state_path(state_home: Option<&[u8]>, home: Option<&[u8]>) -> (r: Option<Vec<u8>>)
    ensures
        terminal::bytes_of(r) == state_path(text::borrowed_bytes(state_home), text::borrowed_bytes(home)),
{
    let file = "plexr/workspace.json".as_bytes();
    match state_home {
        Some(directory) => Some(join(directory, file)),
        None => match home {
            Some(directory) => {
                let root = join(directory, ".local/state".as_bytes());
                Some(join(root.as_slice(), file))
            },
            None => None,
        },
    }
}

/// The working directory that the output of a shell reports, if any.
pub fn osc7_directory(output: &str) -> (r: Option<String>)
    ensures
        crate::session::text_of(r) == reported_directory(output@),
{
    let chars = chars_of(output);
    let marker = chars_of("\x1b]7;file://");
    if let Some(start) = rfind(&chars, &marker) {
        assert(start + marker.len() <= chars.len());
        return path_of_report(&chars, start + marker.len());
    }
    let marker = chars_of("\u{9d}7;file://");
    if let Some(start) = rfind(&chars, &marker) {
        assert(start + marker.len() <= chars.len());
        return path_of_report(&chars, start + marker.len());
    }
    None
}

/// Takes over the working directory that the output of a shell reports. Without a report the
/// directory stays.
pub fn update_cwd_from_osc7(bytes: &[u8], cwd: &mut Vec<u8>)
    ensures
        match reported_directory(text::shown(bytes@)) {
            Some(path) => final(cwd)@ == utf8::encode_utf8(path),
            None => *final(cwd) == *old(cwd),
        },
{
    let output = shown_text(bytes);
    if let Some(path) = osc7_directory(output.as_str()) {
        *cwd = path.as_str().as_bytes_vec();
    }
}

} // verus!
