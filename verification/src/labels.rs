//! The labels of tabs, groups and directories.

use crate::geometry;
use crate::text;
use crate::text::{chars_of, decimal_text, split_at_each, string_of};
use std::collections::HashMap;
use vstd::prelude::*;

verus! {

/// The name of a tab: the name given to it, else its last command, else a fixed text.
pub open spec fn tab_name(
    custom_name: Option<Seq<char>>,
    last_command: Option<Seq<char>>,
) -> Seq<char> {
    match (custom_name, last_command) {
        (Some(name), _) => name,
        (None, Some(command)) => command,
        (None, None) => "New Tab"@,
    }
}

/// The text behind an optional reference.
pub open spec fn borrowed_text(value: Option<&str>) -> Option<Seq<char>> {
    match value {
        Some(text) => Some(text@),
        None => None,
    }
}

pub fn display_name_for<'a>(custom_name: Option<&'a str>, last_command: Option<&'a str>) -> (r:
    &'a str)
    ensures
        r@ == tab_name(borrowed_text(custom_name), borrowed_text(last_command)),
{
    match custom_name {
        Some(name) => name,
        None => match last_command {
            Some(command) => command,
            None => "New Tab",
        },
    }
}

/// The names of a map of strings.
pub open spec fn name_texts(names: Map<u64, String>) -> Map<u64, Seq<char>> {
    Map::new(|group: u64| names.contains_key(group), |group: u64| names[group]@)
}

/// The name of a pane group: the name given to it, else its number.
pub open spec fn group_title(names: Map<u64, Seq<char>>, group: u64) -> Seq<char> {
    if names.contains_key(group) {
        names[group]
    } else {
        "Group "@ + text::decimal(group as nat)
    }
}

pub fn group_display_name(names: &HashMap<u64, String>, group: u64) -> (r: String)
    ensures
        r@ == group_title(name_texts(names@), group),
{
    match names.get(&group) {
        Some(name) => name.clone(),
        None => {
            let mut name = String::new();
            name.append("Group ");
            let number = decimal_text(group);
            name.append(number.as_str());
            assert(name@ == "Group "@ + text::decimal(group as nat));
            name
        },
    }
}

/// The mark for what was left out of a label.
pub open spec fn ellipsis() -> Seq<char> {
    seq!['…']
}

/// The first characters of a text, at most `width` of them.
pub open spec fn first_chars(s: Seq<char>, width: int) -> Seq<char> {
    s.take(geometry::lesser(width, s.len() as int))
}

/// A text cut to a width, with an ellipsis at its end if anything was cut.
pub open spec fn truncated(value: Seq<char>, width: int) -> Seq<char> {
    if value.len() <= width {
        value
    } else if width < 2 {
        first_chars(ellipsis(), width)
    } else {
        value.take(width - 1) + ellipsis()
    }
}

/// The first characters of an ellipsis.
fn cut_ellipsis(width: usize) -> (r: String)
    ensures
        r@ == first_chars(ellipsis(), width as int),
{
    let mut r = String::new();
    if width >= 1 {
        r.push('…');
        assert(r@ == ellipsis());
        assert(ellipsis().take(1) == ellipsis());
    } else {
        assert(ellipsis().take(0) == Seq::<char>::empty());
    }
    r
}

pub fn truncate(value: &str, width: usize) -> (r: String)
    ensures
        r@ == truncated(value@, width as int),
{
    let chars = chars_of(value);
    if chars.len() <= width {
        return string_of(&chars, 0, chars.len());
    }
    if width < 2 {
        return cut_ellipsis(width);
    }
    let mut r = string_of(&chars, 0, width - 1);
    r.push('…');
    assert(r@ == value@.take(width - 1) + ellipsis());
    r
}

/// The text without the `~/` at its start, however often it stands there.
pub open spec fn without_home(s: Seq<char>) -> Seq<char>
    decreases s.len(),
{
    if s.len() >= 2 && s[0] == '~' && s[1] == '/' {
        without_home(s.skip(2))
    } else {
        s
    }
}

/// The texts of a list that are not empty.
pub open spec fn nonempty(list: Seq<Seq<char>>) -> Seq<Seq<char>>
    decreases list.len(),
{
    if list.len() == 0 {
        Seq::empty()
    } else if list.last().len() == 0 {
        nonempty(list.drop_last())
    } else {
        nonempty(list.drop_last()).push(list.last())
    }
}

/// The names of the directories in a path.
pub open spec fn components(path: Seq<char>) -> Seq<Seq<char>> {
    nonempty(text::split(without_home(path), '/'))
}

/// What a shortened path starts with: the home directory, the root, or nothing.
pub open spec fn lead(path: Seq<char>) -> Seq<char> {
    if path.len() >= 2 && path[0] == '~' && path[1] == '/' {
        seq!['~', '/']
    } else if path.len() >= 1 && path[0] == '/' {
        seq!['/']
    } else {
        Seq::empty()
    }
}

/// The components with an ellipsis in place of the first `hidden` of them and of every second one
/// before the last.
pub open spec fn shown(parts: Seq<Seq<char>>, hidden: int) -> Seq<Seq<char>> {
    Seq::new(
        parts.len(),
        |i: int|
            if i < hidden || (i + 1 < parts.len() && i % 2 == 0) {
                ellipsis()
            } else {
                parts[i]
            },
    )
}

/// The list with each run of ellipses shortened to one.
pub open spec fn collapsed(parts: Seq<Seq<char>>) -> Seq<Seq<char>>
    decreases parts.len(),
{
    if parts.len() == 0 {
        Seq::empty()
    } else {
        let rest = collapsed(parts.drop_last());
        if parts.last() == ellipsis() && rest.len() > 0 && rest.last() == ellipsis() {
            rest
        } else {
            rest.push(parts.last())
        }
    }
}

/// The texts of a list with a slash between them.
pub open spec fn joined(parts: Seq<Seq<char>>) -> Seq<char>
    decreases parts.len(),
{
    if parts.len() == 0 {
        Seq::empty()
    } else if parts.len() == 1 {
        parts[0]
    } else {
        joined(parts.drop_last()).push('/') + parts.last()
    }
}

/// The path with `hidden` components hidden.
pub open spec fn with_hidden(path: Seq<char>, hidden: int) -> Seq<char> {
    lead(path) + joined(collapsed(shown(components(path), hidden)))
}

/// The path with the fewest components hidden, but at least `hidden`, that fits in the width. The
/// last component is never hidden.
pub open spec fn fitting(path: Seq<char>, width: int, hidden: int) -> Option<Seq<char>>
    decreases components(path).len() - hidden,
{
    if hidden >= components(path).len() {
        None
    } else if with_hidden(path, hidden).len() <= width {
        Some(with_hidden(path, hidden))
    } else {
        fitting(path, width, hidden + 1)
    }
}

/// The last characters of a text, at most `count` of them.
pub open spec fn last_chars(s: Seq<char>, count: int) -> Seq<char> {
    s.skip(geometry::minus(s.len() as int, count))
}

/// A path shortened to a width.
pub open spec fn compacted(path: Seq<char>, width: int) -> Seq<char> {
    if path.len() <= width {
        path
    } else if width == 0 {
        Seq::empty()
    } else if components(path).len() == 0 {
        truncated(path, width)
    } else {
        match fitting(path, width, 0) {
            Some(short) => short,
            None => if width <= 2 {
                first_chars(ellipsis(), width)
            } else {
                seq!['…', '/'] + last_chars(components(path).last(), width - 2)
            },
        }
    }
}

fn component_list(chars: &Vec<char>) -> (r: Vec<String>)
    ensures
        text::texts(r@) == components(chars@),
{
    let mut from: usize = 0;
    assert(chars@.skip(0) == chars@);
    while chars.len() - from >= 2 && chars[from] == '~' && chars[from + 1] == '/'
        invariant
            from <= chars@.len(),
            without_home(chars@) == without_home(chars@.skip(from as int)),
        decreases chars@.len() - from,
    {
        assert(chars@.skip(from as int).skip(2) == chars@.skip(from as int + 2));
        from += 2;
    }
    let rest = string_of(chars, from, chars.len());
    assert(rest@ == chars@.skip(from as int));
    let rest = chars_of(rest.as_str());
    let pieces = split_at_each(&rest, '/');
    let ghost all = text::texts(pieces@);
    let mut r: Vec<String> = Vec::new();
    assert(text::texts(r@) == nonempty(all.take(0)));
    for i in 0..pieces.len()
        invariant
            all == text::texts(pieces@),
            text::texts(r@) == nonempty(all.take(i as int)),
    {
        assert(all.take(i as int + 1).drop_last() == all.take(i as int));
        if pieces[i].as_str().unicode_len() > 0 {
            let ghost before = text::texts(r@);
            let piece = pieces[i].clone();
            r.push(piece);
            assert(text::texts(r@) == before.push(all[i as int]));
        }
    }
    assert(all.take(pieces@.len() as int) == all);
    r
}

/// A path whose lead is given, and whose components are `parts`.
fn rendered(parts: &Vec<String>, start: &str) -> (r: String)
    ensures
        r@ == start@ + joined(collapsed(text::texts(parts@))),
{
    let ghost all = text::texts(parts@);
    let mark = cut_ellipsis(1);
    assert(ellipsis().take(1) == ellipsis());
    let mut r = String::new();
    r.append(start);
    let mut any = false;
    let mut last_is_mark = false;
    assert(r@ == start@ + joined(collapsed(all.take(0))));
    for i in 0..parts.len()
        invariant
            all == text::texts(parts@),
            mark@ == ellipsis(),
            r@ == start@ + joined(collapsed(all.take(i as int))),
            any == (collapsed(all.take(i as int)).len() > 0),
            last_is_mark == (any && collapsed(all.take(i as int)).last() == ellipsis()),
    {
        let ghost rest = collapsed(all.take(i as int));
        let ghost before = r@;
        assert(all.take(i as int + 1).drop_last() == all.take(i as int));
        let is_mark = parts[i] == mark;
        if !(is_mark && last_is_mark) {
            assert(rest.push(all[i as int]).drop_last() == rest);
            if any {
                r.push('/');
            }
            r.append(parts[i].as_str());
            assert(r@ == start@ + joined(rest.push(all[i as int])));
            any = true;
            last_is_mark = is_mark;
        }
    }
    assert(all.take(parts@.len() as int) == all);
    r
}

/// Shortens a path to a width: directories are replaced by ellipses, the last one last.
pub fn compact_path(value: &str, width: usize) -> (r: String)
    ensures
        r@ == compacted(value@, width as int),
{
    let chars = chars_of(value);
    if chars.len() <= width {
        return string_of(&chars, 0, chars.len());
    }
    if width == 0 {
        return String::new();
    }
    let parts = component_list(&chars);
    let ghost names = components(value@);
    if parts.len() == 0 {
        return truncate(value, width);
    }
    let mut start = String::new();
    if chars.len() >= 2 && chars[0] == '~' && chars[1] == '/' {
        start.push('~');
        start.push('/');
    } else if chars.len() >= 1 && chars[0] == '/' {
        start.push('/');
    }
    assert(start@ == lead(value@));
    let mut hidden: usize = 0;
    while hidden < parts.len()
        invariant
            hidden <= parts@.len(),
            text::texts(parts@) == names,
            names == components(value@),
            start@ == lead(value@),
            value@.len() > width > 0,
            fitting(value@, width as int, 0) == fitting(value@, width as int, hidden as int),
        decreases parts@.len() - hidden,
    {
        let mut displayed: Vec<String> = Vec::new();
        for i in 0..parts.len()
            invariant
                hidden < parts@.len(),
                text::texts(parts@) == names,
                displayed@.len() == i,
                forall|j: int| 0 <= j < i ==> displayed@[j]@ == shown(names, hidden as int)[j],
        {
            if i < hidden || (i + 1 < parts.len() && i % 2 == 0) {
                let mark = cut_ellipsis(1);
                assert(ellipsis().take(1) == ellipsis());
                displayed.push(mark);
            } else {
                let name = parts[i].clone();
                assert(parts@[i as int]@ == names[i as int]);
                displayed.push(name);
            }
        }
        assert(text::texts(displayed@) == shown(names, hidden as int));
        let result = rendered(&displayed, start.as_str());
        if result.as_str().unicode_len() <= width {
            return result;
        }
        hidden += 1;
    }
    if width <= 2 {
        return cut_ellipsis(width);
    }
    let last = chars_of(parts[parts.len() - 1].as_str());
    assert(last@ == names.last());
    let available = width - 2;
    let from: usize = if last.len() > available { last.len() - available } else { 0 };
    let tail = string_of(&last, from, last.len());
    assert(tail@ == last_chars(names.last(), available as int));
    let mut r = String::new();
    r.push('…');
    r.push('/');
    r.append(tail.as_str());
    assert(r@ == seq!['…', '/'] + tail@);
    r
}

/// A truncated text never exceeds its width, and a text that fits is not changed.
pub proof fn truncated_texts_fit(value: Seq<char>, width: int)
    requires
        width >= 0,
    ensures
        truncated(value, width).len() <= width,
        value.len() <= width ==> truncated(value, width) == value,
{
}

proof fn lemma_fitting(path: Seq<char>, width: int, hidden: int)
    requires
        0 <= hidden,
    ensures
        fitting(path, width, hidden) matches Some(short) ==> short.len() <= width && exists|h: int|
            hidden <= h < components(path).len() && short == #[trigger] with_hidden(path, h),
    decreases components(path).len() - hidden,
{
    if hidden < components(path).len() && with_hidden(path, hidden).len() > width {
        lemma_fitting(path, width, hidden + 1);
    }
}

/// A compacted path never exceeds its width, and a path that fits is not changed.
pub proof fn compacted_paths_fit(path: Seq<char>, width: int)
    requires
        width >= 0,
    ensures
        compacted(path, width).len() <= width,
        path.len() <= width ==> compacted(path, width) == path,
{
    lemma_fitting(path, width, 0);
}

proof fn lemma_collapsed_keeps_last(parts: Seq<Seq<char>>)
    requires
        parts.len() > 0,
    ensures
        collapsed(parts).len() > 0,
        collapsed(parts).last() == parts.last(),
{
}

proof fn lemma_joined_ends_with_last(parts: Seq<Seq<char>>)
    requires
        parts.len() > 0,
    ensures
        parts.last().is_suffix_of(joined(parts)),
{
}

/// The compacted path ends with the last directory of the path, or with as much of its end as the
/// width leaves beside an ellipsis and a slash.
pub proof fn compacted_paths_end_with_the_final_directory(path: Seq<char>, width: int)
    requires
        2 < width < path.len(),
        components(path).len() > 0,
    ensures
        last_chars(components(path).last(), width - 2).is_suffix_of(compacted(path, width)),
{
    let names = components(path);
    lemma_fitting(path, width, 0);
    match fitting(path, width, 0) {
        Some(short) => {
            let h = choose|h: int| 0 <= h < names.len() && short == #[trigger] with_hidden(path, h);
            let parts = shown(names, h);
            lemma_collapsed_keeps_last(parts);
            lemma_joined_ends_with_last(collapsed(parts));
            assert(parts.last() == names.last());
            let end = last_chars(names.last(), width - 2);
            assert(end.is_suffix_of(names.last()));
            assert(names.last().is_suffix_of(short));
            assert(end.is_suffix_of(short));
        },
        None => {},
    }
}

} // verus!
