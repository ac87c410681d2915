//! What holds of labels and shortened paths.

use crate::labels;
use crate::text;
use crate::text_laws;
use vstd::prelude::*;

verus! {

/// A text that does not fit is cut so that it fills its width: its first characters, and an
/// ellipsis at the end.
pub proof fn cut_texts_fill_their_width(value: Seq<char>, width: int)
    requires
        0 < width < value.len(),
    ensures
        labels::truncated(value, width).len() == width,
        labels::truncated(value, width).last() == '…',
        labels::truncated(value, width).drop_last() == value.take(width - 1),
{
    let cut = labels::truncated(value, width);
    if width == 1 {
        assert(labels::ellipsis().take(1) =~= labels::ellipsis());
    }
    assert(cut.drop_last() =~= value.take(width - 1));
}

/// A tab is called by the name that was given to it, or else by its last command. A group is called
/// by the name that was given to it, or else by its number.
pub proof fn given_names_come_first(
    name: Seq<char>,
    command: Option<Seq<char>>,
    names: Map<u64, Seq<char>>,
    group: u64,
)
    ensures
        labels::tab_name(Some(name), command) == name,
        command matches Some(last) ==> labels::tab_name(None, command) == last,
        labels::tab_name(None, None) == "New Tab"@,
        names.contains_key(group) ==> labels::group_title(names, group) == names[group],
        !names.contains_key(group) ==> labels::group_title(names, group) == "Group "@
            + text::decimal(group as nat),
{
}

/// A name of a directory is not empty and holds no slash.
pub proof fn components_are_names(path: Seq<char>, i: int)
    requires
        0 <= i < labels::components(path).len(),
    ensures
        labels::components(path)[i].len() > 0,
        !labels::components(path)[i].contains('/'),
{
    let rest = labels::without_home(path);
    text_laws::pieces_make_up_the_text(rest, '/');
    lemma_nonempty(text::split(rest, '/'), i);
}

proof fn lemma_nonempty(list: Seq<Seq<char>>, i: int)
    requires
        0 <= i < labels::nonempty(list).len(),
    ensures
        labels::nonempty(list)[i].len() > 0,
        list.contains(labels::nonempty(list)[i]),
    decreases list.len(),
{
    let before = labels::nonempty(list.drop_last());
    if i < before.len() {
        lemma_nonempty(list.drop_last(), i);
        let part = before[i];
        let j = choose|j: int| 0 <= j < list.drop_last().len() && list.drop_last()[j] == part;
        assert(list[j] == part);
        assert(labels::nonempty(list)[i] == part);
    } else {
        assert(list[list.len() - 1] == list.last());
    }
}

/// The names at some places, with an ellipsis for a negative place.
pub open spec fn parts_of(names: Seq<Seq<char>>, places: Seq<int>) -> Seq<Seq<char>> {
    Seq::new(
        places.len(),
        |i: int| if 0 <= places[i] { names[places[i]] } else { seq!['…'] },
    )
}

/// A path that does not fit is shortened by leaving out directories: what is shown are names of the
/// path in their order, with an ellipsis where some were left out, behind the root or the tilde
/// that the path starts with. The last directory is always shown in full, if some form with it
/// fits.
pub proof fn shortened_paths_show_directories(path: Seq<char>, width: int) -> (places: Seq<int>)
    requires
        0 < width < path.len(),
        labels::fitting(path, width, 0) is Some,
    ensures
        ({
            let names = labels::components(path);
            let start = if path.len() >= 2 && path[0] == '~' && path[1] == '/' {
                seq!['~', '/']
            } else if path[0] == '/' {
                seq!['/']
            } else {
                seq![]
            };
            &&& labels::compacted(path, width) == start + text_laws::together(
                parts_of(names, places),
                '/',
            )
            &&& places.len() > 0
            &&& places.last() == names.len() - 1
            &&& forall|i: int| 0 <= i < places.len() ==> -1 <= (#[trigger] places[i]) < names.len()
            &&& forall|i: int, j: int|
                0 <= i < j < places.len() && places[i] >= 0 && places[j] >= 0
                    ==> #[trigger] places[i] < #[trigger] places[j]
            &&& forall|i: int|
                0 <= i && i + 1 < places.len() ==> (#[trigger] places[i]) >= 0 || places[i + 1]
                    >= 0
        }),
{
    let names = labels::components(path);
    let hidden = lemma_fitting(path, width, 0);
    let shown = labels::shown(names, hidden);
    let all = Seq::new(
        names.len(),
        |i: int|
            if i < hidden || (i + 1 < names.len() && i % 2 == 0) {
                -1int
            } else {
                i
            },
    );
    assert(shown =~= parts_of(names, all));
    let places = lemma_collapsed(names, all, names.len() as int);
    assert(parts_of(names, all).take(names.len() as int) =~= shown);
    lemma_joined(parts_of(names, places));
    assert(labels::compacted(path, width) == labels::with_hidden(path, hidden));
    places
}

proof fn lemma_joined(parts: Seq<Seq<char>>)
    ensures
        labels::joined(parts) == text_laws::together(parts, '/'),
    decreases parts.len(),
{
    if parts.len() > 1 {
        lemma_joined(parts.drop_last());
    }
}

proof fn lemma_fitting(path: Seq<char>, width: int, from: int) -> (hidden: int)
    requires
        0 <= from,
        labels::fitting(path, width, from) is Some,
    ensures
        from <= hidden < labels::components(path).len(),
        labels::fitting(path, width, from) == Some(labels::with_hidden(path, hidden)),
        forall|h: int|
            from <= h < hidden ==> (#[trigger] labels::with_hidden(path, h)).len() > width,
    decreases labels::components(path).len() - from,
{
    if labels::with_hidden(path, from).len() <= width {
        from
    } else {
        lemma_fitting(path, width, from + 1)
    }
}

/// Where the shortened list of parts comes from. A directory may itself be called like the mark.
proof fn lemma_collapsed(names: Seq<Seq<char>>, all: Seq<int>, count: int) -> (places: Seq<int>)
    requires
        0 <= count <= all.len() == names.len(),
        forall|i: int| 0 <= i < all.len() ==> #[trigger] all[i] == -1 || all[i] == i,
        all.len() > 0 ==> all.last() == all.len() - 1,
    ensures
        labels::collapsed(parts_of(names, all).take(count)) == parts_of(names, places),
        (count > 0) == (places.len() > 0),
        count > 0 ==> places.last() == -1 || places.last() < count,
        count == all.len() && count > 0 ==> places.last() == count - 1,
        forall|i: int| 0 <= i < places.len() ==> -1 <= (#[trigger] places[i]) < count,
        forall|i: int, j: int|
            0 <= i < j < places.len() && places[i] >= 0 && places[j] >= 0 ==> #[trigger] places[i]
                < #[trigger] places[j],
        forall|i: int|
            0 <= i && i + 1 < places.len() ==> (#[trigger] places[i]) >= 0 || places[i + 1] >= 0,
    decreases count,
{
    let parts = parts_of(names, all);
    if count == 0 {
        assert(labels::collapsed(parts.take(0)) =~= parts_of(names, seq![]));
        seq![]
    } else {
        let before = lemma_collapsed(names, all, count - 1);
        assert(parts.take(count).drop_last() =~= parts.take(count - 1));
        assert(parts.take(count).last() == parts[count - 1]);
        let rest = labels::collapsed(parts.take(count - 1));
        let last = all[count - 1];
        if parts[count - 1] == labels::ellipsis() && rest.len() > 0 && rest.last()
            == labels::ellipsis() {
            assert(rest.last() == parts_of(names, before).last());
            if last == -1 {
                before
            } else {
                let places = before.drop_last().push(last);
                assert(parts_of(names, places) =~= parts_of(names, before));
                places
            }
        } else {
            let places = before.push(last);
            assert(parts_of(names, places) =~= rest.push(parts[count - 1]));
            assert forall|i: int| 0 <= i && i + 1 < places.len() implies (
            #[trigger] places[i]) >= 0 || places[i + 1] >= 0 by {
                if i + 1 == places.len() - 1 && last == -1 {
                    assert(places[i] == before.last());
                    if before.last() == -1 {
                        assert(parts_of(names, before).last() == seq!['…']);
                    }
                }
            }
            places
        }
    }
}

/// As few directories as possible are left out: every form of the path that leaves out fewer from
/// its start is too long.
pub proof fn no_more_is_left_out_than_needed(path: Seq<char>, width: int) -> (hidden: int)
    requires
        0 < width < path.len(),
        labels::fitting(path, width, 0) is Some,
    ensures
        0 <= hidden < labels::components(path).len(),
        labels::compacted(path, width) == labels::with_hidden(path, hidden),
        forall|h: int|
            0 <= h < hidden ==> (#[trigger] labels::with_hidden(path, h)).len() > width,
{
    lemma_fitting(path, width, 0)
}

/// Where no form of a path with its last directory fits, the end of that directory is shown behind
/// an ellipsis and a slash, and fills the width.
pub proof fn long_directories_show_their_end(path: Seq<char>, width: int)
    requires
        2 < width < path.len(),
        labels::components(path).len() > 0,
        labels::fitting(path, width, 0) is None,
        labels::components(path).last().len() >= width - 2,
    ensures
        ({
            let name = labels::components(path).last();
            let short = labels::compacted(path, width);
            &&& short.len() == width
            &&& short[0] == '…' && short[1] == '/'
            &&& short.skip(2) == name.skip(name.len() - (width - 2))
        }),
{
    let name = labels::components(path).last();
    let short = labels::compacted(path, width);
    assert(short.skip(2) =~= name.skip(name.len() - (width - 2)));
}

} // verus!
