//! What holds of texts: how they are trimmed, split, searched and replaced.

use crate::input;
use crate::text;
use vstd::prelude::*;

verus! {

/// A trimmed text is a part of the text that neither starts nor ends with white space, and only
/// white space stands before and behind it.
pub proof fn trimming_takes_only_white_space(s: Seq<char>) -> (r: (int, int))
    ensures
        0 <= r.0 <= r.1 <= s.len(),
        text::trimmed(s) == s.subrange(r.0, r.1),
        forall|i: int| 0 <= i < r.0 ==> text::is_white(#[trigger] s[i]),
        forall|i: int| r.1 <= i < s.len() ==> text::is_white(#[trigger] s[i]),
        r.0 < r.1 ==> !text::is_white(s[r.0]) && !text::is_white(s[r.1 - 1]),
{
    let from = lemma_trimmed_start(s);
    let rest = s.skip(from);
    let to = lemma_trimmed_end(rest);
    assert(rest.take(to) =~= s.subrange(from, from + to));
    assert forall|i: int| from + to <= i < s.len() implies text::is_white(#[trigger] s[i]) by {
        assert(rest[i - from] == s[i]);
    }
    if to > 0 {
        assert(rest[0] == s[from]);
        assert(rest[to - 1] == s[from + to - 1]);
    }
    (from, from + to)
}

proof fn lemma_trimmed_start(s: Seq<char>) -> (from: int)
    ensures
        0 <= from <= s.len(),
        text::trimmed_start(s) == s.skip(from),
        forall|i: int| 0 <= i < from ==> text::is_white(#[trigger] s[i]),
        from < s.len() ==> !text::is_white(s[from]),
    decreases s.len(),
{
    if s.len() > 0 && text::is_white(s[0]) {
        let from = lemma_trimmed_start(s.drop_first()) + 1;
        assert(s.drop_first().skip(from - 1) =~= s.skip(from));
        assert forall|i: int| 0 <= i < from implies text::is_white(#[trigger] s[i]) by {
            if i > 0 {
                assert(s.drop_first()[i - 1] == s[i]);
            }
        }
        from
    } else {
        assert(s.skip(0) =~= s);
        0
    }
}

proof fn lemma_trimmed_end(s: Seq<char>) -> (to: int)
    ensures
        0 <= to <= s.len(),
        text::trimmed_end(s) == s.take(to),
        forall|i: int| to <= i < s.len() ==> text::is_white(#[trigger] s[i]),
        to > 0 ==> !text::is_white(s[to - 1]),
    decreases s.len(),
{
    if s.len() > 0 && text::is_white(s.last()) {
        let to = lemma_trimmed_end(s.drop_last());
        assert(s.drop_last().take(to) =~= s.take(to));
        assert forall|i: int| to <= i < s.len() implies text::is_white(#[trigger] s[i]) by {
            if i < s.len() - 1 {
                assert(s.drop_last()[i] == s[i]);
            }
        }
        to
    } else {
        assert(s.take(s.len() as int) =~= s);
        s.len() as int
    }
}

/// The texts put together, with a separator between them.
pub open spec fn together(list: Seq<Seq<char>>, separator: char) -> Seq<char>
    decreases list.len(),
{
    if list.len() == 0 {
        Seq::empty()
    } else if list.len() == 1 {
        list[0]
    } else {
        together(list.drop_last(), separator).push(separator) + list.last()
    }
}

/// The pieces of a text make up the text again with the separator between them, and none of them
/// holds it.
pub proof fn pieces_make_up_the_text(s: Seq<char>, separator: char)
    ensures
        text::split(s, separator).len() > 0,
        together(text::split(s, separator), separator) == s,
        forall|i: int|
            0 <= i < text::split(s, separator).len() ==> !(#[trigger] text::split(
                s,
                separator,
            )[i]).contains(separator),
    decreases s.len(),
{
    let pieces = text::split(s, separator);
    if s.len() == 0 {
        assert(together(pieces, separator) =~= s);
    } else {
        pieces_make_up_the_text(s.drop_last(), separator);
        let rest = text::split(s.drop_last(), separator);
        if s.last() == separator {
            assert(pieces.drop_last() =~= rest);
            assert(together(pieces, separator) =~= s);
        } else {
            assert(pieces.drop_last() =~= rest.drop_last());
            let held = rest.last();
            if rest.len() == 1 {
                assert(together(rest, separator) == held);
                assert(held.push(s.last()) =~= s);
            } else {
                assert(together(pieces, separator) =~= s);
            }
            assert forall|i: int| 0 <= i < pieces.len() implies !(#[trigger] pieces[i]).contains(
                separator,
            ) by {
                if i < pieces.len() - 1 {
                    assert(pieces[i] == rest[i]);
                } else {
                    assert(!rest[i].contains(separator));
                    if pieces[i].contains(separator) {
                        let j = choose|j: int|
                            0 <= j < pieces[i].len() && pieces[i][j] == separator;
                        assert(rest[i][j] == separator);
                    }
                }
            }
        }
    }
}

/// A replacement goes through a text from the left: it replaces what stands there, and goes on
/// behind it, or takes over one character.
pub proof fn replacing_goes_from_left_to_right(
    c: char,
    rest: Seq<char>,
    from: Seq<char>,
    to: Seq<char>,
)
    requires
        from.len() > 0,
    ensures
        text::replaced(Seq::empty(), from, to) == Seq::<char>::empty(),
        text::replaced(from + rest, from, to) == to + text::replaced(rest, from, to),
        c != from[0] ==> text::replaced(seq![c] + rest, from, to) == seq![c] + text::replaced(
            rest,
            from,
            to,
        ),
{
    let whole = from + rest;
    assert(whole.subrange(0, from.len() as int) =~= from);
    assert(text::stands_at(whole, from, 0));
    assert(whole.skip(from.len() as int) =~= rest);
    let other = seq![c] + rest;
    assert(other.drop_first() =~= rest);
    if c != from[0] && text::stands_at(other, from, 0) {
        assert(other.subrange(0, from.len() as int)[0] == c);
    }
}

/// A text in which the searched one does not stand is not changed.
pub proof fn texts_without_a_match_are_kept(s: Seq<char>, from: Seq<char>, to: Seq<char>)
    requires
        !text::has_part(s, from),
    ensures
        text::replaced(s, from, to) == s,
    decreases s.len(),
{
    if s.len() > 0 && from.len() > 0 {
        assert(!text::stands_at(s, from, 0));
        let rest = s.drop_first();
        assert(!text::has_part(rest, from)) by {
            if text::has_part(rest, from) {
                let i = choose|i: int| text::stands_at(rest, from, i);
                assert(rest.subrange(i, i + from.len()) =~= s.subrange(i + 1, i + 1 + from.len()));
                assert(text::stands_at(s, from, i + 1));
            }
        }
        texts_without_a_match_are_kept(rest, from, to);
        assert(seq![s[0]] + rest =~= s);
    }
}

/// A text without carriage returns keeps its line ends.
pub proof fn texts_without_returns_are_normal(s: Seq<char>)
    requires
        !s.contains('\r'),
    ensures
        input::normalized(s) == s,
{
    let crlf = seq!['\r', '\n'];
    let cr = seq!['\r'];
    assert(!text::has_part(s, crlf)) by {
        if text::has_part(s, crlf) {
            let i = choose|i: int| text::stands_at(s, crlf, i);
            assert(s.subrange(i, i + 2)[0] == s[i]);
        }
    }
    texts_without_a_match_are_kept(s, crlf, seq!['\n']);
    assert(!text::has_part(s, cr)) by {
        if text::has_part(s, cr) {
            let i = choose|i: int| text::stands_at(s, cr, i);
            assert(s.subrange(i, i + 1)[0] == s[i]);
        }
    }
    texts_without_a_match_are_kept(s, cr, seq!['\n']);
}

/// Every line end of a pasted text counts as one line feed: a carriage return and a line feed
/// together, and either of them alone. All other characters are kept.
pub proof fn line_ends_become_line_feeds(c: char, rest: Seq<char>)
    ensures
        input::normalized(Seq::empty()) == Seq::<char>::empty(),
        input::normalized(seq!['\r', '\n'] + rest) == seq!['\n'] + input::normalized(rest),
        !(rest.len() > 0 && rest[0] == '\n') ==> input::normalized(seq!['\r'] + rest) == seq!['\n']
            + input::normalized(rest),
        c != '\r' ==> input::normalized(seq![c] + rest) == seq![c] + input::normalized(rest),
{
    let crlf = seq!['\r', '\n'];
    let cr = seq!['\r'];
    let lf = seq!['\n'];
    let half = text::replaced(rest, crlf, lf);
    replacing_goes_from_left_to_right('\n', rest, crlf, lf);
    replacing_goes_from_left_to_right('\n', half, cr, lf);
    replacing_goes_from_left_to_right(c, rest, crlf, lf);
    replacing_goes_from_left_to_right(c, half, cr, lf);
    if !(rest.len() > 0 && rest[0] == '\n') {
        let whole = cr + rest;
        if text::stands_at(whole, crlf, 0) {
            assert(whole.subrange(0, 2)[1] == whole[1]);
        }
        assert(whole.drop_first() =~= rest);
        assert(text::replaced(whole, crlf, lf) == cr + half);
    }
}

/// The last place of a text is one where it stands, and it stands nowhere behind it. Without such a
/// place it stands nowhere.
pub proof fn the_last_place_is_found(s: Seq<char>, part: Seq<char>)
    ensures
        match text::last_place(s, part, s.len() as int) {
            Some(i) => text::stands_at(s, part, i) && forall|j: int|
                i < j ==> !text::stands_at(s, part, j),
            None => forall|j: int| !text::stands_at(s, part, j),
        },
{
    lemma_last_place(s, part, s.len() as int);
}

proof fn lemma_last_place(s: Seq<char>, part: Seq<char>, up_to: int)
    ensures
        match text::last_place(s, part, up_to) {
            Some(i) => i <= up_to && text::stands_at(s, part, i) && forall|j: int|
                i < j <= up_to ==> !text::stands_at(s, part, j),
            None => forall|j: int| j <= up_to ==> !text::stands_at(s, part, j),
        },
    decreases up_to + 1,
{
    if up_to >= 0 && !text::stands_at(s, part, up_to) {
        lemma_last_place(s, part, up_to - 1);
    }
}

/// A number in decimal is read back as that number.
pub proof fn decimal_numbers_are_read_back(n: nat)
    ensures
        text::digits(text::decimal(n)) == Some(n),
        text::number(text::decimal(n)) == Some(n),
        text::decimal(n).len() > 0,
    decreases n,
{
    let shown = text::decimal(n);
    if n >= 10 {
        decimal_numbers_are_read_back(n / 10);
        assert(shown.drop_last() =~= text::decimal(n / 10));
        assert(shown.last() == text::digit((n % 10) as int));
        assert(n == 10 * (n / 10) + n % 10);
        assert(shown[0] == text::decimal(n / 10)[0]);
    }
    lemma_first_digit(n);
}

proof fn lemma_first_digit(n: nat)
    ensures
        text::decimal(n).len() > 0,
        '0' <= text::decimal(n)[0] <= '9',
    decreases n,
{
    if n >= 10 {
        lemma_first_digit(n / 10);
    }
}

/// Two texts that differ only in capitals are the same in small letters, and every letter keeps its
/// place.
pub proof fn small_letters_ignore_capitals(s: Seq<char>, i: int)
    requires
        0 <= i < s.len(),
    ensures
        text::lowered(s).len() == s.len(),
        'A' <= s[i] <= 'Z' ==> text::lowered(s)[i] as int == s[i] as int + 32,
        !('A' <= s[i] <= 'Z') ==> text::lowered(s)[i] == s[i],
        text::lowered(text::lowered(s)) == text::lowered(s),
{
    assert(text::lowered(text::lowered(s)) =~= text::lowered(s));
}

/// The lines of a text that ends with a line feed are its pieces between line feeds, without the
/// carriage returns at their ends.
pub proof fn lines_end_at_line_feeds(s: Seq<char>, i: int)
    requires
        0 <= i < text::lines(s).len(),
    ensures
        ({
            let piece = text::split(s, '\n')[i];
            let line = text::lines(s)[i];
            let ended = i < text::split(s, '\n').len() - 1;
            &&& !line.contains('\n')
            &&& ended && piece.len() > 0 && piece.last() == '\r' ==> line.push('\r') == piece
            &&& !(ended && piece.len() > 0 && piece.last() == '\r') ==> line == piece
        }),
        text::lines(s).len() == text::split(s, '\n').len() - (if text::split(s, '\n').last().len()
            == 0 {
            1int
        } else {
            0
        }),
{
    pieces_make_up_the_text(s, '\n');
    let piece = text::split(s, '\n')[i];
    let line = text::lines(s)[i];
    assert(!piece.contains('\n'));
    if line.contains('\n') {
        let j = choose|j: int| 0 <= j < line.len() && line[j] == '\n';
        assert(piece[j] == '\n');
    }
    if piece.len() > 0 && piece.last() == '\r' {
        assert(piece.drop_last().push('\r') =~= piece);
    }
}

} // verus!
