//! Texts as sequences of characters: trimming, splitting into pieces and lines, searching,
//! replacing, and numbers.

use vstd::prelude::*;

verus! {

/// `String::push` appends the character to the end of the string.
pub assume_specification[ String::push ](s: &mut String, c: char)
    ensures
        final(s)@ == old(s)@.push(c),
;

/// `String::pop` removes the last character and returns it, or returns `None` if there is none.
pub assume_specification[ String::pop ](s: &mut String) -> (r: Option<char>)
    ensures
        old(s)@.len() == 0 ==> r is None && final(s)@ == old(s)@,
        old(s)@.len() > 0 ==> r == Some(old(s)@.last()) && final(s)@ == old(s)@.drop_last(),
;

/// The characters of a text.
pub fn chars_of(text: &str) -> (r: Vec<char>)
    ensures
        r@ == text@,
{
    let mut r: Vec<char> = Vec::new();
    for c in iter: text.chars()
        invariant
            iter.seq() == text@,
            r@ == text@.take(iter.index() as int),
    {
        r.push(c);
        assert(text@.take(iter.index() as int + 1) == text@.take(iter.index() as int).push(c));
    }
    assert(text@.take(text@.len() as int) == text@);
    r
}

/// The text made of the characters from `from` up to `to`.
pub fn string_of(chars: &Vec<char>, from: usize, to: usize) -> (r: String)
    requires
        from <= to <= chars@.len(),
    ensures
        r@ == chars@.subrange(from as int, to as int),
{
    let mut r = String::new();
    assert(r@ == chars@.subrange(from as int, from as int));
    for i in from..to
        invariant
            from <= to <= chars@.len(),
            r@ == chars@.subrange(from as int, i as int),
    {
        r.push(chars[i]);
        assert(chars@.subrange(from as int, i as int + 1) == chars@.subrange(
            from as int,
            i as int,
        ).push(chars@[i as int]));
    }
    r
}

/// Whether two texts are the same.
pub fn same_text(a: &str, b: &str) -> (r: bool)
    ensures
        r == (a@ == b@),
{
    let left = chars_of(a);
    let right = chars_of(b);
    if left.len() != right.len() {
        return false;
    }
    for i in 0..left.len()
        invariant
            left@ == a@,
            right@ == b@,
            left@.len() == right@.len(),
            forall|j: int| 0 <= j < i ==> left@[j] == right@[j],
    {
        if left[i] != right[i] {
            return false;
        }
    }
    assert(left@ == right@);
    true
}

/// The characters with the Unicode property `White_Space`.
pub open spec fn is_white(c: char) -> bool {
    ||| '\u{9}' <= c <= '\u{d}'
    ||| c == ' '
    ||| c == '\u{85}'
    ||| c == '\u{a0}'
    ||| c == '\u{1680}'
    ||| '\u{2000}' <= c <= '\u{200a}'
    ||| c == '\u{2028}'
    ||| c == '\u{2029}'
    ||| c == '\u{202f}'
    ||| c == '\u{205f}'
    ||| c == '\u{3000}'
}

pub fn is_whitespace(c: char) -> (r: bool)
    ensures
        r == is_white(c),
{
    ('\u{9}' <= c && c <= '\u{d}') || c == ' ' || c == '\u{85}' || c == '\u{a0}' || c == '\u{1680}'
        || ('\u{2000}' <= c && c <= '\u{200a}') || c == '\u{2028}' || c == '\u{2029}' || c
        == '\u{202f}' || c == '\u{205f}' || c == '\u{3000}'
}

/// The text without white space at its start.
pub open spec fn trimmed_start(s: Seq<char>) -> Seq<char>
    decreases s.len(),
{
    if s.len() > 0 && is_white(s[0]) {
        trimmed_start(s.drop_first())
    } else {
        s
    }
}

/// The text without white space at its end.
pub open spec fn trimmed_end(s: Seq<char>) -> Seq<char>
    decreases s.len(),
{
    if s.len() > 0 && is_white(s.last()) {
        trimmed_end(s.drop_last())
    } else {
        s
    }
}

/// The text without white space at both ends.
pub open spec fn trimmed(s: Seq<char>) -> Seq<char> {
    trimmed_end(trimmed_start(s))
}

pub fn trim(text: &str) -> (r: String)
    ensures
        r@ == trimmed(text@),
{
    let chars = chars_of(text);
    let mut from: usize = 0;
    assert(chars@.skip(0) == chars@);
    while from < chars.len() && is_whitespace(chars[from])
        invariant
            from <= chars@.len(),
            trimmed_start(chars@) == trimmed_start(chars@.skip(from as int)),
        decreases chars@.len() - from,
    {
        assert(chars@.skip(from as int).drop_first() == chars@.skip(from as int + 1));
        from += 1;
    }
    let mut to: usize = chars.len();
    assert(chars@.subrange(from as int, to as int) == chars@.skip(from as int));
    while to > from && is_whitespace(chars[to - 1])
        invariant
            from <= to <= chars@.len(),
            trimmed(chars@) == trimmed_end(chars@.subrange(from as int, to as int)),
        decreases to,
    {
        assert(chars@.subrange(from as int, to as int).drop_last() == chars@.subrange(
            from as int,
            to as int - 1,
        ));
        to -= 1;
    }
    string_of(&chars, from, to)
}

/// An ASCII capital letter as a small letter, any other character as it is.
pub open spec fn lower(c: char) -> char {
    if 'A' <= c <= 'Z' {
        (c as u32 + 32) as char
    } else {
        c
    }
}

pub open spec fn lowered(s: Seq<char>) -> Seq<char> {
    Seq::new(s.len(), |i: int| lower(s[i]))
}

pub fn to_lower(text: &str) -> (r: Vec<char>)
    ensures
        r@ == lowered(text@),
{
    let chars = chars_of(text);
    let mut r: Vec<char> = Vec::new();
    for i in 0..chars.len()
        invariant
            chars@ == text@,
            r@.len() == i,
            forall|j: int| 0 <= j < i ==> r@[j] == lower(text@[j]),
    {
        let c = chars[i];
        if 'A' <= c && c <= 'Z' {
            r.push((c as u8 + 32) as char);
        } else {
            r.push(c);
        }
    }
    r
}

/// The text `part` stands in `s` at place `i`.
pub open spec fn stands_at(s: Seq<char>, part: Seq<char>, i: int) -> bool {
    &&& 0 <= i
    &&& i + part.len() <= s.len()
    &&& s.subrange(i, i + part.len()) == part
}

/// The text `part` stands somewhere in `s`.
pub open spec fn has_part(s: Seq<char>, part: Seq<char>) -> bool {
    exists|i: int| stands_at(s, part, i)
}

pub fn is_at(chars: &Vec<char>, part: &Vec<char>, i: usize) -> (r: bool)
    ensures
        r == stands_at(chars@, part@, i as int),
{
    if part.len() > chars.len() || i > chars.len() - part.len() {
        return false;
    }
    for j in 0..part.len()
        invariant
            i + part.len() <= chars.len(),
            forall|k: int| 0 <= k < j ==> chars@[i + k] == part@[k],
    {
        if chars[i + j] != part[j] {
            assert(chars@.subrange(i as int, i + part@.len())[j as int] != part@[j as int]);
            return false;
        }
    }
    assert(chars@.subrange(i as int, i + part@.len()) == part@);
    true
}

pub fn contains_part(chars: &Vec<char>, part: &str) -> (r: bool)
    ensures
        r == has_part(chars@, part@),
{
    let wanted = chars_of(part);
    for i in 0..chars.len()
        invariant
            wanted@ == part@,
            forall|j: int| 0 <= j < i ==> !stands_at(chars@, part@, j),
    {
        if is_at(chars, &wanted, i) {
            return true;
        }
    }
    is_at(chars, &wanted, chars.len())
}

/// The last place of `part` in `s` that is at most `up_to`.
pub open spec fn last_place(s: Seq<char>, part: Seq<char>, up_to: int) -> Option<int>
    decreases up_to + 1,
{
    if up_to < 0 {
        None
    } else if stands_at(s, part, up_to) {
        Some(up_to)
    } else {
        last_place(s, part, up_to - 1)
    }
}

/// The last place of `part` in `chars`.
pub fn rfind(chars: &Vec<char>, part: &Vec<char>) -> (r: Option<usize>)
    ensures
        match r {
            Some(i) => last_place(chars@, part@, chars@.len() as int) == Some(i as int)
                && stands_at(chars@, part@, i as int),
            None => last_place(chars@, part@, chars@.len() as int) is None,
        },
{
    let mut i: usize = chars.len();
    loop
        invariant
            i <= chars@.len(),
            last_place(chars@, part@, chars@.len() as int) == last_place(
                chars@,
                part@,
                i as int,
            ),
        decreases i,
    {
        if is_at(chars, part, i) {
            return Some(i);
        }
        if i == 0 {
            assert(last_place(chars@, part@, -1) is None);
            return None;
        }
        i -= 1;
    }
}

/// The text with every occurrence of `from`, taken from the left without overlap, replaced by
/// `to`.
pub open spec fn replaced(s: Seq<char>, from: Seq<char>, to: Seq<char>) -> Seq<char>
    decreases s.len(),
{
    if s.len() == 0 || from.len() == 0 {
        s
    } else if stands_at(s, from, 0) {
        to + replaced(s.skip(from.len() as int), from, to)
    } else {
        seq![s[0]] + replaced(s.drop_first(), from, to)
    }
}

pub fn replace(chars: &Vec<char>, from: &Vec<char>, to: &Vec<char>) -> (r: Vec<char>)
    requires
        from@.len() > 0,
    ensures
        r@ == replaced(chars@, from@, to@),
{
    let mut r: Vec<char> = Vec::new();
    let mut i: usize = 0;
    assert(chars@.skip(0) == chars@);
    assert(r@ + replaced(chars@.skip(0), from@, to@) == replaced(chars@, from@, to@));
    while i < chars.len()
        invariant
            from@.len() > 0,
            i <= chars@.len(),
            r@ + replaced(chars@.skip(i as int), from@, to@) == replaced(chars@, from@, to@),
        decreases chars@.len() - i,
    {
        let ghost rest = chars@.skip(i as int);
        let ghost before = r@;
        if is_at(chars, from, i) {
            proof {
                assert(rest.subrange(0, from@.len() as int) == chars@.subrange(
                    i as int,
                    i + from@.len(),
                ));
                assert(stands_at(rest, from@, 0));
                assert(rest.skip(from@.len() as int) == chars@.skip(i + from@.len()));
            }
            append_chars(&mut r, to);
            i += from.len();
            assert(r@ + replaced(chars@.skip(i as int), from@, to@) == before + (to@ + replaced(
                chars@.skip(i as int),
                from@,
                to@,
            )));
        } else {
            proof {
                if stands_at(rest, from@, 0) {
                    assert(rest.subrange(0, from@.len() as int) == chars@.subrange(
                        i as int,
                        i + from@.len(),
                    ));
                }
                assert(rest.drop_first() == chars@.skip(i + 1));
            }
            r.push(chars[i]);
            i += 1;
            assert(r@ + replaced(chars@.skip(i as int), from@, to@) == before + (seq![rest[0]]
                + replaced(chars@.skip(i as int), from@, to@)));
        }
    }
    assert(replaced(chars@.skip(i as int), from@, to@) == Seq::<char>::empty());
    assert(r@ + Seq::<char>::empty() == r@);
    r
}

pub fn append_chars(out: &mut Vec<char>, more: &Vec<char>)
    ensures
        final(out)@ == old(out)@ + more@,
{
    let ghost before = out@;
    assert(before + more@.take(0) == before);
    for i in 0..more.len()
        invariant
            out@ == before + more@.take(i as int),
    {
        out.push(more[i]);
        assert(before + more@.take(i as int + 1) == (before + more@.take(i as int)).push(
            more@[i as int],
        ));
    }
    assert(more@.take(more@.len() as int) == more@);
}

/// The texts of a list of strings.
pub open spec fn texts(list: Seq<String>) -> Seq<Seq<char>> {
    Seq::new(list.len(), |i: int| list[i]@)
}

/// The pieces of a text between the separators.
pub open spec fn split(s: Seq<char>, separator: char) -> Seq<Seq<char>>
    decreases s.len(),
{
    if s.len() == 0 {
        seq![Seq::empty()]
    } else {
        let rest = split(s.drop_last(), separator);
        if s.last() == separator {
            rest.push(Seq::empty())
        } else {
            rest.update(rest.len() - 1, rest.last().push(s.last()))
        }
    }
}

pub fn split_at_each(chars: &Vec<char>, separator: char) -> (r: Vec<String>)
    ensures
        texts(r@) == split(chars@, separator),
        r@.len() > 0,
{
    let mut r: Vec<String> = Vec::new();
    let mut piece = String::new();
    assert(texts(r@).push(piece@) == split(chars@.take(0), separator));
    for i in 0..chars.len()
        invariant
            texts(r@).push(piece@) == split(chars@.take(i as int), separator),
    {
        let ghost before = texts(r@);
        let ghost held = piece@;
        assert(chars@.take(i as int + 1).drop_last() == chars@.take(i as int));
        if chars[i] == separator {
            r.push(piece);
            piece = String::new();
            assert(texts(r@) == before.push(held));
        } else {
            piece.push(chars[i]);
            assert(before.push(held).update(before.len() as int, piece@) == before.push(piece@));
        }
    }
    assert(chars@.take(chars@.len() as int) == chars@);
    let ghost before = texts(r@);
    let ghost held = piece@;
    r.push(piece);
    assert(texts(r@) == before.push(held));
    r
}

/// A line without a carriage return at its end.
pub open spec fn without_return(line: Seq<char>) -> Seq<char> {
    if line.len() > 0 && line.last() == '\r' { line.drop_last() } else { line }
}

/// The lines of a text, which end at a line feed with or without a carriage return before it. A
/// line end at the end of the text does not start a further line.
pub open spec fn lines(s: Seq<char>) -> Seq<Seq<char>> {
    let pieces = split(s, '\n');
    let count = if pieces.last().len() == 0 { pieces.len() - 1 } else { pieces.len() as int };
    Seq::new(
        count as nat,
        |i: int| if i < pieces.len() - 1 { without_return(pieces[i]) } else { pieces[i] },
    )
}

pub fn lines_of(text: &str) -> (r: Vec<String>)
    ensures
        texts(r@) == lines(text@),
{
    let chars = chars_of(text);
    let pieces = split_at_each(&chars, '\n');
    let ghost views = split(text@, '\n');
    let mut count: usize = pieces.len();
    assert(views.last() == pieces@[pieces@.len() - 1]@);
    if pieces[count - 1].as_str().is_empty() {
        count -= 1;
    }
    let mut r: Vec<String> = Vec::new();
    for i in 0..count
        invariant
            views == texts(pieces@),
            count <= pieces@.len(),
            r@.len() == i,
            forall|j: int|
                0 <= j < i ==> (#[trigger] r@[j])@ == if j < views.len() - 1 {
                    without_return(views[j])
                } else {
                    views[j]
                },
    {
        let piece = chars_of(pieces[i].as_str());
        assert(views[i as int] == piece@);
        let length = piece.len();
        let line = if i < pieces.len() - 1 && length > 0 && piece[length - 1] == '\r' {
            string_of(&piece, 0, length - 1)
        } else {
            string_of(&piece, 0, length)
        };
        assert(piece@.subrange(0, length as int) =~= piece@);
        assert(piece@.subrange(0, length - 1) =~= piece@.drop_last() || length == 0);
        r.push(line);
    }
    assert(texts(r@) =~= lines(text@));
    r
}

/// The decimal digit `d`.
pub open spec fn digit(d: int) -> char {
    (0x30 + d) as char
}

/// A number in decimal.
pub open spec fn decimal(n: nat) -> Seq<char>
    decreases n,
{
    if n < 10 {
        seq![digit(n as int)]
    } else {
        decimal(n / 10).push(digit((n % 10) as int))
    }
}

pub fn decimal_text(n: u64) -> (r: String)
    ensures
        r@ == decimal(n as nat),
    decreases n,
{
    let last = (0x30u8 + (n % 10) as u8) as char;
    if n < 10 {
        let mut r = String::new();
        r.push(last);
        assert(r@ == seq![last]);
        r
    } else {
        let mut r = decimal_text(n / 10);
        r.push(last);
        r
    }
}

/// A number in decimal, as ASCII bytes.
pub open spec fn decimal_ascii(n: nat) -> Seq<u8>
    decreases n,
{
    if n < 10 {
        seq![(0x30 + n) as u8]
    } else {
        decimal_ascii(n / 10).push((0x30 + n % 10) as u8)
    }
}

pub fn push_decimal(out: &mut Vec<u8>, n: u32)
    ensures
        final(out)@ == old(out)@ + decimal_ascii(n as nat),
    decreases n,
{
    let ghost before = out@;
    if n >= 10 {
        push_decimal(out, n / 10);
    }
    out.push(0x30u8 + (n % 10) as u8);
    assert(out@ == before + decimal_ascii(n as nat));
}

/// The value of a decimal number, if the text consists of digits only and of at least one, with an
/// optional plus sign before them.
pub open spec fn number(s: Seq<char>) -> Option<nat> {
    if s.len() > 0 && s[0] == '+' {
        digits(s.drop_first())
    } else {
        digits(s)
    }
}

/// The value of a sequence of at least one decimal digit.
pub open spec fn digits(s: Seq<char>) -> Option<nat>
    decreases s.len(),
{
    if s.len() == 0 || !('0' <= s.last() <= '9') {
        None
    } else if s.len() == 1 {
        Some((s.last() as u32 - 0x30) as nat)
    } else {
        match digits(s.drop_last()) {
            Some(n) => Some(n * 10 + (s.last() as u32 - 0x30) as nat),
            None => None,
        }
    }
}

/// A number that fits in `u32`.
pub open spec fn number_u32(s: Seq<char>) -> Option<u32> {
    match number(s) {
        Some(n) => if n <= u32::MAX { Some(n as u32) } else { None },
        None => None,
    }
}

proof fn lemma_digits_prefix(s: Seq<char>, i: int)
    requires
        0 < i <= s.len(),
        digits(s) is Some,
    ensures
        digits(s.take(i)) matches Some(n) && n <= digits(s)->0,
    decreases s.len(),
{
    if i == s.len() {
        assert(s.take(i) == s);
    } else {
        lemma_digits_prefix(s.drop_last(), i);
        assert(s.drop_last().take(i) == s.take(i));
    }
}

pub fn parse_u32(text: &str) -> (r: Option<u32>)
    ensures
        r == number_u32(text@),
{
    let chars = chars_of(text);
    let start: usize = if chars.len() > 0 && chars[0] == '+' { 1 } else { 0 };
    let ghost body = chars@.skip(start as int);
    proof {
        assert(start == 1 ==> body == text@.drop_first());
        assert(start == 0 ==> body == text@);
    }
    if start == chars.len() {
        return None;
    }
    let mut value: u32 = 0;
    let mut i: usize = start;
    while i < chars.len()
        invariant
            start <= i <= chars@.len(),
            start < chars@.len(),
            body == chars@.skip(start as int),
            number(text@) == digits(body),
            i > start ==> digits(body.take(i - start)) == Some(value as nat),
            i == start ==> value == 0,
        decreases chars@.len() - i,
    {
        let c = chars[i];
        let ghost k = i - start;
        proof {
            assert(body.take(k + 1).drop_last() == body.take(k));
            assert(body.take(k + 1).last() == c);
        }
        if !('0' <= c && c <= '9') {
            proof {
                if digits(body) is Some {
                    lemma_digits_prefix(body, k + 1);
                }
            }
            return None;
        }
        let d: u32 = c as u32 - 0x30;
        let next: u64 = value as u64 * 10 + d as u64;
        assert(digits(body.take(k + 1)) == Some(next as nat));
        if next > u32::MAX as u64 {
            proof {
                if digits(body) is Some {
                    lemma_digits_prefix(body, k + 1);
                }
            }
            return None;
        }
        value = next as u32;
        i += 1;
    }
    assert(body.take(body.len() as int) == body);
    Some(value)
}

/// The text of bytes in UTF-8, with replacement characters in place of what is not UTF-8.
pub uninterp spec fn lossy_text(bytes: Seq<u8>) -> Seq<char>;

/// Calls `String::from_utf8_lossy`. The claim: the result depends on the bytes alone, and bytes in
/// valid UTF-8 give the text that they encode.
#[verifier::external_body]
fn from_utf8_lossy(bytes: &[u8]) -> (r: String)
    ensures
        r@ == lossy_text(bytes@),
        vstd::utf8::valid_utf8(bytes@) ==> r@ == vstd::utf8::decode_utf8(bytes@),
{
    String::from_utf8_lossy(bytes).into_owned()
}

/// The text that bytes are shown as: what they encode in UTF-8, or a text with replacement
/// characters where they are not UTF-8.
pub open spec fn shown(bytes: Seq<u8>) -> Seq<char> {
    if vstd::utf8::valid_utf8(bytes) {
        vstd::utf8::decode_utf8(bytes)
    } else {
        lossy_text(bytes)
    }
}

pub fn shown_text(bytes: &[u8]) -> (r: String)
    ensures
        r@ == shown(bytes@),
{
    from_utf8_lossy(bytes)
}

/// The bytes of a text are shown as that text.
pub proof fn texts_are_shown_as_they_are(s: Seq<char>)
    ensures
        shown(vstd::utf8::encode_utf8(s)) == s,
{
    vstd::utf8::encode_utf8_valid_utf8(s);
    vstd::utf8::encode_utf8_decode_utf8(s);
}

/// The bytes of an optional slice.
pub open spec fn borrowed_bytes(value: Option<&[u8]>) -> Option<Seq<u8>> {
    match value {
        Some(bytes) => Some(bytes@),
        None => None,
    }
}

/// A copy of some bytes.
pub(crate) fn copied_bytes(bytes: &[u8], from: usize, to: usize) -> (r: Vec<u8>)
    requires
        from <= to <= bytes@.len(),
    ensures
        r@ == bytes@.subrange(from as int, to as int),
{
    let mut r: Vec<u8> = Vec::new();
    for i in from..to
        invariant
            to <= bytes@.len(),
            r@ == bytes@.subrange(from as int, i as int),
    {
        r.push(bytes[i]);
        assert(r@ =~= bytes@.subrange(from as int, i + 1));
    }
    r
}

/// A copy of all bytes of a list.
pub(crate) fn same_bytes(bytes: &Vec<u8>) -> (r: Vec<u8>)
    ensures
        r@ == bytes@,
{
    let r = copied_bytes(bytes.as_slice(), 0, bytes.len());
    assert(r@ =~= bytes@);
    r
}

} // verus!
