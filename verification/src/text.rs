//! Text handling: trimming, splitting, numbers written in digits, and the few steps that are left
//! to the standard library.
//!
//! A text is modelled as the sequence of its characters.

use vstd::prelude::*;
use vstd::string::*;
use vstd::utf8::*;

verus! {

// ---------------------------------------------------------------------------------------------
// What is taken from the standard library
// ---------------------------------------------------------------------------------------------

/// `String::push` appends one character at the end.
pub assume_specification[ String::push ](s: &mut String, c: char)
    ensures
        final(s)@ == old(s)@.push(c),
;

/// `char::is_whitespace` answers for Unicode's `White_Space` property, whose members are listed
/// in [`is_white`].
pub assume_specification[ char::is_whitespace ](c: char) -> (yes: bool)
    ensures
        yes == is_white(c),
;

/// The characters with Unicode's `White_Space` property.
pub open spec fn is_white(c: char) -> bool {
    ||| 0x09 <= c as u32 <= 0x0d
    ||| c as u32 == 0x20
    ||| c as u32 == 0x85
    ||| c as u32 == 0xa0
    ||| c as u32 == 0x1680
    ||| 0x2000 <= c as u32 <= 0x200a
    ||| c as u32 == 0x2028
    ||| c as u32 == 0x2029
    ||| c as u32 == 0x202f
    ||| c as u32 == 0x205f
    ||| c as u32 == 0x3000
}

/// The text that a row of bytes is read as when nothing may fail: see [`read_lossy`].
pub uninterp spec fn lossy_text(bytes: Seq<u8>) -> Seq<char>;

/// `String::from_utf8_lossy` reads bytes as UTF-8 and puts U+FFFD where they are not. The text
/// that comes out depends on the bytes alone; bytes that are valid UTF-8 are decoded unchanged.
/// Where exactly a replacement goes is not stated.
#[verifier::external_body]
pub(crate) fn read_lossy(bytes: &Vec<u8>) -> (out: String)
    ensures
        out@ == lossy_text(bytes@),
        valid_utf8(bytes@) ==> out@ == decode_utf8(bytes@),
{
    String::from_utf8_lossy(bytes).into_owned()
}

// ---------------------------------------------------------------------------------------------
// Characters
// ---------------------------------------------------------------------------------------------

/// The characters of a text, in order.
pub fn chars_of(s: &str) -> (out: Vec<char>)
    ensures
        out@ == s@,
{
    let mut out: Vec<char> = Vec::new();
    for c in it: s.chars()
        invariant
            it.seq() == s@,
            out@ == it.seq().take(it.index() as int),
    {
        out.push(c);
        assert(it.seq().take(it.index() as int + 1) == it.seq().take(it.index() as int).push(c));
    }
    assert(s@.take(s@.len() as int) == s@);
    out
}

/// The text made of the characters from `from` up to but not including `to`.
pub fn text_of(chars: &Vec<char>, from: usize, to: usize) -> (out: String)
    requires
        from <= to <= chars@.len(),
    ensures
        out@ == chars@.subrange(from as int, to as int),
{
    let mut out = String::new();
    let mut i: usize = from;
    while i < to
        invariant
            from <= i <= to <= chars@.len(),
            out@ == chars@.subrange(from as int, i as int),
        decreases to - i,
    {
        out.push(chars[i]);
        i += 1;
        assert(chars@.subrange(from as int, i as int) == chars@.subrange(
            from as int,
            i - 1,
        ).push(chars@[i - 1]));
    }
    out
}

/// Whether two texts hold the same characters.
pub fn same(a: &str, b: &str) -> (yes: bool)
    ensures
        yes == (a@ == b@),
{
    a.to_owned() == b.to_owned()
}

/// Whether `prefix` is what `s` starts with.
pub open spec fn begins_with<T>(s: Seq<T>, prefix: Seq<T>) -> bool {
    prefix.len() <= s.len() && s.take(prefix.len() as int) == prefix
}

/// Whether a text starts with another one.
pub fn starts_with(s: &str, prefix: &str) -> (yes: bool)
    ensures
        yes == begins_with(s@, prefix@),
{
    let whole = chars_of(s);
    let head = chars_of(prefix);
    if head.len() > whole.len() {
        return false;
    }
    let mut i: usize = 0;
    while i < head.len()
        invariant
            i <= head@.len() <= whole@.len(),
            whole@ == s@,
            head@ == prefix@,
            whole@.take(i as int) == head@.take(i as int),
        decreases head@.len() - i,
    {
        if whole[i] != head[i] {
            proof {
                if s@.take(prefix@.len() as int) == prefix@ {
                    assert(s@.take(prefix@.len() as int)[i as int] == prefix@[i as int]);
                }
            }
            return false;
        }
        i += 1;
        assert(whole@.take(i as int) == whole@.take(i - 1).push(whole@[i - 1]));
        assert(head@.take(i as int) == head@.take(i - 1).push(head@[i - 1]));
    }
    assert(head@.take(head@.len() as int) == head@);
    true
}

/// Where a character occurs first, or -1.
pub open spec fn first_at(s: Seq<char>, c: char) -> int
    decreases s.len(),
{
    if s.len() == 0 {
        -1
    } else {
        let before = first_at(s.drop_last(), c);
        if before >= 0 {
            before
        } else if s.last() == c {
            s.len() - 1
        } else {
            -1
        }
    }
}

/// Where a character occurs last, or -1.
pub open spec fn last_at(s: Seq<char>, c: char) -> int
    decreases s.len(),
{
    if s.len() == 0 {
        -1
    } else if s.last() == c {
        s.len() - 1
    } else {
        last_at(s.drop_last(), c)
    }
}

/// Where a character occurs first.
pub fn find_first(chars: &Vec<char>, c: char) -> (out: Option<usize>)
    ensures
        out matches Some(at) ==> at < chars@.len() && at == first_at(chars@, c),
        out is None ==> first_at(chars@, c) == -1,
{
    let mut i: usize = 0;
    let mut found: Option<usize> = None;
    while i < chars.len()
        invariant
            i <= chars@.len(),
            found matches Some(at) ==> at < i && at == first_at(chars@.take(i as int), c),
            found is None ==> first_at(chars@.take(i as int), c) == -1,
        decreases chars@.len() - i,
    {
        assert(chars@.take(i + 1).drop_last() == chars@.take(i as int));
        if found.is_none() && chars[i] == c {
            found = Some(i);
        }
        i += 1;
    }
    assert(chars@.take(chars@.len() as int) == chars@);
    found
}

/// Where a character occurs last.
pub fn find_last(chars: &Vec<char>, c: char) -> (out: Option<usize>)
    ensures
        out matches Some(at) ==> at < chars@.len() && at == last_at(chars@, c),
        out is None ==> last_at(chars@, c) == -1,
{
    let mut i: usize = 0;
    let mut found: Option<usize> = None;
    while i < chars.len()
        invariant
            i <= chars@.len(),
            found matches Some(at) ==> at < i && at == last_at(chars@.take(i as int), c),
            found is None ==> last_at(chars@.take(i as int), c) == -1,
        decreases chars@.len() - i,
    {
        assert(chars@.take(i + 1).drop_last() == chars@.take(i as int));
        if chars[i] == c {
            found = Some(i);
        }
        i += 1;
    }
    assert(chars@.take(chars@.len() as int) == chars@);
    found
}

// ---------------------------------------------------------------------------------------------
// Trimming
// ---------------------------------------------------------------------------------------------

/// A text without the white space at its start.
pub open spec fn trim_start(s: Seq<char>) -> Seq<char>
    decreases s.len(),
{
    if s.len() > 0 && is_white(s[0]) {
        trim_start(s.drop_first())
    } else {
        s
    }
}

/// A text without the white space at its end.
pub open spec fn trim_end(s: Seq<char>) -> Seq<char>
    decreases s.len(),
{
    if s.len() > 0 && is_white(s.last()) {
        trim_end(s.drop_last())
    } else {
        s
    }
}

/// A text without the white space at either end.
pub open spec fn trimmed(s: Seq<char>) -> Seq<char> {
    trim_end(trim_start(s))
}

/// A text that has been trimmed neither starts nor ends with white space.
pub proof fn trimmed_has_no_white_ends(s: Seq<char>)
    ensures
        trimmed(s).len() > 0 ==> !is_white(trimmed(s)[0]) && !is_white(trimmed(s).last()),
{
    lemma_trim_start_head(s);
    lemma_trim_end_shape(trim_start(s));
}

/// Trimming twice is trimming once.
pub proof fn trimming_is_idempotent(s: Seq<char>)
    ensures
        trimmed(trimmed(s)) == trimmed(s),
{
    trimmed_has_no_white_ends(s);
}

proof fn lemma_trim_start_head(s: Seq<char>)
    ensures
        trim_start(s).len() > 0 ==> !is_white(trim_start(s)[0]),
    decreases s.len(),
{
    if s.len() > 0 && is_white(s[0]) {
        lemma_trim_start_head(s.drop_first());
    }
}

proof fn lemma_trim_end_shape(s: Seq<char>)
    ensures
        trim_end(s).len() > 0 ==> !is_white(trim_end(s).last()) && trim_end(s)[0] == s[0],
    decreases s.len(),
{
    if s.len() > 0 && is_white(s.last()) {
        lemma_trim_end_shape(s.drop_last());
    }
}

/// A text without the white space at either end.
pub fn trim(s: &str) -> (out: String)
    ensures
        out@ == trimmed(s@),
{
    let chars = chars_of(s);
    let mut lo: usize = 0;
    assert(chars@.subrange(0, chars@.len() as int) == s@);
    while lo < chars.len() && chars[lo].is_whitespace()
        invariant
            lo <= chars@.len(),
            trim_start(s@) == trim_start(chars@.subrange(lo as int, chars@.len() as int)),
        decreases chars@.len() - lo,
    {
        assert(chars@.subrange(lo as int, chars@.len() as int).drop_first() == chars@.subrange(
            lo + 1,
            chars@.len() as int,
        ));
        lo += 1;
    }
    let ghost start = chars@.subrange(lo as int, chars@.len() as int);
    assert(trim_start(s@) == start);
    let mut hi: usize = chars.len();
    while lo < hi && chars[hi - 1].is_whitespace()
        invariant
            lo <= hi <= chars@.len(),
            trim_end(start) == trim_end(chars@.subrange(lo as int, hi as int)),
        decreases hi,
    {
        assert(chars@.subrange(lo as int, hi as int).drop_last() == chars@.subrange(
            lo as int,
            hi - 1,
        ));
        hi -= 1;
    }
    text_of(&chars, lo, hi)
}

// ---------------------------------------------------------------------------------------------
// Splitting
// ---------------------------------------------------------------------------------------------

/// The pieces between the separators, in order. There is always at least one piece.
pub open spec fn pieces<T>(s: Seq<T>, sep: T) -> Seq<Seq<T>>
    decreases s.len(),
{
    if s.len() == 0 {
        seq![Seq::<T>::empty()]
    } else {
        let before = pieces(s.drop_last(), sep);
        if s.last() == sep {
            before.push(Seq::<T>::empty())
        } else {
            before.drop_last().push(before.last().push(s.last()))
        }
    }
}

/// Splitting leaves at least one piece, and no piece holds the separator.
pub proof fn pieces_hold_no_separator<T>(s: Seq<T>, sep: T)
    ensures
        pieces(s, sep).len() > 0,
        forall|i: int| 0 <= i < pieces(s, sep).len() ==> !(#[trigger] pieces(s, sep)[i]).contains(sep),
    decreases s.len(),
{
    if s.len() > 0 {
        let before = pieces(s.drop_last(), sep);
        pieces_hold_no_separator(s.drop_last(), sep);
        assert forall|i: int| 0 <= i < pieces(s, sep).len() implies !(#[trigger] pieces(
            s,
            sep,
        )[i]).contains(sep) by {
            if s.last() != sep && i == before.len() - 1 {
                let grown = before.last().push(s.last());
                if grown.contains(sep) {
                    let k = choose|k: int| 0 <= k < grown.len() && grown[k] == sep;
                    assert(before.last()[k] == sep);
                    assert(before.last().contains(sep));
                }
            }
        }
    }
}

/// The pieces of a text between the separators, in order.
pub fn pieces_of(s: &str, sep: char) -> (out: Vec<String>)
    ensures
        out.deep_view() == pieces(s@, sep),
{
    let chars = chars_of(s);
    let mut out: Vec<String> = Vec::new();
    let mut piece = String::new();
    let mut i: usize = 0;
    assert(chars@.take(0) == Seq::<char>::empty());
    assert(out.deep_view().push(piece@) == pieces(chars@.take(0), sep));
    while i < chars.len()
        invariant
            i <= chars@.len(),
            out.deep_view().push(piece@) == pieces(chars@.take(i as int), sep),
        decreases chars@.len() - i,
    {
        let c = chars[i];
        let ghost before = out.deep_view().push(piece@);
        assert(chars@.take(i + 1).drop_last() == chars@.take(i as int));
        if c == sep {
            let done = piece.clone();
            out.push(done);
            piece = String::new();
            assert(out.deep_view() == before);
        } else {
            piece.push(c);
            assert(before.drop_last() == out.deep_view());
        }
        i += 1;
    }
    assert(chars@.take(chars@.len() as int) == s@);
    let ghost before = out.deep_view().push(piece@);
    out.push(piece);
    assert(out.deep_view() == before);
    out
}

/// The text before the first separator, or the whole text where there is none.
pub fn first_piece(s: &str, sep: char) -> (out: String)
    ensures
        out@ == pieces(s@, sep)[0],
{
    let all = pieces_of(s, sep);
    proof {
        pieces_hold_no_separator(s@, sep);
        assert(all.deep_view().len() > 0);
        assert(all.deep_view()[0] == all@[0]@);
    }
    all[0].clone()
}

/// The text after the last separator, or the whole text where there is none.
pub fn last_piece(s: &str, sep: char) -> (out: String)
    ensures
        out@ == pieces(s@, sep).last(),
{
    let all = pieces_of(s, sep);
    proof {
        pieces_hold_no_separator(s@, sep);
        assert(all.deep_view().len() > 0);
        assert(all.deep_view().last() == all@[all@.len() - 1]@);
    }
    all[all.len() - 1].clone()
}

/// The trimmed pieces that are not empty, in order.
pub open spec fn entries(parts: Seq<Seq<char>>) -> Seq<Seq<char>>
    decreases parts.len(),
{
    if parts.len() == 0 {
        Seq::empty()
    } else {
        let before = entries(parts.drop_last());
        if trimmed(parts.last()).len() == 0 {
            before
        } else {
            before.push(trimmed(parts.last()))
        }
    }
}

/// What a comma-separated list holds.
pub open spec fn listed(s: Seq<char>) -> Seq<Seq<char>> {
    entries(pieces(s, ','))
}

/// Every entry of a list is trimmed and none is empty.
pub proof fn list_entries_are_trimmed_and_not_empty(parts: Seq<Seq<char>>)
    ensures
        forall|i: int|
            0 <= i < entries(parts).len() ==> (#[trigger] entries(parts)[i]).len() > 0 && trimmed(
                entries(parts)[i],
            ) == entries(parts)[i],
    decreases parts.len(),
{
    if parts.len() > 0 {
        list_entries_are_trimmed_and_not_empty(parts.drop_last());
        trimming_is_idempotent(parts.last());
        let before = entries(parts.drop_last());
        assert forall|i: int| 0 <= i < entries(parts).len() implies (#[trigger] entries(
            parts,
        )[i]).len() > 0 && trimmed(entries(parts)[i]) == entries(parts)[i] by {
            if i < before.len() {
                assert(entries(parts)[i] == before[i]);
            }
        }
    }
}

/// The entries of a comma-separated list: each trimmed, empty ones left out.
pub fn list_of(s: &str) -> (out: Vec<String>)
    ensures
        out.deep_view() == listed(s@),
{
    let parts = pieces_of(s, ',');
    let mut out: Vec<String> = Vec::new();
    let mut i: usize = 0;
    assert(out.deep_view() == entries(parts.deep_view().take(0)));
    while i < parts.len()
        invariant
            i <= parts@.len(),
            out.deep_view() == entries(parts.deep_view().take(i as int)),
        decreases parts@.len() - i,
    {
        let entry = trim(parts[i].as_str());
        assert(parts.deep_view().take(i + 1).drop_last() == parts.deep_view().take(i as int));
        assert(parts.deep_view().take(i + 1).last() == parts@[i as int]@);
        let ghost before = out.deep_view();
        if !entry.as_str().is_empty() {
            out.push(entry);
            assert(out.deep_view() == before.push(entry@));
        }
        i += 1;
    }
    assert(parts.deep_view().take(parts@.len() as int) == parts.deep_view());
    out
}

/// A line without the carriage return that its line feed was preceded by.
pub open spec fn without_return(line: Seq<char>) -> Seq<char> {
    if line.len() > 0 && line.last() == '\r' {
        line.drop_last()
    } else {
        line
    }
}

/// The lines of a text. A line feed ends a line, together with a carriage return directly before
/// it; what follows the last line feed is a line where it is not empty.
pub open spec fn lines(s: Seq<char>) -> Seq<Seq<char>> {
    let parts = pieces(s, '\n');
    let ended = Seq::new((parts.len() - 1) as nat, |i: int| without_return(parts[i]));
    if parts.last().len() == 0 {
        ended
    } else {
        ended.push(parts.last())
    }
}

/// The lines of a text.
pub fn lines_of(s: &str) -> (out: Vec<String>)
    ensures
        out.deep_view() == lines(s@),
{
    let parts = pieces_of(s, '\n');
    proof {
        pieces_hold_no_separator(s@, '\n');
        assert(parts.deep_view().len() > 0);
    }
    let ghost ended = Seq::new(
        (parts@.len() - 1) as nat,
        |i: int| without_return(parts.deep_view()[i]),
    );
    let mut out: Vec<String> = Vec::new();
    let mut i: usize = 0;
    assert(out.deep_view() == ended.take(0));
    while i < parts.len() - 1
        invariant
            i <= parts@.len() - 1,
            ended == Seq::new(
                (parts@.len() - 1) as nat,
                |k: int| without_return(parts.deep_view()[k]),
            ),
            out.deep_view() == ended.take(i as int),
        decreases parts@.len() - i,
    {
        let chars = chars_of(parts[i].as_str());
        let n: usize = chars.len();
        let line = if n > 0 && chars[n - 1] == '\r' {
            text_of(&chars, 0, n - 1)
        } else {
            text_of(&chars, 0, n)
        };
        assert(parts.deep_view()[i as int] == chars@);
        assert(chars@.subrange(0, n as int) == chars@);
        assert(line@ == ended[i as int]);
        let ghost before = out.deep_view();
        out.push(line);
        assert(out.deep_view() == before.push(line@));
        i += 1;
        assert(ended.take(i as int) == ended.take(i - 1).push(ended[i - 1]));
    }
    assert(ended.take(ended.len() as int) == ended);
    let ghost before = out.deep_view();
    assert(parts.deep_view().last() == parts@[parts@.len() - 1]@);
    if !parts[parts.len() - 1].as_str().is_empty() {
        let last = parts[parts.len() - 1].clone();
        out.push(last);
        assert(out.deep_view() == before.push(last@));
    }
    out
}

/// Texts put one behind the other with a separator between each two.
pub open spec fn joined_with(parts: Seq<Seq<char>>, sep: Seq<char>) -> Seq<char>
    decreases parts.len(),
{
    if parts.len() == 0 {
        Seq::empty()
    } else if parts.len() == 1 {
        parts[0]
    } else {
        joined_with(parts.drop_last(), sep) + sep + parts.last()
    }
}

/// Puts texts one behind the other with a separator between each two.
pub fn join_with(parts: &Vec<String>, sep: &str) -> (out: String)
    ensures
        out@ == joined_with(parts.deep_view(), sep@),
{
    let mut out = String::new();
    let mut i: usize = 0;
    assert(parts.deep_view().take(0) == Seq::<Seq<char>>::empty());
    while i < parts.len()
        invariant
            i <= parts@.len(),
            out@ == joined_with(parts.deep_view().take(i as int), sep@),
        decreases parts@.len() - i,
    {
        let ghost next = parts.deep_view().take(i + 1);
        assert(next.drop_last() == parts.deep_view().take(i as int));
        assert(next.last() == parts@[i as int]@);
        if i > 0 {
            out.append(sep);
        }
        out.append(parts[i].as_str());
        assert(i == 0 ==> out@ == parts@[0]@);
        i += 1;
    }
    assert(parts.deep_view().take(parts@.len() as int) == parts.deep_view());
    out
}

/// The words of a text: the longest runs of characters that are not white space.
pub open spec fn words(s: Seq<char>) -> Seq<Seq<char>>
    decreases s.len(),
{
    if s.len() == 0 {
        Seq::empty()
    } else {
        let before = words(s.drop_last());
        if is_white(s.last()) {
            before
        } else if s.len() >= 2 && !is_white(s[s.len() - 2]) {
            before.drop_last().push(before.last().push(s.last()))
        } else {
            before.push(seq![s.last()])
        }
    }
}

/// The words of a text.
pub fn words_of(s: &str) -> (out: Vec<String>)
    ensures
        out.deep_view() == words(s@),
{
    let chars = chars_of(s);
    let mut out: Vec<String> = Vec::new();
    let mut word = String::new();
    let mut open: bool = false;
    let mut i: usize = 0;
    assert(chars@.take(0) == Seq::<char>::empty());
    assert(out.deep_view() == words(chars@.take(0)));
    while i < chars.len()
        invariant
            i <= chars@.len(),
            open == (i > 0 && !is_white(chars@[i - 1])),
            !open ==> out.deep_view() == words(chars@.take(i as int)) && word@.len() == 0,
            open ==> out.deep_view().push(word@) == words(chars@.take(i as int)),
        decreases chars@.len() - i,
    {
        let c = chars[i];
        let ghost now = chars@.take(i + 1);
        assert(now.drop_last() == chars@.take(i as int));
        assert(now.last() == c);
        assert(i > 0 ==> now[now.len() - 2] == chars@[i - 1]);
        let ghost before = out.deep_view();
        if c.is_whitespace() {
            if open {
                let done = word.clone();
                out.push(done);
                assert(out.deep_view() == before.push(done@));
                word = String::new();
                open = false;
            }
        } else {
            let ghost start = word@;
            word.push(c);
            proof {
                if open {
                    assert(before.push(start).drop_last() == before);
                    assert(words(now) == before.push(start.push(c)));
                } else {
                    assert(word@ == seq![c]);
                }
            }
            open = true;
        }
        i += 1;
    }
    assert(chars@.take(chars@.len() as int) == s@);
    if open {
        let ghost before = out.deep_view();
        out.push(word);
        assert(out.deep_view() == before.push(word@));
    }
    out
}

// ---------------------------------------------------------------------------------------------
// What reading a text keeps to
// ---------------------------------------------------------------------------------------------

/// A text begins with another exactly where it is that other text with something behind it.
pub proof fn a_prefix_has_a_rest<T>(s: Seq<T>, prefix: Seq<T>)
    ensures
        begins_with(s, prefix) <==> exists|rest: Seq<T>| s == #[trigger] (prefix + rest),
        begins_with(s, prefix) ==> prefix.len() <= s.len() && forall|i: int|
            0 <= i < prefix.len() ==> #[trigger] s[i] == prefix[i],
{
    if begins_with(s, prefix) {
        assert(s == prefix + s.skip(prefix.len() as int));
        assert forall|i: int| 0 <= i < prefix.len() implies #[trigger] s[i] == prefix[i] by {
            assert(s.take(prefix.len() as int)[i] == s[i]);
        }
    }
    if exists|rest: Seq<T>| s == #[trigger] (prefix + rest) {
        let rest = choose|rest: Seq<T>| s == #[trigger] (prefix + rest);
        assert((prefix + rest).take(prefix.len() as int) == prefix);
    }
}

/// Of the characters in ASCII, the white ones are the tab, the line breaks and the blank.
pub proof fn ascii_white_space(c: char)
    requires
        c as u32 <= 0x7f,
    ensures
        is_white(c) <==> c == ' ' || c == '\t' || c == '\n' || c == '\r' || c == '\u{b}' || c
            == '\u{c}',
{
}

/// Where a character is found first it stands, and nowhere before; where it is not found it does
/// not occur.
pub proof fn a_first_place_is_the_first(s: Seq<char>, c: char)
    ensures
        first_at(s, c) == -1 <==> !s.contains(c),
        first_at(s, c) != -1 ==> 0 <= first_at(s, c) < s.len() && s[first_at(s, c)] == c
            && forall|i: int| 0 <= i < first_at(s, c) ==> #[trigger] s[i] != c,
    decreases s.len(),
{
    if s.len() > 0 {
        let less = s.drop_last();
        a_first_place_is_the_first(less, c);
        assert forall|i: int| 0 <= i < first_at(s, c) implies #[trigger] s[i] != c by {
            assert(less[i] == s[i]);
            assert(first_at(less, c) == -1 ==> !less.contains(less[i]) || less[i] != c);
        }
        if first_at(less, c) == -1 && s.contains(c) {
            let at = choose|at: int| 0 <= at < s.len() && s[at] == c;
            if at < less.len() {
                assert(less[at] == c);
            }
        }
        if first_at(s, c) != -1 {
            assert(s[first_at(s, c)] == c);
        }
    }
}

/// Where a character is found last it stands, and nowhere behind; where it is not found it does
/// not occur.
pub proof fn a_last_place_is_the_last(s: Seq<char>, c: char)
    ensures
        last_at(s, c) == -1 <==> !s.contains(c),
        last_at(s, c) != -1 ==> 0 <= last_at(s, c) < s.len() && s[last_at(s, c)] == c
            && forall|i: int| last_at(s, c) < i < s.len() ==> #[trigger] s[i] != c,
    decreases s.len(),
{
    if s.len() > 0 {
        let less = s.drop_last();
        if s.last() == c {
            assert(s[s.len() - 1] == c);
        } else {
            a_last_place_is_the_last(less, c);
            assert forall|i: int| last_at(s, c) < i < s.len() implies #[trigger] s[i] != c by {
                if i < less.len() {
                    assert(less[i] == s[i]);
                    assert(last_at(less, c) == -1 ==> less[i] != c || less.contains(c));
                }
            }
            if last_at(less, c) == -1 && s.contains(c) {
                let at = choose|at: int| 0 <= at < s.len() && s[at] == c;
                assert(less[at] == c);
            }
        }
    }
}

/// Trimming takes white characters off both ends and nothing else.
pub proof fn trimming_takes_white_ends_only(s: Seq<char>)
    ensures
        exists|left: int, right: int|
            {
                &&& 0 <= left <= right <= s.len()
                &&& trimmed(s) == #[trigger] s.subrange(left, right)
                &&& forall|i: int|
                    0 <= i < left || right <= i < s.len() ==> is_white(#[trigger] s[i])
            },
        trimmed(s).len() > 0 ==> !is_white(trimmed(s)[0]) && !is_white(trimmed(s).last()),
        trimmed(s).len() == 0 <==> forall|i: int| 0 <= i < s.len() ==> is_white(#[trigger] s[i]),
{
    lemma_trim_start_cuts(s);
    let mid = trim_start(s);
    let left = s.len() - mid.len();
    lemma_trim_end_cuts(mid);
    let right = left + trim_end(mid).len();
    assert(trimmed(s) == s.subrange(left, right));
    assert forall|i: int| 0 <= i < left || right <= i < s.len() implies is_white(
        #[trigger] s[i],
    ) by {
        if right <= i {
            assert(mid[i - left] == s[i]);
        }
    }
    trimmed_has_no_white_ends(s);
    if trimmed(s).len() > 0 {
        assert(s[left] == trimmed(s)[0]);
    }
}

proof fn lemma_trim_start_cuts(s: Seq<char>)
    ensures
        trim_start(s).len() <= s.len(),
        trim_start(s) == s.skip(s.len() - trim_start(s).len()),
        forall|i: int| 0 <= i < s.len() - trim_start(s).len() ==> is_white(#[trigger] s[i]),
    decreases s.len(),
{
    if s.len() > 0 && is_white(s[0]) {
        let rest = s.drop_first();
        lemma_trim_start_cuts(rest);
        assert(rest.skip(rest.len() - trim_start(rest).len()) == s.skip(
            s.len() - trim_start(s).len(),
        ));
        assert forall|i: int| 0 <= i < s.len() - trim_start(s).len() implies is_white(
            #[trigger] s[i],
        ) by {
            if i > 0 {
                assert(rest[i - 1] == s[i]);
            }
        }
    } else {
        assert(s.skip(0) == s);
    }
}

proof fn lemma_trim_end_cuts(s: Seq<char>)
    ensures
        trim_end(s).len() <= s.len(),
        trim_end(s) == s.take(trim_end(s).len() as int),
        forall|i: int| trim_end(s).len() <= i < s.len() ==> is_white(#[trigger] s[i]),
    decreases s.len(),
{
    if s.len() > 0 && is_white(s.last()) {
        let rest = s.drop_last();
        lemma_trim_end_cuts(rest);
        assert(rest.take(trim_end(rest).len() as int) == s.take(trim_end(s).len() as int));
        assert forall|i: int| trim_end(s).len() <= i < s.len() implies is_white(
            #[trigger] s[i],
        ) by {
            if i < rest.len() {
                assert(rest[i] == s[i]);
            }
        }
    } else {
        assert(s.take(s.len() as int) == s);
    }
}

/// Splitting goes piece by piece: what stands on the two sides of a separator is split on its own,
/// and what holds no separator is one piece.
pub proof fn splitting_goes_piece_by_piece<T>(a: Seq<T>, sep: T, b: Seq<T>)
    ensures
        pieces(a.push(sep) + b, sep) == pieces(a, sep) + pieces(b, sep),
        !a.contains(sep) ==> pieces(a, sep) == seq![a],
    decreases b.len(),
{
    lemma_one_piece(a, sep);
    let whole = a.push(sep) + b;
    if b.len() == 0 {
        assert(whole == a.push(sep));
        assert(whole.drop_last() == a);
        assert(pieces(whole, sep) == pieces(a, sep) + pieces(b, sep));
    } else {
        let less = b.drop_last();
        splitting_goes_piece_by_piece(a, sep, less);
        pieces_hold_no_separator(less, sep);
        assert(whole.drop_last() == a.push(sep) + less);
        assert(whole.last() == b.last());
        let before = pieces(a, sep) + pieces(less, sep);
        assert(before.last() == pieces(less, sep).last());
        assert(before.drop_last() == pieces(a, sep) + pieces(less, sep).drop_last());
        assert(pieces(whole, sep) == pieces(a, sep) + pieces(b, sep));
    }
}

proof fn lemma_one_piece<T>(a: Seq<T>, sep: T)
    ensures
        !a.contains(sep) ==> pieces(a, sep) == seq![a],
    decreases a.len(),
{
    if !a.contains(sep) {
        if a.len() > 0 {
            let less = a.drop_last();
            assert forall|i: int| 0 <= i < less.len() implies less[i] != sep by {
                assert(a.contains(a[i]));
            }
            lemma_one_piece(less, sep);
            assert(a.contains(a.last()));
            assert(less.push(a.last()) == a);
            assert(pieces(a, sep) == seq![a]);
        } else {
            assert(a == Seq::<T>::empty());
        }
    }
}

/// A list is read entry by entry: what stands on the two sides of a comma is read on its own, and
/// of what holds no comma the trimmed text is the one entry, unless nothing is left of it.
pub proof fn a_list_is_read_entry_by_entry(a: Seq<char>, b: Seq<char>)
    ensures
        listed(a.push(',') + b) == listed(a) + listed(b),
        !a.contains(',') && trimmed(a).len() > 0 ==> listed(a) == seq![trimmed(a)],
        !a.contains(',') && trimmed(a).len() == 0 ==> listed(a) == Seq::<Seq<char>>::empty(),
{
    splitting_goes_piece_by_piece(a, ',', b);
    lemma_entries_add_up(pieces(a, ','), pieces(b, ','));
    if !a.contains(',') {
        assert(seq![a].drop_last() == Seq::<Seq<char>>::empty());
        assert(entries(Seq::<Seq<char>>::empty()) == Seq::<Seq<char>>::empty());
        assert(seq![a].last() == a);
        if trimmed(a).len() > 0 {
            assert(listed(a) == Seq::<Seq<char>>::empty().push(trimmed(a)));
            assert(listed(a) == seq![trimmed(a)]);
        }
    }
}

proof fn lemma_entries_add_up(a: Seq<Seq<char>>, b: Seq<Seq<char>>)
    ensures
        entries(a + b) == entries(a) + entries(b),
    decreases b.len(),
{
    if b.len() == 0 {
        assert(a + b == a);
        assert(entries(a) + entries(b) == entries(a));
    } else {
        lemma_entries_add_up(a, b.drop_last());
        assert((a + b).drop_last() == a + b.drop_last());
        assert((a + b).last() == b.last());
        assert(entries(a + b) == entries(a) + entries(b));
    }
}

/// Lines are read one by one: each ends at a line feed, a carriage return right before which does
/// not belong to it, and what follows the last line feed is a line too unless it is empty.
pub proof fn lines_are_read_one_by_one(line: Seq<char>, rest: Seq<char>)
    requires
        !line.contains('\n'),
    ensures
        lines(line.push('\n') + rest) == seq![
            if line.len() > 0 && line.last() == '\r' {
                line.drop_last()
            } else {
                line
            },
        ] + lines(rest),
        line.len() > 0 ==> lines(line) == seq![line],
        lines(Seq::<char>::empty()) == Seq::<Seq<char>>::empty(),
{
    splitting_goes_piece_by_piece(line, '\n', rest);
    pieces_hold_no_separator(rest, '\n');
    let whole = line.push('\n') + rest;
    let parts = pieces(whole, '\n');
    let tail = pieces(rest, '\n');
    assert(parts == seq![line] + tail);
    assert(parts.last() == tail.last());
    let first = without_return(line);
    let ended = Seq::new((parts.len() - 1) as nat, |i: int| without_return(parts[i]));
    let ended_tail = Seq::new((tail.len() - 1) as nat, |i: int| without_return(tail[i]));
    assert(ended == seq![first] + ended_tail) by {
        assert forall|i: int| 0 <= i < ended.len() implies ended[i] == (seq![first] + ended_tail)[i] by {
            if i > 0 {
                assert(parts[i] == tail[i - 1]);
            }
        }
    }
    assert(lines(whole) == seq![first] + lines(rest));
    if line.len() > 0 {
        assert(lines(line) == seq![line]);
    }
    assert(pieces(Seq::<char>::empty(), '\n') == seq![Seq::<char>::empty()]);
    assert(lines(Seq::<char>::empty()) == Seq::<Seq<char>>::empty());
}

/// Joining puts the separator between every two neighbours and nothing else anywhere.
pub proof fn joining_puts_the_separator_between(
    a: Seq<Seq<char>>,
    b: Seq<Seq<char>>,
    part: Seq<char>,
    sep: Seq<char>,
)
    ensures
        a.len() > 0 && b.len() > 0 ==> joined_with(a + b, sep) == joined_with(a, sep) + sep
            + joined_with(b, sep),
        joined_with(seq![part], sep) == part,
        joined_with(Seq::empty(), sep) == Seq::<char>::empty(),
    decreases b.len(),
{
    if a.len() > 0 && b.len() == 1 {
        assert((a + b).drop_last() == a);
        assert((a + b).last() == b[0]);
    } else if a.len() > 0 && b.len() > 1 {
        joining_puts_the_separator_between(a, b.drop_last(), part, sep);
        assert((a + b).drop_last() == a + b.drop_last());
        assert((a + b).last() == b.last());
        assert(joined_with(a + b, sep) == joined_with(a, sep) + sep + joined_with(b, sep));
    }
}

/// Words are what white space parts: what stands on the two sides of a white character is read on
/// its own, and a text without any is one word, unless it is empty.
pub proof fn words_are_what_white_space_parts(a: Seq<char>, white: char, b: Seq<char>)
    requires
        is_white(white),
    ensures
        words(a.push(white) + b) == words(a) + words(b),
        a.len() > 0 && (forall|i: int| 0 <= i < a.len() ==> !is_white(#[trigger] a[i]))
            ==> words(a) == seq![a],
        words(Seq::<char>::empty()) == Seq::<Seq<char>>::empty(),
    decreases b.len(),
{
    lemma_one_word(a);
    let whole = a.push(white) + b;
    if b.len() == 0 {
        assert(whole == a.push(white));
        assert(whole.drop_last() == a);
        assert(words(whole) == words(a) + words(b));
    } else {
        let less = b.drop_last();
        words_are_what_white_space_parts(a, white, less);
        assert(whole.drop_last() == a.push(white) + less);
        assert(whole.last() == b.last());
        assert(b.len() >= 2 ==> whole[whole.len() - 2] == b[b.len() - 2]);
        assert(b.len() == 1 ==> whole[whole.len() - 2] == white);
        if !is_white(b.last()) && b.len() >= 2 && !is_white(b[b.len() - 2]) {
            lemma_a_word_is_open(less);
            let before = words(a) + words(less);
            assert(before.last() == words(less).last());
            assert(before.drop_last() == words(a) + words(less).drop_last());
        }
        assert(words(whole) == words(a) + words(b));
    }
}

proof fn lemma_a_word_is_open(s: Seq<char>)
    requires
        s.len() > 0,
        !is_white(s.last()),
    ensures
        words(s).len() > 0,
    decreases s.len(),
{
    if s.len() >= 2 && !is_white(s[s.len() - 2]) {
        lemma_a_word_is_open(s.drop_last());
    }
}

proof fn lemma_one_word(a: Seq<char>)
    ensures
        a.len() > 0 && (forall|i: int| 0 <= i < a.len() ==> !is_white(#[trigger] a[i]))
            ==> words(a) == seq![a],
    decreases a.len(),
{
    if a.len() > 0 && (forall|i: int| 0 <= i < a.len() ==> !is_white(#[trigger] a[i])) {
        let less = a.drop_last();
        assert(!is_white(a[a.len() - 1]));
        if less.len() > 0 {
            assert forall|i: int| 0 <= i < less.len() implies !is_white(#[trigger] less[i]) by {
                assert(less[i] == a[i]);
            }
            lemma_one_word(less);
            assert(!is_white(a[a.len() - 2]));
            assert(less.push(a.last()) == a);
            assert(words(a) == seq![a]);
        } else {
            assert(a == seq![a.last()]);
            assert(words(less) == Seq::<Seq<char>>::empty());
            assert(words(a) == seq![a]);
        }
    }
}

} // verus!
