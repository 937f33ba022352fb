//! Text as sequences of characters: splitting at a separator, and the way
//! between strings and vectors of characters.

use vstd::prelude::*;

verus! {

/// Assumed of `String::push` of the standard library, not proved here: it
/// appends the given character to the end of the string and changes nothing
/// else.
pub assume_specification[ std::string::String::push ](s: &mut std::string::String, c: char)
    ensures
        final(s)@ == old(s)@.push(c),
;

/// Assumed of `==` on `str` of the standard library, not proved here: two
/// string slices are equal exactly when they hold the same characters in the
/// same order.
pub assume_specification[ <str as PartialEq>::eq ](a: &str, b: &str) -> (r: bool)
    ensures
        r == (a@ == b@),
;

/// What each string of `strings` holds.
pub open spec fn texts(strings: Seq<String>) -> Seq<Seq<char>> {
    Seq::new(strings.len(), |i: int| strings[i]@)
}

/// What each row of `rows` holds.
pub open spec fn rows(rows: Seq<Vec<char>>) -> Seq<Seq<char>> {
    Seq::new(rows.len(), |i: int| rows[i]@)
}

/// The segments of `s` between the occurrences of `separator`. There is one
/// more segment than there are separators, so the empty text has one empty
/// segment.
pub open spec fn split(s: Seq<char>, separator: char) -> Seq<Seq<char>>
    decreases s.len(),
{
    if s.len() == 0 {
        seq![Seq::empty()]
    } else {
        let before = split(s.drop_last(), separator);
        if s.last() == separator {
            before.push(Seq::empty())
        } else {
            before.drop_last().push(before.last().push(s.last()))
        }
    }
}

/// `parts` put together with `separator` between each two.
pub open spec fn join(parts: Seq<Seq<char>>, separator: char) -> Seq<char>
    decreases parts.len(),
{
    if parts.len() == 0 {
        Seq::empty()
    } else if parts.len() == 1 {
        parts[0]
    } else {
        join(parts.drop_last(), separator).push(separator) + parts.last()
    }
}

/// Splitting loses nothing and leaves no separator behind: the segments of a
/// text are free of the separator, and joined again they give the text.
pub proof fn lemma_split_join(s: Seq<char>, separator: char)
    ensures
        split(s, separator).len() >= 1,
        join(split(s, separator), separator) == s,
        forall|i: int, j: int|
            0 <= i < split(s, separator).len() && 0 <= j < split(s, separator)[i].len()
                ==> split(s, separator)[i][j] != separator,
    decreases s.len(),
{
    if s.len() > 0 {
        let rest = s.drop_last();
        let before = split(rest, separator);
        lemma_split_join(rest, separator);
        assert(rest.push(s.last()) =~= s);
        if s.last() == separator {
            let parts = before.push(Seq::empty());
            assert(parts.drop_last() =~= before);
            assert(join(parts, separator) =~= rest.push(separator));
        } else {
            let grown = before.last().push(s.last());
            let parts = before.drop_last().push(grown);
            assert(parts.drop_last() =~= before.drop_last());
            if before.len() == 1 {
                assert(before[0] == rest);
                assert(join(parts, separator) =~= s);
            } else {
                assert(join(parts, separator) =~= join(before, separator).push(s.last()));
            }
        }
    }
}

/// The characters of `s`, in order.
pub fn chars_of(s: &str) -> (r: Vec<char>)
    ensures
        r@ == s@,
{
    let mut out: Vec<char> = Vec::new();
    for c in it: s.chars()
        invariant
            it.seq() == s@,
            out@ == s@.take(it.index()),
    {
        out.push(c);
    }
    out
}

/// The string made of `chars`, in order.
pub fn string_of(chars: &Vec<char>) -> (r: String)
    ensures
        r@ == chars@,
{
    let mut out = String::new();
    let mut i: usize = 0;
    while i < chars.len()
        invariant
            i <= chars.len(),
            out@ == chars@.take(i as int),
        decreases chars.len() - i,
    {
        out.push(chars[i]);
        i += 1;
    }
    out
}

/// Splits `s` at every `separator`.
pub fn split_chars(s: &Vec<char>, separator: char) -> (r: Vec<Vec<char>>)
    ensures
        rows(r@) == split(s@, separator),
{
    let mut done: Vec<Vec<char>> = Vec::new();
    let mut current: Vec<char> = Vec::new();
    let mut i: usize = 0;
    while i < s.len()
        invariant
            i <= s.len(),
            rows(done@).push(current@) == split(s@.take(i as int), separator),
        decreases s.len() - i,
    {
        let c = s[i];
        proof {
            assert(s@.take(i + 1).drop_last() =~= s@.take(i as int));
        }
        let ghost before = rows(done@).push(current@);
        if c == separator {
            done.push(current);
            current = Vec::new();
        } else {
            current.push(c);
            assert(rows(done@).push(current@) =~= before.drop_last().push(
                before.last().push(c),
            ));
        }
        i += 1;
    }
    assert(s@.take(s.len() as int) =~= s@);
    done.push(current);
    done
}

} // verus!
