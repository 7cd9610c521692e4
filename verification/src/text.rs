//! Texts: finding a character, splitting at a separator and joining again,
//! with contracts for the two operations of std that this takes and that
//! vstd does not describe.

use vstd::prelude::*;
use vstd::std_specs::iter::IteratorSpec;
use vstd::string::{StrSliceExecFns, StringExecFns};

verus! {

/// `str`'s `==`: two string slices are equal exactly when they hold the same
/// characters.
pub assume_specification[ <str as PartialEq>::eq ](a: &str, b: &str) -> (res: bool)
    ensures
        res == (a@ == b@),
;

/// `String::push` appends one character and changes nothing else.
pub assume_specification[ String::push ](s: &mut String, c: char)
    ensures
        final(s)@ == old(s)@.push(c),
;

/// The characters of `a` followed by those of `b`, as a new `String`.
pub fn followed_by(a: &str, b: &str) -> (res: String)
    ensures
        res@ == a@ + b@,
{
    let mut res = a.to_owned();
    res.append(b);
    res
}

/// Where `c` first stands in `s`; the length of `s` if it stands nowhere.
pub open spec fn position_of(s: Seq<char>, c: char) -> int
    decreases s.len(),
{
    if s.len() == 0 || s[0] == c {
        0
    } else {
        1 + position_of(s.drop_first(), c)
    }
}

/// [`position_of`] is the least position that holds `c`.
pub proof fn lemma_position_of(s: Seq<char>, c: char, i: int)
    requires
        0 <= i <= s.len(),
        forall|j: int| 0 <= j < i ==> s[j] != c,
        i == s.len() || s[i] == c,
    ensures
        position_of(s, c) == i,
    decreases s.len(),
{
    if s.len() != 0 && s[0] != c {
        let rest = s.drop_first();
        assert forall|j: int| 0 <= j < i - 1 implies rest[j] != c by {
            assert(rest[j] == s[j + 1]);
        }
        lemma_position_of(rest, c, i - 1);
    }
}

/// Finds the first `c` in `s`, counting characters.
pub fn find_char(s: &str, c: char) -> (res: usize)
    ensures
        res == position_of(s@, c),
        res <= s@.len(),
{
    broadcast use vstd::string::group_string_axioms;

    let len = s.unicode_len();
    let mut it = s.chars();
    let mut i: usize = 0;
    loop
        invariant
            it.obeys_prophetic_iter_laws(),
            it.decrease() is Some,
            len == s@.len(),
            i <= len,
            s@.skip(i as int) == it.remaining(),
            forall|j: int| 0 <= j < i ==> s@[j] != c,
        decreases it.decrease()->0,
    {
        match it.next() {
            Some(found) => {
                assert(found == s@.skip(i as int)[0]);
                if found == c {
                    proof {
                        lemma_position_of(s@, c, i as int);
                    }
                    return i;
                }
                assert(s@.skip(i as int).drop_first() =~= s@.skip(i + 1));
                i += 1;
            },
            None => {
                assert(s@.skip(i as int).len() == 0);
                proof {
                    lemma_position_of(s@, c, i as int);
                }
                return i;
            },
        }
    }
}

/// The parts of `s` between the places where `sep` stands. There is one
/// part more than there are separators: a text without any is one part, the
/// empty text too, and two separators side by side hold an empty part.
pub open spec fn split(s: Seq<char>, sep: char) -> Seq<Seq<char>>
    decreases s.len(),
{
    if s.len() == 0 {
        seq![Seq::empty()]
    } else {
        let parts = split(s.drop_last(), sep);
        if s.last() == sep {
            parts.push(Seq::empty())
        } else {
            parts.update(parts.len() - 1, parts.last().push(s.last()))
        }
    }
}

/// The parts, one after the other, with `sep` between each two.
pub open spec fn join(parts: Seq<Seq<char>>, sep: Seq<char>) -> Seq<char>
    decreases parts.len(),
{
    if parts.len() == 0 {
        Seq::empty()
    } else if parts.len() == 1 {
        parts[0]
    } else {
        join(parts.drop_last(), sep) + sep + parts.last()
    }
}

/// How often `c` stands in `s`.
pub open spec fn count_of(s: Seq<char>, c: char) -> nat
    decreases s.len(),
{
    if s.len() == 0 {
        0
    } else if s.last() == c {
        count_of(s.drop_last(), c) + 1
    } else {
        count_of(s.drop_last(), c)
    }
}

/// Splitting loses nothing: there is one part more than separators, no part
/// holds the separator, and the parts joined by it give the text back.
pub proof fn lemma_split(s: Seq<char>, sep: char)
    ensures
        split(s, sep).len() == count_of(s, sep) + 1,
        forall|k: int|
            0 <= k < split(s, sep).len() ==> !(#[trigger] split(s, sep)[k]).contains(sep),
        join(split(s, sep), seq![sep]) == s,
    decreases s.len(),
{
    if s.len() != 0 {
        lemma_split(s.drop_last(), sep);
        let parts = split(s.drop_last(), sep);
        if s.last() == sep {
            lemma_join_new_part(parts, seq![sep]);
            assert(s.drop_last() + seq![sep] =~= s);
        } else {
            lemma_join_longer_part(parts, seq![sep], s.last());
            assert(s.drop_last().push(s.last()) =~= s);
        }
    }
}

/// Joining after a new, empty part was added: the separator is appended.
pub proof fn lemma_join_new_part(parts: Seq<Seq<char>>, sep: Seq<char>)
    requires
        parts.len() > 0,
    ensures
        join(parts.push(Seq::empty()), sep) == join(parts, sep) + sep,
{
    let longer = parts.push(Seq::empty());
    assert(longer.drop_last() =~= parts);
    assert(join(parts, sep) + sep + Seq::<char>::empty() =~= join(parts, sep) + sep);
}

/// Joining after the last part grew by `c`: `c` is appended.
pub proof fn lemma_join_longer_part(parts: Seq<Seq<char>>, sep: Seq<char>, c: char)
    requires
        parts.len() > 0,
    ensures
        join(parts.update(parts.len() - 1, parts.last().push(c)), sep) == join(parts, sep).push(c),
{
    let longer = parts.update(parts.len() - 1, parts.last().push(c));
    if parts.len() > 1 {
        assert(longer.drop_last() =~= parts.drop_last());
        assert(join(parts.drop_last(), sep) + sep + parts.last().push(c) =~= (join(
            parts.drop_last(),
            sep,
        ) + sep + parts.last()).push(c));
    }
}

} // verus!
