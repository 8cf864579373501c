//! Splitting text at a separator character and into lines.
//!
//! The specifications are written over `Seq<char>`, the view of `str` and
//! `String`; the executable functions walk the characters once.

use vstd::prelude::*;

verus! {

/// `String::push` of the standard library: the character is appended at the
/// end, the rest of the string is unchanged.
pub assume_specification[ String::push ](s: &mut String, c: char)
    ensures
        final(s)@ == old(s)@.push(c),
;

/// The views of a sequence of strings.
pub open spec fn texts(v: Seq<String>) -> Seq<Seq<char>> {
    v.map_values(|s: String| s@)
}

/// The segments of `s` that lie between the occurrences of `sep`, in order.
/// There is always at least one segment; a separator at either end, or two in
/// a row, give an empty segment.
pub open spec fn tokens(s: Seq<char>, sep: char) -> Seq<Seq<char>>
    decreases s.len(),
{
    if s.len() == 0 {
        seq![Seq::<char>::empty()]
    } else {
        let before = tokens(s.drop_last(), sep);
        if s.last() == sep {
            before.push(Seq::<char>::empty())
        } else {
            before.drop_last().push(before.last().push(s.last()))
        }
    }
}

/// The segments put together again with `sep` between them.
pub open spec fn joined(parts: Seq<Seq<char>>, sep: char) -> Seq<char>
    decreases parts.len(),
{
    if parts.len() == 0 {
        Seq::<char>::empty()
    } else if parts.len() == 1 {
        parts[0]
    } else {
        joined(parts.drop_last(), sep) + seq![sep] + parts.last()
    }
}

/// How often `c` occurs in `s`.
pub open spec fn occurrences(s: Seq<char>, c: char) -> nat
    decreases s.len(),
{
    if s.len() == 0 {
        0
    } else {
        occurrences(s.drop_last(), c) + if s.last() == c {
            1nat
        } else {
            0nat
        }
    }
}

/// Splitting yields one segment more than there are separators, no segment
/// holds the separator, and joining the segments gives the text back.
pub proof fn lemma_tokens(s: Seq<char>, sep: char)
    ensures
        tokens(s, sep).len() == occurrences(s, sep) + 1,
        forall|i: int|
            0 <= i < tokens(s, sep).len() ==> !(#[trigger] tokens(s, sep)[i]).contains(sep),
        joined(tokens(s, sep), sep) == s,
    decreases s.len(),
{
    let t = tokens(s, sep);
    if s.len() == 0 {
        assert(t =~= seq![Seq::<char>::empty()]);
        assert(!t[0].contains(sep));
    } else {
        let before = tokens(s.drop_last(), sep);
        lemma_tokens(s.drop_last(), sep);
        if s.last() == sep {
            assert(t.drop_last() =~= before);
            assert(!t.last().contains(sep));
            assert forall|i: int| 0 <= i < t.len() implies !(#[trigger] t[i]).contains(sep) by {
                if i < before.len() {
                    assert(t[i] == before[i]);
                }
            }
            assert(joined(t, sep) =~= s.drop_last() + seq![sep] + Seq::<char>::empty());
            assert(joined(t, sep) =~= s);
        } else {
            let grown = before.last().push(s.last());
            assert forall|i: int| 0 <= i < t.len() implies !(#[trigger] t[i]).contains(sep) by {
                if i < before.len() - 1 {
                    assert(t[i] == before[i]);
                } else {
                    assert(t[i] == grown);
                    if grown.contains(sep) {
                        let k = choose|k: int| 0 <= k < grown.len() && grown[k] == sep;
                        assert(before.last()[k] == sep);
                        assert(before.last().contains(sep));
                    }
                }
            }
            assert(t.drop_last() =~= before.drop_last());
            if before.len() == 1 {
                assert(joined(before, sep) == before[0]);
                assert(joined(t, sep) =~= s.drop_last().push(s.last()));
            } else {
                assert(joined(before, sep) == joined(before.drop_last(), sep) + seq![sep]
                    + before.last());
                assert(joined(t, sep) =~= (joined(before.drop_last(), sep) + seq![sep]
                    + before.last()).push(s.last()));
                assert(joined(t, sep) =~= s.drop_last().push(s.last()));
            }
            assert(s.drop_last().push(s.last()) =~= s);
        }
    }
}

/// Splits `s` at every `sep`, as `str::split` does with a character.
pub fn split(s: &str, sep: char) -> (r: Vec<String>)
    ensures
        texts(r@) == tokens(s@, sep),
{
    let mut done: Vec<String> = Vec::new();
    let mut current = String::new();
    for c in it: s.chars()
        invariant
            it.seq() == s@,
            texts(done@).push(current@) == tokens(s@.take(it.index()), sep),
    {
        proof {
            let seen = s@.take(it.index() + 1);
            assert(seen.drop_last() =~= s@.take(it.index()));
            assert(seen.last() == c);
        }
        if c == sep {
            done.push(current);
            current = String::new();
            assert(texts(done@).push(current@) =~= tokens(s@.take(it.index() + 1), sep));
        } else {
            current.push(c);
            assert(texts(done@).push(current@) =~= tokens(s@.take(it.index() + 1), sep));
        }
    }
    proof {
        assert(s@.take(s@.len() as int) =~= s@);
    }
    done.push(current);
    assert(texts(done@) =~= tokens(s@, sep));
    done
}

/// A line without the carriage return that stood before its line feed.
pub open spec fn without_cr(line: Seq<char>) -> Seq<char> {
    if line.len() > 0 && line.last() == '\r' {
        line.drop_last()
    } else {
        line
    }
}

/// The lines of a text. A line ends at a line feed; a carriage return just
/// before the line feed belongs to the line ending. What follows the last
/// line feed is a line of its own unless it is empty.
pub open spec fn lines_of(s: Seq<char>) -> Seq<Seq<char>> {
    let t = tokens(s, '\n');
    let ended = t.drop_last().map_values(|l: Seq<char>| without_cr(l));
    if t.last().len() == 0 {
        ended
    } else {
        ended.push(t.last())
    }
}

/// The lines of `s`, as `str::lines` gives them.
pub fn lines(s: &str) -> (r: Vec<String>)
    ensures
        texts(r@) == lines_of(s@),
{
    let mut done: Vec<String> = Vec::new();
    let mut current = String::new();
    let mut held_cr = false;
    for c in it: s.chars()
        invariant
            it.seq() == s@,
            texts(done@) == tokens(s@.take(it.index()), '\n').drop_last().map_values(
                |l: Seq<char>| without_cr(l),
            ),
            tokens(s@.take(it.index()), '\n').last() == if held_cr {
                current@.push('\r')
            } else {
                current@
            },
            !held_cr ==> without_cr(current@) == current@,
    {
        let ghost before = tokens(s@.take(it.index()), '\n');
        let ghost after = tokens(s@.take(it.index() + 1), '\n');
        proof {
            let seen = s@.take(it.index() + 1);
            assert(seen.drop_last() =~= s@.take(it.index()));
            assert(seen.last() == c);
            lemma_tokens(s@.take(it.index()), '\n');
        }
        if c == '\n' {
            proof {
                assert(after.drop_last() =~= before);
                assert(before =~= before.drop_last().push(before.last()));
                assert(without_cr(before.last()) =~= current@);
                assert(before.map_values(|l: Seq<char>| without_cr(l))
                    =~= before.drop_last().map_values(|l: Seq<char>| without_cr(l)).push(
                    without_cr(before.last()),
                ));
            }
            done.push(current);
            current = String::new();
            held_cr = false;
            assert(texts(done@) =~= after.drop_last().map_values(|l: Seq<char>| without_cr(l)));
        } else {
            proof {
                assert(after.drop_last() =~= before.drop_last());
            }
            if held_cr {
                current.push('\r');
            }
            if c == '\r' {
                held_cr = true;
            } else {
                held_cr = false;
                current.push(c);
            }
        }
    }
    proof {
        assert(s@.take(s@.len() as int) =~= s@);
    }
    if held_cr {
        current.push('\r');
    }
    if !current.as_str().is_empty() {
        done.push(current);
        assert(texts(done@) =~= lines_of(s@));
    }
    done
}

} // verus!
