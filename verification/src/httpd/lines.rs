//! Lines of text that a request is answered with.

use vstd::prelude::*;
use crate::text::append_decimal;

verus! {

/// The texts of strings.
pub open spec fn texts(strings: Seq<String>) -> Seq<Seq<char>> {
    strings.map_values(|s: String| s@)
}

/// One line, or none.
pub open spec fn line_of(line: Option<Seq<char>>) -> Seq<Seq<char>> {
    match line {
        Some(l) => seq![l],
        None => seq![],
    }
}

/// Texts one after the other, with `between` between them.
pub open spec fn joined(lines: Seq<Seq<char>>, between: Seq<char>) -> Seq<char>
    decreases lines.len(),
{
    if lines.len() == 0 {
        Seq::empty()
    } else if lines.len() == 1 {
        lines[0]
    } else {
        joined(lines.drop_last(), between) + between + lines.last()
    }
}

/// Add a line.
pub fn push_line(lines: &mut Vec<String>, line: String)
    ensures
        texts(final(lines)@) == texts(old(lines)@) + seq![line@],
{
    let ghost before = lines@;
    lines.push(line);
    assert(texts(lines@) =~= texts(before) + seq![line@]);
}

/// A text between two others.
pub fn surrounded(head: &str, middle: &str, tail: &str) -> (s: String)
    ensures
        s@ == head@ + middle@ + tail@,
{
    let mut s = head.to_owned();
    s.append(middle);
    s.append(tail);
    s
}

/// A number between two texts.
pub fn surrounded_number(head: &str, n: u64, tail: &str) -> (s: String)
    ensures
        s@ == head@ + crate::text::decimal(n as nat) + tail@,
{
    let mut s = head.to_owned();
    append_decimal(&mut s, n);
    s.append(tail);
    s
}

/// A text followed by a number.
pub fn numbered(head: &str, n: u64) -> (s: String)
    ensures
        s@ == head@ + crate::text::decimal(n as nat),
{
    let mut s = head.to_owned();
    append_decimal(&mut s, n);
    s
}

/// Lines one after the other, with `between` between them.
pub fn join_lines(lines: &Vec<String>, between: &str) -> (s: String)
    ensures
        s@ == joined(texts(lines@), between@),
{
    let mut s = String::new();
    let mut i: usize = 0;
    let ghost all = texts(lines@);
    assert(s@ =~= joined(all.take(0), between@));
    while i < lines.len()
        invariant
            i <= lines@.len(),
            all == texts(lines@),
            s@ == joined(all.take(i as int), between@),
        decreases lines@.len() - i,
    {
        let ghost before = s@;
        if i > 0 {
            s.append(between);
        }
        s.append(lines[i].as_str());
        proof {
            let part = all.take(i + 1);
            assert(part.drop_last() =~= all.take(i as int));
            assert(part.last() == lines@[i as int]@);
            if i == 0 {
                assert(before =~= Seq::<char>::empty());
                assert(s@ =~= part[0]);
            }
        }
        i = i + 1;
    }
    assert(all.take(i as int) =~= all);
    s
}

/// Lines joined in two parts, with what stands between them in between, are the
/// lines joined at once; a single line stands alone.
pub proof fn joining_in_parts(a: Seq<Seq<char>>, b: Seq<Seq<char>>, between: Seq<char>)
    ensures
        a.len() > 0 && b.len() > 0 ==> joined(a + b, between) == joined(a, between) + between
            + joined(b, between),
        a.len() == 1 ==> joined(a, between) == a[0],
        a.len() == 0 ==> joined(a, between).len() == 0,
    decreases b.len(),
{
    if a.len() > 0 && b.len() > 0 {
        assert((a + b).drop_last() =~= a + b.drop_last());
        assert((a + b).last() == b.last());
        if b.len() == 1 {
            assert(a + b.drop_last() =~= a);
            assert(joined(a + b, between) =~= joined(a, between) + between + joined(b, between));
        } else {
            joining_in_parts(a, b.drop_last(), between);
            assert(joined(a + b, between) =~= joined(a, between) + between + joined(b, between));
        }
    }
}

/// Texts are those of the strings, one for one.
pub proof fn texts_are_of_the_strings(strings: Seq<String>, i: int)
    ensures
        texts(strings).len() == strings.len(),
        0 <= i < strings.len() ==> texts(strings)[i] == strings[i]@,
{
}

/// A line is one line, and none is none.
pub proof fn lines_are_there_or_not(line: Option<Seq<char>>)
    ensures
        line matches Some(l) ==> line_of(line).len() == 1 && line_of(line)[0] == l,
        line is None ==> line_of(line).len() == 0,
{
}

} // verus!
