//! Pages of text, written line by line.

use vstd::prelude::*;

use crate::text;

verus! {

/// Lines as one text: each of them ends with a line break.
pub open spec fn page(lines: Seq<Seq<char>>) -> Seq<char>
    decreases lines.len(),
{
    if lines.len() == 0 {
        Seq::empty()
    } else {
        page(lines.drop_last()) + lines.last() + "\n"@
    }
}

/// The smaller of two numbers.
pub open spec fn least(a: int, b: int) -> int {
    if a < b {
        a
    } else {
        b
    }
}

/// The smaller of two numbers.
pub fn lesser(a: usize, b: usize) -> (r: usize)
    ensures
        r == least(a as int, b as int),
{
    if a < b {
        a
    } else {
        b
    }
}

/// Adds a line.
pub fn say(out: &mut Vec<String>, line: String)
    ensures
        text::views(final(out)@) == text::views(old(out)@).push(line@),
{
    let ghost before = text::views(out@);
    out.push(line);
    assert(text::views(out@) =~= before.push(line@));
}

/// Lines as one text.
pub fn write_page(lines: &Vec<String>) -> (r: String)
    ensures
        r@ == page(text::views(lines@)),
{
    let ghost all = text::views(lines@);
    let mut out = String::new();
    let mut i: usize = 0;
    assert(out@ =~= page(all.take(0)));
    while i < lines.len()
        invariant
            i <= lines.len(),
            all == text::views(lines@),
            out@ == page(all.take(i as int)),
        decreases lines.len() - i,
    {
        assert(all.take(i + 1).drop_last() =~= all.take(i as int));
        assert(all[i as int] == lines@[i as int]@);
        out.append(lines[i].as_str());
        out.append("\n");
        i += 1;
    }
    assert(all.take(all.len() as int) =~= all);
    out
}

/// Each text between backticks.
pub open spec fn ticked(names: Seq<Seq<char>>) -> Seq<Seq<char>> {
    names.map_values(|n: Seq<char>| "`"@ + n + "`"@)
}

/// Each text between backticks.
pub fn tick_all(names: &Vec<String>) -> (r: Vec<String>)
    ensures
        text::views(r@) == ticked(text::views(names@)),
{
    let mut out: Vec<String> = Vec::new();
    let mut i: usize = 0;
    while i < names.len()
        invariant
            i <= names.len(),
            out.len() == i,
            forall|k: int| 0 <= k < i ==> (#[trigger] out@[k])@ == "`"@ + names@[k]@ + "`"@,
        decreases names.len() - i,
    {
        out.push(crate::text::cat3("`", names[i].as_str(), "`"));
        i += 1;
    }
    assert(text::views(out@) =~= ticked(text::views(names@)));
    out
}

/// A page is its lines, one after the other, each with a line break behind it.
pub proof fn law_pages_are_written_line_by_line(first: Seq<Seq<char>>, then: Seq<Seq<char>>)
    ensures
        page(first + then) == page(first) + page(then),
        first.len() == 1 ==> page(first) == first[0] + "\n"@,
        page(Seq::empty()).len() == 0,
    decreases then.len(),
{
    if first.len() == 1 {
        assert(first.drop_last() =~= Seq::empty());
        assert(page(first.drop_last()) =~= Seq::<char>::empty());
        assert(first.last() == first[0]);
        assert(page(first) =~= first[0] + "\n"@);
    }
    if then.len() > 0 {
        law_pages_are_written_line_by_line(first, then.drop_last());
        assert((first + then).drop_last() =~= first + then.drop_last());
        assert(page(first + then) =~= page(first) + page(then));
    } else {
        assert(first + then =~= first);
        assert(page(first) + page(then) =~= page(first));
    }
}

} // verus!
