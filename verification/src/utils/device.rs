//! What the device reports of its installed packages.

use crate::text::{after_last, from_chars, starts_with, to_chars, views};
use vstd::prelude::*;
use vstd::string::*;

verus! {

/// A line without the carriage return that ends it, if one does.
pub open spec fn without_return(line: Seq<char>) -> Seq<char> {
    if line.len() > 0 && line.last() == '\r' {
        line.drop_last()
    } else {
        line
    }
}

/// The lines of a text that a line feed ends, each without the line feed
/// and without a carriage return in front of it.
pub open spec fn ended_lines(text: Seq<char>) -> Seq<Seq<char>>
    decreases text.len(),
{
    if text.len() == 0 {
        Seq::empty()
    } else if text.last() == '\n' {
        ended_lines(text.drop_last()).push(without_return(after_last(text.drop_last(), '\n')))
    } else {
        ended_lines(text.drop_last())
    }
}

/// The lines of a text: those that a line feed ends, and what follows the
/// last line feed where that is not empty.
pub open spec fn lines_of(text: Seq<char>) -> Seq<Seq<char>> {
    let rest = after_last(text, '\n');
    if rest.len() > 0 {
        ended_lines(text).push(rest)
    } else {
        ended_lines(text)
    }
}

/// The package that a line of the listing names: what follows `package:`.
pub open spec fn listed_package(line: Seq<char>) -> Option<Seq<char>> {
    if "package:"@.is_prefix_of(line) {
        Some(line.subrange("package:"@.len() as int, line.len() as int))
    } else {
        None
    }
}

/// The packages that the lines name, in order.
pub open spec fn listed_packages(lines: Seq<Seq<char>>) -> Seq<Seq<char>>
    decreases lines.len(),
{
    if lines.len() == 0 {
        Seq::empty()
    } else {
        let front = listed_packages(lines.drop_last());
        match listed_package(lines.last()) {
            Some(package) => front.push(package),
            None => front,
        }
    }
}

/// The lines of a text.
pub fn split_lines(text: &str) -> (lines: Vec<String>)
    ensures
        views(lines@) == lines_of(text@),
{
    let chars = to_chars(text);
    let whole = chars.as_slice();
    let mut lines: Vec<String> = Vec::new();
    let mut begin: usize = 0;
    let mut i: usize = 0;
    assert(whole@.subrange(0, 0) =~= Seq::<char>::empty());
    assert(views(lines@) =~= Seq::<Seq<char>>::empty());
    while i < whole.len()
        invariant
            begin <= i <= whole@.len(),
            whole@ == text@,
            views(lines@) == ended_lines(whole@.subrange(0, i as int)),
            after_last(whole@.subrange(0, i as int), '\n') == whole@.subrange(
                begin as int,
                i as int,
            ),
        decreases whole@.len() - i,
    {
        let ghost read = whole@.subrange(0, i as int);
        let ghost upto = whole@.subrange(0, i + 1);
        assert(upto.drop_last() =~= read);
        assert(upto.last() == whole@[i as int]);
        if whole[i] == '\n' {
            let end: usize = if i > begin && whole[i - 1] == '\r' {
                i - 1
            } else {
                i
            };
            let line = from_chars(whole, begin, end);
            proof {
                let open = whole@.subrange(begin as int, i as int);
                if i > begin {
                    assert(open.last() == whole@[i - 1]);
                }
                assert(line@ =~= without_return(open));
            }
            let ghost before = lines@;
            lines.push(line);
            assert(views(lines@) =~= views(before).push(line@));
            begin = i + 1;
            assert(whole@.subrange(i + 1, i + 1) =~= Seq::<char>::empty());
        } else {
            assert(whole@.subrange(begin as int, i + 1) =~= whole@.subrange(
                begin as int,
                i as int,
            ).push(whole@[i as int]));
        }
        i += 1;
    }
    assert(whole@.subrange(0, whole@.len() as int) =~= whole@);
    if begin < whole.len() {
        let line = from_chars(whole, begin, whole.len());
        let ghost before = lines@;
        lines.push(line);
        assert(views(lines@) =~= views(before).push(line@));
    }
    lines
}

/// The packages that the listing of a device names: of every line that
/// begins with `package:`, what follows.
pub fn installed_packages(listing: &str) -> (packages: Vec<String>)
    ensures
        views(packages@) == listed_packages(lines_of(listing@)),
{
    let lines = split_lines(listing);
    let prefix = to_chars("package:");
    let mut packages: Vec<String> = Vec::new();
    let mut i: usize = 0;
    let ghost all = views(lines@);
    assert(all.subrange(0, 0) =~= Seq::<Seq<char>>::empty());
    assert(views(packages@) =~= Seq::<Seq<char>>::empty());
    while i < lines.len()
        invariant
            i <= lines@.len(),
            all == views(lines@),
            prefix@ == "package:"@,
            views(packages@) == listed_packages(all.subrange(0, i as int)),
        decreases lines@.len() - i,
    {
        let ghost upto = all.subrange(0, i + 1);
        assert(upto.drop_last() =~= all.subrange(0, i as int));
        assert(upto.last() == lines@[i as int]@);
        let line = to_chars(lines[i].as_str());
        if starts_with(line.as_slice(), prefix.as_slice()) {
            let package = from_chars(line.as_slice(), prefix.len(), line.len());
            let ghost before = packages@;
            packages.push(package);
            assert(views(packages@) =~= views(before).push(package@));
        }
        i += 1;
    }
    assert(all.subrange(0, lines@.len() as int) =~= all);
    packages
}

} // verus!
