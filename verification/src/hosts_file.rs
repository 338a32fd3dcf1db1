//! The grammar of a hosts file: lines, comments and fields. What a line's
//! address field means is left to the caller, who hands the addressed lines
//! to the hosts snapshot.

use crate::text::chars_of;
use vstd::prelude::*;

verus! {

/// Why a hosts file was refused.
#[derive(Clone, Copy, Debug, PartialEq, Eq, Structural)]
pub enum HostsError {
    /// The line with this number, counting from 1, has an address and no name.
    MissingName(usize),
}

/// One entry line of a hosts file: its address field and its names.
#[derive(Debug, PartialEq, Eq)]
pub struct HostsLine {
    pub address: String,
    pub names: Vec<String>,
}

/// What a `HostsLine` holds, with every field as a sequence of characters.
pub struct HostsLineView {
    pub address: Seq<char>,
    pub names: Seq<Seq<char>>,
}

/// The views of some strings.
pub open spec fn texts(v: Seq<String>) -> Seq<Seq<char>> {
    v.map_values(|s: String| s@)
}

impl View for HostsLine {
    type V = HostsLineView;

    open spec fn view(&self) -> HostsLineView {
        HostsLineView { address: self.address@, names: texts(self.names@) }
    }
}

/// The views of some lines.
pub open spec fn line_views(v: Seq<HostsLine>) -> Seq<HostsLineView> {
    v.map_values(|l: HostsLine| l@)
}

/// A character that separates fields.
pub open spec fn is_blank(c: char) -> bool {
    c == ' ' || c == '\t' || c == '\r'
}

/// The lines of a text: what stands between its line feeds.
pub open spec fn lines(text: Seq<char>) -> Seq<Seq<char>>
    decreases text.len(),
{
    if text.len() == 0 {
        seq![Seq::empty()]
    } else {
        let prior = lines(text.drop_last());
        if text.last() == '\n' {
            prior.push(Seq::empty())
        } else {
            prior.drop_last().push(prior.last().push(text.last()))
        }
    }
}

/// The part of a line before its comment, which starts at the first `#`.
pub open spec fn before_comment(line: Seq<char>) -> Seq<char>
    decreases line.len(),
{
    if line.len() == 0 || line[0] == '#' {
        Seq::empty()
    } else {
        seq![line[0]] + before_comment(line.drop_first())
    }
}

/// The fields of a text: its longest runs of characters that are not blank.
pub open spec fn fields(text: Seq<char>) -> Seq<Seq<char>>
    decreases text.len(),
{
    if text.len() == 0 {
        Seq::empty()
    } else {
        let front = text.drop_last();
        let prior = fields(front);
        if is_blank(text.last()) {
            prior
        } else if front.len() > 0 && !is_blank(front.last()) {
            prior.drop_last().push(prior.last().push(text.last()))
        } else {
            prior.push(seq![text.last()])
        }
    }
}

/// What a line says: nothing where it has no field; an entry where it has
/// an address and at least one name; an error where it has one field only.
pub open spec fn line_entry(line: Seq<char>) -> Result<Option<HostsLineView>, ()> {
    let f = fields(before_comment(line));
    if f.len() == 0 {
        Ok(None)
    } else if f.len() == 1 {
        Err(())
    } else {
        Ok(Some(HostsLineView { address: f[0], names: f.skip(1) }))
    }
}

/// What some lines say: their entries in order, or the number of the first
/// line in error.
pub open spec fn entries_of(ls: Seq<Seq<char>>) -> Result<Seq<HostsLineView>, HostsError>
    decreases ls.len(),
{
    if ls.len() == 0 {
        Ok(Seq::empty())
    } else {
        match entries_of(ls.drop_last()) {
            Err(e) => Err(e),
            Ok(prior) => match line_entry(ls.last()) {
                Err(_) => Err(HostsError::MissingName(ls.len() as usize)),
                Ok(None) => Ok(prior),
                Ok(Some(entry)) => Ok(prior.push(entry)),
            },
        }
    }
}

/// The place where the comment of a line starts, or its length.
fn comment_start(chars: &Vec<char>, from: usize, to: usize) -> (k: usize)
    requires
        from <= to <= chars.len(),
    ensures
        from <= k <= to,
        before_comment(chars@.subrange(from as int, to as int)) == chars@.subrange(
            from as int,
            k as int,
        ),
{
    let ghost line = chars@.subrange(from as int, to as int);
    let mut i: usize = from;
    assert(line.skip(0) =~= line);
    assert(line.take(0) + before_comment(line) =~= before_comment(line));
    while i < to && chars[i] != '#'
        invariant
            from <= i <= to <= chars.len(),
            line == chars@.subrange(from as int, to as int),
            before_comment(line) == line.take(i - from) + before_comment(line.skip(i - from)),
        decreases to - i,
    {
        proof {
            let rest = line.skip(i - from);
            assert(rest[0] == chars@[i as int]);
            assert(rest.drop_first() =~= line.skip(i + 1 - from));
            assert(line.take(i - from) + (seq![rest[0]] + before_comment(rest.drop_first()))
                =~= line.take(i + 1 - from) + before_comment(line.skip(i + 1 - from)));
        }
        i = i + 1;
    }
    proof {
        let rest = line.skip(i - from);
        if i < to {
            assert(rest[0] == chars@[i as int]);
        }
        assert(before_comment(rest) =~= Seq::<char>::empty());
        assert(line.take(i - from) + Seq::<char>::empty() =~= chars@.subrange(
            from as int,
            i as int,
        ));
    }
    i
}

/// The fields of the characters from `from` up to `to`.
fn split_fields(text: &str, chars: &Vec<char>, from: usize, to: usize) -> (out: Vec<String>)
    requires
        chars@ == text@,
        from <= to <= chars.len(),
    ensures
        texts(out@) == fields(chars@.subrange(from as int, to as int)),
{
    let ghost part = chars@.subrange(from as int, to as int);
    let mut out: Vec<String> = Vec::new();
    let mut start: usize = from;
    let mut inside: bool = false;
    let mut i: usize = from;
    assert(part.take(0) =~= Seq::<char>::empty());
    assert(texts(out@) =~= Seq::<Seq<char>>::empty());
    while i < to
        invariant
            from <= i <= to <= chars.len(),
            chars@ == text@,
            part == chars@.subrange(from as int, to as int),
            inside ==> from <= start < i,
            inside <==> i > from && !is_blank(chars@[i - 1]),
            fields(part.take(i - from)) == if inside {
                texts(out@).push(chars@.subrange(start as int, i as int))
            } else {
                texts(out@)
            },
        decreases to - i,
    {
        let c = chars[i];
        let blank = c == ' ' || c == '\t' || c == '\r';
        proof {
            let now = part.take(i + 1 - from);
            assert(now.drop_last() =~= part.take(i - from));
            assert(now.last() == c);
            if i > from {
                assert(part.take(i - from).last() == chars@[i - 1]);
            }
            assert(part.take(i - from).len() > 0 <==> i > from);
        }
        if blank {
            if inside {
                let ghost prior = texts(out@);
                let field = text.substring_char(start, i);
                out.push(field.to_owned());
                assert(texts(out@) =~= prior.push(chars@.subrange(start as int, i as int)));
                inside = false;
            }
        } else {
            if inside {
                proof {
                    let so_far = texts(out@).push(chars@.subrange(start as int, i as int));
                    assert(so_far.drop_last() =~= texts(out@));
                    assert(so_far.last().push(c) =~= chars@.subrange(start as int, i + 1));
                }
            } else {
                start = i;
                inside = true;
                assert(seq![c] =~= chars@.subrange(i as int, i + 1));
            }
        }
        i = i + 1;
    }
    assert(part.take(to - from) =~= part);
    if inside {
        let ghost prior = texts(out@);
        let field = text.substring_char(start, to);
        out.push(field.to_owned());
        assert(texts(out@) =~= prior.push(chars@.subrange(start as int, to as int)));
    }
    out
}

/// What the line that the characters from `from` up to `to` make says.
fn entry_between(text: &str, chars: &Vec<char>, from: usize, to: usize) -> (r: Result<
    Option<HostsLine>,
    (),
>)
    requires
        chars@ == text@,
        from <= to <= chars.len(),
    ensures
        match line_entry(chars@.subrange(from as int, to as int)) {
            Err(_) => r is Err,
            Ok(None) => r == Ok::<Option<HostsLine>, ()>(None),
            Ok(Some(entry)) => r is Ok && r->Ok_0 is Some && r->Ok_0->0@ == entry,
        },
{
    let k = comment_start(chars, from, to);
    let mut found = split_fields(text, chars, from, k);
    if found.len() == 0 {
        Ok(None)
    } else if found.len() == 1 {
        Err(())
    } else {
        let ghost all = texts(found@);
        let address = found.remove(0);
        assert(texts(found@) =~= all.skip(1));
        assert(address@ == all[0]);
        Ok(Some(HostsLine { address, names: found }))
    }
}

/// The entry that one line of a hosts file holds: none for a line that is
/// empty but for blanks and a comment; an error for a line with an address
/// and no name. The line number of the error is 1.
pub fn parse_line(line: &str) -> (r: Result<Option<HostsLine>, HostsError>)
    ensures
        match line_entry(line@) {
            Err(_) => r == Err::<Option<HostsLine>, HostsError>(HostsError::MissingName(1)),
            Ok(None) => r == Ok::<Option<HostsLine>, HostsError>(None),
            Ok(Some(entry)) => r is Ok && r->Ok_0 is Some && r->Ok_0->0@ == entry,
        },
{
    let chars = chars_of(line);
    assert(chars@.subrange(0, chars@.len() as int) =~= line@);
    match entry_between(line, &chars, 0, chars.len()) {
        Ok(entry) => Ok(entry),
        Err(_) => Err(HostsError::MissingName(1)),
    }
}

/// The entries of a hosts file, in the order of its lines; or the first
/// line that is in error.
pub fn parse_hosts(text: &str) -> (r: Result<Vec<HostsLine>, HostsError>)
    ensures
        match entries_of(lines(text@)) {
            Ok(entries) => r is Ok && line_views(r->Ok_0@) == entries,
            Err(e) => r == Err::<Vec<HostsLine>, HostsError>(e),
        },
{
    let chars = chars_of(text);
    let n: usize = chars.len();
    let mut out: Vec<HostsLine> = Vec::new();
    let mut start: usize = 0;
    let mut count: usize = 0;
    let mut i: usize = 0;
    assert(chars@.take(0) =~= Seq::<char>::empty());
    assert(chars@.subrange(0, 0) =~= Seq::<char>::empty());
    assert(lines(chars@.take(0)).drop_last() =~= Seq::<Seq<char>>::empty());
    assert(line_views(out@) =~= Seq::<HostsLineView>::empty());
    while i < n
        invariant
            start <= i <= n,
            n == chars.len(),
            chars@ == text@,
            count <= start,
            lines(chars@.take(i as int)).len() == count + 1,
            lines(chars@.take(i as int)).last() == chars@.subrange(start as int, i as int),
            entries_of(lines(chars@.take(i as int)).drop_last()) == Ok::<
                Seq<HostsLineView>,
                HostsError,
            >(line_views(out@)),
        decreases n - i,
    {
        proof {
            let now = chars@.take(i + 1);
            assert(now.drop_last() =~= chars@.take(i as int));
            assert(now.last() == chars@[i as int]);
        }
        if chars[i] == '\n' {
            let ghost done = lines(chars@.take(i as int));
            assert(lines(chars@.take(i + 1)).drop_last() =~= done);
            assert(done =~= done.drop_last().push(done.last()));
            match entry_between(text, &chars, start, i) {
                Err(_) => {
                    proof {
                        lemma_lines_grow(chars@, i + 1);
                        assert forall|j: int| 0 <= j < done.len() implies lines(chars@)[j]
                            == done[j] by {
                            assert(lines(chars@.take(i + 1))[j] == done[j]);
                        }
                        lemma_error_stays(done, lines(chars@), (count + 1) as usize);
                    }
                    return Err(HostsError::MissingName(count + 1));
                },
                Ok(None) => {},
                Ok(Some(entry)) => {
                    let ghost prior = line_views(out@);
                    out.push(entry);
                    assert(line_views(out@) =~= prior.push(entry@));
                },
            }
            count = count + 1;
            start = i + 1;
            assert(chars@.subrange(start as int, start as int) =~= Seq::<char>::empty());
        } else {
            proof {
                let done = lines(chars@.take(i as int));
                let next = lines(chars@.take(i + 1));
                assert(next.drop_last() =~= done.drop_last());
                assert(done.last().push(chars@[i as int]) =~= chars@.subrange(
                    start as int,
                    i + 1,
                ));
            }
        }
        i = i + 1;
    }
    assert(chars@.take(n as int) =~= chars@);
    let ghost all = lines(chars@);
    assert(all =~= all.drop_last().push(all.last()));
    match entry_between(text, &chars, start, n) {
        Err(_) => Err(HostsError::MissingName(count + 1)),
        Ok(None) => Ok(out),
        Ok(Some(entry)) => {
            let ghost prior = line_views(out@);
            out.push(entry);
            assert(line_views(out@) =~= prior.push(entry@));
            Ok(out)
        },
    }
}

/// The lines of the first `k` characters of a text, but for the last of
/// them, are the first lines of the text.
proof fn lemma_lines_grow(text: Seq<char>, k: int)
    requires
        0 <= k <= text.len(),
    ensures
        lines(text.take(k)).len() <= lines(text).len(),
        forall|j: int|
            0 <= j < lines(text.take(k)).len() - 1 ==> lines(text)[j] == #[trigger] lines(
                text.take(k),
            )[j],
        lines(text.take(k)).len() >= 1,
    decreases text.len() - k,
{
    if k == text.len() {
        assert(text.take(k) =~= text);
        lemma_lines_nonempty(text);
    } else {
        lemma_lines_grow(text, k + 1);
        let longer = text.take(k + 1);
        let shorter = text.take(k);
        assert(longer.drop_last() =~= shorter);
        lemma_lines_nonempty(shorter);
        assert forall|j: int| 0 <= j < lines(shorter).len() - 1 implies lines(text)[j]
            == #[trigger] lines(shorter)[j] by {
            assert(lines(longer)[j] == lines(shorter)[j]);
        }
    }
}

/// A text has at least one line.
proof fn lemma_lines_nonempty(text: Seq<char>)
    ensures
        lines(text).len() >= 1,
    decreases text.len(),
{
    if text.len() > 0 {
        lemma_lines_nonempty(text.drop_last());
    }
}

/// Where the first `n` of some lines are in error at line `n`, all the
/// lines are in error at line `n`.
proof fn lemma_error_stays(first: Seq<Seq<char>>, all: Seq<Seq<char>>, n: usize)
    requires
        first.len() == n,
        n <= all.len(),
        forall|j: int| 0 <= j < n ==> all[j] == first[j],
        entries_of(first) == Err::<Seq<HostsLineView>, HostsError>(HostsError::MissingName(n)),
    ensures
        entries_of(all) == Err::<Seq<HostsLineView>, HostsError>(HostsError::MissingName(n)),
    decreases all.len(),
{
    if all.len() == n {
        assert(all =~= first);
    } else {
        lemma_error_stays(first, all.drop_last(), n);
    }
}

} // verus!
