use vstd::prelude::*;

use crate::error::Error;
use crate::text::{chars_of, string_of_range};

verus! {

/// The marker `(./` starts at index `i` of `line`.
pub open spec fn marker_at(line: Seq<char>, i: int) -> bool {
    &&& 0 <= i
    &&& i + 3 <= line.len()
    &&& line[i] == '('
    &&& line[i + 1] == '.'
    &&& line[i + 2] == '/'
}

/// The first index at or after `i` where the marker starts, if any.
pub open spec fn first_marker_from(line: Seq<char>, i: int) -> Option<int>
    decreases line.len() - i,
{
    if i < 0 || i + 3 > line.len() {
        None
    } else if marker_at(line, i) {
        Some(i)
    } else {
        first_marker_from(line, i + 1)
    }
}

/// The first index of `line` where the marker starts, if any.
pub open spec fn first_marker(line: Seq<char>) -> Option<int> {
    first_marker_from(line, 0)
}

/// What one line contributes: nothing without a marker; otherwise the text
/// after the marker less the line's last character, which must not be empty.
pub open spec fn line_entry(line: Seq<char>) -> Option<Result<Seq<char>, Error>> {
    match first_marker(line) {
        None => None,
        Some(m) => if line.len() - (m + 3) <= 1 {
            Some(Err(Error::MalformedManifestEntry))
        } else {
            Some(Ok(line.subrange(m + 3, line.len() - 1)))
        },
    }
}

/// A line ended by a newline loses one carriage return before it.
pub open spec fn strip_cr(line: Seq<char>) -> Seq<char> {
    if line.len() > 0 && line.last() == '\r' {
        line.drop_last()
    } else {
        line
    }
}

/// The lines of `text` from the line that starts at `start`, scanning from `i`:
/// lines end at `'\n'`, and a final line ending adds no empty line.
pub open spec fn lines_from(text: Seq<char>, start: int, i: int) -> Seq<Seq<char>>
    decreases text.len() - i,
{
    if i >= text.len() {
        if start >= text.len() {
            seq![]
        } else {
            seq![text.subrange(start, text.len() as int)]
        }
    } else if text[i] == '\n' {
        seq![strip_cr(text.subrange(start, i))] + lines_from(text, i + 1, i + 1)
    } else {
        lines_from(text, start, i + 1)
    }
}

/// The lines of `text`.
pub open spec fn lines_of(text: Seq<char>) -> Seq<Seq<char>> {
    lines_from(text, 0, 0)
}

/// The paths that `lines` give, in line order, or the error of the first
/// malformed line.
pub open spec fn entries_of(lines: Seq<Seq<char>>) -> Result<Seq<Seq<char>>, Error>
    decreases lines.len(),
{
    if lines.len() == 0 {
        Ok(seq![])
    } else {
        let rest = entries_of(lines.drop_first());
        match line_entry(lines[0]) {
            None => rest,
            Some(Err(e)) => Err(e),
            Some(Ok(p)) => match rest {
                Ok(ps) => Ok(seq![p] + ps),
                Err(e) => Err(e),
            },
        }
    }
}

/// The paths that a manifest's text lists.
pub open spec fn manifest_paths(text: Seq<char>) -> Result<Seq<Seq<char>>, Error> {
    entries_of(lines_of(text))
}

/// The lines that hold the marker, in order.
pub open spec fn marked_lines(lines: Seq<Seq<char>>) -> Seq<Seq<char>>
    decreases lines.len(),
{
    if lines.len() == 0 {
        seq![]
    } else if first_marker(lines[0]) is Some {
        seq![lines[0]] + marked_lines(lines.drop_first())
    } else {
        marked_lines(lines.drop_first())
    }
}

/// Every line that holds the marker gives a path.
pub open spec fn all_entries_valid(lines: Seq<Seq<char>>) -> bool {
    forall|i: int| 0 <= i < lines.len() && line_entry(#[trigger] lines[i]) is Some ==> line_entry(lines[i])->0 is Ok
}

proof fn lemma_entries_follow_marked(lines: Seq<Seq<char>>)
    requires
        all_entries_valid(lines),
    ensures
        entries_of(lines) is Ok,
        (entries_of(lines)->Ok_0).len() == marked_lines(lines).len(),
        forall|k: int| 0 <= k < marked_lines(lines).len() ==>
            line_entry(#[trigger] marked_lines(lines)[k]) == Some(Ok::<Seq<char>, Error>((entries_of(lines)->Ok_0)[k])),
    decreases lines.len(),
{
    if lines.len() > 0 {
        let rest = lines.drop_first();
        assert forall|i: int| 0 <= i < rest.len() && line_entry(#[trigger] rest[i]) is Some implies line_entry(rest[i])->0 is Ok by {
            assert(rest[i] == lines[i + 1]);
        }
        lemma_entries_follow_marked(rest);
        if first_marker(lines[0]) is Some {
            assert(line_entry(lines[0]) is Some);
            let ps = entries_of(lines)->Ok_0;
            let ms = marked_lines(lines);
            assert forall|k: int| 0 <= k < ms.len() implies
                line_entry(#[trigger] ms[k]) == Some(Ok::<Seq<char>, Error>(ps[k])) by {
                if k > 0 {
                    assert(ms[k] == marked_lines(rest)[k - 1]);
                    assert(ps[k] == (entries_of(rest)->Ok_0)[k - 1]);
                }
            }
        }
    }
}

/// Lines of which none holds the marker hold no malformed one.
pub(crate) proof fn lemma_no_marker_line_is_valid(lines: Seq<Seq<char>>)
    requires
        marked_lines(lines).len() == 0,
    ensures
        all_entries_valid(lines),
        forall|i: int| 0 <= i < lines.len() ==> first_marker(#[trigger] lines[i]) is None,
    decreases lines.len(),
{
    if lines.len() > 0 {
        let rest = lines.drop_first();
        lemma_no_marker_line_is_valid(rest);
        assert forall|i: int| 0 <= i < lines.len() implies first_marker(#[trigger] lines[i]) is None by {
            if i > 0 {
                assert(lines[i] == rest[i - 1]);
            }
        }
    }
}

/// Every marker line of a manifest whose marker lines are all well formed
/// gives exactly one path, in line order: the k-th path is what the k-th
/// marker line holds.
pub proof fn lemma_one_path_per_marker_line(text: Seq<char>)
    requires
        all_entries_valid(lines_of(text)),
    ensures
        manifest_paths(text) is Ok,
        (manifest_paths(text)->Ok_0).len() == marked_lines(lines_of(text)).len(),
        forall|k: int| 0 <= k < marked_lines(lines_of(text)).len() ==>
            line_entry(#[trigger] marked_lines(lines_of(text))[k]) == Some(Ok::<Seq<char>, Error>((manifest_paths(text)->Ok_0)[k])),
{
    lemma_entries_follow_marked(lines_of(text));
}

/// `acc` followed by what `rest` gives.
pub open spec fn prepend(acc: Seq<Seq<char>>, rest: Result<Seq<Seq<char>>, Error>) -> Result<
    Seq<Seq<char>>,
    Error,
> {
    match rest {
        Ok(ps) => Ok(acc + ps),
        Err(e) => Err(e),
    }
}

/// The views of a vector of strings.
pub open spec fn views(v: Seq<String>) -> Seq<Seq<char>> {
    v.map_values(|s: String| s@)
}

/// The entry of the line `text[start..end]`.
fn entry_of_line(text: &Vec<char>, start: usize, end: usize) -> (r: Option<Result<String, Error>>)
    requires
        start <= end <= text.len(),
    ensures
        line_entry(text@.subrange(start as int, end as int)) == match r {
            None => None::<Result<Seq<char>, Error>>,
            Some(Ok(s)) => Some(Ok(s@)),
            Some(Err(e)) => Some(Err(e)),
        },
{
    let ghost line = text@.subrange(start as int, end as int);
    let mut j: usize = start;
    while end - j >= 3
        invariant
            start <= j <= end <= text.len(),
            line == text@.subrange(start as int, end as int),
            first_marker(line) == first_marker_from(line, j - start),
        decreases end - j,
    {
        if text[j] == '(' && text[j + 1] == '.' && text[j + 2] == '/' {
            assert(marker_at(line, j - start));
            if end - (j + 3) <= 1 {
                return Some(Err(Error::MalformedManifestEntry));
            }
            let p = string_of_range(text, j + 3, end - 1);
            assert(p@ =~= line.subrange(j - start + 3, line.len() - 1));
            return Some(Ok(p));
        }
        j = j + 1;
    }
    None
}

/// Parses a manifest: each line that holds the marker `(./` gives the text
/// after the marker up to, not including, the line's last character. Paths
/// come in line order, duplicates kept. A marker line whose path would be
/// empty makes the whole parse fail with `MalformedManifestEntry`.
pub fn parse_manifest(text: &str) -> (r: Result<Vec<String>, Error>)
    ensures
        manifest_paths(text@) == match r {
            Ok(v) => Ok(views(v@)),
            Err(e) => Err::<Seq<Seq<char>>, Error>(e),
        },
{
    let chars = chars_of(text);
    let n = chars.len();
    let mut out: Vec<String> = Vec::new();
    let mut start: usize = 0;
    let mut i: usize = 0;
    while i < n
        invariant
            n == chars.len(),
            chars@ == text@,
            start <= i <= n,
            manifest_paths(text@) == prepend(views(out@), entries_of(lines_from(chars@, start as int, i as int))),
        decreases n - i,
    {
        if chars[i] == '\n' {
            let mut end: usize = i;
            if end > start && chars[end - 1] == '\r' {
                end = end - 1;
            }
            let ghost line = chars@.subrange(start as int, i as int);
            assert(chars@.subrange(start as int, end as int) == strip_cr(line)) by {
                if line.len() > 0 && line.last() == '\r' {
                    assert(line.drop_last() =~= chars@.subrange(start as int, i - 1));
                } else {
                    assert(line =~= chars@.subrange(start as int, end as int));
                }
            }
            let ghost rest = lines_from(chars@, i + 1, i + 1);
            assert((seq![strip_cr(line)] + rest).drop_first() =~= rest);
            assert(lines_from(chars@, start as int, i as int) == seq![strip_cr(line)] + rest);
            match entry_of_line(&chars, start, end) {
                None => {},
                Some(Err(e)) => {
                    return Err(e);
                },
                Some(Ok(p)) => {
                    proof {
                        assert(views(out@.push(p)) =~= views(out@) + seq![p@]);
                        assert(views(out@) + (seq![p@] + entries_of(rest)->Ok_0) =~= views(out@) + seq![p@] + entries_of(rest)->Ok_0);
                    }
                    out.push(p);
                },
            }
            start = i + 1;
        }
        i = i + 1;
    }
    if start < n {
        let ghost line = chars@.subrange(start as int, n as int);
        assert(seq![line].drop_first() =~= Seq::<Seq<char>>::empty());
        assert(entries_of(Seq::<Seq<char>>::empty()) == Ok::<Seq<Seq<char>>, Error>(seq![]));
        assert(lines_from(chars@, start as int, n as int) == seq![line]);
        match entry_of_line(&chars, start, n) {
            None => {},
            Some(Err(e)) => {
                return Err(e);
            },
            Some(Ok(p)) => {
                proof {
                    assert(views(out@.push(p)) =~= views(out@) + seq![p@]);
                }
                out.push(p);
            },
        }
    }
    assert(views(out@) + Seq::<Seq<char>>::empty() =~= views(out@));
    Ok(out)
}

} // verus!
