use vstd::prelude::*;

use crate::guard::reversed_moves;
use crate::manifest::{lines_of, lemma_no_marker_line_is_valid, lemma_one_path_per_marker_line, manifest_paths, marked_lines};
use crate::path::relocation_of;

verus! {

/// The files of a tree: each path that holds a file, with its contents.
pub type FileTree = Map<Seq<char>, Seq<u8>>;

/// A move of the file at `from` to `to`, replacing what `to` held; it fails
/// where no file stands at `from`.
pub open spec fn rename_in(fs: FileTree, from: Seq<char>, to: Seq<char>) -> Option<FileTree> {
    if fs.contains_key(from) {
        Some(fs.remove(from).insert(to, fs[from]))
    } else {
        None
    }
}

/// The moves made one after another, stopping at the first that fails.
pub open spec fn apply_moves(fs: FileTree, moves: Seq<(Seq<char>, Seq<char>)>) -> Option<FileTree>
    decreases moves.len(),
{
    if moves.len() == 0 {
        Some(fs)
    } else {
        match rename_in(fs, moves[0].0, moves[0].1) {
            Some(next) => apply_moves(next, moves.drop_first()),
            None => None,
        }
    }
}

/// No two moves share a destination, and no move leaves from a place that
/// some move goes to.
pub open spec fn separate(moves: Seq<(Seq<char>, Seq<char>)>) -> bool {
    &&& forall|i: int, j: int|
        0 <= i < moves.len() && 0 <= j < moves.len() && i != j ==> moves[i].1 != moves[j].1
    &&& forall|i: int, j: int|
        0 <= i < moves.len() && 0 <= j < moves.len() ==> moves[i].0 != moves[j].1
}

/// No two moves leave from the same place.
pub open spec fn distinct_sources(moves: Seq<(Seq<char>, Seq<char>)>) -> bool {
    forall|i: int, j: int|
        0 <= i < moves.len() && 0 <= j < moves.len() && i != j ==> moves[i].0 != moves[j].0
}

/// `k` is an end of some move.
pub open spec fn touched(moves: Seq<(Seq<char>, Seq<char>)>, k: Seq<char>) -> bool {
    exists|i: int| 0 <= i < moves.len() && (moves[i].0 == k || moves[i].1 == k)
}

/// Separate moves that find each source in place all succeed: each
/// destination then holds its source's file, no source holds a file, and
/// every other path is left as it was.
proof fn lemma_apply_separate(fs: FileTree, moves: Seq<(Seq<char>, Seq<char>)>)
    requires
        separate(moves),
        distinct_sources(moves),
        forall|i: int| 0 <= i < moves.len() ==> fs.contains_key(#[trigger] moves[i].0),
    ensures
        apply_moves(fs, moves) is Some,
        forall|i: int|
            0 <= i < moves.len() ==> {
                &&& (apply_moves(fs, moves)->0).contains_key(#[trigger] moves[i].1)
                &&& (apply_moves(fs, moves)->0)[moves[i].1] == fs[moves[i].0]
                &&& !(apply_moves(fs, moves)->0).contains_key(moves[i].0)
            },
        forall|k: Seq<char>|
            !touched(moves, k) ==> {
                &&& (apply_moves(fs, moves)->0).contains_key(k) == fs.contains_key(k)
                &&& (apply_moves(fs, moves)->0)[k] == fs[k]
            },
    decreases moves.len(),
{
    if moves.len() > 0 {
        let s0 = moves[0].0;
        let t0 = moves[0].1;
        let next = fs.remove(s0).insert(t0, fs[s0]);
        let rest = moves.drop_first();
        assert forall|i: int| 0 <= i < rest.len() implies next.contains_key(#[trigger] rest[i].0) by {
            assert(rest[i] == moves[i + 1]);
        }
        assert forall|i: int, j: int|
            0 <= i < rest.len() && 0 <= j < rest.len() && i != j implies rest[i].1 != rest[j].1 by {
            assert(rest[i] == moves[i + 1] && rest[j] == moves[j + 1]);
        }
        assert forall|i: int, j: int| 0 <= i < rest.len() && 0 <= j < rest.len() implies rest[i].0
            != rest[j].1 by {
            assert(rest[i] == moves[i + 1] && rest[j] == moves[j + 1]);
        }
        assert forall|i: int, j: int|
            0 <= i < rest.len() && 0 <= j < rest.len() && i != j implies rest[i].0 != rest[j].0 by {
            assert(rest[i] == moves[i + 1] && rest[j] == moves[j + 1]);
        }
        lemma_apply_separate(next, rest);
        let r = apply_moves(fs, moves)->0;
        assert(apply_moves(fs, moves) == apply_moves(next, rest));
        assert(!touched(rest, t0)) by {
            if touched(rest, t0) {
                let i = choose|i: int| 0 <= i < rest.len() && (rest[i].0 == t0 || rest[i].1 == t0);
                assert(rest[i] == moves[i + 1]);
            }
        }
        assert(!touched(rest, s0)) by {
            if touched(rest, s0) {
                let i = choose|i: int| 0 <= i < rest.len() && (rest[i].0 == s0 || rest[i].1 == s0);
                assert(rest[i] == moves[i + 1]);
            }
        }
        assert forall|i: int| 0 <= i < moves.len() implies {
            &&& r.contains_key(#[trigger] moves[i].1)
            &&& r[moves[i].1] == fs[moves[i].0]
            &&& !r.contains_key(moves[i].0)
        } by {
            if i > 0 {
                assert(moves[i] == rest[i - 1]);
                assert(moves[i].0 != s0 && moves[i].0 != t0);
            }
        }
        assert forall|k: Seq<char>| !touched(moves, k) implies {
            &&& r.contains_key(k) == fs.contains_key(k)
            &&& r[k] == fs[k]
        } by {
            assert(k != s0 && k != t0);
            if touched(rest, k) {
                let i = choose|i: int| 0 <= i < rest.len() && (rest[i].0 == k || rest[i].1 == k);
                assert(rest[i] == moves[i + 1]);
            }
        }
    }
}

/// Separate moves that all succeed found each source in place, and no two
/// left from the same place.
proof fn lemma_success_needs_sources(fs: FileTree, moves: Seq<(Seq<char>, Seq<char>)>)
    requires
        separate(moves),
        apply_moves(fs, moves) is Some,
    ensures
        distinct_sources(moves),
        forall|i: int| 0 <= i < moves.len() ==> fs.contains_key(#[trigger] moves[i].0),
    decreases moves.len(),
{
    if moves.len() > 0 {
        let s0 = moves[0].0;
        let t0 = moves[0].1;
        let next = fs.remove(s0).insert(t0, fs[s0]);
        let rest = moves.drop_first();
        assert forall|i: int, j: int|
            0 <= i < rest.len() && 0 <= j < rest.len() && i != j implies rest[i].1 != rest[j].1 by {
            assert(rest[i] == moves[i + 1] && rest[j] == moves[j + 1]);
        }
        assert forall|i: int, j: int| 0 <= i < rest.len() && 0 <= j < rest.len() implies rest[i].0
            != rest[j].1 by {
            assert(rest[i] == moves[i + 1] && rest[j] == moves[j + 1]);
        }
        lemma_success_needs_sources(next, rest);
        assert forall|i: int| 0 <= i < moves.len() implies fs.contains_key(#[trigger] moves[i].0) by {
            if i > 0 {
                assert(moves[i] == rest[i - 1]);
                assert(moves[i].0 != t0);
                assert(next.contains_key(rest[i - 1].0));
            }
        }
        assert forall|i: int, j: int|
            0 <= i < moves.len() && 0 <= j < moves.len() && i != j implies moves[i].0
            != moves[j].0 by {
            if i > 0 && j > 0 {
                assert(moves[i] == rest[i - 1] && moves[j] == rest[j - 1]);
            } else if i == 0 {
                assert(moves[j] == rest[j - 1]);
                assert(moves[j].0 != t0);
                assert(next.contains_key(rest[j - 1].0));
            } else {
                assert(moves[i] == rest[i - 1]);
                assert(moves[i].0 != t0);
                assert(next.contains_key(rest[i - 1].0));
            }
        }
    }
}

/// Staging and restoring give every file back: if the moves of a staging all
/// succeed from `before`, and what runs in between leaves each staged file as
/// staging left it, then the moves back all succeed, and each original path
/// holds again, byte for byte, the file it held before staging.
pub proof fn lemma_round_trip(
    before: FileTree,
    moves: Seq<(Seq<char>, Seq<char>)>,
    between: FileTree,
)
    requires
        separate(moves),
        apply_moves(before, moves) is Some,
        forall|i: int|
            0 <= i < moves.len() ==> {
                &&& between.contains_key(#[trigger] moves[i].1)
                &&& between[moves[i].1] == (apply_moves(before, moves)->0)[moves[i].1]
            },
    ensures
        apply_moves(between, reversed_moves(moves)) is Some,
        forall|i: int|
            0 <= i < moves.len() ==> {
                &&& before.contains_key(#[trigger] moves[i].0)
                &&& (apply_moves(between, reversed_moves(moves))->0).contains_key(moves[i].0)
                &&& (apply_moves(between, reversed_moves(moves))->0)[moves[i].0] == before[moves[i].0]
            },
{
    lemma_success_needs_sources(before, moves);
    lemma_apply_separate(before, moves);
    let back = reversed_moves(moves);
    assert forall|i: int, j: int|
        0 <= i < back.len() && 0 <= j < back.len() && i != j implies back[i].1 != back[j].1 by {}
    assert forall|i: int, j: int| 0 <= i < back.len() && 0 <= j < back.len() implies back[i].0
        != back[j].1 by {}
    assert forall|i: int| 0 <= i < back.len() implies between.contains_key(#[trigger] back[i].0) by {
        assert(back[i].0 == moves[i].1);
    }
    lemma_apply_separate(between, back);
    assert forall|i: int| 0 <= i < moves.len() implies {
        &&& before.contains_key(#[trigger] moves[i].0)
        &&& (apply_moves(between, back)->0).contains_key(moves[i].0)
        &&& (apply_moves(between, back)->0)[moves[i].0] == before[moves[i].0]
    } by {
        assert(back[i].1 == moves[i].0);
        assert(back[i].0 == moves[i].1);
    }
}

/// A manifest without marker lines lists no path: staging then moves
/// nothing, and neither does restoring.
pub proof fn lemma_no_markers_no_moves(
    text: Seq<char>,
    root: Seq<char>,
    staging: Seq<char>,
    fs: FileTree,
)
    requires
        marked_lines(lines_of(text)).len() == 0,
    ensures
        manifest_paths(text) == Ok::<Seq<Seq<char>>, crate::error::Error>(seq![]),
        relocation_of(root, staging, manifest_paths(text)->Ok_0).len() == 0,
        apply_moves(fs, relocation_of(root, staging, manifest_paths(text)->Ok_0)) == Some(fs),
        apply_moves(fs, reversed_moves(relocation_of(root, staging, manifest_paths(text)->Ok_0))) == Some(fs),
{
    lemma_no_marker_line_is_valid(lines_of(text));
    lemma_one_path_per_marker_line(text);
    assert(manifest_paths(text)->Ok_0 =~= Seq::<Seq<char>>::empty());
}

} // verus!
