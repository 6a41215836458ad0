use vstd::prelude::*;

use crate::text::{append_chars, chars_of, push_char};

verus! {

/// `rel` pushed onto `base`: an absolute `rel` replaces `base`; otherwise a
/// `/` separates the two unless `base` is empty or already ends with one.
pub open spec fn join(base: Seq<char>, rel: Seq<char>) -> Seq<char> {
    if rel.len() > 0 && rel[0] == '/' {
        rel
    } else if base.len() == 0 || base.last() == '/' {
        base + rel
    } else {
        base + seq!['/'] + rel
    }
}

/// Joins `rel` onto `base` as `join` states.
pub fn join_path(base: &str, rel: &str) -> (r: String)
    ensures
        r@ == join(base@, rel@),
{
    let b = chars_of(base);
    let c = chars_of(rel);
    if c.len() > 0 && c[0] == '/' {
        return rel.to_owned();
    }
    let mut out = base.to_owned();
    if !(b.len() == 0 || b[b.len() - 1] == '/') {
        push_char(&mut out, '/');
    }
    append_chars(&mut out, &c);
    out
}

/// Where the manifest entry `path` stands before staging: `root` joined with it.
pub open spec fn original_of(root: Seq<char>, path: Seq<char>) -> Seq<char> {
    join(root, path)
}

/// Where the manifest entry `path` is staged: under the staging directory of `root`.
pub open spec fn staged_of(root: Seq<char>, staging: Seq<char>, path: Seq<char>) -> Seq<char> {
    join(join(root, staging), path)
}

/// The pairs of views of a vector of string pairs.
pub open spec fn pair_views(v: Seq<(String, String)>) -> Seq<(Seq<char>, Seq<char>)> {
    v.map_values(|p: (String, String)| (p.0@, p.1@))
}

/// The moves that stage each manifest entry, in manifest order: from its
/// original place to its staged place.
pub open spec fn relocation_of(root: Seq<char>, staging: Seq<char>, paths: Seq<Seq<char>>) -> Seq<
    (Seq<char>, Seq<char>),
> {
    paths.map_values(|p: Seq<char>| (original_of(root, p), staged_of(root, staging, p)))
}

/// The moves that stage `paths` under `root`'s `staging` directory, one per
/// entry, in order, duplicates kept.
pub fn relocation_moves(root: &str, staging: &str, paths: &Vec<String>) -> (r: Vec<(String, String)>)
    ensures
        pair_views(r@) == relocation_of(root@, staging@, paths@.map_values(|s: String| s@)),
{
    let dir = join_path(root, staging);
    let mut out: Vec<(String, String)> = Vec::new();
    let mut i: usize = 0;
    while i < paths.len()
        invariant
            i <= paths.len(),
            dir@ == join(root@, staging@),
            pair_views(out@) == relocation_of(root@, staging@, paths@.map_values(|s: String| s@)).take(i as int),
        decreases paths.len() - i,
    {
        let old = join_path(root, paths[i].as_str());
        let new = join_path(dir.as_str(), paths[i].as_str());
        let ghost before = out@;
        let ghost item = (old@, new@);
        let ghost all = relocation_of(root@, staging@, paths@.map_values(|s: String| s@));
        assert(all[i as int] == item);
        out.push((old, new));
        assert(pair_views(out@) =~= pair_views(before).push(item));
        assert(all.take(i + 1) =~= all.take(i as int).push(item));
        assert(pair_views(out@) =~= relocation_of(root@, staging@, paths@.map_values(|s: String| s@)).take(i + 1));
        i = i + 1;
    }
    assert(relocation_of(root@, staging@, paths@.map_values(|s: String| s@)).take(i as int) =~= relocation_of(root@, staging@, paths@.map_values(|s: String| s@)));
    out
}

} // verus!
