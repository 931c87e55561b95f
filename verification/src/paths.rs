//! File-system paths as strings, with the `/` separator of Unix paths:
//! the final component of a path (`Path::file_name`) and joining
//! (`Path::join`).
use vstd::prelude::*;
use crate::text::{push_char, to_chars, string_of};

verus! {

/// The pieces of `p` between `'/'` separators, in order.
pub open spec fn segments(p: Seq<char>) -> Seq<Seq<char>>
    decreases p.len(),
{
    if p.len() == 0 {
        seq![seq![]]
    } else {
        let rest = segments(p.drop_last());
        if p.last() == '/' {
            rest.push(seq![])
        } else {
            rest.drop_last().push(rest.last().push(p.last()))
        }
    }
}

/// A piece that names something: not empty and not `"."`.
pub open spec fn is_named(seg: Seq<char>) -> bool {
    seg.len() > 0 && seg != seq!['.']
}

/// The components of a path that `Path::components` reports besides the
/// root: the pieces that are neither empty nor `"."`.
pub open spec fn components(p: Seq<char>) -> Seq<Seq<char>> {
    segments(p).filter(|s: Seq<char>| is_named(s))
}

/// `Path::file_name`: the final component, unless there is none or it is
/// `".."`.
pub open spec fn file_name_of(p: Seq<char>) -> Option<Seq<char>> {
    let cs = components(p);
    if cs.len() == 0 || cs.last() == seq!['.', '.'] {
        None
    } else {
        Some(cs.last())
    }
}

proof fn lemma_segments_nonempty(p: Seq<char>)
    ensures
        segments(p).len() >= 1,
    decreases p.len(),
{
    if p.len() > 0 {
        lemma_segments_nonempty(p.drop_last());
    }
}

/// The final component of the path `p` (`Path::file_name`).
pub fn path_file_name(p: &str) -> (r: Option<String>)
    ensures
        r matches Some(s) ==> file_name_of(p@) == Some(s@),
        r is None ==> file_name_of(p@) is None,
{
    let v = to_chars(p);
    // The last named piece seen so far, and the piece being read.
    let mut last: Option<Vec<char>> = None;
    let mut cur: Vec<char> = Vec::new();
    let mut i: usize = 0;
    let ghost pred = |s: Seq<char>| is_named(s);
    proof {
        assert(v@.take(0) =~= Seq::<char>::empty());
        assert(segments(v@.take(0)).drop_last().filter(pred) =~= Seq::<Seq<char>>::empty());
    }
    while i < v.len()
        invariant
            i <= v@.len(),
            pred == (|s: Seq<char>| is_named(s)),
            segments(v@.take(i as int)).len() >= 1,
            cur@ == segments(v@.take(i as int)).last(),
            last matches Some(l) ==> segments(v@.take(i as int)).drop_last().filter(pred).len() > 0
                && l@ == segments(v@.take(i as int)).drop_last().filter(pred).last(),
            last is None ==> segments(v@.take(i as int)).drop_last().filter(pred).len() == 0,
        decreases v.len() - i,
    {
        let c = v[i];
        let ghost pre = v@.take(i as int);
        proof {
            assert(v@.take(i + 1).drop_last() =~= pre);
            assert(v@.take(i + 1).last() == c);
            lemma_segments_nonempty(pre);
        }
        if c == '/' {
            let named = cur.len() > 0 && !(cur.len() == 1 && cur[0] == '.');
            proof {
                let segs = segments(pre);
                assert(segments(v@.take(i + 1)) == segs.push(seq![]));
                assert(segments(v@.take(i + 1)).drop_last() =~= segs);
                assert(segs =~= segs.drop_last().push(segs.last()));
                reveal(Seq::filter);
                assert(segs.drop_last().push(segs.last()).drop_last() =~= segs.drop_last());
                if cur@.len() == 1 && cur@[0] == '.' {
                    assert(cur@ =~= seq!['.']);
                }
                if named {
                    assert(cur@ != seq!['.']);
                }
            }
            if named {
                last = Some(cur);
            }
            cur = Vec::new();
        } else {
            cur.push(c);
            proof {
                let segs = segments(pre);
                assert(segments(v@.take(i + 1)).drop_last() =~= segs.drop_last());
            }
        }
        i = i + 1;
    }
    proof {
        assert(v@.take(v@.len() as int) =~= v@);
        let segs = segments(v@);
        assert(segs =~= segs.drop_last().push(segs.last()));
        reveal(Seq::filter);
                assert(segs.drop_last().push(segs.last()).drop_last() =~= segs.drop_last());
        if cur@.len() == 1 && cur@[0] == '.' {
            assert(cur@ =~= seq!['.']);
        }
    }
    let named = cur.len() > 0 && !(cur.len() == 1 && cur[0] == '.');
    let fin = if named { Some(cur) } else { last };
    match fin {
        None => None,
        Some(l) => {
            if l.len() == 2 && l[0] == '.' && l[1] == '.' {
                proof {
                    assert(l@ =~= seq!['.', '.']);
                }
                None
            } else {
                proof {
                    if l@ == seq!['.', '.'] {
                        assert(l@[0] == '.' && l@[1] == '.');
                    }
                }
                Some(string_of(&l))
            }
        },
    }
}

/// `Path::join`: an absolute `rel` replaces `base`; otherwise `rel` is
/// appended, with a `'/'` in between unless `base` is empty or already ends
/// with one.
pub open spec fn join_spec(base: Seq<char>, rel: Seq<char>) -> Seq<char> {
    if rel.len() > 0 && rel[0] == '/' {
        rel
    } else if base.len() == 0 || base.last() == '/' {
        base + rel
    } else {
        base + seq!['/'] + rel
    }
}

/// Joins a relative path onto a base path.
pub fn join_path(base: &str, rel: &str) -> (r: String)
    ensures
        r@ == join_spec(base@, rel@),
{
    let rv = to_chars(rel);
    if rv.len() > 0 && rv[0] == '/' {
        return string_of(&rv);
    }
    let bv = to_chars(base);
    let mut r = string_of(&bv);
    if bv.len() > 0 && bv[bv.len() - 1] != '/' {
        push_char(&mut r, '/');
    }
    r.append(rel);
    r
}

} // verus!
