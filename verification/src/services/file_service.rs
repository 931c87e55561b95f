//! Path completion: which directory entries complete a typed path, and in
//! what order they are offered.  Listing the directory is the caller's part.
use vstd::prelude::*;
use crate::paths::{join_path, join_spec};
use crate::text::{push_char, to_chars};

verus! {

/// String order (`Ord` for `str`): lexicographic by character, a prefix
/// first.  UTF-8 keeps the order of code points, so this is also the order
/// of the bytes.
pub open spec fn lex_le(a: Seq<char>, b: Seq<char>) -> bool
    decreases a.len(),
{
    if a.len() == 0 {
        true
    } else if b.len() == 0 {
        false
    } else if a[0] != b[0] {
        (a[0] as int) < (b[0] as int)
    } else {
        lex_le(a.drop_first(), b.drop_first())
    }
}

pub proof fn lemma_lex_total(a: Seq<char>, b: Seq<char>)
    ensures
        lex_le(a, b) || lex_le(b, a),
    decreases a.len(),
{
    if a.len() > 0 && b.len() > 0 && a[0] == b[0] {
        lemma_lex_total(a.drop_first(), b.drop_first());
    }
}

pub proof fn lemma_lex_trans(a: Seq<char>, b: Seq<char>, c: Seq<char>)
    requires
        lex_le(a, b),
        lex_le(b, c),
    ensures
        lex_le(a, c),
    decreases a.len(),
{
    if a.len() > 0 && b.len() > 0 && c.len() > 0 && a[0] == b[0] && b[0] == c[0] {
        lemma_lex_trans(a.drop_first(), b.drop_first(), c.drop_first());
    }
}

/// Each element is at most every later one.
pub open spec fn sorted(s: Seq<Seq<char>>) -> bool {
    forall|i: int, j: int| 0 <= i < j < s.len() ==> lex_le(#[trigger] s[i], #[trigger] s[j])
}

/// Whether `a` comes no later than `b` in string order.
pub fn str_le(a: &String, b: &String) -> (r: bool)
    ensures
        r == lex_le(a@, b@),
{
    let av = to_chars(a.as_str());
    let bv = to_chars(b.as_str());
    let mut i: usize = 0;
    proof {
        assert(av@.skip(0) =~= av@);
        assert(bv@.skip(0) =~= bv@);
    }
    while i < av.len() && i < bv.len() && av[i] == bv[i]
        invariant
            av@ == a@,
            bv@ == b@,
            i <= av@.len(),
            i <= bv@.len(),
            lex_le(av@.skip(i as int), bv@.skip(i as int)) == lex_le(av@, bv@),
        decreases av.len() - i,
    {
        proof {
            assert(av@.skip(i as int).drop_first() =~= av@.skip(i + 1));
            assert(bv@.skip(i as int).drop_first() =~= bv@.skip(i + 1));
        }
        i = i + 1;
    }
    if i == av.len() {
        true
    } else if i == bv.len() {
        false
    } else {
        assert(av@.skip(i as int)[0] == av@[i as int]);
        assert(bv@.skip(i as int)[0] == bv@[i as int]);
        av[i] < bv[i]
    }
}

/// The strings in string order.
pub fn sort_strings(v: Vec<String>) -> (r: Vec<String>)
    ensures
        sorted(r.deep_view()),
        r.deep_view().to_multiset() == v.deep_view().to_multiset(),
{
    let mut out: Vec<String> = Vec::new();
    let mut k: usize = 0;
    let ghost dv = v.deep_view();
    proof {
        assert(dv.take(0) =~= Seq::<Seq<char>>::empty());
        assert(out.deep_view() =~= Seq::<Seq<char>>::empty());
    }
    while k < v.len()
        invariant
            dv == v.deep_view(),
            k <= dv.len(),
            sorted(out.deep_view()),
            out.deep_view().to_multiset() == dv.take(k as int).to_multiset(),
        decreases v.len() - k,
    {
        let x = v[k].clone();
        assert(x@ == dv[k as int]);
        let ghost o = out.deep_view();
        // The place after every element that is at most `x`.
        let mut p: usize = 0;
        while p < out.len() && str_le(&out[p], &x)
            invariant
                o == out.deep_view(),
                p <= o.len(),
                forall|i: int| 0 <= i < p ==> lex_le(#[trigger] o[i], x@),
            decreases out.len() - p,
        {
            assert(out[p as int]@ == o[p as int]);
            p = p + 1;
        }
        proof {
            if p < o.len() {
                assert(out[p as int]@ == o[p as int]);
                assert(!lex_le(o[p as int], x@));
                lemma_lex_total(o[p as int], x@);
            }
        }
        out.insert(p, x);
        proof {
            let n = out.deep_view();
            assert(n =~= o.insert(p as int, x@));
            assert forall|i: int, j: int| 0 <= i < j < n.len() implies lex_le(#[trigger] n[i], #[trigger] n[j]) by {
                if j < p {
                    assert(n[i] == o[i] && n[j] == o[j]);
                } else if j == p {
                    assert(n[i] == o[i]);
                } else if i < p {
                    assert(n[i] == o[i] && n[j] == o[j - 1]);
                    lemma_lex_trans(o[i], x@, o[p as int]);
                    if j - 1 > p {
                        lemma_lex_trans(o[i], o[p as int], o[j - 1]);
                    }
                } else if i == p {
                    assert(n[j] == o[j - 1]);
                    if j - 1 > p {
                        lemma_lex_trans(x@, o[p as int], o[j - 1]);
                    }
                } else {
                    assert(n[i] == o[i - 1] && n[j] == o[j - 1]);
                }
            }
            vstd::seq_lib::to_multiset_insert(o, p as int, x@);
            assert(dv.take(k + 1) =~= dv.take(k as int).push(dv[k as int]));
            dv.take(k as int).to_multiset_ensures();
        }
        k = k + 1;
    }
    proof {
        assert(dv.take(dv.len() as int) =~= dv);
    }
    out
}

/// `name` begins with `prefix`.
pub open spec fn has_prefix(name: Seq<char>, prefix: Seq<char>) -> bool {
    prefix.len() <= name.len() && name.take(prefix.len() as int) == prefix
}

/// The completion offered for an entry: the directory joined with its
/// name, with a `/` after a directory.
pub open spec fn completion_of(dir: Seq<char>, entry: (Seq<char>, bool)) -> Seq<char> {
    join_spec(dir, entry.0) + if entry.1 { seq!['/'] } else { Seq::<char>::empty() }
}

/// The completions of the entries (name, is a directory) whose names start
/// with `prefix`, in listing order.
pub open spec fn completions_of(dir: Seq<char>, prefix: Seq<char>, entries: Seq<(Seq<char>, bool)>) -> Seq<Seq<char>>
    decreases entries.len(),
{
    if entries.len() == 0 {
        seq![]
    } else {
        let rest = completions_of(dir, prefix, entries.drop_last());
        if has_prefix(entries.last().0, prefix) {
            rest.push(completion_of(dir, entries.last()))
        } else {
            rest
        }
    }
}

fn starts_with_str(name: &String, prefix: &str) -> (r: bool)
    ensures
        r == has_prefix(name@, prefix@),
{
    let nv = to_chars(name.as_str());
    let pv = to_chars(prefix);
    if pv.len() > nv.len() {
        return false;
    }
    let mut i: usize = 0;
    while i < pv.len()
        invariant
            nv@ == name@,
            pv@ == prefix@,
            pv@.len() <= nv@.len(),
            i <= pv@.len(),
            forall|j: int| 0 <= j < i ==> nv@[j] == pv@[j],
        decreases pv.len() - i,
    {
        if nv[i] != pv[i] {
            assert(nv@.take(pv@.len() as int)[i as int] != pv@[i as int]);
            return false;
        }
        i = i + 1;
    }
    assert(nv@.take(pv@.len() as int) =~= pv@);
    true
}

/// The completions of a typed path from the entries of its directory
/// (each a name and whether it is a directory): those whose names start
/// with `prefix`, joined to `dir`, directories ending in `/`, in string
/// order.
pub fn completions_from(dir: &str, prefix: &str, entries: &Vec<(String, bool)>) -> (r: Vec<String>)
    ensures
        sorted(r.deep_view()),
        r.deep_view().to_multiset() == completions_of(
            dir@,
            prefix@,
            entries@.map_values(|e: (String, bool)| (e.0@, e.1)),
        ).to_multiset(),
{
    let ghost es = entries@.map_values(|e: (String, bool)| (e.0@, e.1));
    let mut found: Vec<String> = Vec::new();
    let mut i: usize = 0;
    proof {
        assert(es.take(0) =~= Seq::<(Seq<char>, bool)>::empty());
        assert(found.deep_view() =~= Seq::<Seq<char>>::empty());
    }
    while i < entries.len()
        invariant
            es == entries@.map_values(|e: (String, bool)| (e.0@, e.1)),
            i <= entries@.len(),
            found.deep_view() == completions_of(dir@, prefix@, es.take(i as int)),
        decreases entries.len() - i,
    {
        proof {
            assert(es.take(i + 1).drop_last() =~= es.take(i as int));
            assert(es.take(i + 1).last() == es[i as int]);
        }
        let name = &entries[i].0;
        let is_dir = entries[i].1;
        let ghost before = found.deep_view();
        if starts_with_str(name, prefix) {
            let mut full = join_path(dir, name.as_str());
            if is_dir {
                push_char(&mut full, '/');
            }
            assert(full@ =~= completion_of(dir@, es[i as int]));
            found.push(full);
            proof {
                assert(found.deep_view() =~= before.push(completion_of(dir@, es[i as int])));
            }
        }
        i = i + 1;
    }
    proof {
        assert(es.take(es.len() as int) =~= es);
    }
    sort_strings(found)
}

/// The index of the last `'/'` in `s[..n]`, if any.
pub open spec fn last_slash(s: Seq<char>, n: int) -> Option<int>
    decreases n,
{
    if n <= 0 {
        None
    } else if s[n - 1] == '/' {
        Some(n - 1)
    } else {
        last_slash(s, n - 1)
    }
}

/// The directory to list and the name prefix to complete for a typed
/// path: a path ending in `/` is a directory with an empty prefix;
/// otherwise the part before the last `/` (the root for a leading `/`, the
/// current directory `"."` when there is no `/`) and the part after it.
pub open spec fn partial_split(p: Seq<char>) -> (Seq<char>, Seq<char>) {
    if p.len() > 0 && p.last() == '/' {
        (p, Seq::<char>::empty())
    } else {
        match last_slash(p, p.len() as int) {
            None => (seq!['.'], p),
            Some(k) => (if k == 0 { seq!['/'] } else { p.take(k) }, p.skip(k + 1)),
        }
    }
}

/// Splits a typed path into the directory to list and the prefix of the
/// names to offer (see [`partial_split`]).
pub fn split_partial_path(partial: &str) -> (r: (String, String))
    ensures
        r.0@ == partial_split(partial@).0,
        r.1@ == partial_split(partial@).1,
{
    let v = to_chars(partial);
    let n = v.len();
    if n > 0 && v[n - 1] == '/' {
        return (crate::text::string_of(&v), String::new());
    }
    let mut k = n;
    while k > 0 && v[k - 1] != '/'
        invariant
            k <= n,
            n == v@.len(),
            last_slash(v@, k as int) == last_slash(v@, n as int),
        decreases k,
    {
        k = k - 1;
    }
    if k == 0 {
        let mut dot = String::new();
        push_char(&mut dot, '.');
        assert(dot@ =~= seq!['.']);
        (dot, crate::text::string_of(&v))
    } else {
        let slash = k - 1;
        let dir = if slash == 0 {
            let mut root = String::new();
            push_char(&mut root, '/');
            assert(root@ =~= seq!['/']);
            root
        } else {
            crate::text::from_chars(&v, 0, slash)
        };
        let rest = crate::text::from_chars(&v, slash + 1, n);
        proof {
            assert(v@.take(slash as int) =~= v@.subrange(0, slash as int));
            assert(v@.skip(slash + 1) =~= v@.subrange(slash + 1, n as int));
        }
        (dir, rest)
    }
}

} // verus!
