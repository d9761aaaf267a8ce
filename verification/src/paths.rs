//! Absolute paths as vectors of segments, and the normalizing join that
//! turns a relative request fragment (`a/b`, `./x`, `../y`) into segments.
use vstd::prelude::*;
use crate::text::{str_eq, substr};

verus! {

/// The mathematical value of an absolute path: its segments from the root.
pub type PathV = Seq<Seq<char>>;

/// Append one raw segment, resolving `""` and `"."` to nothing and `".."`
/// to the parent (the root is its own parent).
pub open spec fn norm_push(p: PathV, seg: Seq<char>) -> PathV {
    if seg.len() == 0 || seg == seq!['.'] {
        p
    } else if seg == seq!['.', '.'] {
        if p.len() == 0 {
            p
        } else {
            p.drop_last()
        }
    } else {
        p.push(seg)
    }
}

/// Join of a relative fragment onto `p`: `cur` is the segment read so far,
/// `t` the characters still to read.
pub open spec fn push_rel_aux(p: PathV, cur: Seq<char>, t: Seq<char>) -> PathV
    decreases t.len(),
{
    if t.len() == 0 {
        norm_push(p, cur)
    } else if t[0] == '/' {
        push_rel_aux(norm_push(p, cur), Seq::empty(), t.drop_first())
    } else {
        push_rel_aux(p, cur.push(t[0]), t.drop_first())
    }
}

/// Join a `/`-separated relative fragment onto `p`, normalizing as it goes.
pub open spec fn push_rel(p: PathV, t: Seq<char>) -> PathV {
    push_rel_aux(p, Seq::empty(), t)
}

/// The path denoted by an absolute path string such as `/a/b`.
pub open spec fn path_of(s: Seq<char>) -> PathV {
    push_rel(Seq::empty(), s)
}

/// Appends one raw segment to `p`, resolving `""`, `"."` and `".."`.
pub fn norm_push_exec(p: &mut Vec<String>, seg: String)
    ensures
        final(p).deep_view() == norm_push(old(p).deep_view(), seg@),
{
    proof {
        reveal_strlit(".");
        reveal_strlit("..");
    }
    if seg.as_str().unicode_len() == 0 || str_eq(seg.as_str(), ".") {
        proof {
            assert("."@ =~= seq!['.']);
        }
    } else if str_eq(seg.as_str(), "..") {
        proof {
            assert(".."@ =~= seq!['.', '.']);
        }
        if p.len() > 0 {
            let ghost before = p.deep_view();
            p.pop();
            proof {
                assert(p.deep_view() =~= before.drop_last());
            }
        }
    } else {
        proof {
            assert(seg@ != seq!['.'] && seg@ != seq!['.', '.']) by {
                assert("."@ =~= seq!['.']);
                assert(".."@ =~= seq!['.', '.']);
            }
        }
        let ghost before = p.deep_view();
        p.push(seg);
        proof {
            assert(p.deep_view() =~= before.push(p@.last()@));
        }
    }
}

/// Joins the `/`-separated fragment `t` onto `p`, normalizing `""`, `"."`
/// and `".."` segments.
pub fn push_rel_exec(p: &mut Vec<String>, t: &str)
    ensures
        final(p).deep_view() == push_rel(old(p).deep_view(), t@),
{
    let n = t.unicode_len();
    let mut start: usize = 0;
    let mut i: usize = 0;
    proof {
        assert(t@.subrange(0, 0) =~= Seq::<char>::empty());
        assert(t@.subrange(0, n as int) =~= t@);
    }
    while i < n
        invariant
            0 <= start <= i <= n,
            n == t@.len(),
            push_rel_aux(old(p).deep_view(), Seq::empty(), t@) == push_rel_aux(
                p.deep_view(),
                t@.subrange(start as int, i as int),
                t@.subrange(i as int, n as int),
            ),
        decreases n - i,
    {
        let ghost cur = t@.subrange(start as int, i as int);
        let ghost rest = t@.subrange(i as int, n as int);
        proof {
            assert(rest.len() > 0);
            assert(rest[0] == t@[i as int]);
            assert(rest.drop_first() =~= t@.subrange(i as int + 1, n as int));
        }
        if t.get_char(i) == '/' {
            let seg = substr(t, start, i);
            norm_push_exec(p, seg);
            start = i + 1;
            i += 1;
            proof {
                assert(t@.subrange(start as int, i as int) =~= Seq::<char>::empty());
            }
        } else {
            i += 1;
            proof {
                assert(t@.subrange(start as int, i as int) =~= cur.push(rest[0]));
            }
        }
    }
    proof {
        assert(t@.subrange(i as int, n as int) =~= Seq::<char>::empty());
    }
    let seg = substr(t, start, n);
    norm_push_exec(p, seg);
}

/// The segments of the absolute path string `s`.
pub fn path_of_exec(s: &str) -> (r: Vec<String>)
    ensures
        r.deep_view() == path_of(s@),
{
    let mut p: Vec<String> = Vec::new();
    proof {
        assert(p.deep_view() =~= Seq::<Seq<char>>::empty());
    }
    push_rel_exec(&mut p, s);
    p
}

/// Segment-wise path equality.
pub fn path_eq(a: &Vec<String>, b: &Vec<String>) -> (r: bool)
    ensures
        r == (a.deep_view() == b.deep_view()),
{
    if a.len() != b.len() {
        proof {
            assert(a.deep_view().len() == a@.len());
            assert(b.deep_view().len() == b@.len());
        }
        return false;
    }
    let n = a.len();
    let mut i: usize = 0;
    while i < n
        invariant
            0 <= i <= n,
            n == a@.len() == b@.len(),
            forall|k: int| 0 <= k < i ==> a@[k]@ == b@[k]@,
        decreases n - i,
    {
        if !str_eq(a[i].as_str(), b[i].as_str()) {
            assert(a.deep_view()[i as int] != b.deep_view()[i as int]);
            return false;
        }
        i += 1;
    }
    proof {
        assert(a.deep_view() =~= b.deep_view());
    }
    true
}

/// Clones a path.
pub fn path_clone(p: &Vec<String>) -> (r: Vec<String>)
    ensures
        r.deep_view() == p.deep_view(),
{
    let mut r: Vec<String> = Vec::new();
    let n = p.len();
    let mut i: usize = 0;
    while i < n
        invariant
            0 <= i <= n,
            n == p@.len(),
            r@.len() == i,
            forall|k: int| 0 <= k < i ==> r@[k]@ == p@[k]@,
        decreases n - i,
    {
        r.push(p[i].clone());
        i += 1;
    }
    proof {
        assert(r.deep_view() =~= p.deep_view());
    }
    r
}

} // verus!
