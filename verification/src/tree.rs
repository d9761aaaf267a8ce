//! The path tree behind a manifest's `exports` / `imports` value, and the
//! matching algorithm that answers what target a subpath resolves to under
//! a set of active condition names.
use vstd::prelude::*;
use crate::json::{JsonValue, JsonView, jv_sem};
use crate::text::{first_occ, find_char, str_eq, has_prefix, has_suffix, substr, concat_str};

verus! {

/// A node of the tree: a direct string target, a JSON `null`, an ordered
/// mapping (subpath patterns at the root, condition names below), or an
/// ordered list of fallbacks.
pub enum PathTreeNode {
    Target(String),
    Null,
    Branch(Vec<(String, PathTreeNode)>),
    List(Vec<PathTreeNode>),
}

/// The mathematical value of a path tree.
pub enum TreeV {
    Target(Seq<char>),
    Null,
    Branch(Seq<(Seq<char>, TreeV)>),
    List(Seq<TreeV>),
}

pub open spec fn tree_sem(t: PathTreeNode) -> TreeV
    decreases t,
{
    match t {
        PathTreeNode::Target(s) => TreeV::Target(s@),
        PathTreeNode::Null => TreeV::Null,
        PathTreeNode::Branch(e) => TreeV::Branch(branch_sem(e@)),
        PathTreeNode::List(items) => TreeV::List(list_sem(items@)),
    }
}

pub open spec fn branch_sem(e: Seq<(String, PathTreeNode)>) -> Seq<(Seq<char>, TreeV)>
    decreases e,
{
    if e.len() == 0 {
        Seq::empty()
    } else {
        seq![(e[0].0@, tree_sem(e[0].1))] + branch_sem(e.drop_first())
    }
}

pub open spec fn list_sem(items: Seq<PathTreeNode>) -> Seq<TreeV>
    decreases items,
{
    if items.len() == 0 {
        Seq::empty()
    } else {
        seq![tree_sem(items[0])] + list_sem(items.drop_first())
    }
}

pub proof fn lemma_branch_sem_len(e: Seq<(String, PathTreeNode)>)
    ensures
        branch_sem(e).len() == e.len(),
        forall|i: int| 0 <= i < e.len() ==> branch_sem(e)[i] == (e[i].0@, tree_sem(e[i].1)),
    decreases e,
{
    if e.len() > 0 {
        lemma_branch_sem_len(e.drop_first());
    }
}

pub proof fn lemma_list_sem_len(items: Seq<PathTreeNode>)
    ensures
        list_sem(items).len() == items.len(),
        forall|i: int| 0 <= i < items.len() ==> list_sem(items)[i] == tree_sem(items[i]),
    decreases items,
{
    if items.len() > 0 {
        lemma_list_sem_len(items.drop_first());
    }
}

/// What tree a JSON value builds: strings, `null`, objects and arrays make
/// nodes; any other shape makes the whole value malformed.
pub open spec fn build_spec(j: JsonView) -> Option<TreeV>
    decreases j,
{
    match j {
        JsonView::Str(s) => Some(TreeV::Target(s)),
        JsonView::Null => Some(TreeV::Null),
        JsonView::Obj(e) => match build_branch_spec(e) {
            Some(b) => Some(TreeV::Branch(b)),
            None => None,
        },
        JsonView::Arr(a) => match build_list_spec(a) {
            Some(l) => Some(TreeV::List(l)),
            None => None,
        },
        _ => None,
    }
}

pub open spec fn build_branch_spec(e: Seq<(Seq<char>, JsonView)>) -> Option<
    Seq<(Seq<char>, TreeV)>,
>
    decreases e,
{
    if e.len() == 0 {
        Some(Seq::empty())
    } else {
        match (build_spec(e[0].1), build_branch_spec(e.drop_first())) {
            (Some(t), Some(rest)) => Some(seq![(e[0].0, t)] + rest),
            _ => None,
        }
    }
}

pub open spec fn build_list_spec(a: Seq<JsonView>) -> Option<Seq<TreeV>>
    decreases a,
{
    if a.len() == 0 {
        Some(Seq::empty())
    } else {
        match (build_spec(a[0]), build_list_spec(a.drop_first())) {
            (Some(t), Some(rest)) => Some(seq![t] + rest),
            _ => None,
        }
    }
}

proof fn lemma_build_branch_snoc(e: Seq<(Seq<char>, JsonView)>, x: (Seq<char>, JsonView))
    ensures
        build_branch_spec(e.push(x)) == (match (build_branch_spec(e), build_spec(x.1)) {
            (Some(rest), Some(t)) => Some(rest.push((x.0, t))),
            _ => None::<Seq<(Seq<char>, TreeV)>>,
        }),
    decreases e,
{
    if e.len() == 0 {
        assert(e.push(x).drop_first() =~= e);
        if build_spec(x.1) is Some {
            assert(build_branch_spec(e.push(x))->Some_0 =~= build_branch_spec(
                e,
            )->Some_0.push((x.0, build_spec(x.1)->Some_0)));
        }
    } else {
        assert(e.push(x).drop_first() =~= e.drop_first().push(x));
        lemma_build_branch_snoc(e.drop_first(), x);
        if build_branch_spec(e) is Some && build_spec(x.1) is Some {
            assert(build_branch_spec(e.push(x))->Some_0 =~= build_branch_spec(
                e,
            )->Some_0.push((x.0, build_spec(x.1)->Some_0)));
        }
    }
}

proof fn lemma_build_list_snoc(a: Seq<JsonView>, x: JsonView)
    ensures
        build_list_spec(a.push(x)) == (match (build_list_spec(a), build_spec(x)) {
            (Some(rest), Some(t)) => Some(rest.push(t)),
            _ => None::<Seq<TreeV>>,
        }),
    decreases a,
{
    if a.len() == 0 {
        assert(a.push(x).drop_first() =~= a);
        if build_spec(x) is Some {
            assert(build_list_spec(a.push(x))->Some_0 =~= build_list_spec(a)->Some_0.push(
                build_spec(x)->Some_0,
            ));
        }
    } else {
        assert(a.push(x).drop_first() =~= a.drop_first().push(x));
        lemma_build_list_snoc(a.drop_first(), x);
        if build_list_spec(a) is Some && build_spec(x) is Some {
            assert(build_list_spec(a.push(x))->Some_0 =~= build_list_spec(a)->Some_0.push(
                build_spec(x)->Some_0,
            ));
        }
    }
}

proof fn lemma_build_branch_elem_none(e: Seq<(Seq<char>, JsonView)>, i: int)
    requires
        0 <= i < e.len(),
        build_spec(e[i].1) is None,
    ensures
        build_branch_spec(e) is None,
    decreases e,
{
    if i > 0 {
        lemma_build_branch_elem_none(e.drop_first(), i - 1);
    }
}

proof fn lemma_build_list_elem_none(a: Seq<JsonView>, i: int)
    requires
        0 <= i < a.len(),
        build_spec(a[i]) is None,
    ensures
        build_list_spec(a) is None,
    decreases a,
{
    if i > 0 {
        lemma_build_list_elem_none(a.drop_first(), i - 1);
    }
}

/// Builds the path tree of an `exports` / `imports` JSON value.  Fails
/// exactly on values holding a boolean, a number or another unsupported
/// shape.
pub fn build_tree(v: &JsonValue) -> (r: Option<PathTreeNode>)
    ensures
        r matches Some(t) ==> build_spec(jv_sem(*v)) == Some(tree_sem(t)),
        (r is None <==> build_spec(jv_sem(*v)) is None),
    decreases *v,
{
    match v {
        JsonValue::Str(s) => Some(PathTreeNode::Target(s.clone())),
        JsonValue::Null => Some(PathTreeNode::Null),
        JsonValue::Obj(e) => {
            proof {
                crate::json::lemma_obj_sem_len(e@);
            }
            let ghost m = crate::json::obj_sem(e@);
            proof {
                assert(jv_sem(*v) == JsonView::Obj(m));
            }
            let n = e.len();
            let mut out: Vec<(String, PathTreeNode)> = Vec::new();
            let mut i: usize = 0;
            while i < n
                invariant
                    0 <= i <= n,
                    n == e@.len(),
                    m == crate::json::obj_sem(e@),
                    m.len() == n,
                    forall|j: int| 0 <= j < n ==> m[j] == (e@[j].0@, jv_sem(e@[j].1)),
                    out@.len() == i,
                    *v == JsonValue::Obj(*e),
                    jv_sem(*v) == JsonView::Obj(m),
                    build_branch_spec(m.subrange(0, i as int)) == Some(branch_sem(out@)),
                decreases n - i,
            {
                let ghost before = out@;
                proof {
                    assert(*e == (*v)->Obj_0);
                    assert(decreases_to!(*v => (*v)->Obj_0));
                    assert(decreases_to!(*e => e@));
                    assert(decreases_to!(e@ => e@[i as int]));
                    assert(decreases_to!(e@[i as int] => e@[i as int].1));
                    assert(decreases_to!(*v => e@[i as int].1));
                }
                match build_tree(&e[i].1) {
                    Some(t) => {
                        let key = e[i].0.clone();
                        out.push((key, t));
                        proof {
                            lemma_build_branch_snoc(m.subrange(0, i as int), m[i as int]);
                            lemma_branch_snoc_sem(before, out@[i as int]);
                            assert(m.subrange(0, i as int + 1) =~= m.subrange(0, i as int).push(
                                m[i as int],
                            ));
                        }
                    },
                    None => {
                        proof {
                            lemma_build_branch_elem_none(m, i as int);
                        }
                        return None;
                    },
                }
                i += 1;
            }
            proof {
                assert(m.subrange(0, n as int) =~= m);
            }
            Some(PathTreeNode::Branch(out))
        },
        JsonValue::Arr(a) => {
            proof {
                crate::json::lemma_arr_sem_len(a@);
            }
            let ghost m = crate::json::arr_sem(a@);
            proof {
                assert(jv_sem(*v) == JsonView::Arr(m));
            }
            let n = a.len();
            let mut out: Vec<PathTreeNode> = Vec::new();
            let mut i: usize = 0;
            while i < n
                invariant
                    0 <= i <= n,
                    n == a@.len(),
                    m == crate::json::arr_sem(a@),
                    m.len() == n,
                    forall|j: int| 0 <= j < n ==> m[j] == jv_sem(a@[j]),
                    out@.len() == i,
                    *v == JsonValue::Arr(*a),
                    jv_sem(*v) == JsonView::Arr(m),
                    build_list_spec(m.subrange(0, i as int)) == Some(list_sem(out@)),
                decreases n - i,
            {
                let ghost before = out@;
                proof {
                    assert(*a == (*v)->Arr_0);
                    assert(decreases_to!(*v => (*v)->Arr_0));
                    assert(decreases_to!(*a => a@));
                    assert(decreases_to!(a@ => a@[i as int]));
                    assert(decreases_to!(*v => a@[i as int]));
                }
                match build_tree(&a[i]) {
                    Some(t) => {
                        out.push(t);
                        proof {
                            lemma_build_list_snoc(m.subrange(0, i as int), m[i as int]);
                            lemma_list_snoc_sem(before, out@[i as int]);
                            assert(m.subrange(0, i as int + 1) =~= m.subrange(0, i as int).push(
                                m[i as int],
                            ));
                        }
                    },
                    None => {
                        proof {
                            lemma_build_list_elem_none(m, i as int);
                        }
                        return None;
                    },
                }
                i += 1;
            }
            proof {
                assert(m.subrange(0, n as int) =~= m);
            }
            Some(PathTreeNode::List(out))
        },
        _ => None,
    }
}

proof fn lemma_branch_snoc_sem(e: Seq<(String, PathTreeNode)>, x: (String, PathTreeNode))
    ensures
        branch_sem(e.push(x)) == branch_sem(e).push((x.0@, tree_sem(x.1))),
    decreases e,
{
    if e.len() == 0 {
        assert(e.push(x).drop_first() =~= e);
        assert(branch_sem(e.push(x)) =~= branch_sem(e).push((x.0@, tree_sem(x.1))));
    } else {
        assert(e.push(x).drop_first() =~= e.drop_first().push(x));
        lemma_branch_snoc_sem(e.drop_first(), x);
        assert(branch_sem(e.push(x)) =~= branch_sem(e).push((x.0@, tree_sem(x.1))));
    }
}

proof fn lemma_list_snoc_sem(items: Seq<PathTreeNode>, x: PathTreeNode)
    ensures
        list_sem(items.push(x)) == list_sem(items).push(tree_sem(x)),
    decreases items,
{
    if items.len() == 0 {
        assert(items.push(x).drop_first() =~= items);
        assert(list_sem(items.push(x)) =~= list_sem(items).push(tree_sem(x)));
    } else {
        assert(items.push(x).drop_first() =~= items.drop_first().push(x));
        lemma_list_snoc_sem(items.drop_first(), x);
        assert(list_sem(items.push(x)) =~= list_sem(items).push(tree_sem(x)));
    }
}

/// The subpath that alone matches a bare string or list root.
pub open spec fn dot() -> Seq<char> {
    seq!['.']
}

/// The condition name that is always active.
pub open spec fn default_cond() -> Seq<char> {
    seq!['d', 'e', 'f', 'a', 'u', 'l', 't']
}

/// `t` with every `*` replaced by `cap`.
pub open spec fn subst_star(t: Seq<char>, cap: Seq<char>) -> Seq<char>
    decreases t.len(),
{
    match first_occ(t, '*') {
        Some(i) => if 0 <= i < t.len() {
            t.subrange(0, i) + cap + subst_star(t.subrange(i + 1, t.len() as int), cap)
        } else {
            t
        },
        None => t,
    }
}

/// Replaces every `*` of `t` by `cap`.
pub fn subst_star_exec(t: &str, cap: &str) -> (r: String)
    ensures
        r@ == subst_star(t@, cap@),
    decreases t@.len(),
{
    proof {
        crate::text::lemma_first_occ(t@, '*');
    }
    match find_char(t, '*') {
        Some(i) => {
            let n = t.unicode_len();
            let head = substr(t, 0, i);
            let rest = subst_star_exec(substring_owned(t, i + 1, n).as_str(), cap);
            let front = concat_str(head.as_str(), cap);
            concat_str(front.as_str(), rest.as_str())
        },
        None => t.to_owned(),
    }
}

/// The characters of `s` from `from` to `to`, owned.
fn substring_owned(s: &str, from: usize, to: usize) -> (r: String)
    requires
        from <= to <= s@.len(),
    ensures
        r@ == s@.subrange(from as int, to as int),
{
    substr(s, from, to)
}

/// Matches `s` against the wildcard pattern `p` (one `*`): the literal
/// prefix and suffix around the `*` must surround `s`; the capture is what
/// the `*` stood for.
pub open spec fn pat_match(p: Seq<char>, s: Seq<char>) -> Option<Seq<char>> {
    match first_occ(p, '*') {
        Some(i) => if 0 <= i < p.len() {
            let pre = p.subrange(0, i);
            let suf = p.subrange(i + 1, p.len() as int);
            if pre.len() + suf.len() <= s.len() && pre.is_prefix_of(s) && suf.is_suffix_of(s) {
                Some(s.subrange(i, s.len() - suf.len()))
            } else {
                None
            }
        } else {
            None
        },
        None => None,
    }
}

/// Matches `s` against `p`, giving the `*` position and the capture.
pub fn pat_match_exec(p: &str, s: &str) -> (r: Option<(usize, String)>)
    ensures
        match r {
            Some(ic) => first_occ(p@, '*') == Some(ic.0 as int) && pat_match(p@, s@) == Some(
                ic.1@,
            ),
            None => pat_match(p@, s@) is None,
        },
{
    proof {
        crate::text::lemma_first_occ(p@, '*');
    }
    match find_char(p, '*') {
        Some(i) => {
            let np = p.unicode_len();
            let ns = s.unicode_len();
            let pre = substr(p, 0, i);
            let suf = substr(p, i + 1, np);
            if np - 1 <= ns && has_prefix(s, pre.as_str()) && has_suffix(s, suf.as_str()) {
                let cap = substr(s, i, ns - (np - 1 - i));
                Some((i, cap))
            } else {
                None
            }
        },
        None => None,
    }
}

/// Whether the condition name `k` is selected: it is `default` or it is
/// among the active condition names.
pub open spec fn cond_active(k: Seq<char>, conds: Seq<Seq<char>>) -> bool {
    k == default_cond() || conds.contains(k)
}

pub fn cond_active_exec(k: &str, conds: &Vec<String>) -> (r: bool)
    ensures
        r == cond_active(k@, conds.deep_view()),
{
    proof {
        reveal_strlit("default");
        assert("default"@ =~= default_cond());
    }
    if str_eq(k, "default") {
        return true;
    }
    let n = conds.len();
    let mut i: usize = 0;
    while i < n
        invariant
            0 <= i <= n,
            n == conds@.len(),
            forall|j: int| 0 <= j < i ==> conds@[j]@ != k@,
        decreases n - i,
    {
        if str_eq(conds[i].as_str(), k) {
            assert(conds.deep_view()[i as int] == k@);
            return true;
        }
        i += 1;
    }
    proof {
        if conds.deep_view().contains(k@) {
            let j = choose|j: int| 0 <= j < conds.deep_view().len() && conds.deep_view()[j] == k@;
            assert(conds@[j]@ == k@);
        }
    }
    false
}

/// Resolves a sub-tree under an optional wildcard capture: a target is
/// substituted and returned; `null` does not match; a mapping is read as
/// condition names, the first selected one decides; a list takes its first
/// entry that resolves.
pub open spec fn resolve_node(t: TreeV, cap: Option<Seq<char>>, conds: Seq<Seq<char>>) -> Option<
    Seq<char>,
>
    decreases t,
{
    match t {
        TreeV::Target(s) => Some(subst_opt(s, cap)),
        TreeV::Null => None,
        TreeV::Branch(e) => resolve_conds(e, cap, conds),
        TreeV::List(items) => resolve_list(items, cap, conds),
    }
}

pub open spec fn subst_opt(t: Seq<char>, cap: Option<Seq<char>>) -> Seq<char> {
    match cap {
        Some(c) => subst_star(t, c),
        None => t,
    }
}

pub open spec fn resolve_conds(
    e: Seq<(Seq<char>, TreeV)>,
    cap: Option<Seq<char>>,
    conds: Seq<Seq<char>>,
) -> Option<Seq<char>>
    decreases e,
{
    if e.len() == 0 {
        None
    } else if cond_active(e[0].0, conds) {
        resolve_node(e[0].1, cap, conds)
    } else {
        resolve_conds(e.drop_first(), cap, conds)
    }
}

pub open spec fn resolve_list(
    items: Seq<TreeV>,
    cap: Option<Seq<char>>,
    conds: Seq<Seq<char>>,
) -> Option<Seq<char>>
    decreases items,
{
    if items.len() == 0 {
        None
    } else {
        match resolve_node(items[0], cap, conds) {
            Some(r) => Some(r),
            None => resolve_list(items.drop_first(), cap, conds),
        }
    }
}

/// Exec mirror of [`resolve_node`].
pub fn resolve_node_exec(t: &PathTreeNode, cap: &Option<String>, conds: &Vec<String>) -> (r:
    Option<String>)
    ensures
        match r {
            Some(x) => resolve_node(tree_sem(*t), cap.deep_view(), conds.deep_view()) == Some(x@),
            None => resolve_node(tree_sem(*t), cap.deep_view(), conds.deep_view()) is None,
        },
    decreases *t, 0int,
{
    match t {
        PathTreeNode::Target(s) => {
            proof {
                assert(tree_sem(*t) == TreeV::Target(s@));
            }
            match cap {
                Some(c) => {
                    proof {
                        assert(cap.deep_view() == Some(c@));
                    }
                    Some(subst_star_exec(s.as_str(), c.as_str()))
                },
                None => {
                    proof {
                        assert(cap.deep_view() == None::<Seq<char>>);
                    }
                    Some(s.clone())
                },
            }
        },
        PathTreeNode::Null => None,
        PathTreeNode::Branch(e) => {
            proof {
                lemma_branch_sem_len(e@);
                assert(tree_sem(*t) == TreeV::Branch(branch_sem(e@)));
                assert(branch_sem(e@).skip(0) =~= branch_sem(e@));
            }
            resolve_conds_exec(e, 0, cap, conds)
        },
        PathTreeNode::List(items) => {
            proof {
                lemma_list_sem_len(items@);
                assert(tree_sem(*t) == TreeV::List(list_sem(items@)));
                assert(list_sem(items@).skip(0) =~= list_sem(items@));
            }
            resolve_list_exec(items, 0, cap, conds)
        },
    }
}

/// Exec mirror of [`resolve_conds`], scanning from entry `i`.
fn resolve_conds_exec(
    e: &Vec<(String, PathTreeNode)>,
    i: usize,
    cap: &Option<String>,
    conds: &Vec<String>,
) -> (r: Option<String>)
    requires
        0 <= i <= e@.len(),
    ensures
        match r {
            Some(x) => resolve_conds(branch_sem(e@).skip(i as int), cap.deep_view(), conds.deep_view())
                == Some(x@),
            None => resolve_conds(branch_sem(e@).skip(i as int), cap.deep_view(), conds.deep_view())
                is None,
        },
    decreases *e, e@.len() - i,
{
    proof {
        lemma_branch_sem_len(e@);
    }
    let ghost m = branch_sem(e@);
    if i == e.len() {
        proof {
            assert(m.skip(i as int).len() == 0);
        }
        return None;
    }
    proof {
        assert(m.skip(i as int)[0] == m[i as int]);
        assert(m.skip(i as int).drop_first() =~= m.skip(i as int + 1));
    }
    if cond_active_exec(e[i].0.as_str(), conds) {
        resolve_node_exec(&e[i].1, cap, conds)
    } else {
        resolve_conds_exec(e, i + 1, cap, conds)
    }
}

/// Exec mirror of [`resolve_list`], scanning from entry `i`.
fn resolve_list_exec(
    items: &Vec<PathTreeNode>,
    i: usize,
    cap: &Option<String>,
    conds: &Vec<String>,
) -> (r: Option<String>)
    requires
        0 <= i <= items@.len(),
    ensures
        match r {
            Some(x) => resolve_list(list_sem(items@).skip(i as int), cap.deep_view(), conds.deep_view())
                == Some(x@),
            None => resolve_list(list_sem(items@).skip(i as int), cap.deep_view(), conds.deep_view())
                is None,
        },
    decreases *items, items@.len() - i,
{
    proof {
        lemma_list_sem_len(items@);
    }
    let ghost m = list_sem(items@);
    if i == items.len() {
        proof {
            assert(m.skip(i as int).len() == 0);
        }
        return None;
    }
    proof {
        assert(m.skip(i as int)[0] == m[i as int]);
        assert(m.skip(i as int).drop_first() =~= m.skip(i as int + 1));
    }
    match resolve_node_exec(&items[i], cap, conds) {
        Some(x) => Some(x),
        None => resolve_list_exec(items, i + 1, cap, conds),
    }
}

/// The sub-tree under the first key equal to `s`, if any.
pub open spec fn exact_key(e: Seq<(Seq<char>, TreeV)>, s: Seq<char>) -> Option<TreeV>
    decreases e,
{
    if e.len() == 0 {
        None
    } else if e[0].0 == s {
        Some(e[0].1)
    } else {
        exact_key(e.drop_first(), s)
    }
}

fn exact_key_exec<'a>(e: &'a Vec<(String, PathTreeNode)>, i: usize, s: &str) -> (r: Option<
    &'a PathTreeNode,
>)
    requires
        0 <= i <= e@.len(),
    ensures
        match r {
            Some(t) => exact_key(branch_sem(e@).skip(i as int), s@) == Some(tree_sem(*t)),
            None => exact_key(branch_sem(e@).skip(i as int), s@) is None,
        },
    decreases e@.len() - i,
{
    proof {
        lemma_branch_sem_len(e@);
    }
    let ghost m = branch_sem(e@);
    if i == e.len() {
        proof {
            assert(m.skip(i as int).len() == 0);
        }
        return None;
    }
    proof {
        assert(m.skip(i as int)[0] == m[i as int]);
        assert(m.skip(i as int).drop_first() =~= m.skip(i as int + 1));
    }
    if str_eq(e[i].0.as_str(), s) {
        Some(&e[i].1)
    } else {
        exact_key_exec(e, i + 1, s)
    }
}

/// The best wildcard entry for `s`: among the entries whose pattern
/// matches, the one with the longest literal prefix before the `*`,
/// earliest first on ties.  Gives the prefix length, the sub-tree and the
/// capture.
pub open spec fn best_wild(e: Seq<(Seq<char>, TreeV)>, s: Seq<char>) -> Option<
    (int, TreeV, Seq<char>),
>
    decreases e,
{
    if e.len() == 0 {
        None
    } else {
        let rest = best_wild(e.drop_first(), s);
        match (first_occ(e[0].0, '*'), pat_match(e[0].0, s)) {
            (Some(i), Some(cap)) => match rest {
                None => Some((i, e[0].1, cap)),
                Some(b) => if i >= b.0 {
                    Some((i, e[0].1, cap))
                } else {
                    Some(b)
                },
            },
            _ => rest,
        }
    }
}

fn best_wild_exec<'a>(e: &'a Vec<(String, PathTreeNode)>, i: usize, s: &str) -> (r: Option<
    (usize, &'a PathTreeNode, String),
>)
    requires
        0 <= i <= e@.len(),
    ensures
        match r {
            Some(b) => best_wild(branch_sem(e@).skip(i as int), s@) == Some(
                (b.0 as int, tree_sem(*b.1), b.2@),
            ),
            None => best_wild(branch_sem(e@).skip(i as int), s@) is None,
        },
    decreases e@.len() - i,
{
    proof {
        lemma_branch_sem_len(e@);
    }
    let ghost m = branch_sem(e@);
    if i == e.len() {
        proof {
            assert(m.skip(i as int).len() == 0);
        }
        return None;
    }
    proof {
        assert(m.skip(i as int)[0] == m[i as int]);
        assert(m.skip(i as int).drop_first() =~= m.skip(i as int + 1));
    }
    let rest = best_wild_exec(e, i + 1, s);
    match pat_match_exec(e[i].0.as_str(), s) {
        Some(ic) => match rest {
            None => Some((ic.0, &e[i].1, ic.1)),
            Some(b) => if ic.0 >= b.0 {
                Some((ic.0, &e[i].1, ic.1))
            } else {
                Some(b)
            },
        },
        None => rest,
    }
}

/// What target the subpath `subpath` resolves to under `conds`: a string
/// or list root answers only the bare `.`; a mapping root is read as
/// subpath patterns, an exact key first, else the best wildcard pattern,
/// and its sub-tree is resolved under the captured text.
pub open spec fn tree_lookup_spec(t: TreeV, subpath: Seq<char>, conds: Seq<Seq<char>>) -> Option<
    Seq<char>,
> {
    match t {
        TreeV::Target(s) => if subpath == dot() {
            Some(s)
        } else {
            None
        },
        TreeV::Null => None,
        TreeV::List(items) => if subpath == dot() {
            resolve_list(items, None, conds)
        } else {
            None
        },
        TreeV::Branch(e) => match exact_key(e, subpath) {
            Some(child) => resolve_node(child, None, conds),
            None => match best_wild(e, subpath) {
                Some(b) => resolve_node(b.1, Some(b.2), conds),
                None => None,
            },
        },
    }
}

/// Exec mirror of [`tree_lookup_spec`].
pub fn tree_lookup(t: &PathTreeNode, subpath: &str, conds: &Vec<String>) -> (r: Option<String>)
    ensures
        match r {
            Some(x) => tree_lookup_spec(tree_sem(*t), subpath@, conds.deep_view()) == Some(x@),
            None => tree_lookup_spec(tree_sem(*t), subpath@, conds.deep_view()) is None,
        },
{
    proof {
        reveal_strlit(".");
        assert("."@ =~= dot());
    }
    match t {
        PathTreeNode::Target(s) => {
            if str_eq(subpath, ".") {
                Some(s.clone())
            } else {
                None
            }
        },
        PathTreeNode::Null => None,
        PathTreeNode::List(items) => {
            if str_eq(subpath, ".") {
                proof {
                    lemma_list_sem_len(items@);
                    assert(list_sem(items@).skip(0) =~= list_sem(items@));
                }
                resolve_list_exec(items, 0, &None, conds)
            } else {
                None
            }
        },
        PathTreeNode::Branch(e) => {
            proof {
                lemma_branch_sem_len(e@);
                assert(branch_sem(e@).skip(0) =~= branch_sem(e@));
            }
            match exact_key_exec(e, 0, subpath) {
                Some(child) => resolve_node_exec(child, &None, conds),
                None => match best_wild_exec(e, 0, subpath) {
                    Some(b) => resolve_node_exec(b.1, &Some(b.2), conds),
                    None => None,
                },
            }
        },
    }
}

} // verus!
