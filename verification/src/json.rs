//! The library's JSON tree: a manifest document as plain values.
//!
//! Parsing is delegated to serde_json; the parsed document is carried over
//! into [`JsonValue`], the library's own tree of null / bool / string /
//! array / object values, on which all manifest logic is verified.  A JSON
//! number or any other unrecognized shape becomes [`JsonValue::Other`],
//! which every consumer treats as an unsupported value.
use vstd::prelude::*;
use crate::text::str_eq;

verus! {

/// The mathematical value of a JSON document tree.
pub enum JsonView {
    Null,
    Bool(bool),
    Str(Seq<char>),
    Arr(Seq<JsonView>),
    Obj(Seq<(Seq<char>, JsonView)>),
    Other,
}

/// What serde_json parses the text `s` into, or `None` when the text is
/// rejected.  Parsing is a function of the text alone.
pub uninterp spec fn json_of(s: Seq<char>) -> Option<JsonView>;

/// The document tree held by a `serde_json::Value`.
pub uninterp spec fn json_view(v: serde_json::Value) -> JsonView;

#[verifier::external_type_specification]
#[verifier::external_body]
pub struct ExValue(serde_json::Value);

/// Relies on serde_json::Value::is_null: true exactly for JSON null.
pub assume_specification[ serde_json::Value::is_null ](v: &serde_json::Value) -> (r: bool)
    ensures
        r == (json_view(*v) is Null),
;

/// Relies on serde_json::Value::as_bool: the boolean for JSON true/false,
/// `None` for every other shape.
pub assume_specification[ serde_json::Value::as_bool ](v: &serde_json::Value) -> (r: Option<
    bool,
>)
    ensures
        r == (match json_view(*v) {
            JsonView::Bool(b) => Some(b),
            _ => None::<bool>,
        }),
;

/// Relies on serde_json::Value::as_str: the characters of a JSON string,
/// `None` for every other shape.
pub assume_specification[ serde_json::Value::as_str ](v: &serde_json::Value) -> (r: Option<
    &str,
>)
    ensures
        (r is Some <==> json_view(*v) is Str),
        r matches Some(s) ==> json_view(*v) == JsonView::Str(s@),
;

/// Relies on serde_json::Value::as_array: the element vector of a JSON
/// array, `None` for every other shape.
pub assume_specification[ serde_json::Value::as_array ](v: &serde_json::Value) -> (r: Option<
    &Vec<serde_json::Value>,
>)
    ensures
        (r is Some <==> json_view(*v) is Arr),
        r matches Some(a) ==> json_view(*v) == JsonView::Arr(
            a@.map_values(|x: serde_json::Value| json_view(x)),
        ),
;

/// Relies on serde_json::Value::as_object and serde_json::Map::iter: the
/// entries of a JSON object in document order (the `preserve_order`
/// feature backs the map by an insertion-ordered index map), `None` for
/// every other shape.
#[verifier::external_body]
pub fn obj_entries(v: &serde_json::Value) -> (r: Option<Vec<(String, serde_json::Value)>>)
    ensures
        (r is Some <==> json_view(*v) is Obj),
        r matches Some(e) ==> json_view(*v) == JsonView::Obj(
            e@.map_values(|p: (String, serde_json::Value)| (p.0@, json_view(p.1))),
        ),
{
    match v.as_object() {
        Some(m) => Some(m.iter().map(|(k, x)| (k.clone(), x.clone())).collect()),
        None => None,
    }
}

/// Relies on serde_json::from_str: parses JSON text, a function of the
/// text alone; rejected text gives `None`; accepted documents nest at most
/// 128 levels (serde_json's recursion limit).
#[verifier::external_body]
pub fn parse_json_text(s: &str) -> (r: Option<serde_json::Value>)
    ensures
        (r is Some <==> json_of(s@) is Some),
        r matches Some(v) ==> json_of(s@) == Some(json_view(v)) && jv_depth(json_view(v))
            <= 128,
{
    serde_json::from_str(s).ok()
}

/// The library's own JSON tree.
pub enum JsonValue {
    Null,
    Bool(bool),
    Str(String),
    Arr(Vec<JsonValue>),
    Obj(Vec<(String, JsonValue)>),
    Other,
}

/// The tree a [`JsonValue`] stands for.
pub open spec fn jv_sem(v: JsonValue) -> JsonView
    decreases v,
{
    match v {
        JsonValue::Null => JsonView::Null,
        JsonValue::Bool(b) => JsonView::Bool(b),
        JsonValue::Str(s) => JsonView::Str(s@),
        JsonValue::Arr(a) => JsonView::Arr(arr_sem(a@)),
        JsonValue::Obj(e) => JsonView::Obj(obj_sem(e@)),
        JsonValue::Other => JsonView::Other,
    }
}

/// Element-wise [`jv_sem`] over an array.
pub open spec fn arr_sem(a: Seq<JsonValue>) -> Seq<JsonView>
    decreases a,
{
    if a.len() == 0 {
        Seq::empty()
    } else {
        seq![jv_sem(a[0])] + arr_sem(a.drop_first())
    }
}

/// Entry-wise [`jv_sem`] over object entries.
pub open spec fn obj_sem(e: Seq<(String, JsonValue)>) -> Seq<(Seq<char>, JsonView)>
    decreases e,
{
    if e.len() == 0 {
        Seq::empty()
    } else {
        seq![(e[0].0@, jv_sem(e[0].1))] + obj_sem(e.drop_first())
    }
}

pub proof fn lemma_arr_sem_len(a: Seq<JsonValue>)
    ensures
        arr_sem(a).len() == a.len(),
        forall|i: int| 0 <= i < a.len() ==> arr_sem(a)[i] == jv_sem(a[i]),
    decreases a,
{
    if a.len() > 0 {
        lemma_arr_sem_len(a.drop_first());
    }
}

pub proof fn lemma_obj_sem_len(e: Seq<(String, JsonValue)>)
    ensures
        obj_sem(e).len() == e.len(),
        forall|i: int| 0 <= i < e.len() ==> obj_sem(e)[i] == (e[i].0@, jv_sem(e[i].1)),
    decreases e,
{
    if e.len() > 0 {
        lemma_obj_sem_len(e.drop_first());
    }
}

/// Nesting depth of a tree: scalars are 0, a container is one more than
/// its deepest child.
pub open spec fn jv_depth(v: JsonView) -> nat
    decreases v,
{
    match v {
        JsonView::Arr(a) => 1 + arr_depth(a),
        JsonView::Obj(e) => 1 + obj_depth(e),
        _ => 0,
    }
}

pub open spec fn arr_depth(a: Seq<JsonView>) -> nat
    decreases a,
{
    if a.len() == 0 {
        0
    } else if jv_depth(a[0]) >= arr_depth(a.drop_first()) {
        jv_depth(a[0])
    } else {
        arr_depth(a.drop_first())
    }
}

pub open spec fn obj_depth(e: Seq<(Seq<char>, JsonView)>) -> nat
    decreases e,
{
    if e.len() == 0 {
        0
    } else if jv_depth(e[0].1) >= obj_depth(e.drop_first()) {
        jv_depth(e[0].1)
    } else {
        obj_depth(e.drop_first())
    }
}

proof fn lemma_arr_depth_elem(a: Seq<JsonView>, i: int)
    requires
        0 <= i < a.len(),
    ensures
        jv_depth(a[i]) <= arr_depth(a),
    decreases a,
{
    if i > 0 {
        lemma_arr_depth_elem(a.drop_first(), i - 1);
    }
}

proof fn lemma_obj_depth_elem(e: Seq<(Seq<char>, JsonView)>, i: int)
    requires
        0 <= i < e.len(),
    ensures
        jv_depth(e[i].1) <= obj_depth(e),
    decreases e,
{
    if i > 0 {
        lemma_obj_depth_elem(e.drop_first(), i - 1);
    }
}

/// Carries a parsed serde_json value over into the library's tree.  `fuel`
/// bounds the recursion; a tree nested no deeper than `fuel` always comes
/// across.
pub fn to_tree(v: &serde_json::Value, fuel: u32) -> (r: Option<JsonValue>)
    ensures
        r matches Some(t) ==> jv_sem(t) == json_view(*v),
        jv_depth(json_view(*v)) <= fuel ==> r is Some,
    decreases fuel,
{
    if v.is_null() {
        Some(JsonValue::Null)
    } else if let Some(b) = v.as_bool() {
        Some(JsonValue::Bool(b))
    } else if let Some(s) = v.as_str() {
        Some(JsonValue::Str(s.to_owned()))
    } else if let Some(a) = v.as_array() {
        let ghost m = a@.map_values(|x: serde_json::Value| json_view(x));
        if fuel == 0 {
            return None;
        }
        let n = a.len();
        let mut out: Vec<JsonValue> = Vec::new();
        let mut i: usize = 0;
        while i < n
            invariant
                0 <= i <= n,
                n == a@.len(),
                m == a@.map_values(|x: serde_json::Value| json_view(x)),
                json_view(*v) == JsonView::Arr(m),
                fuel >= 1,
                out@.len() == i,
                arr_sem(out@) =~= m.subrange(0, i as int),
            decreases n - i,
        {
            let ghost before = out@;
            match to_tree(&a[i], fuel - 1) {
                Some(t) => {
                    proof {
                        lemma_arr_depth_elem(m, i as int);
                    }
                    out.push(t);
                    proof {
                        lemma_arr_sem_snoc(before, out@[i as int]);
                        assert(m.subrange(0, i as int + 1) =~= m.subrange(0, i as int).push(
                            m[i as int],
                        ));
                    }
                },
                None => {
                    proof {
                        if jv_depth(json_view(*v)) <= fuel {
                            lemma_arr_depth_elem(m, i as int);
                        }
                    }
                    return None;
                },
            }
            i += 1;
        }
        proof {
            assert(m.subrange(0, n as int) =~= m);
        }
        Some(JsonValue::Arr(out))
    } else if fuel == 0 {
        match obj_entries(v) {
            Some(_) => None,
            None => Some(JsonValue::Other),
        }
    } else if let Some(e) = obj_entries(v) {
        let ghost m = e@.map_values(|p: (String, serde_json::Value)| (p.0@, json_view(p.1)));
        let n = e.len();
        let mut out: Vec<(String, JsonValue)> = Vec::new();
        let mut i: usize = 0;
        while i < n
            invariant
                0 <= i <= n,
                n == e@.len(),
                m == e@.map_values(|p: (String, serde_json::Value)| (p.0@, json_view(p.1))),
                json_view(*v) == JsonView::Obj(m),
                fuel >= 1,
                out@.len() == i,
                obj_sem(out@) =~= m.subrange(0, i as int),
            decreases n - i,
        {
            let ghost before = out@;
            match to_tree(&e[i].1, fuel - 1) {
                Some(t) => {
                    proof {
                        lemma_obj_depth_elem(m, i as int);
                    }
                    let key = e[i].0.clone();
                    out.push((key, t));
                    proof {
                        lemma_obj_sem_snoc(before, out@[i as int]);
                        assert(m.subrange(0, i as int + 1) =~= m.subrange(0, i as int).push(
                            m[i as int],
                        ));
                    }
                },
                None => {
                    proof {
                        if jv_depth(json_view(*v)) <= fuel {
                            lemma_obj_depth_elem(m, i as int);
                        }
                    }
                    return None;
                },
            }
            i += 1;
        }
        proof {
            assert(m.subrange(0, n as int) =~= m);
        }
        Some(JsonValue::Obj(out))
    } else {
        Some(JsonValue::Other)
    }
}

proof fn lemma_arr_sem_snoc(a: Seq<JsonValue>, x: JsonValue)
    ensures
        arr_sem(a.push(x)) == arr_sem(a).push(jv_sem(x)),
    decreases a,
{
    if a.len() == 0 {
        assert(a.push(x).drop_first() =~= a);
        assert(arr_sem(a.push(x)) =~= arr_sem(a).push(jv_sem(x)));
    } else {
        assert(a.push(x).drop_first() =~= a.drop_first().push(x));
        lemma_arr_sem_snoc(a.drop_first(), x);
        assert(arr_sem(a.push(x)) =~= arr_sem(a).push(jv_sem(x)));
    }
}

proof fn lemma_obj_sem_snoc(e: Seq<(String, JsonValue)>, x: (String, JsonValue))
    ensures
        obj_sem(e.push(x)) == obj_sem(e).push((x.0@, jv_sem(x.1))),
    decreases e,
{
    if e.len() == 0 {
        assert(e.push(x).drop_first() =~= e);
        assert(obj_sem(e.push(x)) =~= obj_sem(e).push((x.0@, jv_sem(x.1))));
    } else {
        assert(e.push(x).drop_first() =~= e.drop_first().push(x));
        lemma_obj_sem_snoc(e.drop_first(), x);
        assert(obj_sem(e.push(x)) =~= obj_sem(e).push((x.0@, jv_sem(x.1))));
    }
}

/// Parses JSON text into the library's tree.  Succeeds exactly when
/// serde_json accepts the text.
pub fn parse_json(s: &str) -> (r: Option<JsonValue>)
    ensures
        r matches Some(t) ==> json_of(s@) == Some(jv_sem(t)),
        (r is None <==> json_of(s@) is None),
{
    match parse_json_text(s) {
        Some(v) => {
            let t = to_tree(&v, 128);
            proof {
                assert(jv_depth(json_view(v)) <= 128);
            }
            t
        },
        None => None,
    }
}

/// The value of the first entry of `e` whose key is `k`, if any.
pub open spec fn obj_get_spec(e: Seq<(Seq<char>, JsonView)>, k: Seq<char>) -> Option<JsonView>
    decreases e,
{
    if e.len() == 0 {
        None
    } else if e[0].0 == k {
        Some(e[0].1)
    } else {
        obj_get_spec(e.drop_first(), k)
    }
}

proof fn lemma_obj_get_skip(e: Seq<(Seq<char>, JsonView)>, k: Seq<char>, i: int)
    requires
        0 <= i <= e.len(),
        forall|j: int| 0 <= j < i ==> e[j].0 != k,
    ensures
        obj_get_spec(e, k) == obj_get_spec(e.subrange(i, e.len() as int), k),
    decreases i,
{
    if i > 0 {
        lemma_obj_get_skip(e.drop_first(), k, i - 1);
        assert(e.drop_first().subrange(i - 1, e.drop_first().len() as int) =~= e.subrange(
            i,
            e.len() as int,
        ));
    } else {
        assert(e.subrange(0, e.len() as int) =~= e);
    }
}

/// Looks the key `k` up among object entries, first match wins.
pub fn obj_get<'a>(e: &'a Vec<(String, JsonValue)>, k: &str) -> (r: Option<&'a JsonValue>)
    ensures
        match r {
            Some(v) => obj_get_spec(obj_sem(e@), k@) == Some(jv_sem(*v)),
            None => obj_get_spec(obj_sem(e@), k@) is None,
        },
{
    proof {
        lemma_obj_sem_len(e@);
    }
    let n = e.len();
    let mut i: usize = 0;
    while i < n
        invariant
            0 <= i <= n,
            n == e@.len(),
            obj_sem(e@).len() == n,
            forall|j: int| 0 <= j < e@.len() ==> obj_sem(e@)[j] == (e@[j].0@, jv_sem(e@[j].1)),
            forall|j: int| 0 <= j < i ==> obj_sem(e@)[j].0 != k@,
        decreases n - i,
    {
        if str_eq(e[i].0.as_str(), k) {
            proof {
                lemma_obj_get_skip(obj_sem(e@), k@, i as int);
                assert(obj_sem(e@).subrange(i as int, n as int)[0] == obj_sem(e@)[i as int]);
            }
            return Some(&e[i].1);
        }
        i += 1;
    }
    proof {
        lemma_obj_get_skip(obj_sem(e@), k@, n as int);
        assert(obj_sem(e@).subrange(n as int, n as int).len() == 0);
    }
    None
}

} // verus!
