//! Path-based extraction: match a sequence of path legs against a JSON tree
//! and collect every matched sub-value, in traversal order, duplicates kept.

use crate::path_expr::{key_wildcard, legs_of, PathExpression, PathLeg, PathLegView,
    PATH_EXPR_ARRAY_INDEX_ASTERISK};
use crate::value::{json_view, views_of, Json, JsonView};
use vstd::prelude::*;
use vstd::slice::slice_index_get;
use vstd::string::StrSliceExecFns;

verus! {

broadcast use vstd::std_specs::vec::group_vec_axioms, vstd::seq::group_seq_axioms,
    Seq::add_empty_left, Seq::add_empty_right;

/// How many direct children a node has: array elements or object entries.
pub open spec fn child_count(v: JsonView) -> nat {
    match v {
        JsonView::Array(es) => es.len(),
        JsonView::Object(es) => es.len(),
        _ => 0,
    }
}

/// The `i`-th direct child of a node: an array element, or an object
/// entry's value, in stored order.
pub open spec fn child_at(v: JsonView, i: int) -> JsonView {
    match v {
        JsonView::Array(es) => es[i],
        JsonView::Object(es) => es[i].1,
        _ => JsonView::Null,
    }
}

/// Every sub-value of `v` matched by `legs`, in traversal order.
///
/// Legs are consumed left to right. An index leg selects an array element
/// (or every element for the wildcard sentinel); on a non-array it selects
/// the node itself for index 0 or the wildcard, treating the node as an
/// implicit one-element array. A key leg selects a matching object entry,
/// or every entry in stored order for the wildcard sentinel. The
/// double-wildcard leg matches with the remaining legs at the node itself,
/// and then replays the whole leg list, itself included, at every child.
/// Absence of a match is the empty sequence, never an error.
pub open spec fn extract_matches(v: JsonView, legs: Seq<PathLegView>) -> Seq<JsonView>
    decreases v, legs.len(), child_count(v) + 2,
{
    if legs.len() == 0 {
        seq![v]
    } else {
        let rest = legs.skip(1);
        match legs[0] {
            PathLegView::Index(i) => match v {
                JsonView::Array(es) => {
                    if i == PATH_EXPR_ARRAY_INDEX_ASTERISK {
                        extract_children(v, 0, rest)
                    } else if 0 <= i < es.len() {
                        extract_matches(es[i as int], rest)
                    } else {
                        Seq::empty()
                    }
                },
                _ => {
                    if i == PATH_EXPR_ARRAY_INDEX_ASTERISK || i == 0 {
                        extract_matches(v, rest)
                    } else {
                        Seq::empty()
                    }
                },
            },
            PathLegView::Key(k) => match v {
                JsonView::Object(es) => {
                    if k == key_wildcard() {
                        extract_children(v, 0, rest)
                    } else {
                        extract_key(v, 0, k, rest)
                    }
                },
                _ => Seq::empty(),
            },
            PathLegView::DoubleAsterisk => extract_matches(v, rest) + extract_children(v, 0, legs),
        }
    }
}

/// The concatenation of `extract_matches(child, legs)` over the children of
/// `v` from position `from` on, in stored order.
pub open spec fn extract_children(v: JsonView, from: int, legs: Seq<PathLegView>) -> Seq<JsonView>
    decreases v, legs.len(), child_count(v) - from + 1,
{
    if from < 0 || from >= child_count(v) {
        Seq::empty()
    } else {
        extract_matches(child_at(v, from), legs) + extract_children(v, from + 1, legs)
    }
}

/// The matches of `legs` inside the first entry of the object `v`, at
/// position `from` or later, whose key is exactly `k`; empty if no entry
/// has that key.
pub open spec fn extract_key(v: JsonView, from: int, k: Seq<char>, legs: Seq<PathLegView>) -> Seq<
    JsonView,
>
    decreases v, legs.len(), child_count(v) - from + 1,
{
    match v {
        JsonView::Object(es) => {
            if from < 0 || from >= es.len() {
                Seq::empty()
            } else if es[from].0 == k {
                extract_matches(es[from].1, legs)
            } else {
                extract_key(v, from + 1, k, legs)
            }
        },
        _ => Seq::empty(),
    }
}

/// The direct children of a node, in stored order.
pub open spec fn children_of(v: JsonView) -> Seq<JsonView> {
    Seq::new(child_count(v), |i: int| child_at(v, i))
}

/// The matches of `legs` against every value of `vs`, concatenated in order.
pub open spec fn concat_matches(vs: Seq<JsonView>, legs: Seq<PathLegView>) -> Seq<JsonView>
    decreases vs,
{
    if vs.len() == 0 {
        Seq::empty()
    } else {
        extract_matches(vs[0], legs) + concat_matches(vs.drop_first(), legs)
    }
}

proof fn lemma_children_concat(v: JsonView, from: int, legs: Seq<PathLegView>)
    requires
        0 <= from <= child_count(v),
    ensures
        extract_children(v, from, legs) == concat_matches(children_of(v).skip(from), legs),
    decreases child_count(v) - from,
{
    if from >= child_count(v) {
        assert(children_of(v).skip(from) =~= Seq::<JsonView>::empty());
    } else {
        lemma_children_concat(v, from + 1, legs);
        assert(children_of(v).skip(from).drop_first() =~= children_of(v).skip(from + 1));
        assert(children_of(v).skip(from)[0] == child_at(v, from));
    }
}

/// Law: with no legs left, every node matches itself, exactly once.
pub proof fn lemma_empty_legs_matches_self(v: JsonView)
    ensures
        extract_matches(v, Seq::empty()) == seq![v],
{
}

/// Law: an in-range index leg on an array selects exactly that element,
/// with the remaining legs applied inside it.
pub proof fn lemma_index_selects_element(es: Seq<JsonView>, legs: Seq<PathLegView>, i: i64)
    requires
        legs.len() > 0,
        legs[0] == PathLegView::Index(i),
        0 <= i < es.len(),
    ensures
        extract_matches(JsonView::Array(es), legs) == extract_matches(es[i as int], legs.skip(1)),
{
}

/// Law: the wildcard index on an array concatenates the matches of every
/// element, in array order.
pub proof fn lemma_index_wildcard_concatenates(es: Seq<JsonView>, legs: Seq<PathLegView>)
    requires
        legs.len() > 0,
        legs[0] == PathLegView::Index(PATH_EXPR_ARRAY_INDEX_ASTERISK),
    ensures
        extract_matches(JsonView::Array(es), legs) == concat_matches(es, legs.skip(1)),
{
    let v = JsonView::Array(es);
    lemma_children_concat(v, 0, legs.skip(1));
    assert(children_of(v).skip(0) =~= es);
}

/// Law: a non-array node is treated as an implicit one-element array:
/// index 0 and the wildcard index both select the node itself.
pub proof fn lemma_autowrap_selects_node(v: JsonView, legs: Seq<PathLegView>, i: i64)
    requires
        legs.len() > 0,
        legs[0] == PathLegView::Index(i),
        !(v is Array),
        i == 0 || i == PATH_EXPR_ARRAY_INDEX_ASTERISK,
    ensures
        extract_matches(v, legs) == extract_matches(v, legs.skip(1)),
{
}

proof fn lemma_concat_empty_legs(vs: Seq<JsonView>)
    ensures
        concat_matches(vs, Seq::empty()) == vs,
    decreases vs.len(),
{
    if vs.len() == 0 {
        assert(concat_matches(vs, Seq::empty()) =~= vs);
    } else {
        lemma_concat_empty_legs(vs.drop_first());
        assert(seq![vs[0]] + vs.drop_first() =~= vs);
    }
}

/// Law: the wildcard key on an object yields the matches of every entry's
/// value, in stored (key) order; with no legs after it, exactly one result
/// per entry.
pub proof fn lemma_key_wildcard_per_entry(es: Seq<(Seq<char>, JsonView)>, legs: Seq<PathLegView>)
    requires
        legs.len() > 0,
        legs[0] == PathLegView::Key(key_wildcard()),
    ensures
        extract_matches(JsonView::Object(es), legs) == concat_matches(
            Seq::new(es.len(), |i: int| es[i].1),
            legs.skip(1),
        ),
        legs.len() == 1 ==> extract_matches(JsonView::Object(es), legs) == Seq::new(
            es.len(),
            |i: int| es[i].1,
        ),
{
    let v = JsonView::Object(es);
    let vals = Seq::new(es.len(), |i: int| es[i].1);
    lemma_children_concat(v, 0, legs.skip(1));
    assert(children_of(v).skip(0) =~= vals);
    if legs.len() == 1 {
        assert(legs.skip(1) =~= Seq::<PathLegView>::empty());
        lemma_concat_empty_legs(vals);
    }
}

/// Law: the double-wildcard result begins with the matches of the
/// remaining legs at the node itself; that sequence is a prefix of the
/// whole result, order and duplicates kept.
pub proof fn lemma_double_wildcard_prefix(v: JsonView, legs: Seq<PathLegView>)
    requires
        legs.len() > 0,
        legs[0] == PathLegView::DoubleAsterisk,
    ensures
        extract_matches(v, legs.skip(1)).is_prefix_of(extract_matches(v, legs)),
{
    let a = extract_matches(v, legs.skip(1));
    let b = extract_children(v, 0, legs);
    assert(extract_matches(v, legs) == a + b);
    assert(a =~= (a + b).subrange(0, a.len() as int));
}

proof fn lemma_views_of_add(a: Seq<Json>, b: Seq<Json>)
    ensures
        views_of(a + b) == views_of(a) + views_of(b),
{
    assert(views_of(a + b) =~= views_of(a) + views_of(b));
}

/// Whether this key is the wildcard sentinel `*`.
fn key_is_asterisk(k: &String) -> (r: bool)
    ensures
        r == (k@ == key_wildcard()),
{
    proof {
        reveal_strlit("*");
        if k@.len() == 1 && k@[0] == '*' {
            assert(k@ =~= key_wildcard());
        }
    }
    let n = k.as_str().unicode_len();
    if n != 1 {
        return false;
    }
    let c = k.as_str().get_char(0);
    c == '*'
}

/// Exec twin of `extract_matches`: the matches of the legs from position
/// `pos` on, against `*j`, as independent owned copies.
#[verifier::loop_isolation(false)]
fn extract_from(j: &Json, legs: &[PathLeg], pos: usize) -> (r: Vec<Json>)
    requires
        pos <= legs@.len(),
    ensures
        views_of(r@) == extract_matches(j@, legs_of(legs@).skip(pos as int)),
    decreases *j, legs@.len() - pos,
{
    let ghost lv = legs_of(legs@).skip(pos as int);
    if pos == legs.len() {
        let mut r: Vec<Json> = Vec::new();
        r.push(j.deep_clone());
        proof {
            assert(views_of(r@) =~= seq![j@]);
        }
        return r;
    }
    let ghost rest = legs_of(legs@).skip(pos as int + 1);
    proof {
        assert(lv[0] == legs@[pos as int]@);
        assert(lv.skip(1) =~= rest);
    }
    let current = slice_index_get(legs, pos);
    let mut ret: Vec<Json> = Vec::new();
    match current {
        PathLeg::Index(i) => {
            match j {
                Json::Array(elems) => {
                    proof {
                        assert(j@ == JsonView::Array(j@->Array_0));
                    }
                    if *i == PATH_EXPR_ARRAY_INDEX_ASTERISK {
                        proof {
                            assert(views_of(ret@) + extract_children(j@, 0, rest)
                                =~= extract_children(j@, 0, rest));
                        }
                        let mut idx: usize = 0;
                        while idx < elems.len()
                            invariant
                                idx <= elems@.len(),
                                views_of(ret@) + extract_children(j@, idx as int, rest)
                                    == extract_children(j@, 0, rest),
                            decreases elems@.len() - idx,
                        {
                            proof {
                                assert(decreases_to!(*j => *elems));
                                assert(decreases_to!(*elems => elems@));
                                assert(decreases_to!(elems@ => elems@[idx as int]));
                                assert(child_at(j@, idx as int) == json_view(elems@[idx as int]));
                            }
                            let ghost old_ret = ret@;
                            let mut sub = extract_from(&elems[idx], legs, pos + 1);
                            proof {
                                lemma_views_of_add(old_ret, sub@);
                            }
                            ret.append(&mut sub);
                            idx = idx + 1;
                        }
                        proof {
                            assert(views_of(ret@) =~= views_of(ret@) + extract_children(
                                j@,
                                elems@.len() as int,
                                rest,
                            ));
                        }
                    } else if *i >= 0 && (*i as u64) < (elems.len() as u64) {
                        let iu = *i as usize;
                        proof {
                            assert(decreases_to!(*j => *elems));
                            assert(decreases_to!(*elems => elems@));
                            assert(decreases_to!(elems@ => elems@[iu as int]));
                        }
                        let mut sub = extract_from(&elems[iu], legs, pos + 1);
                        proof {
                            lemma_views_of_add(ret@, sub@);
                        }
                        ret.append(&mut sub);
                    } else {
                        proof {
                            assert(views_of(ret@) =~= Seq::<JsonView>::empty());
                        }
                    }
                },
                _ => {
                    if *i == PATH_EXPR_ARRAY_INDEX_ASTERISK || *i == 0 {
                        let mut sub = extract_from(j, legs, pos + 1);
                        proof {
                            lemma_views_of_add(ret@, sub@);
                        }
                        ret.append(&mut sub);
                    } else {
                        proof {
                            assert(views_of(ret@) =~= Seq::<JsonView>::empty());
                        }
                    }
                },
            }
        },
        PathLeg::Key(k) => {
            match j {
                Json::Object(entries) => {
                    proof {
                        assert(j@ == JsonView::Object(j@->Object_0));
                    }
                    if key_is_asterisk(k) {
                        proof {
                            assert(views_of(ret@) + extract_children(j@, 0, rest)
                                =~= extract_children(j@, 0, rest));
                        }
                        let mut idx: usize = 0;
                        while idx < entries.len()
                            invariant
                                idx <= entries@.len(),
                                views_of(ret@) + extract_children(j@, idx as int, rest)
                                    == extract_children(j@, 0, rest),
                            decreases entries@.len() - idx,
                        {
                            proof {
                                assert(decreases_to!(*j => *entries));
                                assert(decreases_to!(*entries => entries@));
                                assert(decreases_to!(entries@ => entries@[idx as int]));
                                assert(decreases_to!(entries@[idx as int] => entries@[idx as int].1));
                                assert(child_at(j@, idx as int) == json_view(entries@[idx as int].1));
                            }
                            let ghost old_ret = ret@;
                            let entry = &entries[idx];
                            let mut sub = extract_from(&entry.1, legs, pos + 1);
                            proof {
                                lemma_views_of_add(old_ret, sub@);
                            }
                            ret.append(&mut sub);
                            idx = idx + 1;
                        }
                        proof {
                            assert(views_of(ret@) =~= views_of(ret@) + extract_children(
                                j@,
                                entries@.len() as int,
                                rest,
                            ));
                        }
                    } else {
                        let mut idx: usize = 0;
                        while idx < entries.len() && !(entries[idx].0 == *k)
                            invariant
                                idx <= entries@.len(),
                                extract_key(j@, 0, k@, rest) == extract_key(
                                    j@,
                                    idx as int,
                                    k@,
                                    rest,
                                ),
                            decreases entries@.len() - idx,
                        {
                            idx = idx + 1;
                        }
                        if idx < entries.len() {
                            proof {
                                assert(decreases_to!(*j => *entries));
                                assert(decreases_to!(*entries => entries@));
                                assert(decreases_to!(entries@ => entries@[idx as int]));
                                assert(decreases_to!(entries@[idx as int] => entries@[idx as int].1));
                            }
                            let entry = &entries[idx];
                            let mut sub = extract_from(&entry.1, legs, pos + 1);
                            proof {
                                lemma_views_of_add(ret@, sub@);
                            }
                            ret.append(&mut sub);
                        } else {
                            proof {
                                assert(views_of(ret@) =~= Seq::<JsonView>::empty());
                            }
                        }
                    }
                },
                _ => {
                    proof {
                        assert(views_of(ret@) =~= Seq::<JsonView>::empty());
                    }
                },
            }
        },
        PathLeg::DoubleAsterisk => {
            let mut sub = extract_from(j, legs, pos + 1);
            proof {
                lemma_views_of_add(ret@, sub@);
            }
            ret.append(&mut sub);
            proof {
                assert(views_of(ret@) =~= extract_matches(j@, rest));
            }
            match j {
                Json::Array(elems) => {
                    proof {
                        assert(j@ == JsonView::Array(j@->Array_0));
                        assert(views_of(ret@) + extract_children(j@, 0, lv)
                            == extract_matches(j@, rest) + extract_children(j@, 0, lv));
                    }
                    let mut idx: usize = 0;
                    while idx < elems.len()
                        invariant
                            idx <= elems@.len(),
                            views_of(ret@) + extract_children(j@, idx as int, lv)
                                == extract_matches(j@, rest) + extract_children(j@, 0, lv),
                        decreases elems@.len() - idx,
                    {
                        proof {
                            assert(decreases_to!(*j => *elems));
                            assert(decreases_to!(*elems => elems@));
                            assert(decreases_to!(elems@ => elems@[idx as int]));
                            assert(child_at(j@, idx as int) == json_view(elems@[idx as int]));
                        }
                        let ghost old_ret = ret@;
                        let mut sub2 = extract_from(&elems[idx], legs, pos);
                        proof {
                            lemma_views_of_add(old_ret, sub2@);
                        }
                        ret.append(&mut sub2);
                        idx = idx + 1;
                    }
                    proof {
                        assert(views_of(ret@) =~= views_of(ret@) + extract_children(
                            j@,
                            elems@.len() as int,
                            lv,
                        ));
                    }
                },
                Json::Object(entries) => {
                    proof {
                        assert(j@ == JsonView::Object(j@->Object_0));
                        assert(views_of(ret@) + extract_children(j@, 0, lv)
                            == extract_matches(j@, rest) + extract_children(j@, 0, lv));
                    }
                    let mut idx: usize = 0;
                    while idx < entries.len()
                        invariant
                            idx <= entries@.len(),
                            views_of(ret@) + extract_children(j@, idx as int, lv)
                                == extract_matches(j@, rest) + extract_children(j@, 0, lv),
                        decreases entries@.len() - idx,
                    {
                        proof {
                            assert(decreases_to!(*j => *entries));
                            assert(decreases_to!(*entries => entries@));
                            assert(decreases_to!(entries@ => entries@[idx as int]));
                            assert(decreases_to!(entries@[idx as int] => entries@[idx as int].1));
                            assert(child_at(j@, idx as int) == json_view(entries@[idx as int].1));
                        }
                        let ghost old_ret = ret@;
                        let entry = &entries[idx];
                        let mut sub2 = extract_from(&entry.1, legs, pos);
                        proof {
                            lemma_views_of_add(old_ret, sub2@);
                        }
                        ret.append(&mut sub2);
                        idx = idx + 1;
                    }
                    proof {
                        assert(views_of(ret@) =~= views_of(ret@) + extract_children(
                            j@,
                            entries@.len() as int,
                            lv,
                        ));
                    }
                },
                _ => {
                    proof {
                        assert(extract_children(j@, 0, lv) =~= Seq::<JsonView>::empty());
                        assert(views_of(ret@) =~= views_of(ret@) + extract_children(j@, 0, lv));
                    }
                },
            }
        },
    }
    ret
}

/// The matches of every path expression from position `from` on, run
/// against `v` in the given order, appended into one sequence.
pub open spec fn combined_matches(v: JsonView, exprs: Seq<PathExpression>, from: int) -> Seq<
    JsonView,
>
    decreases exprs.len() - from,
{
    if from < 0 || from >= exprs.len() {
        Seq::empty()
    } else {
        extract_matches(v, legs_of(exprs[from].legs@)) + combined_matches(v, exprs, from + 1)
    }
}

impl Json {
    /// Runs every path expression against this document, in order, and
    /// appends the matches into one sequence. No match at all is `None`;
    /// a single expression with a single match returns that value bare;
    /// every other non-empty outcome is wrapped into one array.
    #[verifier::loop_isolation(false)]
    pub fn extract(&self, path_expr_list: &[PathExpression]) -> (r: Option<Json>)
        ensures
            (r is None) <==> combined_matches(self@, path_expr_list@, 0).len() == 0,
            r matches Some(x) ==> x@ == ({
                let all = combined_matches(self@, path_expr_list@, 0);
                if path_expr_list@.len() == 1 && all.len() == 1 {
                    all[0]
                } else {
                    JsonView::Array(all)
                }
            }),
    {
        let ghost all = combined_matches(self@, path_expr_list@, 0);
        let mut elem_list: Vec<Json> = Vec::new();
        let mut i: usize = 0;
        proof {
            assert(views_of(elem_list@) + combined_matches(self@, path_expr_list@, 0)
                =~= combined_matches(self@, path_expr_list@, 0));
        }
        while i < path_expr_list.len()
            invariant
                i <= path_expr_list@.len(),
                views_of(elem_list@) + combined_matches(self@, path_expr_list@, i as int)
                    == combined_matches(self@, path_expr_list@, 0),
            decreases path_expr_list@.len() - i,
        {
            let expr = slice_index_get(path_expr_list, i);
            let ghost old_list = elem_list@;
            let mut sub = extract_json(self, expr.legs.as_slice());
            proof {
                lemma_views_of_add(old_list, sub@);
            }
            elem_list.append(&mut sub);
            i = i + 1;
        }
        proof {
            assert(views_of(elem_list@) =~= views_of(elem_list@) + combined_matches(
                self@,
                path_expr_list@,
                path_expr_list@.len() as int,
            ));
            assert(views_of(elem_list@) == all);
        }
        if elem_list.is_empty() {
            return None;
        }
        if path_expr_list.len() == 1 && elem_list.len() == 1 {
            let x = elem_list.remove(0);
            proof {
                assert(x@ == all[0]);
            }
            return Some(x);
        }
        proof {
            let wrapped = json_view(Json::Array(elem_list));
            assert(wrapped->Array_0 =~= all);
            assert(wrapped == JsonView::Array(wrapped->Array_0));
        }
        Some(Json::Array(elem_list))
    }
}

/// Every sub-value of `j` matched by the leg sequence, in traversal order,
/// as independent owned copies; empty when nothing matches.
pub fn extract_json(j: &Json, path_legs: &[PathLeg]) -> (elems: Vec<Json>)
    ensures
        views_of(elems@) == extract_matches(j@, legs_of(path_legs@)),
{
    proof {
        assert(legs_of(path_legs@).skip(0) =~= legs_of(path_legs@));
    }
    extract_from(j, path_legs, 0)
}

} // verus!

