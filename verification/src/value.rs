//! The JSON value model: a tagged tree of owned values, together with its
//! mathematical view, a structurally equal ghost tree over `Seq`.

use vstd::prelude::*;

verus! {

broadcast use vstd::std_specs::vec::group_vec_axioms, vstd::seq::group_seq_axioms;

/// A MySQL-flavoured JSON value.
///
/// Arrays own their elements in order; objects are ordered lists of
/// `(key, value)` entries. A well-formed object, as produced by the
/// document parser, has unique keys in ascending key order; this core
/// reads entries strictly in their stored order. A 64-bit floating-point
/// value is carried as its canonical decimal rendering: this core never
/// computes with the number, it only copies it and prints it back.
#[derive(Debug, PartialEq)]
pub enum Json {
    Null,
    Boolean(bool),
    I64(i64),
    Double(String),
    Str(String),
    Array(Vec<Json>),
    Object(Vec<(String, Json)>),
}

/// The mathematical shape of a `Json` tree: the same tagged tree with every
/// string replaced by its character sequence and every vector by a `Seq`.
#[verifier::ext_equal]
pub enum JsonView {
    Null,
    Bool(bool),
    Int(i64),
    Double(Seq<char>),
    Str(Seq<char>),
    Array(Seq<JsonView>),
    Object(Seq<(Seq<char>, JsonView)>),
}

/// The view of a `Json` value: the ghost tree with the same structure.
pub open spec fn json_view(j: Json) -> JsonView
    decreases j,
    via json_view_decreases
{
    match j {
        Json::Null => JsonView::Null,
        Json::Boolean(b) => JsonView::Bool(b),
        Json::I64(n) => JsonView::Int(n),
        Json::Double(t) => JsonView::Double(t@),
        Json::Str(s) => JsonView::Str(s@),
        Json::Array(elems) => JsonView::Array(
            Seq::new(
                elems@.len(),
                |i: int|
                    if 0 <= i < elems@.len() {
                        json_view(elems@[i])
                    } else {
                        JsonView::Null
                    },
            ),
        ),
        Json::Object(entries) => JsonView::Object(
            Seq::new(
                entries@.len(),
                |i: int|
                    if 0 <= i < entries@.len() {
                        (entries@[i].0@, json_view(entries@[i].1))
                    } else {
                        (Seq::empty(), JsonView::Null)
                    },
            ),
        ),
    }
}

#[via_fn]
proof fn json_view_decreases(j: Json) {
    match j {
        Json::Array(elems) => {
            assert forall|i: int| 0 <= i < elems@.len() implies decreases_to!(
                j => elems@[i]
            ) by {
                assert(decreases_to!(j => elems));
                assert(decreases_to!(elems => elems@));
                assert(decreases_to!(elems@ => elems@[i]));
            }
        },
        Json::Object(entries) => {
            assert forall|i: int| 0 <= i < entries@.len() implies decreases_to!(
                j => entries@[i].1
            ) by {
                assert(decreases_to!(j => entries));
                assert(decreases_to!(entries => entries@));
                assert(decreases_to!(entries@ => entries@[i]));
                assert(decreases_to!(entries@[i] => entries@[i].1));
            }
        },
        _ => {},
    }
}

impl View for Json {
    type V = JsonView;

    open spec fn view(&self) -> JsonView {
        json_view(*self)
    }
}

/// Relies on String::push: appends exactly one character at the end.
#[verifier::external_body]
pub(crate) fn push_char(s: &mut String, c: char)
    ensures
        final(s)@ == old(s)@.push(c),
{
    s.push(c);
}

/// The views of a sequence of values, in order.
pub open spec fn views_of(s: Seq<Json>) -> Seq<JsonView> {
    Seq::new(s.len(), |i: int| json_view(s[i]))
}

impl Json {
    /// An independent owned copy of the tree, structurally equal to the source.
    #[verifier::loop_isolation(false)]
    pub fn deep_clone(&self) -> (r: Json)
        ensures
            r@ == self@,
        decreases self,
    {
        match self {
            Json::Null => Json::Null,
            Json::Boolean(b) => Json::Boolean(*b),
            Json::I64(n) => Json::I64(*n),
            Json::Double(t) => Json::Double(t.clone()),
            Json::Str(s) => Json::Str(s.clone()),
            Json::Array(elems) => {
                let mut out: Vec<Json> = Vec::new();
                let mut i: usize = 0;
                while i < elems.len()
                    invariant
                        i <= elems@.len(),
                        out@.len() == i,
                        forall|k: int| 0 <= k < i ==> out@[k]@ == elems@[k]@,
                    decreases elems@.len() - i,
                {
                    proof {
                        assert(decreases_to!(*self => *elems));
                        assert(decreases_to!(*elems => elems@));
                        assert(decreases_to!(elems@ => elems@[i as int]));
                        assert(decreases_to!(*self => elems@[i as int]));
                    }
                    out.push(elems[i].deep_clone());
                    i = i + 1;
                }
                proof {
                    assert forall|k: int| 0 <= k < out@.len() implies json_view(out@[k])
                        == json_view(elems@[k]) by {
                        assert(out@[k]@ == elems@[k]@);
                    }
                    let va = json_view(Json::Array(out));
                    let vb = json_view(Json::Array(*elems));
                    assert(va->Array_0 =~= vb->Array_0);
                    assert(va == JsonView::Array(va->Array_0));
                    assert(vb == JsonView::Array(vb->Array_0));
                }
                Json::Array(out)
            },
            Json::Object(entries) => {
                let mut out: Vec<(String, Json)> = Vec::new();
                let mut i: usize = 0;
                while i < entries.len()
                    invariant
                        i <= entries@.len(),
                        out@.len() == i,
                        forall|k: int| 0 <= k < i ==> out@[k].0@ == entries@[k].0@
                            && out@[k].1@ == entries@[k].1@,
                    decreases entries@.len() - i,
                {
                    proof {
                        assert(decreases_to!(*self => *entries));
                        assert(decreases_to!(*entries => entries@));
                        assert(decreases_to!(entries@ => entries@[i as int]));
                        assert(decreases_to!(*self => entries@[i as int].1));
                    }
                    let entry = &entries[i];
                    out.push((entry.0.clone(), entry.1.deep_clone()));
                    i = i + 1;
                }
                proof {
                    assert forall|k: int| 0 <= k < out@.len() implies out@[k].0@
                        == entries@[k].0@ && json_view(out@[k].1) == json_view(entries@[k].1) by {
                        assert(out@[k].0@ == entries@[k].0@ && out@[k].1@ == entries@[k].1@);
                    }
                    let va = json_view(Json::Object(out));
                    let vb = json_view(Json::Object(*entries));
                    assert(va->Object_0 =~= vb->Object_0);
                    assert(va == JsonView::Object(va->Object_0));
                    assert(vb == JsonView::Object(vb->Object_0));
                }
                Json::Object(out)
            },
        }
    }
}

} // verus!

