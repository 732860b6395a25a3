//! The JSON data model: an executable tree type `Json`, its mathematical
//! view `JsonV`, lookup into objects, and structural equality `jeq` that
//! compares objects as key/value maps rather than by field order.

use vstd::prelude::*;

verus! {

/// A JSON value as this library models it.
///
/// Numbers that fit a signed 64-bit integer are held as `Int`; any other
/// number keeps its decimal text in `Num`, so that documents round-trip
/// without a floating-point representation.
#[derive(Debug, PartialEq)]
pub enum Json {
    Null,
    Bool(bool),
    Int(i64),
    Num(String),
    Str(String),
    Arr(Vec<Json>),
    Obj(Vec<(String, Json)>),
}

/// The mathematical shape of a JSON value, used by every contract.
pub enum JsonV {
    Null,
    Bool(bool),
    Int(i64),
    Num(Seq<char>),
    Str(Seq<char>),
    Arr(Seq<JsonV>),
    Obj(Seq<(Seq<char>, JsonV)>),
}

/// The view of an executable `Json` tree.
pub open spec fn json_view(j: Json) -> JsonV
    decreases j,
{
    match j {
        Json::Null => JsonV::Null,
        Json::Bool(b) => JsonV::Bool(b),
        Json::Int(i) => JsonV::Int(i),
        Json::Num(s) => JsonV::Num(s@),
        Json::Str(s) => JsonV::Str(s@),
        Json::Arr(v) => JsonV::Arr(elems_view(v@)),
        Json::Obj(v) => JsonV::Obj(fields_view(v@)),
    }
}

/// The views of a sequence of executable JSON values.
pub open spec fn elems_view(s: Seq<Json>) -> Seq<JsonV>
    decreases s,
{
    Seq::new(s.len(), |i: int| if 0 <= i < s.len() { json_view(s[i]) } else { JsonV::Null })
}

/// The views of a sequence of executable object fields.
pub open spec fn fields_view(s: Seq<(String, Json)>) -> Seq<(Seq<char>, JsonV)>
    decreases s,
{
    Seq::new(
        s.len(),
        |i: int| if 0 <= i < s.len() { (s[i].0@, json_view(s[i].1)) } else { (Seq::<char>::empty(), JsonV::Null) },
    )
}

impl View for Json {
    type V = JsonV;

    open spec fn view(&self) -> JsonV {
        json_view(*self)
    }
}

/// Looks a key up in an object's field list; the first binding governs.
pub open spec fn obj_get(fields: Seq<(Seq<char>, JsonV)>, k: Seq<char>) -> Option<JsonV>
    decreases fields.len(),
{
    if fields.len() == 0 {
        None
    } else if fields[0].0 == k {
        Some(fields[0].1)
    } else {
        obj_get(fields.drop_first(), k)
    }
}

/// Looks a key up in a JSON value: `None` on anything but an object,
/// as `serde_json::Value::get` behaves.
pub open spec fn jget(j: JsonV, k: Seq<char>) -> Option<JsonV> {
    match j {
        JsonV::Obj(fields) => obj_get(fields, k),
        _ => None,
    }
}

/// The string content of a JSON value, if it is a string.
pub open spec fn as_str(j: JsonV) -> Option<Seq<char>> {
    match j {
        JsonV::Str(s) => Some(s),
        _ => None,
    }
}

/// The boolean content of a JSON value, if it is a boolean.
pub open spec fn as_bool(j: JsonV) -> Option<bool> {
    match j {
        JsonV::Bool(b) => Some(b),
        _ => None,
    }
}

/// The signed 64-bit content of a JSON value, if it is such a number.
pub open spec fn as_int(j: JsonV) -> Option<i64> {
    match j {
        JsonV::Int(i) => Some(i),
        _ => None,
    }
}

/// The element sequence of a JSON value, if it is an array.
pub open spec fn as_arr(j: JsonV) -> Option<Seq<JsonV>> {
    match j {
        JsonV::Arr(v) => Some(v),
        _ => None,
    }
}

/// Structural equality of JSON values: arrays agree position by position,
/// objects agree as key/value maps, so field order never matters. Every
/// comparison in this library goes through `jeq`, mirroring structural
/// equality of parsed JSON documents.
pub open spec fn jeq(a: JsonV, b: JsonV) -> bool
    decreases a, 0int,
{
    match (a, b) {
        (JsonV::Null, JsonV::Null) => true,
        (JsonV::Bool(x), JsonV::Bool(y)) => x == y,
        (JsonV::Int(x), JsonV::Int(y)) => x == y,
        (JsonV::Num(x), JsonV::Num(y)) => x == y,
        (JsonV::Str(x), JsonV::Str(y)) => x == y,
        (JsonV::Arr(x), JsonV::Arr(y)) => {
            &&& x.len() == y.len()
            &&& forall|i: int| 0 <= i < x.len() ==> jeq(#[trigger] x[i], y[i])
        },
        (JsonV::Obj(x), JsonV::Obj(y)) => covers(x, y) && covers_rev(x, y),
        _ => false,
    }
}

/// Every binding of `x` has a binding in `y` with the same key and a
/// structurally equal value.
pub open spec fn covers(x: Seq<(Seq<char>, JsonV)>, y: Seq<(Seq<char>, JsonV)>) -> bool
    decreases x, 2int,
{
    forall|i: int| 0 <= i < x.len() ==> obj_has(y, (#[trigger] x[i]).0, x[i].1)
}

/// Every binding of `y` has a binding in `x` with the same key and a
/// structurally equal value (compared with the `x` value on the left).
pub open spec fn covers_rev(x: Seq<(Seq<char>, JsonV)>, y: Seq<(Seq<char>, JsonV)>) -> bool
    decreases x, 2int,
{
    forall|i: int| 0 <= i < y.len() ==> obj_has_rev(x, (#[trigger] y[i]).0, y[i].1)
}

/// Some binding in `fields` carries key `k` and a value structurally equal
/// to `v` (with `v` on the left of the comparison).
pub open spec fn obj_has(fields: Seq<(Seq<char>, JsonV)>, k: Seq<char>, v: JsonV) -> bool
    decreases v, 1int,
{
    exists|j: int| 0 <= j < fields.len() && (#[trigger] fields[j]).0 == k && jeq(v, fields[j].1)
}

/// Some binding in `fields` carries key `k` and a value structurally equal
/// to `v` (with the binding's value on the left of the comparison).
pub open spec fn obj_has_rev(fields: Seq<(Seq<char>, JsonV)>, k: Seq<char>, v: JsonV) -> bool
    decreases fields, 1int,
{
    exists|j: int| 0 <= j < fields.len() && (#[trigger] fields[j]).0 == k && jeq(fields[j].1, v)
}

/// Element-by-element structural equality of two JSON sequences.
pub open spec fn seq_jeq(a: Seq<JsonV>, b: Seq<JsonV>) -> bool {
    a.len() == b.len() && forall|i: int| 0 <= i < a.len() ==> jeq(a[i], b[i])
}

/// Looks a key up in an executable JSON value, as `serde_json::Value::get`
/// does: `None` on anything but an object, else the first binding with that
/// key.
#[verifier::loop_isolation(false)]
pub fn get_field<'a>(j: &'a Json, k: &str) -> (r: Option<&'a Json>)
    ensures
        match r {
            Some(v) => jget(j@, k@) == Some(v@),
            None => jget(j@, k@) is None,
        },
{
    match j {
        Json::Obj(fields) => {
            let ghost fv = fields_view(fields@);
            proof {
                assert(fv.skip(0) =~= fv);
            }
            let mut i: usize = 0;
            while i < fields.len()
                invariant
                    0 <= i <= fields.len(),
                    fv == fields_view(fields@),
                    obj_get(fv, k@) == obj_get(fv.skip(i as int), k@),
                decreases fields.len() - i,
            {
                let hit = crate::strings::str_eq(&fields[i].0, k);
                proof {
                    assert(fv.skip(i as int)[0] == fv[i as int]);
                }
                if hit {
                    proof {
                        assert(obj_get(fv.skip(i as int), k@) == Some(fv[i as int].1));
                    }
                    return Some(&fields[i].1);
                }
                proof {
                    assert(fv.skip(i as int).drop_first() =~= fv.skip(i as int + 1));
                }
                i = i + 1;
            }
            proof {
                assert(fv.skip(fields.len() as int) =~= Seq::<(Seq<char>, JsonV)>::empty());
            }
            None
        },
        _ => None,
    }
}

/// A deep copy: the result has the very same view.
#[verifier::loop_isolation(false)]
pub fn json_clone(j: &Json) -> (r: Json)
    ensures
        r@ == j@,
    decreases j,
{
    match j {
        Json::Null => Json::Null,
        Json::Bool(b) => Json::Bool(*b),
        Json::Int(i) => Json::Int(*i),
        Json::Num(s) => Json::Num(s.clone()),
        Json::Str(s) => Json::Str(s.clone()),
        Json::Arr(v) => {
            let mut out: Vec<Json> = Vec::new();
            let mut i: usize = 0;
            while i < v.len()
                invariant
                    0 <= i <= v.len(),
                    out.len() == i,
                    forall|m: int| 0 <= m < i ==> json_view(#[trigger] out@[m]) == json_view(v@[m]),
                decreases v.len() - i,
            {
                proof {
                    assert(*j == Json::Arr(*v));
                    assert(decreases_to!(*j => (*j)->Arr_0));
                    assert(decreases_to!(*v => v@[i as int]));
                }
                let c = json_clone(&v[i]);
                out.push(c);
                i = i + 1;
            }
            let ghost ov = out@;
            let r = Json::Arr(out);
            proof {
                assert(elems_view(ov) =~= elems_view(v@));
            }
            r
        },
        Json::Obj(v) => {
            let mut out: Vec<(String, Json)> = Vec::new();
            let mut i: usize = 0;
            while i < v.len()
                invariant
                    0 <= i <= v.len(),
                    out.len() == i,
                    forall|m: int| 0 <= m < i ==> (#[trigger] out@[m]).0@ == v@[m].0@ && json_view(out@[m].1)
                        == json_view(v@[m].1),
                decreases v.len() - i,
            {
                proof {
                    assert(*j == Json::Obj(*v));
                    assert(decreases_to!(*j => (*j)->Obj_0));
                    assert(decreases_to!(*v => v@[i as int]));
                    assert(decreases_to!(v@[i as int] => v@[i as int].1));
                }
                let key = v[i].0.clone();
                let val = json_clone(&v[i].1);
                out.push((key, val));
                i = i + 1;
            }
            let ghost ov = out@;
            let r = Json::Obj(out);
            proof {
                assert(fields_view(ov) =~= fields_view(v@));
            }
            r
        },
    }
}

/// Decides structural equality of two JSON values.
#[verifier::loop_isolation(false)]
pub fn json_eq(a: &Json, b: &Json) -> (r: bool)
    ensures
        r == jeq(a@, b@),
    decreases a, 0int,
{
    match (a, b) {
        (Json::Null, Json::Null) => true,
        (Json::Bool(x), Json::Bool(y)) => *x == *y,
        (Json::Int(x), Json::Int(y)) => *x == *y,
        (Json::Num(x), Json::Num(y)) => *x == *y,
        (Json::Str(x), Json::Str(y)) => *x == *y,
        (Json::Arr(x), Json::Arr(y)) => {
            if x.len() != y.len() {
                return false;
            }
            let mut i: usize = 0;
            while i < x.len()
                invariant
                    0 <= i <= x.len(),
                    x.len() == y.len(),
                    forall|m: int| 0 <= m < i ==> jeq(#[trigger] elems_view(x@)[m], elems_view(y@)[m]),
                decreases x.len() - i,
            {
                proof {
                    assert(*a == Json::Arr(*x));
                    assert(decreases_to!(*a => (*a)->Arr_0));
                    assert(decreases_to!(*x => x@[i as int]));
                }
                let eqi = json_eq(&x[i], &y[i]);
                proof {
                    assert(elems_view(x@)[i as int] == json_view(x@[i as int]));
                    assert(elems_view(y@)[i as int] == json_view(y@[i as int]));
                }
                if !eqi {
                    return false;
                }
                i = i + 1;
            }
            true
        },
        (Json::Obj(x), Json::Obj(y)) => {
            proof {
                assert(*a == Json::Obj(*x));
                assert(decreases_to!(*a => (*a)->Obj_0));
            }
            if !obj_covered(x, y) {
                return false;
            }
            obj_covered_rev(y, x)
        },
        _ => false,
    }
}

/// Decides whether every binding of `x` has, somewhere in `y`, a binding
/// with the same key and a structurally equal value.
#[verifier::loop_isolation(false)]
fn obj_covered(x: &Vec<(String, Json)>, y: &Vec<(String, Json)>) -> (r: bool)
    ensures
        r == covers(fields_view(x@), fields_view(y@)),
    decreases x, 1int,
{
    let ghost xv = fields_view(x@);
    let ghost yv = fields_view(y@);
    let mut i: usize = 0;
    while i < x.len()
        invariant
            0 <= i <= x.len(),
            xv == fields_view(x@),
            yv == fields_view(y@),
            forall|m: int| 0 <= m < i ==> obj_has(yv, (#[trigger] xv[m]).0, xv[m].1),
        decreases x.len() - i,
    {
        let mut found = false;
        let mut j: usize = 0;
        while j < y.len()
            invariant
                0 <= j <= y.len(),
                0 <= i < x.len(),
                xv == fields_view(x@),
                yv == fields_view(y@),
                found ==> obj_has(yv, xv[i as int].0, xv[i as int].1),
                !found ==> forall|m: int|
                    0 <= m < j ==> !((#[trigger] yv[m]).0 == xv[i as int].0 && jeq(xv[i as int].1, yv[m].1)),
            decreases y.len() - j,
        {
            if !found {
                let key_hit = crate::strings::str_eq(&y[j].0, x[i].0.as_str());
                if key_hit {
                    proof {
                        assert(decreases_to!(*x => x@[i as int]));
                        assert(decreases_to!(x@[i as int] => x@[i as int].1));
                    }
                    if json_eq(&x[i].1, &y[j].1) {
                        found = true;
                        proof {
                            assert(yv[j as int].0 == xv[i as int].0 && jeq(xv[i as int].1, yv[j as int].1));
                        }
                    }
                }
            }
            j = j + 1;
        }
        if !found {
            proof {
                assert(!obj_has(yv, xv[i as int].0, xv[i as int].1));
                assert(!covers(xv, yv));
            }
            return false;
        }
        i = i + 1;
    }
    proof {
        assert(covers(xv, yv));
    }
    true
}

/// Decides whether every binding of `y` has, somewhere in `x`, a binding
/// with the same key and a structurally equal value, comparing with the
/// `x` value on the left.
#[verifier::loop_isolation(false)]
fn obj_covered_rev(y: &Vec<(String, Json)>, x: &Vec<(String, Json)>) -> (r: bool)
    ensures
        r == covers_rev(fields_view(x@), fields_view(y@)),
    decreases x, 1int,
{
    let ghost xv = fields_view(x@);
    let ghost yv = fields_view(y@);
    let mut i: usize = 0;
    while i < y.len()
        invariant
            0 <= i <= y.len(),
            xv == fields_view(x@),
            yv == fields_view(y@),
            forall|m: int| 0 <= m < i ==> obj_has_rev(xv, (#[trigger] yv[m]).0, yv[m].1),
        decreases y.len() - i,
    {
        let mut found = false;
        let mut j: usize = 0;
        while j < x.len()
            invariant
                0 <= j <= x.len(),
                0 <= i < y.len(),
                xv == fields_view(x@),
                yv == fields_view(y@),
                found ==> obj_has_rev(xv, yv[i as int].0, yv[i as int].1),
                !found ==> forall|m: int|
                    0 <= m < j ==> !((#[trigger] xv[m]).0 == yv[i as int].0 && jeq(xv[m].1, yv[i as int].1)),
            decreases x.len() - j,
        {
            if !found {
                let key_hit = crate::strings::str_eq(&x[j].0, y[i].0.as_str());
                if key_hit {
                    proof {
                        assert(decreases_to!(*x => x@[j as int]));
                        assert(decreases_to!(x@[j as int] => x@[j as int].1));
                    }
                    if json_eq(&x[j].1, &y[i].1) {
                        found = true;
                        proof {
                            assert(xv[j as int].0 == yv[i as int].0 && jeq(xv[j as int].1, yv[i as int].1));
                        }
                    }
                }
            }
            j = j + 1;
        }
        if !found {
            proof {
                assert(!obj_has_rev(xv, yv[i as int].0, yv[i as int].1));
                assert(!covers_rev(xv, yv));
            }
            return false;
        }
        i = i + 1;
    }
    proof {
        assert(covers_rev(xv, yv));
    }
    true
}

/// Structural equality of sequences is reflexive.
pub proof fn lemma_seq_jeq_refl(s: Seq<JsonV>)
    ensures
        seq_jeq(s, s),
{
    assert forall|i: int| 0 <= i < s.len() implies jeq(s[i], s[i]) by {
        lemma_jeq_refl(s[i]);
    }
}

/// Every array and object in the tree has at most `i64::MAX` entries.
/// This holds of every tree read out of memory, since a `Vec`'s contents
/// never exceed `isize::MAX` bytes.
pub open spec fn arrays_bounded(j: JsonV) -> bool
    decreases j,
{
    match j {
        JsonV::Arr(s) => {
            &&& s.len() <= 0x7fff_ffff_ffff_ffff
            &&& forall|i: int| 0 <= i < s.len() ==> arrays_bounded(#[trigger] s[i])
        },
        JsonV::Obj(f) => {
            &&& f.len() <= 0x7fff_ffff_ffff_ffff
            &&& forall|i: int| 0 <= i < f.len() ==> arrays_bounded((#[trigger] f[i]).1)
        },
        _ => true,
    }
}

/// Lookup finds the first binding whose key matches.
pub proof fn lemma_obj_get_at(fields: Seq<(Seq<char>, JsonV)>, k: Seq<char>, i: int)
    requires
        0 <= i < fields.len(),
        fields[i].0 == k,
        forall|j: int| 0 <= j < i ==> (#[trigger] fields[j]).0 != k,
    ensures
        obj_get(fields, k) == Some(fields[i].1),
    decreases i,
{
    if i == 0 {
    } else {
        lemma_obj_get_at(fields.drop_first(), k, i - 1);
        assert(fields[0].0 != k);
    }
}

/// A successful lookup returns the value of some binding of the list.
pub proof fn lemma_obj_get_some(fields: Seq<(Seq<char>, JsonV)>, k: Seq<char>)
    requires
        obj_get(fields, k) is Some,
    ensures
        exists|i: int|
            0 <= i < fields.len() && (#[trigger] fields[i]).0 == k && fields[i].1 == obj_get(fields, k)->0,
    decreases fields.len(),
{
    if fields.len() == 0 {
    } else if fields[0].0 == k {
        assert((#[trigger] fields[0]).0 == k && fields[0].1 == obj_get(fields, k)->0);
    } else {
        lemma_obj_get_some(fields.drop_first(), k);
        let i0 = choose|i: int|
            0 <= i < fields.drop_first().len() && (#[trigger] fields.drop_first()[i]).0 == k
                && fields.drop_first()[i].1 == obj_get(fields.drop_first(), k)->0;
        assert((#[trigger] fields[i0 + 1]).0 == k && fields[i0 + 1].1 == obj_get(fields, k)->0);
    }
}

/// In a tree whose arrays are bounded, any value looked up in an object is
/// itself bounded.
pub proof fn lemma_bounded_get(j: JsonV, k: Seq<char>)
    requires
        arrays_bounded(j),
        jget(j, k) is Some,
    ensures
        arrays_bounded(jget(j, k)->0),
{
    match j {
        JsonV::Obj(f) => {
            lemma_obj_get_some(f, k);
        },
        _ => {},
    }
}

/// Structural equality is reflexive: every JSON value equals itself.
pub proof fn lemma_jeq_refl(a: JsonV)
    ensures
        jeq(a, a),
    decreases a,
{
    match a {
        JsonV::Arr(x) => {
            assert forall|i: int| 0 <= i < x.len() implies jeq(#[trigger] x[i], x[i]) by {
                lemma_jeq_refl(x[i]);
            }
        },
        JsonV::Obj(x) => {
            assert forall|i: int| 0 <= i < x.len() implies obj_has(x, (#[trigger] x[i]).0, x[i].1) by {
                lemma_jeq_refl(x[i].1);
                assert((#[trigger] x[i]).0 == x[i].0 && jeq(x[i].1, x[i].1));
            }
            assert forall|i: int| 0 <= i < x.len() implies obj_has_rev(x, (#[trigger] x[i]).0, x[i].1) by {
                lemma_jeq_refl(x[i].1);
                assert((#[trigger] x[i]).0 == x[i].0 && jeq(x[i].1, x[i].1));
            }
            assert(covers(x, x));
            assert(covers_rev(x, x));
        },
        _ => {},
    }
}

} // verus!
