use vstd::prelude::*;

use crate::json::{Json, JsonValue, json_quote};
use crate::text::{chars_of, compare_chars, chars_less, push_chars, push_str, field_name_text,
    chars_are_identifier};

verus! {

/// The inferred structure of JSON values: an object's members are kept sorted by name.
pub enum Shape {
    Unknown,
    Str,
    Num,
    Bool,
    Null,
    Array(Box<Shape>),
    Object(Seq<(Seq<char>, Field)>),
    Union(Seq<Shape>),
}

/// A member of an object shape: its shape, and whether some values lack it.
pub struct Field {
    pub shape: Shape,
    pub optional: bool,
}

/// The order union members are listed in.
pub open spec fn shape_rank(s: Shape) -> nat {
    match s {
        Shape::Unknown => 0,
        Shape::Null => 1,
        Shape::Bool => 2,
        Shape::Num => 3,
        Shape::Str => 4,
        Shape::Array(_) => 5,
        Shape::Object(_) => 6,
        Shape::Union(_) => 7,
    }
}

/// The recursion budget of a merge; no real input comes near it.
pub open spec fn merge_fuel() -> nat {
    u64::MAX as nat
}

/// Merges two shapes: an unknown shape gives way to the other, arrays merge their elements,
/// objects merge their members, equal shapes stay, and other shapes form a union.
pub open spec fn merge_shapes(a: Shape, b: Shape, f: nat) -> Shape
    decreases f, 4nat, 0nat,
{
    if f == 0 {
        Shape::Unknown
    } else {
        match (a, b) {
            (Shape::Unknown, _) => b,
            (_, Shape::Unknown) => a,
            (Shape::Array(l), Shape::Array(r)) => Shape::Array(Box::new(merge_shapes(*l, *r, (f - 1) as nat))),
            (Shape::Object(l), Shape::Object(r)) => Shape::Object(merge_fields(l, r, (f - 1) as nat)),
            _ => if a == b {
                a
            } else {
                merge_union(a, b, f)
            },
        }
    }
}

/// Marks every member optional.
pub open spec fn all_optional(fs: Seq<(Seq<char>, Field)>) -> Seq<(Seq<char>, Field)> {
    Seq::new(fs.len(), |i: int| (fs[i].0, Field { shape: fs[i].1.shape, optional: true }))
}

/// Merges the members of two objects (both sorted by name): a member of both merges its shapes
/// and is optional if optional in either; a member of one only is optional.
pub open spec fn merge_fields(l: Seq<(Seq<char>, Field)>, r: Seq<(Seq<char>, Field)>, f: nat) -> Seq<(Seq<char>, Field)>
    decreases f, 3nat, l.len() + r.len(),
{
    if f == 0 {
        seq![]
    } else if l.len() == 0 {
        all_optional(r)
    } else if r.len() == 0 {
        all_optional(l)
    } else if chars_less(l[0].0, r[0].0) {
        seq![(l[0].0, Field { shape: l[0].1.shape, optional: true })] + merge_fields(l.drop_first(), r, f)
    } else if chars_less(r[0].0, l[0].0) {
        seq![(r[0].0, Field { shape: r[0].1.shape, optional: true })] + merge_fields(l, r.drop_first(), f)
    } else {
        seq![(l[0].0, Field {
            shape: merge_shapes(l[0].1.shape, r[0].1.shape, (f - 1) as nat),
            optional: l[0].1.optional || r[0].1.optional,
        })] + merge_fields(l.drop_first(), r.drop_first(), f)
    }
}

/// The members of a shape when it is taken apart as a union (a non-union is its own member).
pub open spec fn flatten(s: Shape) -> Seq<Shape>
    decreases s,
{
    match s {
        Shape::Union(ms) => flatten_all(ms),
        _ => seq![s],
    }
}

pub open spec fn flatten_all(ms: Seq<Shape>) -> Seq<Shape>
    decreases ms,
{
    if ms.len() == 0 {
        seq![]
    } else {
        flatten(ms[0]) + flatten_all(ms.subrange(1, ms.len() as int))
    }
}

/// Goes through union members, merging each into the accumulated member of its rank.
pub open spec fn fold_classes(ms: Seq<Shape>, accs: Seq<Option<Shape>>, f: nat) -> Seq<Option<Shape>>
    decreases f, 0nat, ms.len(),
{
    if ms.len() == 0 || f == 0 {
        accs
    } else {
        let m = ms[0];
        let c = shape_rank(m) as int;
        let merged = match accs[c] {
            None => Some(m),
            Some(x) => Some(merge_shapes(x, m, (f - 1) as nat)),
        };
        fold_classes(ms.drop_first(), accs.update(c, merged), f)
    }
}

/// The shapes present, in order.
pub open spec fn present(accs: Seq<Option<Shape>>) -> Seq<Shape>
    decreases accs.len(),
{
    if accs.len() == 0 {
        seq![]
    } else {
        (match accs[0] {
            Some(s) => seq![s],
            None => seq![],
        }) + present(accs.drop_first())
    }
}

pub open spec fn no_classes() -> Seq<Option<Shape>> {
    seq![None, None, None, None, None, None, None, None]
}

/// The union of two shapes: their members merged by kind (all arrays into one, all objects into
/// one, equal members into one) and listed by kind; a single member stands alone.
pub open spec fn merge_union(a: Shape, b: Shape, f: nat) -> Shape
    decreases f, 2nat, 0nat,
{
    let members = present(fold_classes(flatten(a) + flatten(b), no_classes(), f));
    if members.len() == 1 {
        members[0]
    } else {
        Shape::Union(members)
    }
}

/// How a type expression writes a shape: `unknown`, `string`, `number`, `bool`, `null`; an array
/// as its element followed by `[]` (in brackets when the element is a union); an object as
/// `{name:shape;...}` with `?` after the name of an optional member; a union as its members
/// joined by `|`.
pub open spec fn render_shape(s: Shape) -> Seq<char>
    decreases s, 0nat,
{
    match s {
        Shape::Unknown => "unknown"@,
        Shape::Str => "string"@,
        Shape::Num => "number"@,
        Shape::Bool => "bool"@,
        Shape::Null => "null"@,
        Shape::Array(e) => if *e is Union {
            "("@ + render_shape(*e) + ")[]"@
        } else {
            render_shape(*e) + "[]"@
        },
        Shape::Object(fs) => "{"@ + render_fields(fs, fs.len()) + "}"@,
        Shape::Union(ms) => render_members(ms, ms.len()),
    }
}

/// The first `n` members of an object, each as `name:shape` (with `?` after an optional
/// member's name), joined by `;`.
pub open spec fn render_fields(fs: Seq<(Seq<char>, Field)>, n: nat) -> Seq<char>
    decreases fs, n,
{
    if n == 0 || n > fs.len() {
        seq![]
    } else {
        proof {
            assert(decreases_to!(fs => fs[n - 1]));
            assert(decreases_to!(fs[n - 1] => fs[n - 1].1));
            assert(decreases_to!(fs[n - 1].1 => fs[n - 1].1.shape));
        }
        let entry = fs[n - 1];
        let text = field_name_text(entry.0) + (if entry.1.optional { "?"@ } else { seq![] }) + ":"@
            + render_shape(entry.1.shape);
        if n == 1 {
            text
        } else {
            render_fields(fs, (n - 1) as nat) + ";"@ + text
        }
    }
}

/// The first `n` members of a union, joined by `|`.
pub open spec fn render_members(ms: Seq<Shape>, n: nat) -> Seq<char>
    decreases ms, n,
{
    if n == 0 || n > ms.len() {
        seq![]
    } else {
        proof {
            assert(decreases_to!(ms => ms[n - 1]));
        }
        if n == 1 {
            render_shape(ms[0])
        } else {
            render_members(ms, (n - 1) as nat) + "|"@ + render_shape(ms[n - 1])
        }
    }
}

/// The shape of a JSON value: an array's elements merged (unknown when there are none), an
/// object's members all required.
pub open spec fn shape_of_json(j: Json) -> Shape
    decreases j, 0nat,
{
    match j {
        Json::Null => Shape::Null,
        Json::Bool(_) => Shape::Bool,
        Json::Number(_) => Shape::Num,
        Json::Str(_) => Shape::Str,
        Json::Array(items) => Shape::Array(Box::new(items_shape(items, items.len()))),
        Json::Object(members) => Shape::Object(members_shape(members, members.len())),
    }
}

/// The shapes of the first `n` elements merged, starting from the unknown shape.
pub open spec fn items_shape(items: Seq<Json>, n: nat) -> Shape
    decreases items, n,
{
    if n == 0 || n > items.len() {
        Shape::Unknown
    } else {
        proof {
            assert(decreases_to!(items => items[n - 1]));
        }
        merge_shapes(items_shape(items, (n - 1) as nat), shape_of_json(items[n - 1]), merge_fuel())
    }
}

/// Members with one more put at its place in name order: in place of a member of the same
/// name, else before the first member whose name is not less than its own.
pub open spec fn insert_field(fs: Seq<(Seq<char>, Field)>, x: (Seq<char>, Field)) -> Seq<(Seq<char>, Field)>
    decreases fs.len(),
{
    if fs.len() == 0 {
        seq![x]
    } else if fs[0].0 == x.0 {
        seq![x] + fs.drop_first()
    } else if chars_less(fs[0].0, x.0) {
        seq![fs[0]] + insert_field(fs.drop_first(), x)
    } else {
        seq![x] + fs
    }
}

/// The first `n` members of a JSON object as required members of a shape, in name order.
pub open spec fn members_shape(members: Seq<(Seq<char>, Json)>, n: nat) -> Seq<(Seq<char>, Field)>
    decreases members, n,
{
    if n == 0 || n > members.len() {
        seq![]
    } else {
        proof {
            assert(decreases_to!(members => members[n - 1]));
            assert(decreases_to!(members[n - 1] => members[n - 1].1));
        }
        insert_field(
            members_shape(members, (n - 1) as nat),
            (members[n - 1].0, Field { shape: shape_of_json(members[n - 1].1), optional: false }),
        )
    }
}

/// Where `insert_field` puts a member: after the members before `k`, whose names are less and
/// differ, in place of the member at `k` when it has the same name.
proof fn lemma_insert_field_at(fs: Seq<(Seq<char>, Field)>, x: (Seq<char>, Field), k: int)
    requires
        0 <= k <= fs.len(),
        forall|i: int| 0 <= i < k ==> (#[trigger] fs[i]).0 != x.0 && chars_less(fs[i].0, x.0),
        k < fs.len() ==> (fs[k].0 == x.0 || !chars_less(fs[k].0, x.0)),
    ensures
        insert_field(fs, x) == fs.take(k) + seq![x] + fs.skip(if k < fs.len() && fs[k].0 == x.0 { k + 1 } else { k }),
    decreases k,
{
    if k == 0 {
        if fs.len() > 0 && fs[0].0 == x.0 {
            assert(fs.skip(1) =~= fs.drop_first());
        }
        assert(fs.take(0) =~= Seq::<(Seq<char>, Field)>::empty());
        assert(fs.skip(0) =~= fs);
    } else {
        let rest = fs.drop_first();
        assert(fs[0].0 != x.0 && chars_less(fs[0].0, x.0)) by {
            assert(fs[0] == fs[0]);
        }
        assert forall|i: int| 0 <= i < k - 1 implies (#[trigger] rest[i]).0 != x.0 && chars_less(rest[i].0, x.0) by {
            assert(rest[i] == fs[i + 1]);
        }
        if k - 1 < rest.len() {
            assert(rest[k - 1] == fs[k]);
        }
        lemma_insert_field_at(rest, x, k - 1);
        let skip_at = if k < fs.len() && fs[k].0 == x.0 { k + 1 } else { k };
        assert(rest.take(k - 1) =~= fs.take(k).drop_first());
        assert(rest.skip(skip_at - 1) =~= fs.skip(skip_at));
        assert(fs.take(k) =~= seq![fs[0]] + fs.take(k).drop_first());
        assert(insert_field(fs, x) =~= fs.take(k) + seq![x] + fs.skip(skip_at));
    }
}

pub enum TypeShape {
    Unknown,
    String,
    Number,
    Bool,
    Null,
    Array(Box<TypeShape>),
    Object(Vec<(String, ObjectField)>),
    Union(Vec<TypeShape>),
}

pub struct ObjectField {
    pub shape: TypeShape,
    pub optional: bool,
}

impl View for TypeShape {
    type V = Shape;

    open spec fn view(&self) -> Shape
        decreases self,
    {
        match self {
            TypeShape::Unknown => Shape::Unknown,
            TypeShape::String => Shape::Str,
            TypeShape::Number => Shape::Num,
            TypeShape::Bool => Shape::Bool,
            TypeShape::Null => Shape::Null,
            TypeShape::Array(e) => Shape::Array(Box::new((**e).view())),
            TypeShape::Object(fields) => Shape::Object(Seq::new(fields.len() as nat, |i: int|
                if 0 <= i < fields.len() {
                    (fields[i].0@, Field { shape: fields[i].1.shape.view(), optional: fields[i].1.optional })
                } else {
                    (Seq::empty(), Field { shape: Shape::Unknown, optional: false })
                })),
            TypeShape::Union(members) => Shape::Union(Seq::new(members.len() as nat, |i: int|
                if 0 <= i < members.len() {
                    members[i].view()
                } else {
                    Shape::Unknown
                })),
        }
    }
}

/// The view of a list of object members.
pub open spec fn fields_view(fs: Seq<(String, ObjectField)>) -> Seq<(Seq<char>, Field)> {
    Seq::new(fs.len(), |i: int| (fs[i].0@, Field { shape: fs[i].1.shape@, optional: fs[i].1.optional }))
}

/// The view of a list of shapes.
pub open spec fn shapes_view(ms: Seq<TypeShape>) -> Seq<Shape> {
    Seq::new(ms.len(), |i: int| ms[i]@)
}

proof fn lemma_object_view(fields: Vec<(String, ObjectField)>)
    ensures
        TypeShape::Object(fields)@ == Shape::Object(fields_view(fields@)),
{
    let v = TypeShape::Object(fields)@;
    assert(v->Object_0 =~= fields_view(fields@));
}

proof fn lemma_union_view(members: Vec<TypeShape>)
    ensures
        TypeShape::Union(members)@ == Shape::Union(shapes_view(members@)),
{
    let v = TypeShape::Union(members)@;
    assert(v->Union_0 =~= shapes_view(members@));
}

fn string_equal(a: &String, b: &String) -> (r: bool)
    ensures
        r == (a@ == b@),
{
    let x = chars_of(a.as_str());
    let y = chars_of(b.as_str());
    crate::text::chars_equal(&x, &y)
}

/// Whether two shapes are the same.
fn shape_eq(a: &TypeShape, b: &TypeShape) -> (r: bool)
    ensures
        r == (a@ == b@),
    decreases a@,
{
    match (a, b) {
        (TypeShape::Unknown, TypeShape::Unknown) => true,
        (TypeShape::String, TypeShape::String) => true,
        (TypeShape::Number, TypeShape::Number) => true,
        (TypeShape::Bool, TypeShape::Bool) => true,
        (TypeShape::Null, TypeShape::Null) => true,
        (TypeShape::Array(x), TypeShape::Array(y)) => {
            let r = shape_eq(&**x, &**y);
            proof {
                if !r {
                    assert(a@->Array_0 != b@->Array_0);
                }
            }
            r
        },
        (TypeShape::Object(x), TypeShape::Object(y)) => {
            proof {
                lemma_object_view(*x);
                lemma_object_view(*y);
            }
            if x.len() != y.len() {
                proof {
                    assert(fields_view(x@).len() != fields_view(y@).len());
                }
                return false;
            }
            let mut i: usize = 0;
            while i < x.len()
                invariant
                    x.len() == y.len(),
                    i <= x.len(),
                    a@ == Shape::Object(fields_view(x@)),
                    b@ == Shape::Object(fields_view(y@)),
                    forall|k: int| 0 <= k < i ==> fields_view(x@)[k] == fields_view(y@)[k],
                decreases x.len() - i,
            {
                proof {
                    let av = a@;
                    assert(fields_view(x@)[i as int].1.shape == x@[i as int].1.shape@);
                    assert(av->Object_0[i as int].1.shape == x@[i as int].1.shape@);
                    assert(decreases_to!(av => av->Object_0));
                    assert(decreases_to!(av->Object_0 => av->Object_0[i as int]));
                    assert(decreases_to!(av->Object_0[i as int] => av->Object_0[i as int].1));
                    assert(decreases_to!(av->Object_0[i as int].1 => av->Object_0[i as int].1.shape));
                }
                let same = string_equal(&x[i].0, &y[i].0) && x[i].1.optional == y[i].1.optional
                    && shape_eq(&x[i].1.shape, &y[i].1.shape);
                if !same {
                    proof {
                        assert(fields_view(x@)[i as int] != fields_view(y@)[i as int]);
                        assert(fields_view(x@) != fields_view(y@));
                    }
                    return false;
                }
                i += 1;
            }
            proof {
                assert(fields_view(x@) =~= fields_view(y@));
            }
            true
        },
        (TypeShape::Union(x), TypeShape::Union(y)) => {
            proof {
                lemma_union_view(*x);
                lemma_union_view(*y);
            }
            if x.len() != y.len() {
                proof {
                    assert(shapes_view(x@).len() != shapes_view(y@).len());
                }
                return false;
            }
            let mut i: usize = 0;
            while i < x.len()
                invariant
                    x.len() == y.len(),
                    i <= x.len(),
                    a@ == Shape::Union(shapes_view(x@)),
                    b@ == Shape::Union(shapes_view(y@)),
                    forall|k: int| 0 <= k < i ==> shapes_view(x@)[k] == shapes_view(y@)[k],
                decreases x.len() - i,
            {
                proof {
                    let av = a@;
                    assert(av->Union_0[i as int] == x@[i as int]@);
                    assert(decreases_to!(av => av->Union_0));
                    assert(decreases_to!(av->Union_0 => av->Union_0[i as int]));
                }
                if !shape_eq(&x[i], &y[i]) {
                    proof {
                        assert(shapes_view(x@)[i as int] != shapes_view(y@)[i as int]);
                        assert(shapes_view(x@) != shapes_view(y@));
                    }
                    return false;
                }
                i += 1;
            }
            proof {
                assert(shapes_view(x@) =~= shapes_view(y@));
            }
            true
        },
        _ => false,
    }
}


pub open spec fn opts_view(s: Seq<Option<TypeShape>>) -> Seq<Option<Shape>> {
    Seq::new(s.len(), |i: int| match s[i] {
        Some(x) => Some(x@),
        None => None,
    })
}

fn rank_of(s: &TypeShape) -> (r: usize)
    ensures
        r == shape_rank(s@),
{
    match s {
        TypeShape::Unknown => 0,
        TypeShape::Null => 1,
        TypeShape::Bool => 2,
        TypeShape::Number => 3,
        TypeShape::String => 4,
        TypeShape::Array(_) => 5,
        TypeShape::Object(_) => 6,
        TypeShape::Union(_) => 7,
    }
}

fn flatten_into(shape: TypeShape, out: &mut Vec<TypeShape>)
    ensures
        shapes_view(final(out)@) == shapes_view(old(out)@) + flatten(shape@),
    decreases shape@,
{
    let ghost sv = shape@;
    match shape {
        TypeShape::Union(members) => {
            proof {
                lemma_union_view(members);
            }
            let ghost all = shapes_view(members@);
            let ghost start = shapes_view(out@);
            let mut rest = members;
            let ghost mut k: int = 0;
            proof {
                assert(shapes_view(rest@) =~= all.subrange(0, all.len() as int));
                assert(all.subrange(0, all.len() as int) =~= all);
            }
            while rest.len() > 0
                invariant
                    sv == Shape::Union(all),
                    sv == shape@,
                    0 <= k <= all.len(),
                    shapes_view(rest@) == all.subrange(k, all.len() as int),
                    shapes_view(out@) + flatten_all(shapes_view(rest@)) == start + flatten_all(all),
                decreases rest.len(),
            {
                let ghost rest_old = rest@;
                let m = rest.remove(0);
                proof {
                    assert(shapes_view(rest@) =~= shapes_view(rest_old).drop_first());
                    assert(m@ == all[k]);
                    assert(sv->Union_0 == all);
                    assert(decreases_to!(sv => sv->Union_0));
                    assert(decreases_to!(sv->Union_0 => sv->Union_0[k]));
                }
                let ghost rest_before = all.subrange(k, all.len() as int);
                let ghost out_before = shapes_view(out@);
                let ghost rest_now = rest@;
                flatten_into(m, out);
                proof {
                    k = k + 1;
                    assert(rest_now == rest@);
                    assert(shapes_view(rest@) =~= all.subrange(k, all.len() as int));
                    assert(rest_before.subrange(1, rest_before.len() as int) =~= all.subrange(k, all.len() as int));
                    assert(rest_before[0] == m@);
                    assert(flatten_all(rest_before) == flatten(m@) + flatten_all(rest_before.subrange(1, rest_before.len() as int)));
                    assert(shapes_view(out@) + flatten_all(shapes_view(rest@)) =~= out_before + flatten_all(rest_before));
                }
            }
            proof {
                assert(flatten_all(shapes_view(rest@)) =~= Seq::<Shape>::empty());
                assert(shapes_view(out@) =~= shapes_view(out@) + flatten_all(shapes_view(rest@)));
            }
        },
        other => {
            let ghost before = shapes_view(out@);
            out.push(other);
            proof {
                assert(shapes_view(out@) =~= before + seq![sv]);
            }
        },
    }
}

/// Merges two shapes (see `merge_shapes`), within a recursion budget of `fuel`.
pub fn merge(a: TypeShape, b: TypeShape, fuel: u64) -> (r: TypeShape)
    ensures
        r@ == merge_shapes(a@, b@, fuel as nat),
    decreases fuel, 4nat, 0nat,
{
    if fuel == 0 {
        return TypeShape::Unknown;
    }
    let ghost av = a@;
    let ghost bv = b@;
    match (a, b) {
        (TypeShape::Unknown, other) => other,
        (this, TypeShape::Unknown) => this,
        (TypeShape::Array(l), TypeShape::Array(r)) => {
            let inner = merge(*l, *r, fuel - 1);
            TypeShape::Array(Box::new(inner))
        },
        (TypeShape::Object(l), TypeShape::Object(r)) => {
            proof {
                lemma_object_view(l);
                lemma_object_view(r);
            }
            let merged = merge_object_fields(l, r, fuel - 1);
            proof {
                lemma_object_view(merged);
            }
            TypeShape::Object(merged)
        },
        (left, right) => {
            if shape_eq(&left, &right) {
                left
            } else {
                merge_union_members(left, right, fuel)
            }
        },
    }
}

fn key_order(a: &String, b: &String) -> (r: i8)
    ensures
        r == -1 <==> chars_less(a@, b@),
        r == 0 <==> a@ == b@,
        r == 1 <==> chars_less(b@, a@),
{
    let x = chars_of(a.as_str());
    let y = chars_of(b.as_str());
    compare_chars(&x, &y)
}

proof fn lemma_fields_view_push(fs: Seq<(String, ObjectField)>, x: (String, ObjectField))
    ensures
        fields_view(fs.push(x)) == fields_view(fs).push((x.0@, Field { shape: x.1.shape@, optional: x.1.optional })),
{
    assert(fields_view(fs.push(x)) =~= fields_view(fs).push((x.0@, Field { shape: x.1.shape@, optional: x.1.optional })));
}

proof fn lemma_fields_view_remove_first(fs: Seq<(String, ObjectField)>)
    requires
        fs.len() > 0,
    ensures
        fields_view(fs.remove(0)) == fields_view(fs).drop_first(),
{
    assert(fields_view(fs.remove(0)) =~= fields_view(fs).drop_first());
}

/// Merges the members of two objects sorted by name (see `merge_fields`).
fn merge_object_fields(l: Vec<(String, ObjectField)>, r: Vec<(String, ObjectField)>, fuel: u64) -> (out: Vec<(String, ObjectField)>)
    ensures
        fields_view(out@) == merge_fields(fields_view(l@), fields_view(r@), fuel as nat),
    decreases fuel, 3nat, 0nat,
{
    let mut out: Vec<(String, ObjectField)> = Vec::new();
    if fuel == 0 {
        proof {
            assert(fields_view(out@) =~= Seq::<(Seq<char>, Field)>::empty());
        }
        return out;
    }
    let ghost goal = merge_fields(fields_view(l@), fields_view(r@), fuel as nat);
    let mut left = l;
    let mut right = r;
    proof {
        assert(fields_view(out@) =~= Seq::<(Seq<char>, Field)>::empty());
        assert(fields_view(out@) + goal =~= goal);
    }
    while left.len() > 0 && right.len() > 0
        invariant
            fuel > 0,
            fields_view(out@) + merge_fields(fields_view(left@), fields_view(right@), fuel as nat) == goal,
        decreases left.len() + right.len(),
    {
        let ghost lv = fields_view(left@);
        let ghost rv = fields_view(right@);
        let ghost ov = fields_view(out@);
        let order = key_order(&left[0].0, &right[0].0);
        proof {
            assert(lv[0].0 == left@[0].0@);
            assert(rv[0].0 == right@[0].0@);
        }
        if order == -1 {
            let (name, field) = left.remove(0);
            let item = (name, ObjectField { shape: field.shape, optional: true });
            proof {
                lemma_fields_view_remove_first(left@.insert(0, (name, field)));
                assert(left@.insert(0, (name, field)).remove(0) =~= left@);
                lemma_fields_view_push(out@, item);
            }
            out.push(item);
            proof {
                assert(fields_view(left@) =~= lv.drop_first());
                assert(fields_view(out@) + merge_fields(fields_view(left@), fields_view(right@), fuel as nat)
                    =~= ov + merge_fields(lv, rv, fuel as nat));
            }
        } else if order == 1 {
            let (name, field) = right.remove(0);
            let item = (name, ObjectField { shape: field.shape, optional: true });
            proof {
                lemma_fields_view_push(out@, item);
            }
            out.push(item);
            proof {
                assert(fields_view(right@) =~= rv.drop_first());
                assert(fields_view(out@) + merge_fields(fields_view(left@), fields_view(right@), fuel as nat)
                    =~= ov + merge_fields(lv, rv, fuel as nat));
            }
        } else {
            let (name, lfield) = left.remove(0);
            let (_, rfield) = right.remove(0);
            let optional = lfield.optional || rfield.optional;
            let shape = merge(lfield.shape, rfield.shape, fuel - 1);
            let item = (name, ObjectField { shape, optional });
            proof {
                lemma_fields_view_push(out@, item);
            }
            out.push(item);
            proof {
                assert(fields_view(left@) =~= lv.drop_first());
                assert(fields_view(right@) =~= rv.drop_first());
                assert(fields_view(out@) + merge_fields(fields_view(left@), fields_view(right@), fuel as nat)
                    =~= ov + merge_fields(lv, rv, fuel as nat));
            }
        }
    }
    let mut rest = if left.len() > 0 { left } else { right };
    let ghost restv = fields_view(rest@);
    proof {
        assert(merge_fields(fields_view(left@), fields_view(right@), fuel as nat) == all_optional(restv));
    }
    let ghost ov = fields_view(out@);
    let mut i: usize = 0;
    let n = rest.len();
    while rest.len() > 0
        invariant
            fields_view(out@) == ov + all_optional(restv).take(i as int),
            i + rest.len() == n,
            n == restv.len(),
            fields_view(rest@) == restv.skip(i as int),
        decreases rest.len(),
    {
        let ghost old_rest = rest@;
        let (name, field) = rest.remove(0);
        proof {
            assert(fields_view(old_rest)[0] == restv.skip(i as int)[0]);
            lemma_fields_view_remove_first(old_rest);
            assert(old_rest.remove(0) =~= rest@);
        }
        let item = (name, ObjectField { shape: field.shape, optional: true });
        proof {
            lemma_fields_view_push(out@, item);
        }
        out.push(item);
        i += 1;
        proof {
            assert(all_optional(restv).take(i as int) =~= all_optional(restv).take(i - 1 as int).push(all_optional(restv)[i - 1]));
            assert(restv.skip(i - 1 as int).drop_first() =~= restv.skip(i as int));
        }
    }
    proof {
        assert(all_optional(restv).take(i as int) =~= all_optional(restv));
    }
    out
}

/// Merges union members by kind and lists them by kind (see `merge_union`).
fn merge_union_members(a: TypeShape, b: TypeShape, fuel: u64) -> (r: TypeShape)
    requires
        fuel > 0,
    ensures
        r@ == merge_union(a@, b@, fuel as nat),
    decreases fuel, 2nat, 0nat,
{
    let mut members: Vec<TypeShape> = Vec::new();
    proof {
        assert(shapes_view(members@) =~= Seq::<Shape>::empty());
    }
    flatten_into(a, &mut members);
    flatten_into(b, &mut members);
    proof {
        assert(shapes_view(members@) =~= flatten(a@) + flatten(b@));
    }
    let mut accs: Vec<Option<TypeShape>> = Vec::new();
    let mut c: usize = 0;
    while c < 8
        invariant
            c <= 8,
            accs@.len() == c,
            forall|k: int| 0 <= k < c ==> (#[trigger] accs@[k]) is None,
        decreases 8 - c,
    {
        accs.push(None);
        c += 1;
    }
    proof {
        assert(opts_view(accs@) =~= no_classes());
    }
    fold_into_classes(members, &mut accs, fuel);
    let mut found: Vec<TypeShape> = Vec::new();
    let ghost accv = opts_view(accs@);
    let ghost mut k: int = 0;
    proof {
        assert(accv.skip(0) =~= accv);
        assert(shapes_view(found@) =~= Seq::<Shape>::empty());
        assert(shapes_view(found@) + present(accv.skip(0)) =~= present(accv));
        assert(opts_view(accs@) =~= accv.skip(0));
    }
    while accs.len() > 0
        invariant
            0 <= k <= accv.len(),
            opts_view(accs@) == accv.skip(k),
            shapes_view(found@) + present(accv.skip(k)) == present(accv),
        decreases accs.len(),
    {
        let slot = accs.remove(0);
        let ghost here = accv.skip(k);
        proof {
            assert(here[0] == match slot { Some(x) => Some(x@), None => None });
            assert(here.drop_first() =~= accv.skip(k + 1));
        }
        let ghost before = shapes_view(found@);
        match slot {
            Some(shape) => {
                found.push(shape);
                proof {
                    assert(shapes_view(found@) =~= before.push(shape@));
                }
            },
            None => {},
        }
        proof {
            k = k + 1;
            assert(opts_view(accs@) =~= accv.skip(k));
            assert(shapes_view(found@) + present(accv.skip(k)) =~= before + present(here));
        }
    }
    proof {
        assert(present(accv.skip(k)) =~= Seq::<Shape>::empty());
        assert(shapes_view(found@) =~= present(accv));
    }
    if found.len() == 1 {
        let only = found.remove(0);
        only
    } else {
        proof {
            lemma_union_view(found);
        }
        TypeShape::Union(found)
    }
}

/// Merges each member into the accumulated member of its kind (see `fold_classes`).
fn fold_into_classes(members: Vec<TypeShape>, accs: &mut Vec<Option<TypeShape>>, fuel: u64)
    requires
        old(accs)@.len() == 8,
    ensures
        final(accs)@.len() == 8,
        opts_view(final(accs)@) == fold_classes(shapes_view(members@), opts_view(old(accs)@), fuel as nat),
    decreases fuel, 0nat, 0nat,
{
    let ghost goal = fold_classes(shapes_view(members@), opts_view(accs@), fuel as nat);
    let mut rest = members;
    if fuel == 0 {
        return;
    }
    while rest.len() > 0
        invariant
            fuel > 0,
            accs@.len() == 8,
            fold_classes(shapes_view(rest@), opts_view(accs@), fuel as nat) == goal,
        decreases rest.len(),
    {
        let ghost restv = shapes_view(rest@);
        let ghost accv = opts_view(accs@);
        let m = rest.remove(0);
        proof {
            assert(restv[0] == m@);
            assert(shapes_view(rest@) =~= restv.drop_first());
        }
        let c = rank_of(&m);
        let slot = accs.remove(c);
        let merged = match slot {
            None => Some(m),
            Some(x) => Some(merge(x, m, fuel - 1)),
        };
        accs.insert(c, merged);
        proof {
            assert(opts_view(accs@) =~= accv.update(c as int, match merged { Some(x) => Some(x@), None => None }));
        }
    }
    proof {
        assert(shapes_view(rest@) =~= Seq::<Shape>::empty());
    }
}

} // verus!

verus! {

/// Appends an object member's name as type expressions write it (see `field_name_text`).
fn push_field_name(name: &String, out: &mut Vec<char>)
    ensures
        final(out)@ == old(out)@ + field_name_text(name@),
{
    let c = chars_of(name.as_str());
    if chars_are_identifier(&c) {
        push_chars(out, &c);
    } else {
        let quoted = json_quote(name.as_str());
        push_str(out, quoted.as_str());
    }
}

/// Appends the type expression of a shape (see `render_shape`).
pub fn render_into(shape: &TypeShape, out: &mut Vec<char>)
    ensures
        final(out)@ == old(out)@ + render_shape(shape@),
    decreases shape@,
{
    match shape {
        TypeShape::Unknown => push_str(out, "unknown"),
        TypeShape::String => push_str(out, "string"),
        TypeShape::Number => push_str(out, "number"),
        TypeShape::Bool => push_str(out, "bool"),
        TypeShape::Null => push_str(out, "null"),
        TypeShape::Array(element) => {
            let ghost start = out@;
            let inner: &TypeShape = &**element;
            proof {
                let sv = shape@;
                assert(decreases_to!(sv => sv->Array_0));
            }
            let is_union = match inner {
                TypeShape::Union(_) => true,
                _ => false,
            };
            if is_union {
                push_str(out, "(");
                render_into(inner, out);
                push_str(out, ")[]");
                proof {
                    assert(out@ =~= start + ("("@ + render_shape(inner@) + ")[]"@));
                }
            } else {
                render_into(inner, out);
                push_str(out, "[]");
                proof {
                    assert(out@ =~= start + (render_shape(inner@) + "[]"@));
                }
            }
        },
        TypeShape::Object(fields) => {
            proof {
                lemma_object_view(*fields);
            }
            let ghost fv = fields_view(fields@);
            let ghost start = out@;
            push_str(out, "{");
            let mut i: usize = 0;
            while i < fields.len()
                invariant
                    shape@ == Shape::Object(fv),
                    fv == fields_view(fields@),
                    i <= fields.len(),
                    out@ == start + "{"@ + render_fields(fv, i as nat),
                decreases fields.len() - i,
            {
                let ghost before = out@;
                proof {
                    let sv = shape@;
                    assert(fv[i as int].1.shape == fields@[i as int].1.shape@);
                    assert(decreases_to!(sv => sv->Object_0));
                    assert(decreases_to!(sv->Object_0 => sv->Object_0[i as int]));
                    assert(decreases_to!(sv->Object_0[i as int] => sv->Object_0[i as int].1));
                    assert(decreases_to!(sv->Object_0[i as int].1 => sv->Object_0[i as int].1.shape));
                }
                if i > 0 {
                    push_str(out, ";");
                }
                let ghost after_sep = out@;
                push_field_name(&fields[i].0, out);
                if fields[i].1.optional {
                    push_str(out, "?");
                }
                push_str(out, ":");
                render_into(&fields[i].1.shape, out);
                proof {
                    let entry = fv[i as int];
                    let text = field_name_text(entry.0) + (if entry.1.optional { "?"@ } else { seq![] }) + ":"@
                        + render_shape(entry.1.shape);
                    assert(out@ =~= after_sep + text);
                    if i == 0 {
                        assert(render_fields(fv, 1) == text);
                        assert(after_sep == before);
                    } else {
                        assert(render_fields(fv, (i + 1) as nat) == render_fields(fv, i as nat) + ";"@ + text);
                        assert(after_sep == before + ";"@);
                    }
                    assert(out@ =~= start + "{"@ + render_fields(fv, (i + 1) as nat));
                }
                i += 1;
            }
            push_str(out, "}");
            proof {
                assert(out@ =~= start + ("{"@ + render_fields(fv, fv.len()) + "}"@));
            }
        },
        TypeShape::Union(members) => {
            proof {
                lemma_union_view(*members);
            }
            let ghost mv = shapes_view(members@);
            let ghost start = out@;
            let mut i: usize = 0;
            proof {
                assert(out@ =~= start + render_members(mv, 0));
            }
            while i < members.len()
                invariant
                    shape@ == Shape::Union(mv),
                    mv == shapes_view(members@),
                    i <= members.len(),
                    out@ == start + render_members(mv, i as nat),
                decreases members.len() - i,
            {
                let ghost before = out@;
                proof {
                    let sv = shape@;
                    assert(mv[i as int] == members@[i as int]@);
                    assert(decreases_to!(sv => sv->Union_0));
                    assert(decreases_to!(sv->Union_0 => sv->Union_0[i as int]));
                }
                if i > 0 {
                    push_str(out, "|");
                }
                let ghost after_sep = out@;
                render_into(&members[i], out);
                proof {
                    if i == 0 {
                        assert(render_members(mv, 1) == render_shape(mv[0]));
                        assert(after_sep == before);
                    } else {
                        assert(render_members(mv, (i + 1) as nat) == render_members(mv, i as nat) + "|"@ + render_shape(mv[i as int]));
                        assert(after_sep == before + "|"@);
                    }
                    assert(out@ =~= start + render_members(mv, (i + 1) as nat));
                }
                i += 1;
            }
        },
    }
}

/// The shape of a JSON value (see `shape_of_json`).
pub fn type_shape_for_json(value: &JsonValue) -> (r: TypeShape)
    ensures
        r@ == shape_of_json(value@),
    decreases value@,
{
    match value {
        JsonValue::Null => TypeShape::Null,
        JsonValue::Bool(_) => TypeShape::Bool,
        JsonValue::Number(_) => TypeShape::Number,
        JsonValue::String(_) => TypeShape::String,
        JsonValue::Array(items) => {
            let ghost iv = value@->Array_0;
            proof {
                crate::json::lemma_array_view(value);
            }
            let mut acc = TypeShape::Unknown;
            let mut i: usize = 0;
            while i < items.len()
                invariant
                    value@ == Json::Array(iv),
                    iv.len() == items@.len(),
                    forall|k: int| 0 <= k < items@.len() ==> iv[k] == (#[trigger] items@[k])@,
                    i <= items.len(),
                    acc@ == items_shape(iv, i as nat),
                decreases items.len() - i,
            {
                proof {
                    let jv = value@;
                    assert(iv[i as int] == items@[i as int]@);
                    assert(decreases_to!(jv => jv->Array_0));
                    assert(decreases_to!(jv->Array_0 => jv->Array_0[i as int]));
                }
                let element = type_shape_for_json(&items[i]);
                acc = merge(acc, element, u64::MAX);
                i += 1;
            }
            TypeShape::Array(Box::new(acc))
        },
        JsonValue::Object(members) => {
            let ghost mv = value@->Object_0;
            proof {
                crate::json::lemma_object_view(value);
            }
            let mut out: Vec<(String, ObjectField)> = Vec::new();
            let mut i: usize = 0;
            proof {
                assert(fields_view(out@) =~= members_shape(mv, 0));
            }
            while i < members.len()
                invariant
                    value@ == Json::Object(mv),
                    mv.len() == members@.len(),
                    forall|k: int| 0 <= k < members@.len() ==> mv[k] == ((#[trigger] members@[k]).0@, members@[k].1@),
                    i <= members.len(),
                    fields_view(out@) == members_shape(mv, i as nat),
                decreases members.len() - i,
            {
                proof {
                    let jv = value@;
                    assert(mv[i as int] == (members@[i as int].0@, members@[i as int].1@));
                    assert(decreases_to!(jv => jv->Object_0));
                    assert(decreases_to!(jv->Object_0 => jv->Object_0[i as int]));
                    assert(decreases_to!(jv->Object_0[i as int] => jv->Object_0[i as int].1));
                }
                let name = members[i].0.clone();
                let shape = type_shape_for_json(&members[i].1);
                let item = (name, ObjectField { shape, optional: false });
                let ghost fv = fields_view(out@);
                let ghost iv = (item.0@, Field { shape: item.1.shape@, optional: item.1.optional });
                let mut k: usize = 0;
                let mut same = false;
                let mut placed = false;
                while k < out.len() && !placed
                    invariant
                        fv == fields_view(out@),
                        iv.0 == item.0@,
                        k <= out.len(),
                        forall|m: int| 0 <= m < k ==> (#[trigger] fv[m]).0 != iv.0 && chars_less(fv[m].0, iv.0),
                        placed ==> k < out.len() && (fv[k as int].0 == iv.0 || !chars_less(fv[k as int].0, iv.0)),
                        same ==> placed && fv[k as int].0 == iv.0,
                        placed && fv[k as int].0 == iv.0 ==> same,
                    decreases out.len() - k, if placed { 0int } else { 1int },
                {
                    let order = key_order(&out[k].0, &item.0);
                    if order == -1 {
                        k += 1;
                    } else {
                        placed = true;
                        same = order == 0;
                    }
                }
                proof {
                    lemma_insert_field_at(fv, iv, k as int);
                }
                if same {
                    out.set(k, item);
                    proof {
                        assert(fields_view(out@) =~= fv.take(k as int) + seq![iv] + fv.skip(k + 1));
                    }
                } else {
                    out.insert(k, item);
                    proof {
                        assert(fields_view(out@) =~= fv.take(k as int) + seq![iv] + fv.skip(k as int));
                    }
                }
                i += 1;
            }
            proof {
                lemma_object_view(out);
            }
            TypeShape::Object(out)
        },
    }
}

} // verus!
