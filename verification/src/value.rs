//! The structured value model: the values the dense format can carry,
//! the shapes a decoder can be pointed at, and the predicates tying
//! the two together.

use vstd::prelude::*;

verus! {

/// A structured value. Floating point numbers travel as their raw
/// bits, so the model stays in integers; callers convert at the edge.
#[derive(Debug, PartialEq, Eq)]
pub enum Value {
    Bool(bool),
    U8(u8),
    U16(u16),
    U32(u32),
    U64(u64),
    I8(i8),
    I16(i16),
    I32(i32),
    I64(i64),
    F32Bits(u32),
    F64Bits(u64),
    Str(String),
    Bytes(Vec<u8>),
    Unit,
    Opt(Option<Box<Value>>),
    List(Vec<Value>),
    Dict(Vec<(Value, Value)>),
    EnumUnit(String),
    EnumNewtype(String, Box<Value>),
    EnumFields(String, Vec<Value>),
}

/// The mathematical image of a `Value`: strings as character
/// sequences, vectors as sequences.
pub enum ValueV {
    Bool(bool),
    U8(u8),
    U16(u16),
    U32(u32),
    U64(u64),
    I8(i8),
    I16(i16),
    I32(i32),
    I64(i64),
    F32Bits(u32),
    F64Bits(u64),
    Str(Seq<char>),
    Bytes(Seq<u8>),
    Unit,
    Opt(Option<Box<ValueV>>),
    List(Seq<ValueV>),
    Dict(Seq<(ValueV, ValueV)>),
    EnumUnit(Seq<char>),
    EnumNewtype(Seq<char>, Box<ValueV>),
    EnumFields(Seq<char>, Seq<ValueV>),
}

impl View for Value {
    type V = ValueV;

    open spec fn view(&self) -> ValueV {
        vview(*self)
    }
}

/// The mathematical image of a `Value`, as a free function so the
/// recursion stays outside the trait.
pub open spec fn vview(v: Value) -> ValueV
    decreases v,
{
    {
        match v {
            Value::Bool(b) => ValueV::Bool(b),
            Value::U8(n) => ValueV::U8(n),
            Value::U16(n) => ValueV::U16(n),
            Value::U32(n) => ValueV::U32(n),
            Value::U64(n) => ValueV::U64(n),
            Value::I8(n) => ValueV::I8(n),
            Value::I16(n) => ValueV::I16(n),
            Value::I32(n) => ValueV::I32(n),
            Value::I64(n) => ValueV::I64(n),
            Value::F32Bits(n) => ValueV::F32Bits(n),
            Value::F64Bits(n) => ValueV::F64Bits(n),
            Value::Str(s) => ValueV::Str(s@),
            Value::Bytes(b) => ValueV::Bytes(b@),
            Value::Unit => ValueV::Unit,
            Value::Opt(o) => ValueV::Opt(
                match o {
                    Some(x) => Some(Box::new(vview(*x))),
                    None => None,
                },
            ),
            Value::List(vs) => ValueV::List(vviews(vs@)),
            Value::Dict(ps) => ValueV::Dict(pair_views(ps@)),
            Value::EnumUnit(n) => ValueV::EnumUnit(n@),
            Value::EnumNewtype(n, x) => ValueV::EnumNewtype(n@, Box::new(vview(*x))),
            Value::EnumFields(n, vs) => ValueV::EnumFields(n@, vviews(vs@)),
        }
    }
}

/// The images of a sequence of values.
pub open spec fn vviews(vs: Seq<Value>) -> Seq<ValueV>
    decreases vs,
{
    Seq::new(
        vs.len(),
        |i: int|
            if 0 <= i < vs.len() {
                vview(vs[i])
            } else {
                ValueV::Unit
            },
    )
}

/// The images of a sequence of key-value pairs.
pub open spec fn pair_views(ps: Seq<(Value, Value)>) -> Seq<(ValueV, ValueV)>
    decreases ps,
{
    Seq::new(
        ps.len(),
        |i: int|
            if 0 <= i < ps.len() {
                (vview(ps[i].0), vview(ps[i].1))
            } else {
                (ValueV::Unit, ValueV::Unit)
            },
    )
}

/// A decode target: the statically known shape of the value a decoder
/// is asked for. The dense format is not self-describing, so decoding
/// is always directed by a shape.
#[derive(Debug, PartialEq, Eq)]
pub enum Shape {
    Bool,
    U8,
    U16,
    U32,
    U64,
    I8,
    I16,
    I32,
    I64,
    F32Bits,
    F64Bits,
    Str,
    Bytes,
    Unit,
    Optional(Box<Shape>),
    List(Box<Shape>),
    Tuple(Vec<Shape>),
    Record(Vec<Shape>),
    Dict(Box<Shape>, Box<Shape>),
    Choice(Vec<Variant>),
    Any,
}

/// One variant of a `Shape::Choice`: a name and a payload kind.
#[derive(Debug, PartialEq, Eq)]
pub struct Variant {
    pub name: String,
    pub kind: VariantKind,
}

/// The payload of an enum variant: nothing, one transparent value, or
/// a counted field list.
#[derive(Debug, PartialEq, Eq)]
pub enum VariantKind {
    Unit,
    Newtype(Box<Shape>),
    Fields(Vec<Shape>),
}

/// The mathematical image of a `Shape`.
pub enum ShapeV {
    Bool,
    U8,
    U16,
    U32,
    U64,
    I8,
    I16,
    I32,
    I64,
    F32Bits,
    F64Bits,
    Str,
    Bytes,
    Unit,
    Optional(Box<ShapeV>),
    List(Box<ShapeV>),
    Tuple(Seq<ShapeV>),
    Record(Seq<ShapeV>),
    Dict(Box<ShapeV>, Box<ShapeV>),
    Choice(Seq<VariantV>),
    Any,
}

/// The mathematical image of a `Variant`.
pub struct VariantV {
    pub name: Seq<char>,
    pub kind: VariantKindV,
}

/// The mathematical image of a `VariantKind`.
pub enum VariantKindV {
    Unit,
    Newtype(Box<ShapeV>),
    Fields(Seq<ShapeV>),
}

impl View for Shape {
    type V = ShapeV;

    open spec fn view(&self) -> ShapeV {
        sview(*self)
    }
}

/// The mathematical image of a `Shape`, as a free function so the
/// recursion stays outside the trait.
pub open spec fn sview(s: Shape) -> ShapeV
    decreases s,
{
    match s {
        Shape::Bool => ShapeV::Bool,
        Shape::U8 => ShapeV::U8,
        Shape::U16 => ShapeV::U16,
        Shape::U32 => ShapeV::U32,
        Shape::U64 => ShapeV::U64,
        Shape::I8 => ShapeV::I8,
        Shape::I16 => ShapeV::I16,
        Shape::I32 => ShapeV::I32,
        Shape::I64 => ShapeV::I64,
        Shape::F32Bits => ShapeV::F32Bits,
        Shape::F64Bits => ShapeV::F64Bits,
        Shape::Str => ShapeV::Str,
        Shape::Bytes => ShapeV::Bytes,
        Shape::Unit => ShapeV::Unit,
        Shape::Optional(s) => ShapeV::Optional(Box::new(sview(*s))),
        Shape::List(s) => ShapeV::List(Box::new(sview(*s))),
        Shape::Tuple(ss) => ShapeV::Tuple(sviews(ss@)),
        Shape::Record(ss) => ShapeV::Record(sviews(ss@)),
        Shape::Dict(k, v) => ShapeV::Dict(Box::new(sview(*k)), Box::new(sview(*v))),
        Shape::Choice(vs) => ShapeV::Choice(variant_views(vs@)),
        Shape::Any => ShapeV::Any,
    }
}

/// The images of a sequence of shapes.
pub open spec fn sviews(ss: Seq<Shape>) -> Seq<ShapeV>
    decreases ss,
{
    Seq::new(
        ss.len(),
        |i: int|
            if 0 <= i < ss.len() {
                sview(ss[i])
            } else {
                ShapeV::Any
            },
    )
}

/// The images of a sequence of variants.
pub open spec fn variant_views(vs: Seq<Variant>) -> Seq<VariantV>
    decreases vs,
{
    Seq::new(
        vs.len(),
        |i: int|
            if 0 <= i < vs.len() {
                variant_view(vs[i])
            } else {
                VariantV { name: Seq::empty(), kind: VariantKindV::Unit }
            },
    )
}

impl View for Variant {
    type V = VariantV;

    open spec fn view(&self) -> VariantV {
        variant_view(*self)
    }
}

/// The mathematical image of a `Variant`.
pub open spec fn variant_view(v: Variant) -> VariantV
    decreases v,
{
    VariantV {
        name: v.name@,
        kind: match v.kind {
            VariantKind::Unit => VariantKindV::Unit,
            VariantKind::Newtype(s) => VariantKindV::Newtype(Box::new(sview(*s))),
            VariantKind::Fields(ss) => VariantKindV::Fields(sviews(ss@)),
        },
    }
}

impl View for VariantKind {
    type V = VariantKindV;

    open spec fn view(&self) -> VariantKindV {
        match self {
            VariantKind::Unit => VariantKindV::Unit,
            VariantKind::Newtype(s) => VariantKindV::Newtype(Box::new(sview(**s))),
            VariantKind::Fields(ss) => VariantKindV::Fields(sviews(ss@)),
        }
    }
}

/// Appending one value commutes with taking images.
pub proof fn lemma_vviews_push(vs: Seq<Value>, x: Value)
    ensures
        vviews(vs.push(x)) =~= vviews(vs).push(vview(x)),
{
}

/// Appending one pair commutes with taking images.
pub proof fn lemma_pair_views_push(ps: Seq<(Value, Value)>, p: (Value, Value))
    ensures
        pair_views(ps.push(p)) =~= pair_views(ps).push((vview(p.0), vview(p.1))),
{
}

/// The index of the first variant called `nm`, if any.
pub open spec fn find_variant(vars: Seq<VariantV>, nm: Seq<char>, i: int) -> Option<int>
    decreases vars.len() - i,
{
    if i < 0 || i >= vars.len() {
        None
    } else if vars[i].name == nm {
        Some(i)
    } else {
        find_variant(vars, nm, i + 1)
    }
}

/// Whether value `v` has shape `s`.
pub open spec fn fits(v: ValueV, s: ShapeV) -> bool
    decreases v, 1int,
{
    match v {
        ValueV::Bool(_) => s is Bool,
        ValueV::U8(_) => s is U8,
        ValueV::U16(_) => s is U16,
        ValueV::U32(_) => s is U32,
        ValueV::U64(_) => s is U64,
        ValueV::I8(_) => s is I8,
        ValueV::I16(_) => s is I16,
        ValueV::I32(_) => s is I32,
        ValueV::I64(_) => s is I64,
        ValueV::F32Bits(_) => s is F32Bits,
        ValueV::F64Bits(_) => s is F64Bits,
        ValueV::Str(_) => s is Str,
        ValueV::Bytes(_) => s is Bytes,
        ValueV::Unit => s is Unit,
        ValueV::Opt(o) => s matches ShapeV::Optional(inner) && (o matches Some(x) ==> fits(
            *x,
            *inner,
        )),
        ValueV::List(vs) => match s {
            ShapeV::List(e) => seq_fits_elem(vs, *e),
            ShapeV::Tuple(ss) => vs.len() == ss.len() && seq_fits_zip(vs, ss),
            ShapeV::Record(ss) => vs.len() == ss.len() && seq_fits_zip(vs, ss),
            _ => false,
        },
        ValueV::Dict(ps) => s matches ShapeV::Dict(ks, xs) && pairs_fit(ps, *ks, *xs),
        ValueV::EnumUnit(nm) => s matches ShapeV::Choice(vars) && (find_variant(
            vars,
            nm,
            0,
        ) matches Some(j) && vars[j].kind is Unit),
        ValueV::EnumNewtype(nm, x) => s matches ShapeV::Choice(vars) && (find_variant(
            vars,
            nm,
            0,
        ) matches Some(j) && (vars[j].kind matches VariantKindV::Newtype(t) && fits(*x, *t))),
        ValueV::EnumFields(nm, xs) => s matches ShapeV::Choice(vars) && (find_variant(
            vars,
            nm,
            0,
        ) matches Some(j) && (vars[j].kind matches VariantKindV::Fields(ts) && xs.len()
            == ts.len() && seq_fits_zip(xs, ts))),
    }
}

/// Whether every value in the sequence has the one element shape.
pub open spec fn seq_fits_elem(vs: Seq<ValueV>, e: ShapeV) -> bool
    decreases vs, 2int,
{
    forall|i: int| 0 <= i < vs.len() ==> fits(#[trigger] vs[i], e)
}

/// Whether the values match the shapes position by position.
pub open spec fn seq_fits_zip(vs: Seq<ValueV>, ss: Seq<ShapeV>) -> bool
    decreases vs, 2int,
{
    forall|i: int| 0 <= i < vs.len() && 0 <= i < ss.len() ==> fits(#[trigger] vs[i], ss[i])
}

/// Whether every pair matches the key and value shapes.
pub open spec fn pairs_fit(ps: Seq<(ValueV, ValueV)>, ks: ShapeV, xs: ShapeV) -> bool
    decreases ps, 2int,
{
    forall|i: int| 0 <= i < ps.len() ==> fits(#[trigger] ps[i].0, ks) && fits(ps[i].1, xs)
}

/// Whether the shape is fully known: no open-ended component anywhere.
/// Decoding a shape with an `Any` inside can reach a point where the
/// bytes alone would have to say what comes next, which the dense
/// format cannot do.
pub open spec fn shape_known(s: ShapeV) -> bool
    decreases s, 2int,
{
    match s {
        ShapeV::Any => false,
        ShapeV::Optional(inner) => shape_known(*inner),
        ShapeV::List(e) => shape_known(*e),
        ShapeV::Tuple(ss) => seq_shape_known(ss),
        ShapeV::Record(ss) => seq_shape_known(ss),
        ShapeV::Dict(k, v) => shape_known(*k) && shape_known(*v),
        ShapeV::Choice(vars) => variants_known(vars),
        _ => true,
    }
}

/// Whether every shape in the sequence is fully known.
pub open spec fn seq_shape_known(ss: Seq<ShapeV>) -> bool
    decreases ss, 3int,
{
    forall|i: int| 0 <= i < ss.len() ==> shape_known(#[trigger] ss[i])
}

/// Whether every variant's payload shapes are fully known.
pub open spec fn variants_known(vars: Seq<VariantV>) -> bool
    decreases vars, 3int,
{
    forall|i: int| 0 <= i < vars.len() ==> variant_known(#[trigger] vars[i])
}

/// Whether one variant's payload shapes are fully known.
pub open spec fn variant_known(v: VariantV) -> bool
    decreases v, 2int,
{
    match v.kind {
        VariantKindV::Unit => true,
        VariantKindV::Newtype(t) => shape_known(*t),
        VariantKindV::Fields(ts) => seq_shape_known(ts),
    }
}

/// Whether the shape can travel the dense path of the pack engine: it
/// is fully known and carries no unit marker, the two constructs whose
/// decoding needs self-describing dispatch.
pub open spec fn probe_safe(s: ShapeV) -> bool
    decreases s, 2int,
{
    match s {
        ShapeV::Any => false,
        ShapeV::Unit => false,
        ShapeV::Optional(inner) => probe_safe(*inner),
        ShapeV::List(e) => probe_safe(*e),
        ShapeV::Tuple(ss) => seq_probe_safe(ss),
        ShapeV::Record(ss) => seq_probe_safe(ss),
        ShapeV::Dict(k, v) => probe_safe(*k) && probe_safe(*v),
        ShapeV::Choice(vars) => variants_probe_safe(vars),
        _ => true,
    }
}

/// Whether every shape in the sequence can travel the dense path.
pub open spec fn seq_probe_safe(ss: Seq<ShapeV>) -> bool
    decreases ss, 3int,
{
    forall|i: int| 0 <= i < ss.len() ==> probe_safe(#[trigger] ss[i])
}

/// Whether every variant in the sequence can travel the dense path.
pub open spec fn variants_probe_safe(vars: Seq<VariantV>) -> bool
    decreases vars, 3int,
{
    forall|i: int| 0 <= i < vars.len() ==> variant_probe_safe(#[trigger] vars[i])
}

/// Whether one variant's payload can travel the dense path.
pub open spec fn variant_probe_safe(v: VariantV) -> bool
    decreases v, 2int,
{
    match v.kind {
        VariantKindV::Unit => true,
        VariantKindV::Newtype(t) => probe_safe(*t),
        VariantKindV::Fields(ts) => seq_probe_safe(ts),
    }
}

/// Whether the value carries a unit anywhere the serializer would
/// visit. In probe mode the serializer fails fast exactly on these.
pub open spec fn has_unit(v: ValueV) -> bool
    decreases v, 1int,
{
    match v {
        ValueV::Unit => true,
        ValueV::Opt(o) => o matches Some(x) && has_unit(*x),
        ValueV::List(vs) => seq_has_unit(vs),
        ValueV::Dict(ps) => pairs_have_unit(ps),
        ValueV::EnumNewtype(_, x) => has_unit(*x),
        ValueV::EnumFields(_, xs) => seq_has_unit(xs),
        _ => false,
    }
}

/// Whether some value in the sequence carries a unit.
pub open spec fn seq_has_unit(vs: Seq<ValueV>) -> bool
    decreases vs, 2int,
{
    exists|i: int| 0 <= i < vs.len() && has_unit(#[trigger] vs[i])
}

/// Whether some pair carries a unit.
pub open spec fn pairs_have_unit(ps: Seq<(ValueV, ValueV)>) -> bool
    decreases ps, 2int,
{
    exists|i: int| 0 <= i < ps.len() && (has_unit(#[trigger] ps[i].0) || has_unit(ps[i].1))
}

/// Whether every length in the value fits its wire prefix: string and
/// byte bodies and element counts below `2^32`. The serializer checks
/// this as it walks and reports `OutOfBounds` where it fails.
pub open spec fn dense_wf(v: ValueV) -> bool
    decreases v, 1int,
{
    match v {
        ValueV::Str(cs) => vstd::utf8::encode_utf8(cs).len() < 0x1_0000_0000,
        ValueV::Bytes(bs) => bs.len() < 0x1_0000_0000,
        ValueV::Opt(o) => o matches Some(x) ==> dense_wf(*x),
        ValueV::List(vs) => vs.len() < 0x1_0000_0000 && seq_dense_wf(vs),
        ValueV::Dict(ps) => ps.len() < 0x1_0000_0000 && pairs_dense_wf(ps),
        ValueV::EnumUnit(nm) => vstd::utf8::encode_utf8(nm).len() < 0x1_0000_0000,
        ValueV::EnumNewtype(nm, x) => vstd::utf8::encode_utf8(nm).len() < 0x1_0000_0000 && dense_wf(
            *x,
        ),
        ValueV::EnumFields(nm, xs) => vstd::utf8::encode_utf8(nm).len() < 0x1_0000_0000 && xs.len()
            < 0x1_0000_0000 && seq_dense_wf(xs),
        _ => true,
    }
}

/// Whether every value in the sequence is well formed for the wire.
pub open spec fn seq_dense_wf(vs: Seq<ValueV>) -> bool
    decreases vs, 2int,
{
    forall|i: int| 0 <= i < vs.len() ==> dense_wf(#[trigger] vs[i])
}

/// Whether every pair is well formed for the wire.
pub open spec fn pairs_dense_wf(ps: Seq<(ValueV, ValueV)>) -> bool
    decreases ps, 2int,
{
    forall|i: int| 0 <= i < ps.len() ==> dense_wf(#[trigger] ps[i].0) && dense_wf(ps[i].1)
}

/// Whether the names of a choice's variants are pairwise distinct, so
/// that a name read off the wire picks out one variant; recursively
/// for every choice inside.
pub open spec fn shape_wf(s: ShapeV) -> bool
    decreases s,
{
    match s {
        ShapeV::Optional(inner) => shape_wf(*inner),
        ShapeV::List(e) => shape_wf(*e),
        ShapeV::Tuple(ss) => forall|i: int| 0 <= i < ss.len() ==> shape_wf(#[trigger] ss[i]),
        ShapeV::Record(ss) => forall|i: int| 0 <= i < ss.len() ==> shape_wf(#[trigger] ss[i]),
        ShapeV::Dict(k, v) => shape_wf(*k) && shape_wf(*v),
        ShapeV::Choice(vars) => (forall|i: int, j: int|
            0 <= i < j < vars.len() ==> (#[trigger] vars[i].name) != (#[trigger] vars[j].name))
            && forall|i: int| 0 <= i < vars.len() ==> variant_wf(#[trigger] vars[i]),
        _ => true,
    }
}

/// Recursive well-formedness of one variant's payload shapes.
pub open spec fn variant_wf(v: VariantV) -> bool
    decreases v,
{
    match v.kind {
        VariantKindV::Unit => true,
        VariantKindV::Newtype(t) => shape_wf(*t),
        VariantKindV::Fields(ts) => forall|i: int| 0 <= i < ts.len() ==> shape_wf(#[trigger] ts[i]),
    }
}

} // verus!

use vstd::string::StringSliceAdditionalSpecFns;

verus! {

/// String equality by bytes: two strings hold the same characters
/// exactly when their UTF-8 encodings agree.
pub fn str_eq(a: &str, b: &str) -> (r: bool)
    ensures
        r == (a@ == b@),
{
    let ab = a.as_bytes();
    let bb = b.as_bytes();
    proof {
        vstd::utf8::encode_utf8_decode_utf8(a@);
        vstd::utf8::encode_utf8_decode_utf8(b@);
    }
    if ab.len() != bb.len() {
        return false;
    }
    let n = ab.len();
    let mut i: usize = 0;
    while i < n
        invariant
            n == ab@.len() == bb@.len(),
            i <= n,
            ab@ == vstd::utf8::encode_utf8(a@),
            bb@ == vstd::utf8::encode_utf8(b@),
            vstd::utf8::decode_utf8(ab@) == a@,
            vstd::utf8::decode_utf8(bb@) == b@,
            forall|j: int| 0 <= j < i ==> ab@[j] == bb@[j],
        decreases n - i,
    {
        if *vstd::slice::slice_index_get(ab, i) != *vstd::slice::slice_index_get(bb, i) {
            return false;
        }
        i = i + 1;
    }
    proof {
        assert(ab@ =~= bb@);
    }
    true
}

/// What `find_variant` promises of its result.
pub proof fn lemma_find_variant(vars: Seq<VariantV>, nm: Seq<char>, i: int)
    requires
        0 <= i <= vars.len(),
    ensures
        match find_variant(vars, nm, i) {
            Some(j) => i <= j < vars.len() && vars[j].name == nm && forall|l: int|
                i <= l < j ==> (#[trigger] vars[l].name) != nm,
            None => forall|l: int| i <= l < vars.len() ==> (#[trigger] vars[l].name) != nm,
        },
    decreases vars.len() - i,
{
    if i < vars.len() && vars[i].name != nm {
        lemma_find_variant(vars, nm, i + 1);
    }
}

/// Look a variant name up, first match wins.
pub fn find_variant_exec(vars: &Vec<Variant>, nm: &str) -> (r: Option<usize>)
    ensures
        match r {
            Some(j) => j < vars@.len() && find_variant(variant_views(vars@), nm@, 0) == Some(
                j as int,
            ),
            None => find_variant(variant_views(vars@), nm@, 0) is None,
        },
{
    let n = vars.len();
    let mut j: usize = 0;
    while j < n
        invariant
            n == vars@.len(),
            j <= n,
            find_variant(variant_views(vars@), nm@, 0) == find_variant(
                variant_views(vars@),
                nm@,
                j as int,
            ),
        decreases n - j,
    {
        if str_eq(vars[j].name.as_str(), nm) {
            proof {
                assert(variant_views(vars@)[j as int].name == nm@);
            }
            return Some(j);
        }
        proof {
            assert(variant_views(vars@)[j as int].name != nm@);
        }
        j = j + 1;
    }
    None
}

/// Whether the shape can travel the dense path, decided at run time.
pub fn probe_safe_exec(s: &Shape) -> (r: bool)
    ensures
        r == probe_safe(sview(*s)),
    decreases *s, 0int,
{
    match s {
        Shape::Any => false,
        Shape::Unit => false,
        Shape::Optional(inner) => probe_safe_exec(inner),
        Shape::List(e) => probe_safe_exec(e),
        Shape::Tuple(ss) => probe_safe_all(ss),
        Shape::Record(ss) => probe_safe_all(ss),
        Shape::Dict(k, v) => {
            let rk = probe_safe_exec(k);
            rk && probe_safe_exec(v)
        },
        Shape::Choice(vars) => probe_safe_variants(vars),
        _ => true,
    }
}

/// Whether every shape in the list can travel the dense path.
fn probe_safe_all(ss: &Vec<Shape>) -> (r: bool)
    ensures
        r == seq_probe_safe(sviews(ss@)),
    decreases ss@, 1int,
{
    let n = ss.len();
    let mut i: usize = 0;
    while i < n
        invariant
            n == ss@.len(),
            i <= n,
            forall|l: int| 0 <= l < i ==> probe_safe(#[trigger] sviews(ss@)[l]),
        decreases n - i,
    {
        if !probe_safe_exec(&ss[i]) {
            proof {
                assert(!probe_safe(sviews(ss@)[i as int]));
                assert(!seq_probe_safe(sviews(ss@)));
            }
            return false;
        }
        i = i + 1;
    }
    true
}

/// Whether every variant's payload can travel the dense path.
fn probe_safe_variants(vars: &Vec<Variant>) -> (r: bool)
    ensures
        r == variants_probe_safe(variant_views(vars@)),
    decreases vars@, 2int,
{
    let n = vars.len();
    let mut i: usize = 0;
    while i < n
        invariant
            n == vars@.len(),
            i <= n,
            forall|l: int| 0 <= l < i ==> variant_probe_safe(#[trigger] variant_views(vars@)[l]),
        decreases n - i,
    {
        if !probe_safe_variant(&vars[i]) {
            proof {
                assert(!variant_probe_safe(variant_views(vars@)[i as int]));
                assert(!variants_probe_safe(variant_views(vars@)));
            }
            return false;
        }
        i = i + 1;
    }
    true
}

/// Whether one variant's payload can travel the dense path.
fn probe_safe_variant(v: &Variant) -> (r: bool)
    ensures
        r == variant_probe_safe(variant_view(*v)),
    decreases *v, 1int,
{
    match &v.kind {
        VariantKind::Unit => true,
        VariantKind::Newtype(t) => probe_safe_exec(t),
        VariantKind::Fields(ts) => probe_safe_all(ts),
    }
}

} // verus!

verus! {

/// A value carrying a unit marker only fits shapes the dense path of
/// the pack engine cannot carry: wherever the value holds a unit, the
/// shape holds one too.
pub proof fn lemma_has_unit_not_probe_safe(v: ValueV, s: ShapeV)
    requires
        fits(v, s),
        has_unit(v),
    ensures
        !probe_safe(s),
    decreases v,
{
    match v {
        ValueV::Unit => {},
        ValueV::Opt(o) => {
            let x = o->0;
            let inner = s->Optional_0;
            lemma_has_unit_not_probe_safe(*x, *inner);
        },
        ValueV::List(vs) => {
            assert(seq_has_unit(vs));
            assert(exists|i: int| 0 <= i < vs.len() && has_unit(#[trigger] vs[i]));
            let i = choose|i: int| 0 <= i < vs.len() && has_unit(#[trigger] vs[i]);
            match s {
                ShapeV::List(e) => {
                    assert(seq_fits_elem(vs, *e));
                    assert(fits(vs[i], *e));
                    lemma_has_unit_not_probe_safe(vs[i], *e);
                },
                ShapeV::Tuple(ss) => {
                    assert(vs.len() == ss.len() && seq_fits_zip(vs, ss));
                    assert(fits(vs[i], ss[i]));
                    lemma_has_unit_not_probe_safe(vs[i], ss[i]);
                    assert(!seq_probe_safe(ss));
                },
                ShapeV::Record(ss) => {
                    assert(vs.len() == ss.len() && seq_fits_zip(vs, ss));
                    assert(fits(vs[i], ss[i]));
                    lemma_has_unit_not_probe_safe(vs[i], ss[i]);
                    assert(!seq_probe_safe(ss));
                },
                _ => {},
            }
        },
        ValueV::Dict(ps) => {
            assert(pairs_have_unit(ps));
            assert(exists|i: int|
                0 <= i < ps.len() && (has_unit(#[trigger] ps[i].0) || has_unit(ps[i].1)));
            let i = choose|i: int|
                0 <= i < ps.len() && (has_unit(#[trigger] ps[i].0) || has_unit(ps[i].1));
            let ks = s->Dict_0;
            let xs = s->Dict_1;
            assert(pairs_fit(ps, *ks, *xs));
            assert(fits(ps[i].0, *ks) && fits(ps[i].1, *xs));
            if has_unit(ps[i].0) {
                lemma_has_unit_not_probe_safe(ps[i].0, *ks);
            } else {
                lemma_has_unit_not_probe_safe(ps[i].1, *xs);
            }
        },
        ValueV::EnumNewtype(nm, x) => {
            let vars = s->Choice_0;
            lemma_find_variant(vars, nm, 0);
            let j = find_variant(vars, nm, 0)->Some_0;
            let t = vars[j].kind->Newtype_0;
            lemma_has_unit_not_probe_safe(*x, *t);
            assert(!variant_probe_safe(vars[j]));
            assert(!variants_probe_safe(vars));
        },
        ValueV::EnumFields(nm, xs) => {
            let vars = s->Choice_0;
            lemma_find_variant(vars, nm, 0);
            let j = find_variant(vars, nm, 0)->Some_0;
            let ts = vars[j].kind->Fields_0;
            assert(seq_has_unit(xs));
            assert(exists|i: int| 0 <= i < xs.len() && has_unit(#[trigger] xs[i]));
            let i = choose|i: int| 0 <= i < xs.len() && has_unit(#[trigger] xs[i]);
            assert(xs.len() == ts.len() && seq_fits_zip(xs, ts));
            assert(fits(xs[i], ts[i]));
            lemma_has_unit_not_probe_safe(xs[i], ts[i]);
            assert(!seq_probe_safe(ts));
            assert(!variant_probe_safe(vars[j]));
            assert(!variants_probe_safe(vars));
        },
        _ => {},
    }
}

} // verus!
