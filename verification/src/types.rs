use vstd::prelude::*;

use crate::grammar::{SpecKey, SpecProp, SpecValue, SpecVis};
use crate::str_trait::Str;

verus! {

broadcast use vstd::seq::group_seq_axioms, vstd::std_specs::vec::group_vec_axioms;

/// A serialized PHP value, over a string representation `S`.
#[derive(Debug, PartialEq)]
pub enum Value<S> {
    /// The `null` type.
    Null,
    /// The `bool` type.
    Bool(bool),
    /// The `int` type.
    Int(i64),
    /// The `float` type, kept as its literal field bytes.
    Float(S),
    /// The `string` type.
    String(S),
    /// The `array` type: ordered key/value pairs, duplicates allowed.
    Array(Vec<(ArrayKey<S>, Value<S>)>),
    /// A non-`Serializable` object.
    Object(Object<S>),
    /// A `Serializable` object with an opaque payload.
    Serializable(Serializable<S>),
    /// An internally-referenced value.
    Reference(Ref),
}

/// The generic array key type.
#[derive(Debug, PartialEq)]
pub enum ArrayKey<S> {
    /// Array key using `int`.
    Int(i64),
    /// Array key using `string`.
    String(S),
}

/// A non-`Serializable` PHP object.
#[derive(Debug, PartialEq)]
pub struct Object<S> {
    /// The object class.
    pub class: S,
    /// The object properties, order-preserving, duplicates allowed.
    pub properties: Vec<(PropertyName<S>, Value<S>)>,
}

/// The property name of an object.
#[derive(Debug, PartialEq)]
pub struct PropertyName<S> {
    /// Visibility of the property.
    pub vis: PropertyVis<S>,
    /// Name of the property.
    pub name: S,
}

/// The visibility of an object property.
#[derive(Debug, PartialEq)]
pub enum PropertyVis<S> {
    /// The private visibility; the string is the declaring class.
    Private(S),
    /// The protected visibility.
    Protected,
    /// The public visibility.
    Public,
}

/// A PHP object that implements `Serializable`.
#[derive(Debug, PartialEq)]
pub struct Serializable<S> {
    /// The object class.
    pub class: S,
    /// The opaque custom-serialization payload, never parsed further.
    pub data: S,
}

/// A reference to another value in the serialized value tree.  The index is
/// never validated or dereferenced by the decoder.
#[derive(Debug, Clone, Copy, PartialEq, Eq, Structural)]
pub struct Ref(pub usize);

impl Ref {
    /// Creates a reference to the value at `index`.
    pub fn new(index: usize) -> (r: Self)
        ensures
            r.0 == index,
    {
        Ref(index)
    }

    /// The referenced index.
    pub fn index(&self) -> (r: usize)
        ensures
            r == self.0,
    {
        self.0
    }
}

impl<S: Str> ArrayKey<S> {
    /// The key this value stands for.
    pub open spec fn to_spec(&self) -> SpecKey {
        match self {
            ArrayKey::Int(i) => SpecKey::Int(*i),
            ArrayKey::String(s) => SpecKey::Str(s.sbytes()),
        }
    }

    /// The representation invariant of the key's string, if any.
    pub open spec fn inv(&self) -> bool {
        match self {
            ArrayKey::Int(_) => true,
            ArrayKey::String(s) => s.inv(),
        }
    }
}

impl<S: Str> PropertyVis<S> {
    /// The visibility this value stands for.
    pub open spec fn to_spec(&self) -> SpecVis {
        match self {
            PropertyVis::Private(c) => SpecVis::Private(c.sbytes()),
            PropertyVis::Protected => SpecVis::Protected,
            PropertyVis::Public => SpecVis::Public,
        }
    }

    /// The representation invariant of the declaring class, if any.
    pub open spec fn inv(&self) -> bool {
        match self {
            PropertyVis::Private(c) => c.inv(),
            _ => true,
        }
    }
}

impl<S: Str> PropertyName<S> {
    /// The demangled property name this value stands for.
    pub open spec fn to_spec(&self) -> SpecProp {
        SpecProp { vis: self.vis.to_spec(), name: self.name.sbytes() }
    }

    /// The representation invariant of the contained strings.
    pub open spec fn inv(&self) -> bool {
        self.vis.inv() && self.name.inv()
    }

    /// Creates a property name.
    pub fn new(vis: PropertyVis<S>, name: S) -> (r: Self)
        ensures
            r.vis == vis,
            r.name == name,
    {
        PropertyName { vis, name }
    }

    /// Visibility of the property.
    pub fn vis(&self) -> (r: &PropertyVis<S>)
        ensures
            *r == self.vis,
    {
        &self.vis
    }

    /// Name of the property.
    pub fn name(&self) -> (r: &S)
        ensures
            *r == self.name,
    {
        &self.name
    }
}

impl<S: Str> Value<S> {
    /// The mathematical value this tree stands for.
    pub open spec fn to_spec(&self) -> SpecValue
        decreases self, 0int,
    {
        match self {
            Value::Null => SpecValue::Null,
            Value::Bool(b) => SpecValue::Bool(*b),
            Value::Int(i) => SpecValue::Int(*i),
            Value::Float(t) => SpecValue::Float(t.sbytes()),
            Value::String(s) => SpecValue::Str(s.sbytes()),
            Value::Array(pairs) => SpecValue::Arr(spec_of_pairs(pairs@)),
            Value::Object(o) => SpecValue::Obj(o.class.sbytes(), spec_of_props(o.properties@)),
            Value::Serializable(c) => SpecValue::Ser(c.class.sbytes(), c.data.sbytes()),
            Value::Reference(r) => SpecValue::Refer(r.0),
        }
    }

    /// The representation invariant of every string in the tree.
    pub open spec fn inv(&self) -> bool
        decreases self, 0int,
    {
        match self {
            Value::Float(t) => t.inv(),
            Value::String(s) => s.inv(),
            Value::Array(pairs) => inv_pairs(pairs@),
            Value::Object(o) => o.class.inv() && inv_props(o.properties@),
            Value::Serializable(c) => c.class.inv() && c.data.inv(),
            _ => true,
        }
    }
}

/// The key/value pairs an array tree stands for.
pub open spec fn spec_of_pairs<S: Str>(ps: Seq<(ArrayKey<S>, Value<S>)>) -> Seq<
    (SpecKey, SpecValue),
>
    decreases ps, 1int,
{
    if ps.len() == 0 {
        Seq::empty()
    } else {
        seq![(ps[0].0.to_spec(), ps[0].1.to_spec())] + spec_of_pairs(ps.drop_first())
    }
}

/// The representation invariant of an array's pairs.
pub open spec fn inv_pairs<S: Str>(ps: Seq<(ArrayKey<S>, Value<S>)>) -> bool
    decreases ps, 1int,
{
    if ps.len() == 0 {
        true
    } else {
        ps[0].0.inv() && ps[0].1.inv() && inv_pairs(ps.drop_first())
    }
}

/// The name/value pairs an object tree stands for.
pub open spec fn spec_of_props<S: Str>(ps: Seq<(PropertyName<S>, Value<S>)>) -> Seq<
    (SpecProp, SpecValue),
>
    decreases ps, 1int,
{
    if ps.len() == 0 {
        Seq::empty()
    } else {
        seq![(ps[0].0.to_spec(), ps[0].1.to_spec())] + spec_of_props(ps.drop_first())
    }
}

/// The representation invariant of an object's properties.
pub open spec fn inv_props<S: Str>(ps: Seq<(PropertyName<S>, Value<S>)>) -> bool
    decreases ps, 1int,
{
    if ps.len() == 0 {
        true
    } else {
        ps[0].0.inv() && ps[0].1.inv() && inv_props(ps.drop_first())
    }
}

impl<S: Str> Object<S> {
    /// Creates an object from its class name and properties.
    pub fn new(class: S, properties: Vec<(PropertyName<S>, Value<S>)>) -> (r: Self)
        ensures
            r.class == class,
            r.properties == properties,
    {
        Object { class, properties }
    }

    /// The object class.
    pub fn class(&self) -> (r: &S)
        ensures
            *r == self.class,
    {
        &self.class
    }

    /// The object properties.
    pub fn properties(&self) -> (r: &Vec<(PropertyName<S>, Value<S>)>)
        ensures
            *r == self.properties,
    {
        &self.properties
    }
}

impl<S: Str> Serializable<S> {
    /// Creates a custom-serialized object from its class name and payload.
    pub fn new(class: S, data: S) -> (r: Self)
        ensures
            r.class == class,
            r.data == data,
    {
        Serializable { class, data }
    }

    /// The object class.
    pub fn class(&self) -> (r: &S)
        ensures
            *r == self.class,
    {
        &self.class
    }

    /// The opaque payload.
    pub fn data(&self) -> (r: &S)
        ensures
            *r == self.data,
    {
        &self.data
    }
}

} // verus!

verus! {

/// Appending a pair extends the pairs a tree stands for by one.
pub proof fn lemma_spec_of_pairs_push<S: Str>(
    ps: Seq<(ArrayKey<S>, Value<S>)>,
    k: ArrayKey<S>,
    v: Value<S>,
)
    ensures
        spec_of_pairs(ps.push((k, v))) == spec_of_pairs(ps).push((k.to_spec(), v.to_spec())),
        inv_pairs(ps) && k.inv() && v.inv() ==> inv_pairs(ps.push((k, v))),
    decreases ps.len(),
{
    let q = ps.push((k, v));
    assert(q[0] == if ps.len() == 0 { (k, v) } else { ps[0] });
    if ps.len() == 0 {
        assert(q.drop_first() =~= Seq::<(ArrayKey<S>, Value<S>)>::empty());
        assert(spec_of_pairs(q) == seq![(q[0].0.to_spec(), q[0].1.to_spec())] + spec_of_pairs(
            q.drop_first(),
        ));
        assert(spec_of_pairs(q) =~= spec_of_pairs(ps).push((k.to_spec(), v.to_spec())));
        if k.inv() && v.inv() {
            assert(inv_pairs(q.drop_first()));
            assert(inv_pairs(q));
        }
    } else {
        assert(q.drop_first() =~= ps.drop_first().push((k, v)));
        lemma_spec_of_pairs_push(ps.drop_first(), k, v);
        if inv_pairs(ps) && k.inv() && v.inv() {
            assert(inv_pairs(ps.drop_first()));
            assert(inv_pairs(q.drop_first()));
            assert(inv_pairs(q));
        }
        assert(spec_of_pairs(q) == seq![(q[0].0.to_spec(), q[0].1.to_spec())] + spec_of_pairs(
            q.drop_first(),
        ));
        assert(spec_of_pairs(q) =~= spec_of_pairs(ps).push((k.to_spec(), v.to_spec())));
    }
}

/// Appending a property extends the properties a tree stands for by one.
pub proof fn lemma_spec_of_props_push<S: Str>(
    ps: Seq<(PropertyName<S>, Value<S>)>,
    k: PropertyName<S>,
    v: Value<S>,
)
    ensures
        spec_of_props(ps.push((k, v))) == spec_of_props(ps).push((k.to_spec(), v.to_spec())),
        inv_props(ps) && k.inv() && v.inv() ==> inv_props(ps.push((k, v))),
    decreases ps.len(),
{
    let q = ps.push((k, v));
    assert(q[0] == if ps.len() == 0 { (k, v) } else { ps[0] });
    if ps.len() == 0 {
        assert(q.drop_first() =~= Seq::<(PropertyName<S>, Value<S>)>::empty());
        assert(spec_of_props(q) == seq![(q[0].0.to_spec(), q[0].1.to_spec())] + spec_of_props(
            q.drop_first(),
        ));
        assert(spec_of_props(q) =~= spec_of_props(ps).push((k.to_spec(), v.to_spec())));
        if k.inv() && v.inv() {
            assert(inv_props(q.drop_first()));
            assert(inv_props(q));
        }
    } else {
        assert(q.drop_first() =~= ps.drop_first().push((k, v)));
        lemma_spec_of_props_push(ps.drop_first(), k, v);
        if inv_props(ps) && k.inv() && v.inv() {
            assert(inv_props(ps.drop_first()));
            assert(inv_props(q.drop_first()));
            assert(inv_props(q));
        }
        assert(spec_of_props(q) == seq![(q[0].0.to_spec(), q[0].1.to_spec())] + spec_of_props(
            q.drop_first(),
        ));
        assert(spec_of_props(q) =~= spec_of_props(ps).push((k.to_spec(), v.to_spec())));
    }
}

} // verus!

verus! {

/// A tree's pairs and its view have the same length.
pub proof fn lemma_spec_of_pairs_len<S: Str>(ps: Seq<(ArrayKey<S>, Value<S>)>)
    ensures
        spec_of_pairs(ps).len() == ps.len(),
    decreases ps.len(),
{
    if ps.len() > 0 {
        lemma_spec_of_pairs_len(ps.drop_first());
    }
}

/// The view of a pair sequence is pointwise the view of its pairs.
pub proof fn lemma_spec_of_pairs_at<S: Str>(ps: Seq<(ArrayKey<S>, Value<S>)>, i: int)
    requires
        0 <= i < ps.len(),
    ensures
        spec_of_pairs(ps).len() == ps.len(),
        spec_of_pairs(ps)[i] == (ps[i].0.to_spec(), ps[i].1.to_spec()),
    decreases i,
{
    lemma_spec_of_pairs_len(ps);
    lemma_spec_of_pairs_len(ps.drop_first());
    if i > 0 {
        lemma_spec_of_pairs_at(ps.drop_first(), i - 1);
        assert(ps.drop_first()[i - 1] == ps[i]);
    }
}

/// Each pair of a well-formed pair sequence is well formed.
pub proof fn lemma_inv_pairs_at<S: Str>(ps: Seq<(ArrayKey<S>, Value<S>)>, i: int)
    requires
        inv_pairs(ps),
        0 <= i < ps.len(),
    ensures
        ps[i].0.inv(),
        ps[i].1.inv(),
    decreases i,
{
    if i > 0 {
        lemma_inv_pairs_at(ps.drop_first(), i - 1);
        assert(ps.drop_first()[i - 1] == ps[i]);
    }
}

/// A tree's properties and its view have the same length.
pub proof fn lemma_spec_of_props_len<S: Str>(ps: Seq<(PropertyName<S>, Value<S>)>)
    ensures
        spec_of_props(ps).len() == ps.len(),
    decreases ps.len(),
{
    if ps.len() > 0 {
        lemma_spec_of_props_len(ps.drop_first());
    }
}

/// The view of a property sequence is pointwise the view of its properties.
pub proof fn lemma_spec_of_props_at<S: Str>(ps: Seq<(PropertyName<S>, Value<S>)>, i: int)
    requires
        0 <= i < ps.len(),
    ensures
        spec_of_props(ps).len() == ps.len(),
        spec_of_props(ps)[i] == (ps[i].0.to_spec(), ps[i].1.to_spec()),
    decreases i,
{
    lemma_spec_of_props_len(ps);
    lemma_spec_of_props_len(ps.drop_first());
    if i > 0 {
        lemma_spec_of_props_at(ps.drop_first(), i - 1);
        assert(ps.drop_first()[i - 1] == ps[i]);
    }
}

/// Each property of a well-formed property sequence is well formed.
pub proof fn lemma_inv_props_at<S: Str>(ps: Seq<(PropertyName<S>, Value<S>)>, i: int)
    requires
        inv_props(ps),
        0 <= i < ps.len(),
    ensures
        ps[i].0.inv(),
        ps[i].1.inv(),
    decreases i,
{
    if i > 0 {
        lemma_inv_props_at(ps.drop_first(), i - 1);
        assert(ps.drop_first()[i - 1] == ps[i]);
    }
}

} // verus!
