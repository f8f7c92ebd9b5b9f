//! Named, typed property bags attached to tiles and objects, with typed
//! accessors that treat a missing or wrongly-typed property as absent.

use vstd::prelude::*;

verus! {

/// A typed value attached by name to a tile or an object. A declared decimal
/// amount is carried as its raw bit pattern: the core stores and forwards it
/// but never computes with it.
#[derive(Clone, PartialEq, Debug)]
pub enum PropValue {
    Int(i32),
    Decimal(u32),
    Flag(bool),
    Text(String),
    Object(u32),
}

/// One named property.
#[derive(Clone, PartialEq, Debug)]
pub struct Prop {
    pub name: String,
    pub value: PropValue,
}

/// The value of the first property with the given name, if any.
pub open spec fn spec_lookup(props: Seq<Prop>, name: Seq<char>) -> Option<PropValue>
    decreases props.len(),
{
    if props.len() == 0 {
        Option::None
    } else if props[0].name@ == name {
        Option::Some(props[0].value)
    } else {
        spec_lookup(props.skip(1), name)
    }
}

proof fn lemma_lookup_hit(props: Seq<Prop>, name: Seq<char>, i: int)
    requires
        0 <= i < props.len(),
        props[i].name@ == name,
        forall|j: int| 0 <= j < i ==> (#[trigger] props[j]).name@ != name,
    ensures
        spec_lookup(props, name) == Option::Some(props[i].value),
    decreases i,
{
    if i == 0 {
    } else {
        assert(props.skip(1)[i - 1] == props[i]);
        assert(forall|j: int|
            0 <= j < i - 1 ==> (#[trigger] props.skip(1)[j]) == props[j + 1]);
        lemma_lookup_hit(props.skip(1), name, i - 1);
    }
}

proof fn lemma_lookup_miss(props: Seq<Prop>, name: Seq<char>)
    requires
        forall|j: int| 0 <= j < props.len() ==> (#[trigger] props[j]).name@ != name,
    ensures
        spec_lookup(props, name) is None,
    decreases props.len(),
{
    if props.len() == 0 {
    } else {
        assert(forall|j: int|
            0 <= j < props.len() - 1 ==> (#[trigger] props.skip(1)[j]) == props[j + 1]);
        lemma_lookup_miss(props.skip(1), name);
    }
}

/// A reference to the value of the first property with the given name.
pub fn lookup_prop<'a>(props: &'a Vec<Prop>, name: &str) -> (r: Option<&'a PropValue>)
    ensures
        r.is_some() <==> spec_lookup(props@, name@).is_some(),
        r matches Some(v) ==> spec_lookup(props@, name@) == Option::Some(*v),
{
    let wanted: String = name.to_owned();
    let mut i: usize = 0;
    while i < props.len()
        invariant
            0 <= i <= props@.len(),
            wanted@ == name@,
            forall|j: int| 0 <= j < i ==> (#[trigger] props@[j]).name@ != name@,
        decreases props@.len() - i,
    {
        let p: &Prop = &props[i];
        if p.name == wanted {
            proof {
                lemma_lookup_hit(props@, name@, i as int);
            }
            return Some(&p.value);
        }
        i = i + 1;
    }
    proof {
        lemma_lookup_miss(props@, name@);
    }
    None
}

/// The named property as an integer; a missing or wrongly-typed property is
/// absent.
pub open spec fn spec_get_int(props: Seq<Prop>, name: Seq<char>) -> Option<i32> {
    match spec_lookup(props, name) {
        Option::Some(PropValue::Int(x)) => Option::Some(x),
        _ => Option::None,
    }
}

/// The named property as a decimal bit pattern; a missing or wrongly-typed
/// property is absent.
pub open spec fn spec_get_decimal(props: Seq<Prop>, name: Seq<char>) -> Option<u32> {
    match spec_lookup(props, name) {
        Option::Some(PropValue::Decimal(x)) => Option::Some(x),
        _ => Option::None,
    }
}

/// The named property as an object reference; a missing or wrongly-typed
/// property is absent.
pub open spec fn spec_get_object(props: Seq<Prop>, name: Seq<char>) -> Option<u32> {
    match spec_lookup(props, name) {
        Option::Some(PropValue::Object(x)) => Option::Some(x),
        _ => Option::None,
    }
}

pub fn get_int_of(props: &Vec<Prop>, name: &str) -> (r: Option<i32>)
    ensures
        r == spec_get_int(props@, name@),
{
    match lookup_prop(props, name) {
        Some(PropValue::Int(x)) => Some(*x),
        _ => None,
    }
}

pub fn get_decimal_of(props: &Vec<Prop>, name: &str) -> (r: Option<u32>)
    ensures
        r == spec_get_decimal(props@, name@),
{
    match lookup_prop(props, name) {
        Some(PropValue::Decimal(x)) => Some(*x),
        _ => None,
    }
}

pub fn get_object_of(props: &Vec<Prop>, name: &str) -> (r: Option<u32>)
    ensures
        r == spec_get_object(props@, name@),
{
    match lookup_prop(props, name) {
        Some(PropValue::Object(x)) => Some(*x),
        _ => None,
    }
}

} // verus!
