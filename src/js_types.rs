use vstd::prelude::*;

verus! {

/// Relies on `uuid::Uuid::new_v4` and `uuid::Uuid::as_u128`: a random
/// 128-bit token used as a process-unique identity. Nothing is promised of
/// its value. It panics only where the operating system's random source
/// fails.
#[verifier::external_body]
fn fresh_uid() -> (r: u128) {
    uuid::Uuid::new_v4().as_u128()
}

/// The identity of one declared variable. Two bindings are equal iff they
/// denote the same declaration.
#[derive(Clone, Copy, Debug, PartialEq, Eq, Structural, Hash)]
pub struct Binding {
    pub uid: u128,
}

impl Binding {
    /// A binding with the given identity.
    pub fn new(uid: u128) -> (r: Binding)
        ensures
            r.uid == uid,
    {
        Binding { uid }
    }

    /// A fresh binding for a temporary, with a newly generated identity.
    pub fn anon() -> (r: Binding) {
        Binding { uid: fresh_uid() }
    }
}

/// The inline payload of a variable: a primitive value, or a reference
/// marker naming a heap object by its identity. A number is held as the bit
/// pattern of its IEEE-754 double.
#[derive(Clone, Copy, Debug, PartialEq, Eq, Structural)]
pub enum JsValue {
    JsUndef,
    JsNull,
    JsBool(bool),
    JsNum(u64),
    JsPtr(u128),
}

/// A variable: its inline payload and the binding that owns it.
#[derive(Clone, Copy, Debug, PartialEq, Eq, Structural)]
pub struct JsVar {
    pub binding: Binding,
    pub t: JsValue,
}

impl JsVar {
    pub fn new(binding: Binding, t: JsValue) -> (r: JsVar)
        ensures
            r.binding == binding,
            r.t == t,
    {
        JsVar { binding, t }
    }

    /// The heap object this variable refers to, if any.
    pub open spec fn heap_ref(self) -> Option<u128> {
        match self.t {
            JsValue::JsPtr(uid) => Some(uid),
            _ => None,
        }
    }
}

/// A value marker for heap payloads.
pub trait JsThing {}

/// The payload of a boxed (heap) value.
#[derive(Debug)]
pub enum JsPtrEnum {
    JsStr(String),
    JsObj,
    /// A closure: the name of its function and the bindings it captures.
    JsFn(String, Captures),
}

/// The bindings a closure captures, as a list.
#[derive(Debug)]
pub enum Captures {
    Nil,
    Cons(Binding, Box<Captures>),
}

impl Captures {
    /// Whether `b` is among the captured bindings.
    pub open spec fn has(self, b: Binding) -> bool
        decreases self,
    {
        match self {
            Captures::Nil => false,
            Captures::Cons(h, rest) => h == b || rest.has(b),
        }
    }

    /// The list with `b` captured in front.
    pub fn with(self, b: Binding) -> (r: Captures)
        ensures
            r == Captures::Cons(b, Box::new(self)),
    {
        Captures::Cons(b, Box::new(self))
    }

    /// A copy of this list.
    pub fn copy(&self) -> (r: Captures)
        ensures
            r == *self,
        decreases self,
    {
        match self {
            Captures::Nil => Captures::Nil,
            Captures::Cons(h, rest) => {
                let tail = (**rest).copy();
                Captures::Cons(*h, Box::new(tail))
            },
        }
    }
}

impl JsThing for JsPtrEnum {}

impl JsPtrEnum {

    /// A copy of this payload.
    pub fn copy(&self) -> (r: JsPtrEnum)
        ensures
            r == *self,
    {
        match self {
            JsPtrEnum::JsStr(s) => JsPtrEnum::JsStr(s.clone()),
            JsPtrEnum::JsObj => JsPtrEnum::JsObj,
            JsPtrEnum::JsFn(s, c) => JsPtrEnum::JsFn(s.clone(), c.copy()),
        }
    }
}

/// A heap object: a payload with a generated identity. Two heap objects are
/// the same object iff their identities are equal.
pub struct JsType {
    uid: u128,
    thing: JsPtrEnum,
}

impl JsType {
    /// A heap object with the given identity.
    pub fn with_uid(uid: u128, thing: JsPtrEnum) -> (r: JsType)
        ensures
            r.uid_spec() == uid,
            r.thing() == thing,
    {
        JsType { uid, thing }
    }

    /// A heap object with a newly generated identity.
    pub fn new(thing: JsPtrEnum) -> (r: JsType)
        ensures
            r.thing() == thing,
    {
        JsType::with_uid(fresh_uid(), thing)
    }

    pub closed spec fn uid_spec(&self) -> u128 {
        self.uid
    }

    pub closed spec fn thing(&self) -> JsPtrEnum {
        self.thing
    }

    #[verifier::when_used_as_spec(uid_spec)]
    pub fn uid(&self) -> (r: u128)
        ensures
            r == self.uid_spec(),
    {
        self.uid
    }

    /// The reference marker for this object.
    pub fn as_ptr(&self) -> (r: JsValue)
        ensures
            r == JsValue::JsPtr(self.uid_spec()),
    {
        JsValue::JsPtr(self.uid)
    }

    /// The payload, given up by the object.
    pub fn into_thing(self) -> (r: JsPtrEnum)
        ensures
            r == self.thing(),
    {
        self.thing
    }
}

impl PartialEq for JsType {
    fn eq(&self, other: &JsType) -> (r: bool) {
        self.uid == other.uid
    }
}

impl vstd::std_specs::cmp::PartialEqSpecImpl for JsType {
    open spec fn obeys_eq_spec() -> bool {
        true
    }

    open spec fn eq_spec(&self, other: &JsType) -> bool {
        self.uid_spec() == other.uid_spec()
    }
}

impl Eq for JsType {}

/// Relies on std's `Hash` for `u128`: feeds the integer to the hasher. Nothing
/// is stated of the hasher's state afterwards.
pub assume_specification<H: std::hash::Hasher>[ <u128 as std::hash::Hash>::hash::<H> ](
    data: &u128,
    state: &mut H,
);

/// Hashes a heap object by its identity alone, as its equality does.
impl std::hash::Hash for JsType {
    fn hash<H: std::hash::Hasher>(&self, state: &mut H) {
        self.uid.hash(state);
    }
}

} // verus!
