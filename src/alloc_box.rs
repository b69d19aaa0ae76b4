use vstd::prelude::*;
use vstd::multiset::Multiset;
use std::collections::HashMap;
use crate::js_types::{Captures, JsPtrEnum};

verus! {

broadcast use vstd::multiset::group_multiset_axioms, vstd::std_specs::hash::group_hash_axioms;

/// One boxed value and the number of live references to it.
#[derive(Debug)]
pub struct HeapEntry {
    pub thing: JsPtrEnum,
    pub refs: u64,
}

/// The heap holds exactly the objects that `m` refers to, each with as many
/// references as `m` holds of its identity.
pub open spec fn heap_matches(h: Map<u128, HeapEntry>, m: Multiset<u128>) -> bool {
    &&& forall|u: u128|
        #![trigger h.contains_key(u)]
        #![trigger m.count(u)]
        h.contains_key(u) <==> m.count(u) > 0
    &&& forall|u: u128| #[trigger] h.contains_key(u) ==> h[u].refs == m.count(u)
}

/// Whether one more reference to `uid` can be taken, with `ptr` as the
/// payload to register.
pub open spec fn can_acquire(h: Map<u128, HeapEntry>, uid: u128, ptr: Option<JsPtrEnum>) -> bool {
    if h.contains_key(uid) {
        h[uid].refs < u64::MAX
    } else {
        ptr is Some
    }
}

/// The heap after one more reference to `uid` is taken: a registered object
/// keeps its content; otherwise `ptr` is registered as a new object.
pub open spec fn acquired(h: Map<u128, HeapEntry>, uid: u128, ptr: Option<JsPtrEnum>) -> Map<
    u128,
    HeapEntry,
> {
    if h.contains_key(uid) {
        h.insert(uid, HeapEntry { thing: h[uid].thing, refs: (h[uid].refs + 1) as u64 })
    } else {
        h.insert(uid, HeapEntry { thing: ptr.unwrap(), refs: 1 })
    }
}

/// The heap after one reference to `uid` is dropped: the object goes when
/// its last reference does.
pub open spec fn released(h: Map<u128, HeapEntry>, uid: u128) -> Map<u128, HeapEntry> {
    if h[uid].refs <= 1 {
        h.remove(uid)
    } else {
        h.insert(uid, HeapEntry { thing: h[uid].thing, refs: (h[uid].refs - 1) as u64 })
    }
}

pub proof fn lemma_acquire(h: Map<u128, HeapEntry>, m: Multiset<u128>, uid: u128, ptr: Option<JsPtrEnum>)
    requires
        heap_matches(h, m),
        can_acquire(h, uid, ptr),
    ensures
        heap_matches(acquired(h, uid, ptr), m.insert(uid)),
{
}

pub proof fn lemma_release(h: Map<u128, HeapEntry>, m: Multiset<u128>, uid: u128)
    requires
        heap_matches(h, m),
        m.count(uid) > 0,
    ensures
        h.contains_key(uid),
        heap_matches(released(h, uid), m.remove(uid)),
{
}

/// The shared store of boxed values, keyed by identity.
pub struct AllocBox {
    map: HashMap<u128, HeapEntry>,
}

impl View for AllocBox {
    type V = Map<u128, HeapEntry>;

    closed spec fn view(&self) -> Map<u128, HeapEntry> {
        self.map@
    }
}

impl AllocBox {
    pub fn new() -> (r: AllocBox)
        ensures
            r@ == Map::<u128, HeapEntry>::empty(),
    {
        AllocBox { map: HashMap::new() }
    }

    /// Whether no heap object is registered.
    pub fn is_empty(&self) -> (r: bool)
        ensures
            r <==> self@ == Map::<u128, HeapEntry>::empty(),
    {
        let r = self.map.is_empty();
        proof {
            if r {
                assert(self@ =~= Map::<u128, HeapEntry>::empty());
            }
        }
        r
    }

    /// Whether `uid` is registered.
    pub fn contains(&self, uid: u128) -> (r: bool)
        ensures
            r == self@.contains_key(uid),
    {
        self.map.get(&uid).is_some()
    }

    /// How many references `uid` has; zero when it is not registered.
    pub fn ref_count(&self, uid: u128) -> (r: u64)
        ensures
            self@.contains_key(uid) ==> r == self@[uid].refs,
            !self@.contains_key(uid) ==> r == 0,
    {
        match self.map.get(&uid) {
            Some(e) => e.refs,
            None => 0,
        }
    }

    /// A copy of what the closure registered under `uid` captures, if `uid`
    /// holds a closure.
    pub fn captures_of(&self, uid: u128) -> (r: Option<Captures>)
        ensures
            r == (if self@.contains_key(uid) && self@[uid].thing is JsFn {
                Some(self@[uid].thing->JsFn_1)
            } else {
                None
            }),
    {
        match self.map.get(&uid) {
            Some(e) => match &e.thing {
                JsPtrEnum::JsFn(_, c) => Some(c.copy()),
                _ => None,
            },
            None => None,
        }
    }

    /// Takes one more reference to `uid`; when `uid` is not registered yet,
    /// `ptr` is registered under it.
    pub fn acquire(&mut self, uid: u128, ptr: Option<JsPtrEnum>)
        requires
            can_acquire(old(self)@, uid, ptr),
        ensures
            final(self)@ == acquired(old(self)@, uid, ptr),
    {
        let ghost h = self@;
        match self.map.remove(&uid) {
            Some(e) => {
                self.map.insert(uid, HeapEntry { thing: e.thing, refs: e.refs + 1 });
            },
            None => {
                let thing = ptr.unwrap();
                self.map.insert(uid, HeapEntry { thing, refs: 1 });
            },
        }
        assert(self@ =~= acquired(h, uid, ptr));
    }

    /// Drops one reference to `uid`; the object is removed with its last one.
    pub fn release(&mut self, uid: u128)
        requires
            old(self)@.contains_key(uid),
        ensures
            final(self)@ == released(old(self)@, uid),
    {
        let ghost h = self@;
        match self.map.remove(&uid) {
            Some(e) => {
                if e.refs > 1 {
                    self.map.insert(uid, HeapEntry { thing: e.thing, refs: e.refs - 1 });
                }
            },
            None => {},
        }
        assert(self@ =~= released(h, uid));
    }
}

} // verus!
