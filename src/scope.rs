use vstd::prelude::*;
use vstd::multiset::Multiset;
use crate::alloc_box::{
    acquired, heap_matches, lemma_acquire, lemma_release, released, AllocBox, HeapEntry,
};
use crate::gc_error::GcError;
use crate::js_types::{Binding, Captures, JsPtrEnum, JsValue, JsVar};

verus! {

broadcast use vstd::multiset::group_multiset_axioms;

/// Whether a frame was opened by a function call or by another block.
#[derive(Clone, Copy, Debug, PartialEq, Eq, Structural)]
pub enum ScopeTag {
    Call,
    Block,
}

/// What the evaluator tells the manager of an expression that opens a frame.
#[derive(Clone, Copy, Debug, PartialEq, Eq, Structural)]
pub enum Exp {
    Call,
    Block,
    Undefined,
}

/// One declaration of a frame: the variable and the payload it was given,
/// and the heap identity it holds a reference to, if any.
#[derive(Debug)]
pub struct Slot {
    pub var: JsVar,
    pub ptr: Option<JsPtrEnum>,
    pub held: Option<u128>,
}

/// The multiset of heap identities held by a run of declarations.
pub open spec fn refs_of(slots: Seq<Slot>) -> Multiset<u128>
    decreases slots.len(),
{
    if slots.len() == 0 {
        Multiset::empty()
    } else {
        let rest = refs_of(slots.drop_last());
        match slots.last().held {
            Some(uid) => rest.insert(uid),
            None => rest,
        }
    }
}

/// The latest declaration of `b` among `slots`.
pub open spec fn lookup(slots: Seq<Slot>, b: Binding) -> Option<Slot>
    decreases slots.len(),
{
    if slots.len() == 0 {
        None
    } else if slots.last().var.binding == b {
        Some(slots.last())
    } else {
        lookup(slots.drop_last(), b)
    }
}

/// The heap identity that `var`, given with `ptr`, holds a reference to:
/// the identity its reference marker names, when that object is registered
/// or a payload comes to register under it; for a primitive given with a
/// payload, its own binding's identity, under which the payload is boxed.
pub open spec fn slot_ref(h: Map<u128, HeapEntry>, var: JsVar, ptr: Option<JsPtrEnum>) -> Option<
    u128,
> {
    match var.t {
        JsValue::JsPtr(u) => if h.contains_key(u) || ptr is Some {
            Some(u)
        } else {
            None
        },
        _ => if ptr is Some {
            Some(var.binding.uid)
        } else {
            None
        },
    }
}

/// Whether recording `var` would take a reference past the counter's range.
pub open spec fn overflows(h: Map<u128, HeapEntry>, var: JsVar, ptr: Option<JsPtrEnum>) -> bool {
    match slot_ref(h, var, ptr) {
        Some(k) => h.contains_key(k) && h[k].refs == u64::MAX,
        None => false,
    }
}

/// The heap after `var` (with payload `ptr`) takes the place of a
/// declaration that held `old_ref`.
pub open spec fn after_store(
    h: Map<u128, HeapEntry>,
    old_ref: Option<u128>,
    var: JsVar,
    ptr: Option<JsPtrEnum>,
) -> Map<u128, HeapEntry> {
    let h1 = match slot_ref(h, var, ptr) {
        Some(k) => acquired(h, k, ptr),
        None => h,
    };
    match old_ref {
        Some(u) => released(h1, u),
        None => h1,
    }
}

/// Whether `c` captures a binding declared in `slots`.
pub open spec fn captures_any(c: Captures, slots: Seq<Slot>) -> bool
    decreases c,
{
    match c {
        Captures::Nil => false,
        Captures::Cons(b, rest) => lookup(slots, b) is Some || captures_any(*rest, slots),
    }
}

/// Whether heap object `u` of `h` is a closure that captures a binding
/// declared in `slots`.
pub open spec fn captures_frame(h: Map<u128, HeapEntry>, u: u128, slots: Seq<Slot>) -> bool {
    h.contains_key(u) && h[u].thing is JsFn && captures_any(h[u].thing->JsFn_1, slots)
}

/// Whether some declaration of `holders` holds a closure of heap `h` that
/// captures a binding declared in `slots`.
pub open spec fn captured_by(holders: Seq<Slot>, h: Map<u128, HeapEntry>, slots: Seq<Slot>) -> bool {
    exists|i: int|
        0 <= i < holders.len() && #[trigger] holders[i].held is Some && captures_frame(
            h,
            holders[i].held.unwrap(),
            slots,
        )
}

/// Whether some declaration of `slots` holds a closure of heap `h` that
/// captures this frame.
pub open spec fn escapes(slots: Seq<Slot>, h: Map<u128, HeapEntry>) -> bool {
    captured_by(slots, h, slots)
}

/// A declaration found by `lookup` has its reference among `refs_of`.
pub proof fn lemma_lookup_ref(slots: Seq<Slot>, b: Binding)
    requires
        lookup(slots, b) is Some,
        lookup(slots, b).unwrap().held is Some,
    ensures
        refs_of(slots).count(lookup(slots, b).unwrap().held.unwrap()) > 0,
    decreases slots.len(),
{
    if slots.last().var.binding != b {
        lemma_lookup_ref(slots.drop_last(), b);
    }
}

/// Replacing the latest declaration of a binding.
pub proof fn lemma_update_latest(slots: Seq<Slot>, i: int, v: Slot)
    requires
        0 <= i < slots.len(),
        slots[i].var.binding == v.var.binding,
        forall|j: int| i < j < slots.len() ==> slots[j].var.binding != v.var.binding,
    ensures
        lookup(slots, v.var.binding) == Some(slots[i]),
        lookup(slots.update(i, v), v.var.binding) == Some(v),
        refs_of(slots.update(i, v)) == ({
            let base = match slots[i].held {
                Some(u) => refs_of(slots).remove(u),
                None => refs_of(slots),
            };
            match v.held {
                Some(u) => base.insert(u),
                None => base,
            }
        }),
    decreases slots.len(),
{
    let w = slots.update(i, v);
    if i == slots.len() - 1 {
        assert(w.drop_last() =~= slots.drop_last());
        let r = refs_of(slots.drop_last());
        match slots[i].held {
            Some(u) => {
                assert(r.insert(u).remove(u) =~= r);
            },
            None => {},
        }
    } else {
        lemma_update_latest(slots.drop_last(), i, v);
        assert(w.drop_last() =~= slots.drop_last().update(i, v));
        let r = refs_of(slots.drop_last());
        if slots[i].held is Some {
            // the replaced reference is counted in the prefix it lies in
            lemma_lookup_ref(slots.drop_last(), v.var.binding);
        }
        match (slots[i].held, v.held, slots.last().held) {
            (Some(a), Some(b), Some(c)) => {
                assert(r.insert(c).remove(a).insert(b) =~= r.remove(a).insert(b).insert(c));
            },
            (Some(a), None, Some(c)) => {
                assert(r.insert(c).remove(a) =~= r.remove(a).insert(c));
            },
            _ => {},
        }
        assert(refs_of(w) =~= ({
            let base = match slots[i].held {
                Some(u) => refs_of(slots).remove(u),
                None => refs_of(slots),
            };
            match v.held {
                Some(u) => base.insert(u),
                None => base,
            }
        }));
    }
}

/// Replacing a declaration leaves the other bindings' lookups alone.
pub proof fn lemma_update_other(slots: Seq<Slot>, i: int, v: Slot, b: Binding)
    requires
        0 <= i < slots.len(),
        slots[i].var.binding == v.var.binding,
        b != v.var.binding,
    ensures
        lookup(slots.update(i, v), b) == lookup(slots, b),
    decreases slots.len(),
{
    let w = slots.update(i, v);
    if i == slots.len() - 1 {
        assert(w.drop_last() =~= slots.drop_last());
    } else {
        assert(w.drop_last() =~= slots.drop_last().update(i, v));
        lemma_update_other(slots.drop_last(), i, v, b);
    }
}

/// A copy of an optional payload.
fn copy_ptr(ptr: &Option<JsPtrEnum>) -> (r: Option<JsPtrEnum>)
    ensures
        r == *ptr,
{
    match ptr {
        Some(p) => Some(p.copy()),
        None => None,
    }
}

/// Takes the heap reference that `var`, given with `ptr`, holds, and says
/// which identity that is. Fails, changing nothing, where the count would
/// overflow.
fn take_ref(alloc_box: &mut AllocBox, var: &JsVar, ptr: &Option<JsPtrEnum>, Ghost(m): Ghost<
    Multiset<u128>,
>) -> (r: Result<Option<u128>, ()>)
    requires
        heap_matches(old(alloc_box)@, m),
    ensures
        r is Err <==> overflows(old(alloc_box)@, *var, *ptr),
        r is Err ==> final(alloc_box)@ == old(alloc_box)@,
        r matches Ok(k) ==> {
            &&& k == slot_ref(old(alloc_box)@, *var, *ptr)
            &&& final(alloc_box)@ == match k {
                Some(u) => acquired(old(alloc_box)@, u, *ptr),
                None => old(alloc_box)@,
            }
            &&& heap_matches(
                final(alloc_box)@,
                match k {
                    Some(u) => m.insert(u),
                    None => m,
                },
            )
        },
{
    let key: Option<u128> = match var.t {
        JsValue::JsPtr(u) => if alloc_box.contains(u) || ptr.is_some() {
            Some(u)
        } else {
            None
        },
        _ => if ptr.is_some() {
            Some(var.binding.uid)
        } else {
            None
        },
    };
    if let Some(k) = key {
        if alloc_box.ref_count(k) == u64::MAX {
            return Err(());
        }
        let reg = copy_ptr(ptr);
        proof {
            lemma_acquire(alloc_box@, m, k, reg);
        }
        alloc_box.acquire(k, reg);
    }
    Ok(key)
}

/// One lexical frame: its tag and its declarations, latest last.
pub struct Scope {
    pub tag: ScopeTag,
    pub vars: Vec<Slot>,
}

impl Scope {
    pub fn new(tag: ScopeTag) -> (r: Scope)
        ensures
            r.tag == tag,
            r.vars@ == Seq::<Slot>::empty(),
    {
        Scope { tag, vars: Vec::new() }
    }

    /// The index of the latest declaration of `b` in this frame.
    pub fn find(&self, b: &Binding) -> (r: Option<usize>)
        ensures
            r is None <==> lookup(self.vars@, *b) is None,
            r matches Some(i) ==> {
                &&& i < self.vars@.len()
                &&& self.vars@[i as int].var.binding == *b
                &&& forall|j: int| i < j < self.vars@.len() ==> self.vars@[j].var.binding != *b
            },
    {
        let mut i: usize = self.vars.len();
        assert(self.vars@.subrange(0, i as int) =~= self.vars@);
        while i > 0
            invariant
                i <= self.vars@.len(),
                lookup(self.vars@.subrange(0, i as int), *b) == lookup(self.vars@, *b),
                forall|j: int| i <= j < self.vars@.len() ==> self.vars@[j].var.binding != *b,
            decreases i,
        {
            let s = Ghost(self.vars@.subrange(0, i as int));
            assert(s@.drop_last() =~= self.vars@.subrange(0, i - 1));
            if self.vars[i - 1].var.binding == *b {
                return Some(i - 1);
            }
            i = i - 1;
        }
        assert(self.vars@.subrange(0, 0) =~= Seq::<Slot>::empty());
        None
    }

    /// Declares `var`, recording it with `ptr` and taking the heap reference
    /// it holds. Fails, handing both back, only where a reference count
    /// would overflow.
    pub fn push_var(
        &mut self,
        alloc_box: &mut AllocBox,
        var: JsVar,
        ptr: Option<JsPtrEnum>,
        Ghost(rest): Ghost<Multiset<u128>>,
    ) -> (r: Result<(), GcError>)
        requires
            heap_matches(old(alloc_box)@, rest.add(refs_of(old(self).vars@))),
        ensures
            r is Ok <==> !overflows(old(alloc_box)@, var, ptr),
            r is Ok ==> {
                &&& final(self).vars@ == old(self).vars@.push(
                    (Slot { var, ptr, held: slot_ref(old(alloc_box)@, var, ptr) }),
                )
                &&& final(alloc_box)@ == after_store(old(alloc_box)@, None, var, ptr)
            },
            r is Err ==> {
                &&& r == Err::<(), GcError>(GcError::Store(var, ptr))
                &&& final(self).vars@ == old(self).vars@
                &&& final(alloc_box)@ == old(alloc_box)@
            },
            final(self).tag == old(self).tag,
            heap_matches(final(alloc_box)@, rest.add(refs_of(final(self).vars@))),
    {
        let held = match take_ref(alloc_box, &var, &ptr, Ghost(rest.add(refs_of(self.vars@)))) {
            Ok(k) => k,
            Err(()) => {
                return Err(GcError::Store(var, ptr));
            },
        };
        let ghost before = self.vars@;
        self.vars.push(Slot { var, ptr, held });
        proof {
            assert(self.vars@.drop_last() =~= before);
            match held {
                Some(u) => {
                    assert(rest.add(refs_of(before)).insert(u) =~= rest.add(refs_of(self.vars@)));
                },
                None => {
                    assert(rest.add(refs_of(before)) =~= rest.add(refs_of(self.vars@)));
                },
            }
        }
        Ok(())
    }

    /// Overwrites the latest declaration of `var`'s binding, taking the new
    /// heap reference and dropping the old one. Fails, handing both back,
    /// when the binding is not declared here or a count would overflow.
    pub fn update_var(
        &mut self,
        alloc_box: &mut AllocBox,
        var: JsVar,
        ptr: Option<JsPtrEnum>,
        Ghost(rest): Ghost<Multiset<u128>>,
    ) -> (r: Result<(), GcError>)
        requires
            heap_matches(old(alloc_box)@, rest.add(refs_of(old(self).vars@))),
        ensures
            r is Ok <==> (lookup(old(self).vars@, var.binding) is Some && !overflows(
                old(alloc_box)@,
                var,
                ptr,
            )),
            r is Ok ==> {
                &&& final(self).vars@.len() == old(self).vars@.len()
                &&& lookup(final(self).vars@, var.binding) == Some(
                    (Slot { var, ptr, held: slot_ref(old(alloc_box)@, var, ptr) }),
                )
                &&& forall|b: Binding|
                    b != var.binding ==> lookup(final(self).vars@, b) == lookup(
                        old(self).vars@,
                        b,
                    )
                &&& final(alloc_box)@ == after_store(
                    old(alloc_box)@,
                    lookup(old(self).vars@, var.binding).unwrap().held,
                    var,
                    ptr,
                )
            },
            r is Err ==> {
                &&& r == Err::<(), GcError>(GcError::Store(var, ptr))
                &&& final(self).vars@ == old(self).vars@
                &&& final(alloc_box)@ == old(alloc_box)@
            },
            final(self).tag == old(self).tag,
            heap_matches(final(alloc_box)@, rest.add(refs_of(final(self).vars@))),
    {
        let i = match self.find(&var.binding) {
            Some(i) => i,
            None => {
                return Err(GcError::Store(var, ptr));
            },
        };
        let ghost before = self.vars@;
        let ghost m = rest.add(refs_of(before));
        let old_held = self.vars[i].held;
        proof {
            lemma_update_latest(before, i as int, before[i as int]);
        }
        let held = match take_ref(alloc_box, &var, &ptr, Ghost(m)) {
            Ok(k) => k,
            Err(()) => {
                return Err(GcError::Store(var, ptr));
            },
        };
        let ghost m1 = match held {
            Some(u) => m.insert(u),
            None => m,
        };
        if let Some(uid) = old_held {
            proof {
                lemma_lookup_ref(before, var.binding);
                lemma_release(alloc_box@, m1, uid);
            }
            alloc_box.release(uid);
        }
        let slot = Slot { var, ptr, held };
        let ghost sv = slot;
        self.vars.set(i, slot);
        proof {
            lemma_update_latest(before, i as int, sv);
            assert(self.vars@ == before.update(i as int, sv));
            assert forall|b: Binding| b != var.binding implies lookup(self.vars@, b) == lookup(
                before,
                b,
            ) by {
                lemma_update_other(before, i as int, sv, b);
            }
            let target = rest.add(refs_of(self.vars@));
            match (old_held, held) {
                (Some(a), Some(b)) => {
                    assert(m1.remove(a) =~= target);
                },
                (Some(a), None) => {
                    assert(m1.remove(a) =~= target);
                },
                (None, Some(b)) => {
                    assert(m1 =~= target);
                },
                (None, None) => {
                    assert(m1 =~= target);
                },
            }
        }
        Ok(())
    }

    /// Whether `c` captures a binding declared in this frame.
    pub fn captures_any_of(&self, c: &Captures) -> (r: bool)
        ensures
            r == captures_any(*c, self.vars@),
        decreases c,
    {
        match c {
            Captures::Nil => false,
            Captures::Cons(b, rest) => {
                if self.find(b).is_some() {
                    true
                } else {
                    self.captures_any_of(&**rest)
                }
            },
        }
    }

    /// Whether a declaration of this frame holds a closure of the heap that
    /// captures a binding declared in `target`.
    pub fn holds_closure_over(&self, alloc_box: &AllocBox, target: &Scope) -> (r: bool)
        ensures
            r == captured_by(self.vars@, alloc_box@, target.vars@),
    {
        let mut i: usize = 0;
        while i < self.vars.len()
            invariant
                i <= self.vars@.len(),
                forall|j: int|
                    0 <= j < i ==> !(#[trigger] self.vars@[j].held is Some && captures_frame(
                        alloc_box@,
                        self.vars@[j].held.unwrap(),
                        target.vars@,
                    )),
            decreases self.vars@.len() - i,
        {
            if let Some(uid) = self.vars[i].held {
                if let Some(c) = alloc_box.captures_of(uid) {
                    if target.captures_any_of(&c) {
                        return true;
                    }
                }
            }
            i = i + 1;
        }
        false
    }

    /// The exit of this frame. A frame that is `pinned` (something outside it
    /// still needs it), or that holds a closure capturing one of its
    /// bindings, moves whole into `closures`, keeping every heap reference it has. Otherwise, when
    /// `should_collect` holds, each of its references is released; when it
    /// does not, the heap is left as it is.
    pub fn transfer_stack(
        self,
        closures: &mut Vec<Scope>,
        alloc_box: &mut AllocBox,
        should_collect: bool,
        pinned: bool,
        Ghost(rest): Ghost<Multiset<u128>>,
    )
        requires
            heap_matches(old(alloc_box)@, rest.add(refs_of(self.vars@))),
        ensures
            (pinned || escapes(self.vars@, old(alloc_box)@)) ==> {
                &&& final(closures)@ == old(closures)@.push(self)
                &&& final(alloc_box)@ == old(alloc_box)@
            },
            !(pinned || escapes(self.vars@, old(alloc_box)@)) ==> final(closures)@ == old(closures)@,
            !(pinned || escapes(self.vars@, old(alloc_box)@)) && !should_collect ==> final(alloc_box)@ == old(
                alloc_box,
            )@,
            !(pinned || escapes(self.vars@, old(alloc_box)@)) && should_collect ==> {
                &&& heap_matches(final(alloc_box)@, rest)
                &&& forall|u: u128|
                    #[trigger] final(alloc_box)@.contains_key(u) ==> old(alloc_box)@.contains_key(u)
                        && final(alloc_box)@[u].thing == old(alloc_box)@[u].thing
            },
    {
        if pinned || self.holds_closure_over(alloc_box, &self) {
            closures.push(self);
            return;
        }
        if !should_collect {
            return;
        }
        let ghost h0 = alloc_box@;
        let mut vars = self.vars;
        while vars.len() > 0
            invariant
                heap_matches(alloc_box@, rest.add(refs_of(vars@))),
                forall|u: u128|
                    #[trigger] alloc_box@.contains_key(u) ==> h0.contains_key(u) && alloc_box@[u].thing
                        == h0[u].thing,
            decreases vars@.len(),
        {
            let ghost before = vars@;
            let v = vars.pop().unwrap();
            proof {
                assert(vars@ =~= before.drop_last());
            }
            if let Some(uid) = v.held {
                proof {
                    let m = rest.add(refs_of(before));
                    lemma_release(alloc_box@, m, uid);
                    assert(m.remove(uid) =~= rest.add(refs_of(vars@)));
                }
                alloc_box.release(uid);
            } else {
                assert(rest.add(refs_of(before)) =~= rest.add(refs_of(vars@)));
            }
        }
        assert(rest.add(refs_of(vars@)) =~= rest);
    }

    /// A copy of the latest declaration of `b` in this frame, with the
    /// payload it was recorded with.
    pub fn get_var_copy(&self, b: &Binding) -> (r: Option<(JsVar, Option<JsPtrEnum>)>)
        ensures
            match lookup(self.vars@, *b) {
                Some(s) => r == Some((s.var, s.ptr)),
                None => r is None,
            },
    {
        match self.find(b) {
            Some(i) => {
                proof {
                    lemma_update_latest(self.vars@, i as int, self.vars@[i as int]);
                }
                let s = &self.vars[i];
                Some((s.var, copy_ptr(&s.ptr)))
            },
            None => None,
        }
    }
}

} // verus!
