use french_press::gc_error::GcError;
use french_press::init_gc;
use french_press::js_types::{Binding, Captures, JsPtrEnum, JsType, JsValue, JsVar};
use french_press::scope::Exp;

fn num(b: Binding, n: f64) -> JsVar {
    JsVar::new(b, JsValue::JsNum(n.to_bits()))
}

fn loaded_num(v: &JsVar) -> f64 {
    match v.t {
        JsValue::JsNum(bits) => f64::from_bits(bits),
        _ => panic!("not a number"),
    }
}

#[test]
fn collected_frames_leave_an_empty_heap() {
    let mut mgr = init_gc();
    mgr.push_scope(&Exp::Call);
    let obj = JsType::new(JsPtrEnum::JsObj);
    let v = JsVar::new(Binding::anon(), obj.as_ptr());
    mgr.allocate(v, Some(obj.into_thing())).unwrap();
    mgr.push_scope(&Exp::Block);
    let s = JsType::new(JsPtrEnum::JsStr(String::from("hello")));
    mgr.allocate(JsVar::new(Binding::anon(), s.as_ptr()), Some(s.into_thing())).unwrap();
    mgr.allocate(num(Binding::anon(), 3.), None).unwrap();
    assert!(!mgr.heap_is_empty());
    mgr.pop_scope(true).unwrap();
    assert!(!mgr.heap_is_empty());
    mgr.pop_scope(true).unwrap();
    assert!(mgr.heap_is_empty());
    assert_eq!(mgr.closure_count(), 0);
}

#[test]
fn aliased_object_lives_until_its_last_reference_goes() {
    let mut mgr = init_gc();
    mgr.push_scope(&Exp::Call);
    let obj = JsType::new(JsPtrEnum::JsObj);
    let ptr = obj.as_ptr();
    mgr.allocate(JsVar::new(Binding::anon(), ptr), Some(obj.into_thing())).unwrap();
    mgr.push_scope(&Exp::Block);
    let alias = Binding::anon();
    mgr.allocate(JsVar::new(alias, ptr), None).unwrap();
    mgr.pop_scope(true).unwrap();
    assert!(!mgr.heap_is_empty());
    mgr.pop_scope(true).unwrap();
    assert!(mgr.heap_is_empty());
}

#[test]
fn uncollected_pop_keeps_the_heap() {
    let mut mgr = init_gc();
    mgr.push_scope(&Exp::Block);
    let obj = JsType::new(JsPtrEnum::JsObj);
    mgr.allocate(JsVar::new(Binding::anon(), obj.as_ptr()), Some(obj.into_thing())).unwrap();
    mgr.pop_scope(false).unwrap();
    assert!(!mgr.heap_is_empty());
}

#[test]
fn escaped_closure_keeps_its_frame() {
    let mut mgr = init_gc();
    mgr.push_scope(&Exp::Call);
    let data = JsType::new(JsPtrEnum::JsStr(String::from("kept")));
    let data_bnd = Binding::anon();
    mgr.allocate(JsVar::new(data_bnd, data.as_ptr()), Some(data.into_thing())).unwrap();
    let captures = Captures::Nil.with(data_bnd);
    let f = JsType::new(JsPtrEnum::JsFn(String::from("inner"), captures));
    mgr.allocate(JsVar::new(Binding::anon(), f.as_ptr()), Some(f.into_thing())).unwrap();
    mgr.pop_scope(true).unwrap();
    assert_eq!(mgr.closure_count(), 1);
    assert!(!mgr.heap_is_empty());
    assert!(matches!(mgr.load(&data_bnd), Err(GcError::Load(_))));
    let (var, payload) = mgr.load_captured(0, &data_bnd).unwrap();
    assert_eq!(var.binding, data_bnd);
    assert!(matches!(payload, Some(JsPtrEnum::JsStr(ref s)) if s == "kept"));
    assert!(matches!(mgr.load_captured(1, &data_bnd), Err(GcError::Load(_))));
}

#[test]
fn enclosing_frame_of_a_kept_frame_is_kept_too() {
    let mut mgr = init_gc();
    mgr.push_scope(&Exp::Call);
    let d = Binding::anon();
    let obj = JsType::with_uid(7, JsPtrEnum::JsStr(String::from("outer")));
    mgr.allocate(JsVar::new(d, obj.as_ptr()), Some(obj.into_thing())).unwrap();
    mgr.push_scope(&Exp::Block);
    let e = Binding::anon();
    mgr.allocate(num(e, 2.), None).unwrap();
    let f = JsType::new(JsPtrEnum::JsFn(String::from("f"), Captures::Nil.with(d).with(e)));
    mgr.allocate(JsVar::new(Binding::anon(), f.as_ptr()), Some(f.into_thing())).unwrap();
    mgr.pop_scope(true).unwrap();
    assert_eq!(mgr.closure_count(), 1);
    let (dv, _) = mgr.load_captured(0, &d).unwrap();
    assert_eq!(dv.binding, d);
    mgr.pop_scope(true).unwrap();
    assert_eq!(mgr.closure_count(), 2);
    assert!(!mgr.heap_is_empty());
    let (ev, _) = mgr.load_captured(0, &e).unwrap();
    assert_eq!(loaded_num(&ev), 2.);
    let (dv, dp) = mgr.load_captured(0, &d).unwrap();
    assert_eq!(dv.t, JsValue::JsPtr(7));
    assert!(matches!(dp, Some(JsPtrEnum::JsStr(ref s)) if s == "outer"));
    assert!(matches!(mgr.load_captured(0, &Binding::anon()), Err(GcError::Load(_))));
}

#[test]
fn closure_assigned_to_a_global_keeps_the_frame_it_captures() {
    let mut mgr = init_gc();
    mgr.push_scope(&Exp::Call);
    let x = Binding::anon();
    let data = JsType::new(JsPtrEnum::JsObj);
    mgr.allocate(JsVar::new(x, data.as_ptr()), Some(data.into_thing())).unwrap();
    mgr.push_scope(&Exp::Block);
    let f = JsType::new(JsPtrEnum::JsFn(String::from("f"), Captures::Nil.with(x)));
    let fp = f.as_ptr();
    mgr.allocate(JsVar::new(Binding::anon(), fp), Some(f.into_thing())).unwrap();
    mgr.allocate_global(JsVar::new(Binding::anon(), fp), None).unwrap();
    mgr.pop_scope(true).unwrap();
    assert_eq!(mgr.closure_count(), 0);
    mgr.pop_scope(true).unwrap();
    assert_eq!(mgr.closure_count(), 1);
    let (xv, xp) = mgr.load_captured(0, &x).unwrap();
    assert_eq!(xv.binding, x);
    assert!(matches!(xp, Some(JsPtrEnum::JsObj)));
}

#[test]
fn kept_frame_sees_globals_and_its_live_parent() {
    let mut mgr = init_gc();
    let g = Binding::anon();
    mgr.allocate_global(num(g, 4.), None).unwrap();
    let r = Binding::anon();
    mgr.allocate(num(r, 3.), None).unwrap();
    mgr.push_scope(&Exp::Call);
    let x = Binding::anon();
    mgr.allocate(num(x, 1.), None).unwrap();
    let f = JsType::new(JsPtrEnum::JsFn(String::from("f"), Captures::Nil.with(x)));
    mgr.allocate(JsVar::new(Binding::anon(), f.as_ptr()), Some(f.into_thing())).unwrap();
    mgr.pop_scope(true).unwrap();
    assert_eq!(loaded_num(&mgr.load_captured(0, &x).unwrap().0), 1.);
    assert_eq!(loaded_num(&mgr.load_captured(0, &r).unwrap().0), 3.);
    assert_eq!(loaded_num(&mgr.load_captured(0, &g).unwrap().0), 4.);
}

#[test]
fn closure_capturing_nothing_here_does_not_keep_its_frame() {
    let mut mgr = init_gc();
    let outside = Binding::anon();
    mgr.push_scope(&Exp::Call);
    let data = JsType::new(JsPtrEnum::JsObj);
    mgr.allocate(JsVar::new(Binding::anon(), data.as_ptr()), Some(data.into_thing())).unwrap();
    let f = JsType::new(JsPtrEnum::JsFn(String::from("f"), Captures::Nil.with(outside)));
    mgr.allocate(JsVar::new(Binding::anon(), f.as_ptr()), Some(f.into_thing())).unwrap();
    let g = JsType::new(JsPtrEnum::JsFn(String::from("g"), Captures::Nil));
    mgr.allocate(JsVar::new(Binding::anon(), g.as_ptr()), Some(g.into_thing())).unwrap();
    mgr.pop_scope(true).unwrap();
    assert_eq!(mgr.closure_count(), 0);
    assert!(mgr.heap_is_empty());
}

#[test]
fn globals_resolve_from_nested_frames() {
    let mut mgr = init_gc();
    let g = Binding::anon();
    mgr.allocate_global(num(g, 7.), None).unwrap();
    mgr.push_scope(&Exp::Call);
    mgr.push_scope(&Exp::Block);
    mgr.push_scope(&Exp::Block);
    let (v, p) = mgr.load(&g).unwrap();
    assert_eq!(loaded_num(&v), 7.);
    assert!(p.is_none());
    mgr.allocate(num(g, 8.), None).unwrap();
    assert_eq!(loaded_num(&mgr.load(&g).unwrap().0), 8.);
}

#[test]
fn store_on_undeclared_binding_declares_it() {
    let mut mgr = init_gc();
    mgr.push_scope(&Exp::Block);
    let y = Binding::anon();
    assert!(mgr.store(num(y, 1.), None).is_ok());
    assert_eq!(loaded_num(&mgr.load(&y).unwrap().0), 1.);
    assert!(mgr.store(num(y, 5.), None).is_ok());
    assert_eq!(loaded_num(&mgr.load(&y).unwrap().0), 5.);
}

#[test]
fn store_replaces_a_reference_and_releases_the_old_object() {
    let mut mgr = init_gc();
    mgr.push_scope(&Exp::Block);
    let b = Binding::anon();
    let first = JsType::new(JsPtrEnum::JsStr(String::from("one")));
    mgr.allocate(JsVar::new(b, first.as_ptr()), Some(first.into_thing())).unwrap();
    let second = JsType::new(JsPtrEnum::JsStr(String::from("two")));
    mgr.store(JsVar::new(b, second.as_ptr()), Some(second.into_thing())).unwrap();
    let (_, p) = mgr.load(&b).unwrap();
    assert!(matches!(p, Some(JsPtrEnum::JsStr(ref s)) if s == "two"));
    mgr.store(num(b, 0.), None).unwrap();
    assert!(mgr.heap_is_empty());
}

#[test]
fn popping_the_root_reports_underflow_and_keeps_the_root() {
    let mut mgr = init_gc();
    let x = Binding::anon();
    mgr.allocate(num(x, 1.), None).unwrap();
    assert!(matches!(mgr.pop_scope(true), Err(GcError::Scope)));
    assert!(!mgr.has_parent());
    assert_eq!(loaded_num(&mgr.load(&x).unwrap().0), 1.);
}

#[test]
fn shadowed_binding_in_inner_block() {
    let mut mgr = init_gc();
    let outer = Binding::anon();
    let inner = Binding::anon();
    mgr.allocate(num(outer, 1.), None).unwrap();
    mgr.push_scope(&Exp::Block);
    let obj = JsType::new(JsPtrEnum::JsObj);
    let x2 = JsVar::new(inner, JsValue::JsNum(2f64.to_bits()));
    mgr.allocate(x2, None).unwrap();
    mgr.allocate(JsVar::new(Binding::anon(), obj.as_ptr()), Some(obj.into_thing())).unwrap();
    assert_eq!(loaded_num(&mgr.load(&inner).unwrap().0), 2.);
    mgr.pop_scope(true).unwrap();
    assert_eq!(loaded_num(&mgr.load(&outer).unwrap().0), 1.);
    assert!(matches!(mgr.load(&inner), Err(GcError::Load(_))));
    assert!(mgr.heap_is_empty());
}

#[test]
fn store_on_empty_frame_then_load() {
    let mut mgr = init_gc();
    let y = Binding::anon();
    assert!(mgr.store(num(y, 1.), None).is_ok());
    let (v, p) = mgr.load(&y).unwrap();
    assert_eq!(loaded_num(&v), 1.);
    assert!(p.is_none());
}

#[test]
fn pop_on_fresh_manager_underflows() {
    let mut mgr = init_gc();
    assert!(matches!(mgr.pop_scope(true), Err(GcError::Scope)));
}

#[test]
fn unregistered_reference_is_recorded_without_a_heap_entry() {
    let mut mgr = init_gc();
    let b = Binding::anon();
    let v = JsVar::new(b, JsValue::JsPtr(42));
    assert!(mgr.allocate(v, None).is_ok());
    let (got, p) = mgr.load(&b).unwrap();
    assert_eq!(got, v);
    assert!(p.is_none());
    assert!(mgr.heap_is_empty());
}

#[test]
fn primitive_with_payload_is_boxed_under_its_binding() {
    let mut mgr = init_gc();
    mgr.push_scope(&Exp::Block);
    let b = Binding::anon();
    assert!(mgr.store(num(b, 1.), Some(JsPtrEnum::JsObj)).is_ok());
    assert!(!mgr.heap_is_empty());
    let (got, p) = mgr.load(&b).unwrap();
    assert_eq!(loaded_num(&got), 1.);
    assert!(matches!(p, Some(JsPtrEnum::JsObj)));
    mgr.pop_scope(true).unwrap();
    assert!(mgr.heap_is_empty());
}

#[test]
fn alias_without_payload_loads_as_given() {
    let mut mgr = init_gc();
    let obj = JsType::new(JsPtrEnum::JsStr(String::from("shared")));
    let ptr = obj.as_ptr();
    mgr.allocate_global(JsVar::new(Binding::anon(), ptr), Some(obj.into_thing())).unwrap();
    mgr.push_scope(&Exp::Block);
    let alias = Binding::anon();
    assert!(mgr.store(JsVar::new(alias, ptr), None).is_ok());
    let (got, p) = mgr.load(&alias).unwrap();
    assert_eq!(got.t, ptr);
    assert!(p.is_none());
}

#[test]
fn payload_for_registered_identity_keeps_the_object() {
    let mut mgr = init_gc();
    let obj = JsType::new(JsPtrEnum::JsStr(String::from("first")));
    let ptr = obj.as_ptr();
    let g = Binding::anon();
    mgr.allocate_global(JsVar::new(g, ptr), Some(obj.into_thing())).unwrap();
    mgr.push_scope(&Exp::Block);
    let inner = Binding::anon();
    let other = JsPtrEnum::JsStr(String::from("second"));
    mgr.allocate(JsVar::new(inner, ptr), Some(other)).unwrap();
    let (_, p) = mgr.load(&inner).unwrap();
    assert!(matches!(p, Some(JsPtrEnum::JsStr(ref s)) if s == "second"));
    mgr.pop_scope(true).unwrap();
    let (_, gp) = mgr.load(&g).unwrap();
    assert!(matches!(gp, Some(JsPtrEnum::JsStr(ref s)) if s == "first"));
    assert!(!mgr.heap_is_empty());
}

#[test]
fn generated_identities_differ() {
    assert_ne!(Binding::anon(), Binding::anon());
    let a = JsType::new(JsPtrEnum::JsObj);
    let b = JsType::new(JsPtrEnum::JsObj);
    assert_ne!(a.uid(), b.uid());
    assert!(a != b);
    assert!(a == a);
    assert_eq!(Binding::new(9).uid, 9);
    assert_eq!(JsType::with_uid(11, JsPtrEnum::JsObj).uid(), 11);
    let mut set = std::collections::HashSet::new();
    set.insert(a);
    set.insert(b);
    assert_eq!(set.len(), 2);
}
