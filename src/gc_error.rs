use vstd::prelude::*;
use crate::js_types::{Binding, JsPtrEnum, JsVar};

verus! {

/// The errors of the scope manager.
#[derive(Debug)]
pub enum GcError {
    /// The root frame was popped.
    Scope,
    /// The binding is declared neither in the current frame nor in globals.
    Load(Binding),
    /// The variable could not be stored where it was asked; it is handed
    /// back with its payload.
    Store(JsVar, Option<JsPtrEnum>),
}

} // verus!
