//! Assertions about runtime properties of the interpreter's built-in
//! methods, recorded per native function and queried by later
//! optimisation decisions.
//!
//! A native method is identified by a stable integer id (standing for
//! the identity of its implementing function), so the lookup is a
//! capability-free identity-keyed map.

use vstd::prelude::*;
use std::collections::HashMap;

verus! {

broadcast use vstd::std_specs::hash::group_hash_axioms;

/// Runtime behaviours of a native function that implements a built-in
/// method.
#[derive(Copy, Clone, PartialEq, Eq, Debug, Structural)]
pub struct FnProperties {
    /// Whether it is impossible for the function to yield to the
    /// garbage collector.
    pub no_gc: bool,
    /// Whether it is impossible for the function to make a nested
    /// method call.
    pub leaf: bool,
}

impl Default for FnProperties {
    /// Nothing is promised of a method until it is annotated.
    fn default() -> (r: FnProperties)
        ensures
            r == (FnProperties { no_gc: false, leaf: false }),
    {
        FnProperties { no_gc: false, leaf: false }
    }
}

/// What the annotation lookup reads of one resolved method entry: how
/// the method is implemented, and — for a native method — the id of
/// its implementing function.
#[derive(Copy, Clone, PartialEq, Eq, Debug, Structural)]
pub enum MethodEntry {
    /// A method implemented by a native function.
    CFunc { func: u64 },
    /// Any other implementation kind; the annotation table never
    /// speaks about these.
    Other,
}

/// The annotation database: recorded properties of native functions,
/// keyed by function identity.
pub struct Annotations {
    cfuncs: HashMap<u64, FnProperties>,
}

impl View for Annotations {
    type V = Map<u64, FnProperties>;

    closed spec fn view(&self) -> Map<u64, FnProperties> {
        self.cfuncs@
    }
}

impl Annotations {
    /// Query the properties of a method: its record if it is a native
    /// method the table has annotated, absent otherwise.
    pub fn get_cfunc_properties(&self, method: &MethodEntry) -> (r: Option<FnProperties>)
        ensures
            r == match method {
                MethodEntry::CFunc { func } => if self@.contains_key(*func) {
                    Some(self@[*func])
                } else {
                    None
                },
                MethodEntry::Other => None::<FnProperties>,
            },
    {
        let func = match method {
            MethodEntry::CFunc { func } => *func,
            MethodEntry::Other => {
                return None;
            },
        };
        match self.cfuncs.get(&func) {
            Some(props) => Some(*props),
            None => None,
        }
    }
}

/// Record the properties of one native method, under the id of its
/// implementing function. (Resolving a class and method name to that
/// function is the interpreter's part.)
pub fn annotate_c_method(
    props_map: &mut HashMap<u64, FnProperties>,
    func: u64,
    props: FnProperties,
)
    ensures
        final(props_map)@ == old(props_map)@.insert(func, props),
{
    props_map.insert(func, props);
}

/// Gather the annotations of the stock built-in methods. Run right
/// after boot, since the records are about the unredefined versions:
/// the object-identity method, the string byte-size method, and the
/// module name and case-equality methods, each known to neither
/// trigger garbage collection nor make nested calls.
pub fn init(itself_fn: u64, bytesize_fn: u64, module_name_fn: u64, module_eqq_fn: u64) -> (r:
    Annotations)
    ensures
        r@ == Map::<u64, FnProperties>::empty().insert(
            itself_fn,
            FnProperties { no_gc: true, leaf: true },
        ).insert(bytesize_fn, FnProperties { no_gc: true, leaf: true }).insert(
            module_name_fn,
            FnProperties { no_gc: true, leaf: true },
        ).insert(module_eqq_fn, FnProperties { no_gc: true, leaf: true }),
{
    let mut cfuncs: HashMap<u64, FnProperties> = HashMap::new();
    let props = FnProperties { no_gc: true, leaf: true };
    annotate_c_method(&mut cfuncs, itself_fn, props);
    annotate_c_method(&mut cfuncs, bytesize_fn, props);
    annotate_c_method(&mut cfuncs, module_name_fn, props);
    annotate_c_method(&mut cfuncs, module_eqq_fn, props);
    Annotations { cfuncs }
}

} // verus!
