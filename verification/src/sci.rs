//! The `sci` capability: a package that offers no function of its own yet.

use std::sync::Arc;
use vstd::prelude::*;
use crate::engine::{module_children, module_signatures, new_module, SharedModule};

verus! {

/// Scientific helpers for scripts; at present an empty module.
pub struct SciPackage {
    module: SharedModule,
}

impl SciPackage {
    /// The module that the package shares with every engine that uses it.
    pub closed spec fn shared(self) -> rhai::Module {
        *self.module
    }

    /// A package whose module holds no function and no sub-module, whatever
    /// path one follows in it.
    pub fn new() -> (package: Self)
        ensures
            forall|path: Seq<Seq<char>>|
                #[trigger] module_signatures(package.shared(), path) == Set::<Seq<char>>::empty(),
            forall|path: Seq<Seq<char>>|
                #[trigger] module_children(package.shared(), path) == Seq::<Seq<char>>::empty(),
    {
        let module = new_module();
        SciPackage { module: Arc::new(module) }
    }

    /// The package's module, shared.
    pub fn as_shared_module(&self) -> (module: SharedModule)
        ensures
            *module == self.shared(),
    {
        self.module.clone()
    }
}

impl Clone for SciPackage {
    fn clone(&self) -> (copy: Self)
        ensures
            copy.shared() == self.shared(),
    {
        SciPackage { module: self.module.clone() }
    }
}

impl Default for SciPackage {
    fn default() -> (package: Self)
        ensures
            forall|path: Seq<Seq<char>>|
                #[trigger] module_signatures(package.shared(), path) == Set::<Seq<char>>::empty(),
            forall|path: Seq<Seq<char>>|
                #[trigger] module_children(package.shared(), path) == Seq::<Seq<char>>::empty(),
    {
        SciPackage::new()
    }
}

} // verus!
