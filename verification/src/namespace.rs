//! The namespace tree: what one capability offers to scripts, as plain data.

use vstd::prelude::*;
use crate::text::{qualified, with_separator};

verus! {

/// One namespace: the callables it holds directly and the namespaces below it.
#[derive(Debug)]
pub struct NamespaceModule {
    /// The name under which the namespace is reached from its parent.
    pub name: String,
    /// The names of the callables at this level; a name may occur more than once.
    pub symbols: Vec<String>,
    /// The sub-namespaces.
    pub children: Vec<NamespaceModule>,
}

impl NamespaceModule {
    /// Whether the node, reached by `path`, gives rise to the completion entry
    /// `entry`: `path::symbol` for a callable, `path::child` and `path::child::`
    /// for a sub-namespace, and whatever that sub-namespace gives rise to in turn.
    pub open spec fn announces(self, path: Seq<char>, entry: Seq<char>) -> bool
        decreases self,
    {
        ||| exists|i: int|
            #![trigger self.symbols@[i]]
            0 <= i < self.symbols@.len() && entry == qualified(path, self.symbols@[i]@)
        ||| exists|i: int|
            #![trigger self.children@[i]]
            0 <= i < self.children@.len() && {
                let child = self.children@[i];
                let below = qualified(path, child.name@);
                ||| entry == below
                ||| entry == with_separator(below)
                ||| child.announces(below, entry)
            }
    }

    /// Whether `entry` is `path::symbol` for one of the first `count` callables.
    pub open spec fn names_symbol(self, count: int, path: Seq<char>, entry: Seq<char>) -> bool {
        exists|i: int|
            #![trigger self.symbols@[i]]
            0 <= i < count && i < self.symbols@.len() && entry == qualified(
                path,
                self.symbols@[i]@,
            )
    }

    /// Whether `entry` comes from one of the first `count` sub-namespaces.
    pub open spec fn names_below(self, count: int, path: Seq<char>, entry: Seq<char>) -> bool {
        exists|i: int|
            #![trigger self.children@[i]]
            0 <= i < count && i < self.children@.len() && self.children@[i].announced_under(
                path,
                entry,
            )
    }

    /// Whether `entry` is the node's own entry below `parent`, that entry with
    /// the separator, or an entry of the node's contents.
    pub open spec fn announced_under(self, parent: Seq<char>, entry: Seq<char>) -> bool {
        let below = qualified(parent, self.name@);
        ||| entry == below
        ||| entry == with_separator(below)
        ||| self.announces(below, entry)
    }

    /// Whether `entry` belongs to the index of this node as a top-level
    /// namespace: its bare name, its name with the separator, or an entry of
    /// its contents.
    pub open spec fn announced_at_root(self, entry: Seq<char>) -> bool {
        ||| entry == self.name@
        ||| entry == with_separator(self.name@)
        ||| self.announces(self.name@, entry)
    }

    /// `announces` is the union of what the callables and the sub-namespaces give.
    pub proof fn lemma_announces_split(self, path: Seq<char>, entry: Seq<char>)
        ensures
            self.announces(path, entry) <==> (self.names_symbol(
                self.symbols@.len() as int,
                path,
                entry,
            ) || self.names_below(self.children@.len() as int, path, entry)),
    {
        if self.announces(path, entry) {
            if exists|i: int|
                #![trigger self.symbols@[i]]
                0 <= i < self.symbols@.len() && entry == qualified(path, self.symbols@[i]@) {
            } else {
                let i = choose|i: int|
                    #![trigger self.children@[i]]
                    0 <= i < self.children@.len() && {
                        let child = self.children@[i];
                        let below = qualified(path, child.name@);
                        ||| entry == below
                        ||| entry == with_separator(below)
                        ||| child.announces(below, entry)
                    };
                assert(self.children@[i].announced_under(path, entry));
            }
        }
        if self.names_below(self.children@.len() as int, path, entry) {
            let i = choose|i: int|
                #![trigger self.children@[i]]
                0 <= i < self.children@.len() && self.children@[i].announced_under(path, entry);
            let child = self.children@[i];
            let below = qualified(path, child.name@);
            assert(entry == below || entry == with_separator(below) || child.announces(
                below,
                entry,
            ));
        }
    }
}

} // verus!
