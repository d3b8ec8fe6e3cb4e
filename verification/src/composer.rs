//! The module composer: turns what a capability provider offers into one
//! flattened engine module and the outline of its names.

use std::sync::Arc;
use vstd::prelude::*;
use vstd::string::*;
use crate::engine::{
    combine_flatten, flattened_signatures, function_signatures, module_children, module_height,
    module_signatures, new_module, sub_modules, unrivalled, SharedModule,
};
use crate::namespace::NamespaceModule;
use crate::text::holds;

verus! {

/// The number of characters of a signature that stand before its first `(`.
pub open spec fn name_length(signature: Seq<char>) -> int
    decreases signature.len(),
{
    if signature.len() == 0 || signature[0] == '(' {
        0
    } else {
        1 + name_length(signature.drop_first())
    }
}

/// The function name in a signature such as `rand(min: i64, max: i64) -> i64`:
/// what stands before the first `(`, or all of it where there is none.
pub open spec fn signature_name(signature: Seq<char>) -> Seq<char> {
    signature.take(name_length(signature))
}

/// The function names that a set of signatures mentions.
pub open spec fn symbol_names(signatures: Set<Seq<char>>) -> Set<Seq<char>> {
    Set::new(
        |name: Seq<char>|
            exists|s: Seq<char>| signatures.contains(s) && #[trigger] signature_name(s) == name,
    )
}

/// Reads the function name off a signature.
pub fn symbol_of_signature(signature: &str) -> (name: String)
    ensures
        name@ == signature_name(signature@),
{
    let n = signature.unicode_len();
    let mut k: usize = 0;
    proof {
        assert(signature@.skip(0) =~= signature@);
    }
    while k < n && signature.get_char(k) != '('
        invariant
            k <= n,
            n == signature@.len(),
            name_length(signature@) == k + name_length(signature@.skip(k as int)),
        decreases n - k,
    {
        proof {
            assert(signature@.skip(k as int).drop_first() =~= signature@.skip(k as int + 1));
        }
        k += 1;
    }
    assert(name_length(signature@) == k);
    let head = signature.substring_char(0, k);
    proof {
        assert(signature@.subrange(0, k as int) =~= signature@.take(k as int));
    }
    String::from_str(head)
}

/// Whether `outline` names exactly what `path` reaches in `module`: the
/// function names of that module's signatures, its sub-modules by name and in
/// order, and for each sub-module in turn what it holds.
pub open spec fn mirrors(
    outline: NamespaceModule,
    module: rhai::Module,
    path: Seq<Seq<char>>,
) -> bool
    decreases outline,
{
    &&& forall|x: Seq<char>|
        #![trigger holds(outline.symbols@, x)]
        holds(outline.symbols@, x) <==> symbol_names(module_signatures(module, path)).contains(x)
    &&& outline.children@.len() == module_children(module, path).len()
    &&& forall|i: int|
        #![trigger outline.children@[i]]
        0 <= i < outline.children@.len() ==> {
            &&& outline.children@[i].name@ == module_children(module, path)[i]
            &&& mirrors(outline.children@[i], module, path.push(outline.children@[i].name@))
        }
}

/// An outline of a sub-module is an outline of that part of the module
/// around it.
proof fn lemma_mirrors_below(
    outline: NamespaceModule,
    child: &rhai::Module,
    parent: &rhai::Module,
    name: Seq<char>,
    path: Seq<Seq<char>>,
)
    requires
        mirrors(outline, *child, path),
        forall|p: Seq<Seq<char>>|
            #[trigger] module_signatures(*child, p) == module_signatures(*parent, seq![name] + p),
        forall|p: Seq<Seq<char>>|
            #[trigger] module_children(*child, p) == module_children(*parent, seq![name] + p),
    ensures
        mirrors(outline, *parent, seq![name] + path),
    decreases outline,
{
    let longer = seq![name] + path;
    assert(module_signatures(*child, path) == module_signatures(*parent, longer));
    assert(module_children(*child, path) == module_children(*parent, longer));
    assert forall|i: int|
        #![trigger outline.children@[i]]
        0 <= i < outline.children@.len() implies mirrors(
        outline.children@[i],
        *parent,
        longer.push(outline.children@[i].name@),
    ) by {
        let below = outline.children@[i];
        lemma_mirrors_below(below, child, parent, name, path.push(below.name@));
        assert(seq![name] + path.push(below.name@) =~= longer.push(below.name@));
    }
}

/// The outline of an engine module: under `name`, the names of its public
/// functions and, for each sub-module in turn, that sub-module's outline.
pub fn outline_module(name: &str, module: &rhai::Module) -> (outline: NamespaceModule)
    ensures
        outline.name@ == name@,
        mirrors(outline, *module, Seq::empty()),
    decreases module_height(*module),
{
    let ghost root = Seq::<Seq<char>>::empty();
    let signatures = function_signatures(module);
    let mut symbols: Vec<String> = Vec::new();
    let mut i: usize = 0;
    while i < signatures.len()
        invariant
            i <= signatures.len(),
            symbols@.len() == i,
            forall|k: int|
                0 <= k < i ==> (#[trigger] symbols@[k])@ == signature_name(signatures@[k]@),
        decreases signatures.len() - i,
    {
        symbols.push(symbol_of_signature(signatures[i].as_str()));
        i += 1;
    }
    proof {
        assert forall|x: Seq<char>|
            #![trigger holds(symbols@, x)]
            holds(symbols@, x) <==> symbol_names(module_signatures(*module, root)).contains(
                x,
            ) by {
            if holds(symbols@, x) {
                let k = choose|k: int| 0 <= k < symbols@.len() && (#[trigger] symbols@[k])@ == x;
                assert(holds(signatures@, signatures@[k]@));
                assert(signature_name(signatures@[k]@) == x);
            }
            if symbol_names(module_signatures(*module, root)).contains(x) {
                let s = choose|s: Seq<char>|
                    module_signatures(*module, root).contains(s) && #[trigger] signature_name(s)
                        == x;
                assert(holds(signatures@, s));
                let k = choose|k: int|
                    0 <= k < signatures@.len() && (#[trigger] signatures@[k])@ == s;
                assert(symbols@[k]@ == x);
            }
        }
    }
    let below = sub_modules(module);
    let mut children: Vec<NamespaceModule> = Vec::new();
    let mut j: usize = 0;
    while j < below.len()
        invariant
            j <= below.len(),
            children@.len() == j,
            root == Seq::<Seq<char>>::empty(),
            below@.len() == module_children(*module, root).len(),
            forall|k: int|
                #![trigger below@[k]]
                0 <= k < below@.len() ==> {
                    &&& below@[k].0@ == module_children(*module, root)[k]
                    &&& module_height(*below@[k].1) < module_height(*module)
                    &&& forall|path: Seq<Seq<char>>|
                        #[trigger] module_signatures(*below@[k].1, path) == module_signatures(
                            *module,
                            seq![below@[k].0@] + path,
                        )
                    &&& forall|path: Seq<Seq<char>>|
                        #[trigger] module_children(*below@[k].1, path) == module_children(
                            *module,
                            seq![below@[k].0@] + path,
                        )
                },
            forall|k: int|
                #![trigger children@[k]]
                0 <= k < j ==> children@[k].name@ == module_children(*module, root)[k]
                    && mirrors(children@[k], *module, root.push(children@[k].name@)),
        decreases below.len() - j,
    {
        let child = outline_module(below[j].0.as_str(), &below[j].1);
        proof {
            let label = below@[j as int].0@;
            lemma_mirrors_below(child, &*below@[j as int].1, module, label, root);
            assert(seq![label] + root =~= root.push(label));
        }
        children.push(child);
        j += 1;
    }
    NamespaceModule { name: String::from_str(name), symbols, children }
}

/// A namespace ready for registration: the flattened engine module and the
/// outline that the completion index reads.
pub struct ComposedNamespace {
    /// The names that the namespace offers.
    pub outline: NamespaceModule,
    /// The engine module that holds the callables.
    pub module: SharedModule,
}

impl ComposedNamespace {
    /// The module is flat, and the outline names exactly what it holds.
    pub open spec fn wf(self) -> bool {
        &&& self.outline.children@.len() == 0
        &&& mirrors(self.outline, *self.module, Seq::empty())
    }

    /// The namespace offers no callable.
    pub open spec fn is_empty(self) -> bool {
        &&& self.outline.symbols@.len() == 0
        &&& module_signatures(*self.module, Seq::empty()) == Set::<Seq<char>>::empty()
    }
}

/// Whether some module at or below `module` has a function with the
/// signature `signature`.
pub open spec fn offers_signature(module: rhai::Module, signature: Seq<char>) -> bool {
    exists|path: Seq<Seq<char>>| #[trigger] module_signatures(module, path).contains(signature)
}

/// Whether some module at or below `module` has a function named `name`.
pub open spec fn offers_symbol(module: rhai::Module, name: Seq<char>) -> bool {
    exists|path: Seq<Seq<char>>|
        #[trigger] symbol_names(module_signatures(module, path)).contains(name)
}

/// Merges a provider's module and all its sub-modules into one module
/// without sub-modules. The public functions of the result are a matter of
/// the provider alone. Among them are every function of the provider's own
/// module and every function of a module below it whose name no other module
/// of the provider uses; a name used twice goes to the function that the
/// engine's flattening prefers. The result holds nothing that the provider
/// does not hold somewhere.
pub fn flatten_package_module(package: &SharedModule) -> (flat: SharedModule)
    ensures
        module_children(*flat, Seq::empty()).len() == 0,
        module_signatures(*flat, Seq::empty()) == flattened_signatures(**package),
        forall|s: Seq<char>|
            module_signatures(**package, Seq::empty()).contains(s) ==> #[trigger] module_signatures(
                *flat,
                Seq::empty(),
            ).contains(s),
        forall|path: Seq<Seq<char>>, s: Seq<char>|
            #[trigger] module_signatures(**package, path).contains(s) && unrivalled(
                **package,
                path,
                signature_name(s),
            ) ==> module_signatures(*flat, Seq::empty()).contains(s),
        forall|s: Seq<char>|
            #[trigger] module_signatures(*flat, Seq::empty()).contains(s) ==> offers_signature(
                **package,
                s,
            ),
{
    let mut module = new_module();
    combine_flatten(&mut module, package);
    Arc::new(module)
}

/// Composes the namespace `name` from a provider's module: the module is
/// flattened, and its outline is taken. The outline lists exactly the
/// function names of the flattened provider, which are a matter of the
/// provider alone: every function name of the provider's own module, every
/// name that only one module of the provider uses, and no name that the
/// provider does not have somewhere.
pub fn compose_namespace(name: &str, package: &SharedModule) -> (composed: ComposedNamespace)
    ensures
        composed.wf(),
        composed.outline.name@ == name@,
        module_signatures(*composed.module, Seq::empty()) == flattened_signatures(**package),
        forall|s: Seq<char>|
            #[trigger] module_signatures(*composed.module, Seq::empty()).contains(s)
                ==> offers_signature(**package, s),
        forall|x: Seq<char>|
            #![trigger holds(composed.outline.symbols@, x)]
            holds(composed.outline.symbols@, x) <==> symbol_names(
                flattened_signatures(**package),
            ).contains(x),
        forall|x: Seq<char>|
            symbol_names(module_signatures(**package, Seq::empty())).contains(x) ==> #[trigger] holds(
                composed.outline.symbols@,
                x,
            ),
        forall|path: Seq<Seq<char>>, s: Seq<char>|
            #[trigger] module_signatures(**package, path).contains(s) && unrivalled(
                **package,
                path,
                signature_name(s),
            ) ==> holds(composed.outline.symbols@, signature_name(s)),
        forall|x: Seq<char>|
            #[trigger] holds(composed.outline.symbols@, x) ==> offers_symbol(**package, x),
{
    let module = flatten_package_module(package);
    let outline = outline_module(name, &module);
    proof {
        let root = Seq::<Seq<char>>::empty();
        assert forall|x: Seq<char>|
            symbol_names(module_signatures(**package, root)).contains(x) implies #[trigger] holds(
            outline.symbols@,
            x,
        ) by {
            let s = choose|s: Seq<char>|
                module_signatures(**package, root).contains(s) && #[trigger] signature_name(s)
                    == x;
            assert(module_signatures(*module, root).contains(s));
            assert(symbol_names(module_signatures(*module, root)).contains(x));
        }
        assert forall|path: Seq<Seq<char>>, s: Seq<char>|
            #[trigger] module_signatures(**package, path).contains(s) && unrivalled(
                **package,
                path,
                signature_name(s),
            ) implies holds(outline.symbols@, signature_name(s)) by {
            assert(module_signatures(*module, root).contains(s));
            assert(symbol_names(module_signatures(*module, root)).contains(signature_name(s)));
        }
        assert forall|x: Seq<char>| #[trigger] holds(outline.symbols@, x) implies offers_symbol(
            **package,
            x,
        ) by {
            assert(symbol_names(module_signatures(*module, root)).contains(x));
            let s = choose|s: Seq<char>|
                module_signatures(*module, root).contains(s) && #[trigger] signature_name(s) == x;
            assert(offers_signature(**package, s));
            let path = choose|path: Seq<Seq<char>>|
                #[trigger] module_signatures(**package, path).contains(s);
            assert(symbol_names(module_signatures(**package, path)).contains(x));
        }
    }
    ComposedNamespace { outline, module }
}

/// Composing is a function of the provider: two namespaces composed from one
/// provider list the same function names.
pub proof fn lemma_compose_agrees(
    first: ComposedNamespace,
    second: ComposedNamespace,
    package: rhai::Module,
)
    requires
        forall|x: Seq<char>|
            #![trigger holds(first.outline.symbols@, x)]
            holds(first.outline.symbols@, x) <==> symbol_names(
                flattened_signatures(package),
            ).contains(x),
        forall|x: Seq<char>|
            #![trigger holds(second.outline.symbols@, x)]
            holds(second.outline.symbols@, x) <==> symbol_names(
                flattened_signatures(package),
            ).contains(x),
    ensures
        forall|x: Seq<char>|
            holds(first.outline.symbols@, x) <==> holds(second.outline.symbols@, x),
{
}

} // verus!
