//! The script engine as this library sees it: the engine's own types, named
//! views of what they hold, and one wrapper for each engine call the library
//! makes. Nothing in this file is proved; every contract here is taken from
//! the engine's source.

use std::sync::Arc;
use rhai::packages::Package;
use vstd::prelude::*;
use crate::composer::signature_name;
use crate::host::forward_print;
use crate::text::{has_separator, holds};

verus! {

/// A module handle as the engine shares it between its users.
pub type SharedModule = Arc<rhai::Module>;

/// `rhai::Module`, of which the library sees what the names below tell.
#[verifier::external_type_specification]
#[verifier::external_body]
pub struct ExModule(rhai::Module);

/// `rhai::Engine`, of which the library sees the names of its static modules.
#[verifier::external_type_specification]
#[verifier::external_body]
pub struct ExEngine(rhai::Engine);

/// `rhai::Scope`, of which the library sees the number of its entries.
#[verifier::external_type_specification]
#[verifier::external_body]
pub struct ExScope<'a>(rhai::Scope<'a>);

/// `rhai::AST`, a compiled script; carried from compilation to evaluation.
#[verifier::external_type_specification]
#[verifier::external_body]
pub struct ExAst(rhai::AST);

/// The signatures, as `rhai::Module::gen_fn_signatures_with_mapper` renders
/// them, of the public functions registered directly in the module that is
/// reached from `module` through the sub-modules that `path` names in turn;
/// the empty path reaches `module` itself.
pub uninterp spec fn module_signatures(module: rhai::Module, path: Seq<Seq<char>>) -> Set<
    Seq<char>,
>;

/// The names of the direct sub-modules of the module that `path` reaches
/// from `module`, in the order in which `rhai::Module::iter_sub_modules`
/// yields them.
pub uninterp spec fn module_children(module: rhai::Module, path: Seq<Seq<char>>) -> Seq<
    Seq<char>,
>;

/// For each function, public or private, registered directly in the module
/// that `path` reaches from `module`: what stands before the first `(` of the
/// signature that `rhai::FuncMetadata::gen_signature` renders for it.
pub uninterp spec fn module_function_names(module: rhai::Module, path: Seq<Seq<char>>) -> Set<
    Seq<char>,
>;

/// The signatures of the public functions of the module that
/// `rhai::Module::combine_flatten` makes of `source` when it merges it into a
/// module that has no public function.
pub uninterp spec fn flattened_signatures(source: rhai::Module) -> Set<Seq<char>>;

/// What `rhai::Engine::compile` makes of a script under an engine: `None`
/// where the script compiles, else the text that `Display` gives for the
/// parse error.
pub uninterp spec fn compile_diagnostic(engine: rhai::Engine, script: Seq<char>) -> Option<
    Seq<char>,
>;

/// Whether no module of `source` but the one that `path` reaches has a
/// function named `name`.
pub open spec fn unrivalled(source: rhai::Module, path: Seq<Seq<char>>, name: Seq<char>) -> bool {
    forall|other: Seq<Seq<char>>|
        other != path ==> !(#[trigger] module_function_names(source, other)).contains(name)
}

/// How many levels of sub-modules a module has below it.
pub uninterp spec fn module_height(module: rhai::Module) -> nat;

/// The names under which static modules are registered with an engine.
pub uninterp spec fn engine_namespaces(engine: rhai::Engine) -> Set<Seq<char>>;

/// The signatures, as `module_signatures` gives them for a module, of the
/// public functions of the static module that is registered with an engine
/// under `name`.
pub uninterp spec fn engine_module_signatures(engine: rhai::Engine, name: Seq<char>) -> Set<
    Seq<char>,
>;

/// The number of entries in a scope, as `rhai::Scope::len` counts them.
pub uninterp spec fn scope_len(scope: rhai::Scope<'static>) -> nat;

/// `rhai::Module::new`: a module without functions and without sub-modules,
/// so that no path reaches anything in it.
#[verifier::external_body]
pub(crate) fn new_module() -> (module: rhai::Module)
    ensures
        forall|path: Seq<Seq<char>>|
            #[trigger] module_signatures(module, path) == Set::<Seq<char>>::empty(),
        forall|path: Seq<Seq<char>>|
            #[trigger] module_children(module, path) == Seq::<Seq<char>>::empty(),
        forall|path: Seq<Seq<char>>|
            #[trigger] module_function_names(module, path) == Set::<Seq<char>>::empty(),
{
    rhai::Module::new()
}

/// `rhai::Module::combine_flatten`, on a copy of `source`: the functions of
/// `source` and of all its sub-modules are merged into `target` itself, and
/// the sub-modules of `target` stay as they are.
///
/// The functions are merged from the sub-modules upwards, and a function
/// that comes later replaces one of the same name and parameter types that
/// came before. So every function of `source` itself is in `target`
/// afterwards, and so is every function of a module below `source` whose
/// name no other module of `source` uses. A function that `target` holds
/// afterwards it held before, or it comes from `source` or from a module
/// below `source`. Where `target` had no public function, its public
/// functions afterwards are a matter of `source` alone.
#[verifier::external_body]
pub(crate) fn combine_flatten(target: &mut rhai::Module, source: &SharedModule)
    ensures
        forall|path: Seq<Seq<char>>|
            #[trigger] module_children(*final(target), path) == module_children(
                *old(target),
                path,
            ),
        forall|s: Seq<char>|
            module_signatures(**source, Seq::empty()).contains(s) ==> #[trigger] module_signatures(
                *final(target),
                Seq::empty(),
            ).contains(s),
        forall|path: Seq<Seq<char>>, s: Seq<char>|
            #[trigger] module_signatures(**source, path).contains(s) && unrivalled(
                **source,
                path,
                signature_name(s),
            ) ==> module_signatures(*final(target), Seq::empty()).contains(s),
        forall|s: Seq<char>|
            #[trigger] module_signatures(*final(target), Seq::empty()).contains(s) ==> (
            module_signatures(*old(target), Seq::empty()).contains(s) || exists|
                path: Seq<Seq<char>>,
            |
                #[trigger] module_signatures(**source, path).contains(s)),
        module_signatures(*old(target), Seq::empty()) == Set::<Seq<char>>::empty()
            ==> module_signatures(*final(target), Seq::empty()) == flattened_signatures(**source),
{
    target.combine_flatten(source.as_ref().clone());
}

/// `rhai::Module::gen_fn_signatures_with_mapper` with the identity mapping:
/// one signature for each public function of the module, in no stated order.
/// Each of them is the signature of a function of the module.
#[verifier::external_body]
pub(crate) fn function_signatures(module: &rhai::Module) -> (signatures: Vec<String>)
    ensures
        forall|s: Seq<char>|
            #![trigger holds(signatures@, s)]
            holds(signatures@, s) <==> module_signatures(*module, Seq::empty()).contains(s),
        forall|s: Seq<char>|
            #![trigger holds(signatures@, s)]
            holds(signatures@, s) ==> module_function_names(*module, Seq::empty()).contains(
                signature_name(s),
            ),
{
    module.gen_fn_signatures_with_mapper(Into::into).collect()
}

/// `rhai::Module::iter_sub_modules`: each direct sub-module with its name.
/// What a path reaches in a sub-module is what the sub-module's name and
/// then that path reach in the module. A sub-module lies below the module
/// that holds it, so it has fewer levels below it.
#[verifier::external_body]
pub(crate) fn sub_modules(module: &rhai::Module) -> (children: Vec<(String, SharedModule)>)
    ensures
        children@.len() == module_children(*module, Seq::empty()).len(),
        forall|i: int|
            #![trigger children@[i]]
            0 <= i < children@.len() ==> {
                &&& children@[i].0@ == module_children(*module, Seq::empty())[i]
                &&& module_height(*children@[i].1) < module_height(*module)
                &&& forall|path: Seq<Seq<char>>|
                    #[trigger] module_signatures(*children@[i].1, path) == module_signatures(
                        *module,
                        seq![children@[i].0@] + path,
                    )
                &&& forall|path: Seq<Seq<char>>|
                    #[trigger] module_children(*children@[i].1, path) == module_children(
                        *module,
                        seq![children@[i].0@] + path,
                    )
                &&& forall|path: Seq<Seq<char>>|
                    #[trigger] module_function_names(*children@[i].1, path)
                        == module_function_names(*module, seq![children@[i].0@] + path)
            },
{
    module.iter_sub_modules().map(|(name, child)| (name.to_string(), child.clone())).collect()
}

/// The module of `rhai_rand::RandomPackage`.
#[verifier::external_body]
pub(crate) fn rand_package_module() -> SharedModule {
    rhai_rand::RandomPackage::new().as_shared_module()
}

/// The module of `rhai_fs::FilesystemPackage`.
#[verifier::external_body]
pub(crate) fn fs_package_module() -> SharedModule {
    rhai_fs::FilesystemPackage::new().as_shared_module()
}

/// The module of `rhai_url::UrlPackage`.
#[verifier::external_body]
pub(crate) fn url_package_module() -> SharedModule {
    rhai_url::UrlPackage::new().as_shared_module()
}

/// The module of `rhai_ml::MLPackage`.
#[verifier::external_body]
pub(crate) fn ml_package_module() -> SharedModule {
    rhai_ml::MLPackage::new().as_shared_module()
}

/// `rhai::Engine::new`: an engine with no static module registered.
#[verifier::external_body]
pub(crate) fn new_engine() -> (engine: rhai::Engine)
    ensures
        engine_namespaces(engine) == Set::<Seq<char>>::empty(),
{
    rhai::Engine::new()
}

/// `rhai::Engine::register_static_module` for a name without `::`: the
/// module is registered under exactly that name, replacing a module that was
/// registered under it before. What stands under the name afterwards is the
/// module handed in or an indexed copy of it, with the same functions; what
/// stands under other names stays.
#[verifier::external_body]
pub(crate) fn register_static_module(
    engine: &mut rhai::Engine,
    name: &str,
    module: &SharedModule,
)
    requires
        !has_separator(name@),
    ensures
        engine_namespaces(*final(engine)) == engine_namespaces(*old(engine)).insert(name@),
        engine_module_signatures(*final(engine), name@) == module_signatures(
            **module,
            Seq::empty(),
        ),
        forall|other: Seq<char>|
            other != name@ ==> #[trigger] engine_module_signatures(*final(engine), other)
                == engine_module_signatures(*old(engine), other),
{
    engine.register_static_module(name, module.clone());
}

/// `rhai::Engine::on_print`: from now on each `print` of a script hands its
/// text to `sink`; an earlier hook is replaced. The registered modules stay.
#[verifier::external_body]
pub(crate) fn on_print<F: ?Sized + Fn(String) + Send + Sync + 'static>(
    engine: &mut rhai::Engine,
    sink: &Arc<F>,
)
    requires
        forall|message: String| call_requires(&**sink, (message,)),
    ensures
        engine_namespaces(*final(engine)) == engine_namespaces(*old(engine)),
        forall|name: Seq<char>|
            #[trigger] engine_module_signatures(*final(engine), name) == engine_module_signatures(
                *old(engine),
                name,
            ),
{
    let target = Arc::clone(sink);
    engine.on_print(move |text| forward_print(&target, text));
}

/// `rhai::Engine::compile`; a parse error is handed out as the text that its
/// `Display` gives. Whether a script compiles under an engine, and with
/// which diagnostic it does not, is a matter of the engine and the script.
#[verifier::external_body]
pub(crate) fn compile(engine: &rhai::Engine, script: &str) -> (compiled: Result<rhai::AST, String>)
    ensures
        compiled matches Ok(_) ==> compile_diagnostic(*engine, script@) is None,
        compiled matches Err(diagnostic) ==> compile_diagnostic(*engine, script@) == Some(
            diagnostic@,
        ),
{
    engine.compile(script).map_err(|error| error.to_string())
}

/// `rhai::Engine::eval_ast` to a `Dynamic`, against a fresh scope; the value
/// is handed out as the text that its `Display` gives, an error as the text
/// that its `Debug` gives, which shows what was thrown.
#[verifier::external_body]
pub(crate) fn eval_ast(engine: &rhai::Engine, ast: &rhai::AST) -> Result<String, String> {
    engine.eval_ast::<rhai::Dynamic>(ast).map(|value| value.to_string()).map_err(
        |error| format!("{:?}", error),
    )
}

/// `rhai::Engine::eval_with_scope` to a `Dynamic`; value and error are
/// handed out as `eval_ast` hands them out. What the scope holds afterwards
/// is left open.
#[verifier::external_body]
pub(crate) fn eval_with_scope(
    engine: &rhai::Engine,
    scope: &mut rhai::Scope<'static>,
    script: &str,
) -> Result<String, String> {
    engine.eval_with_scope::<rhai::Dynamic>(scope, script).map(|value| value.to_string()).map_err(
        |error| format!("{:?}", error),
    )
}

/// `rhai::Scope::new`: a scope without entries.
#[verifier::external_body]
pub(crate) fn new_scope() -> (scope: rhai::Scope<'static>)
    ensures
        scope_len(scope) == 0,
{
    rhai::Scope::new()
}

/// `rhai::Scope::len`.
#[verifier::external_body]
pub(crate) fn scope_entries(scope: &rhai::Scope<'static>) -> (count: usize)
    ensures
        count == scope_len(*scope),
{
    scope.len()
}

} // verus!
