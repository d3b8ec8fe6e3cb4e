//! The execution host: engines configured from a toggle set, one-shot runs,
//! and the long-lived session behind the REPL. Every event of a run, print
//! or terminal, leaves through the caller's sink.

use std::sync::Arc;
use vstd::prelude::*;
use vstd::string::*;
use crate::completion::{
    completion_index, indexed, lemma_index_hierarchy, lemma_sorted_lists_agree, readings,
    strictly_sorted,
};
use crate::composer::{symbol_names, ComposedNamespace};
use crate::engine::{
    compile, compile_diagnostic, engine_module_signatures, engine_namespaces, eval_ast,
    eval_with_scope, module_signatures, new_engine, new_scope, on_print, register_static_module,
    scope_entries, scope_len,
};
use crate::namespace::NamespaceModule;
use crate::registry::{
    apply_selection, build_namespaces, capability_at, catalogue, describe,
    lemma_enabled_names_distinct, namespace_names, sci_is_empty, selects, Capability,
    CapabilityDescriptor, ToggleSet,
};
use crate::text::{has_separator, holds, qualified, with_separator};

verus! {

/// The names in a list, as a set.
pub open spec fn name_set(names: Seq<Seq<char>>) -> Set<Seq<char>> {
    Set::new(|name: Seq<char>| names.contains(name))
}

/// The outlines of a list of composed namespaces, in order.
pub open spec fn outlines_of(namespaces: Seq<ComposedNamespace>) -> Seq<NamespaceModule> {
    Seq::new(namespaces.len(), |i: int| namespaces[i].outline)
}

/// Whether `outlines` are flat namespaces named, in order, after the active
/// capabilities of `toggles`.
pub open spec fn outlines_match(outlines: Seq<NamespaceModule>, toggles: ToggleSet) -> bool {
    &&& outlines.len() == toggles.enabled_names().len()
    &&& forall|i: int|
        0 <= i < outlines.len() ==> (#[trigger] outlines[i]).name@ == toggles.enabled_names()[i]
            && outlines[i].children@.len() == 0
    &&& forall|i: int|
        0 <= i < outlines.len() && (#[trigger] outlines[i]).name@ == Capability::Sci.spec_name()
            ==> outlines[i].symbols@.len() == 0
}

/// Nothing is listed below `sci::`: the `sci` namespace offers no callable,
/// and no other namespace begins as it does.
pub proof fn lemma_nothing_under_sci(
    outlines: Seq<NamespaceModule>,
    toggles: ToggleSet,
    rest: Seq<char>,
)
    requires
        outlines_match(outlines, toggles),
        indexed(outlines, qualified(Capability::Sci.spec_name(), rest)),
    ensures
        rest.len() == 0,
{
    toggles.lemma_enabled_names();
    reveal_strlit("rand");
    reveal_strlit("fs");
    reveal_strlit("url");
    reveal_strlit("ml");
    reveal_strlit("sci");
    let entry = qualified(Capability::Sci.spec_name(), rest);
    assert(entry.len() == 5 + rest.len());
    assert(entry[0] == 's');
    let i = choose|i: int|
        #![trigger outlines[i]]
        0 <= i < outlines.len() && outlines[i].announced_at_root(entry);
    let node = outlines[i];
    let name = node.name@;
    let c = choose|c: Capability| toggles.enabled(c) && c.spec_name() == toggles.enabled_names()[i];
    assert(name == c.spec_name());
    assert(name.len() > 0 && name[0] == c.spec_name()[0]);
    node.lemma_announces_split(name, entry);
    assert(!node.names_below(node.children@.len() as int, name, entry));
    if node.announces(name, entry) {
        let k = choose|k: int|
            #![trigger node.symbols@[k]]
            0 <= k < node.symbols@.len() && k < node.symbols@.len() && entry == qualified(
                name,
                node.symbols@[k]@,
            );
        assert(entry[0] == name[0]);
    } else if entry == with_separator(name) {
        assert(entry[0] == name[0]);
    } else {
        assert(entry[0] == name[0]);
    }
    assert(c == Capability::Sci);
    assert(node.symbols@.len() == 0);
    assert(!node.announces(name, entry));
    assert(entry.len() != name.len());
    assert(entry == with_separator(name));
    assert(with_separator(name).len() == 5);
}

/// Whether `entries` lists exactly the index of some flat namespaces named,
/// in order, after the active capabilities of `toggles`. Which callables the
/// namespaces hold is for their providers to say.
pub open spec fn indexes_active(entries: Seq<String>, toggles: ToggleSet) -> bool {
    exists|outlines: Seq<NamespaceModule>|
        #![trigger outlines_match(outlines, toggles)]
        outlines_match(outlines, toggles) && forall|e: Seq<char>|
            #![trigger holds(entries, e)]
            holds(entries, e) <==> indexed(outlines, e)
}

/// Whether `entry` has its place in the hierarchy of a completion list: it
/// names an active capability; or it is `p::` and the list holds `p`; or it
/// is `p::s` with something for `s`, and the list holds `p::`.
pub open spec fn has_place(entries: Seq<String>, toggles: ToggleSet, entry: Seq<char>) -> bool {
    ||| exists|c: Capability| toggles.enabled(c) && entry == #[trigger] c.spec_name()
    ||| exists|p: Seq<char>| entry == with_separator(p) && #[trigger] holds(entries, p)
    ||| exists|p: Seq<char>, s: Seq<char>|
        entry == #[trigger] qualified(p, s) && s.len() > 0 && holds(entries, with_separator(p))
}

/// Whether the engine holds, under the name of each outline, a module with
/// exactly the function names that the outline lists.
pub open spec fn outlines_serve(engine: rhai::Engine, outlines: Seq<NamespaceModule>) -> bool {
    forall|i: int, x: Seq<char>|
        #![trigger holds(outlines[i].symbols@, x)]
        0 <= i < outlines.len() ==> (holds(outlines[i].symbols@, x) <==> symbol_names(
            engine_module_signatures(engine, outlines[i].name@),
        ).contains(x))
}

/// Whether the namespaces registered with the engine under the names of the
/// active capabilities of `toggles` are flat, with nothing under `sci`, and
/// hold the functions that some outlines of those names list.
pub open spec fn serves_active(engine: rhai::Engine, toggles: ToggleSet) -> bool {
    exists|outlines: Seq<NamespaceModule>|
        #![trigger outlines_match(outlines, toggles)]
        outlines_match(outlines, toggles) && outlines_serve(engine, outlines)
}

/// Registers each namespace with the engine under its name: afterwards the
/// engine holds under each of the names a module with the functions of that
/// namespace's module.
pub(crate) fn register_namespaces(engine: &mut rhai::Engine, namespaces: &Vec<ComposedNamespace>)
    requires
        forall|i: int|
            0 <= i < namespaces@.len() ==> !has_separator((#[trigger] namespaces@[i]).outline.name@),
        forall|i: int, j: int|
            0 <= i < j < namespaces@.len() ==> (#[trigger] namespaces@[i]).outline.name@ != (
            #[trigger] namespaces@[j]).outline.name@,
    ensures
        engine_namespaces(*final(engine)) == engine_namespaces(*old(engine)).union(
            name_set(namespace_names(namespaces@)),
        ),
        forall|i: int|
            0 <= i < namespaces@.len() ==> engine_module_signatures(
                *final(engine),
                (#[trigger] namespaces@[i]).outline.name@,
            ) == module_signatures(*namespaces@[i].module, Seq::empty()),
{
    let ghost base = engine_namespaces(*engine);
    let ghost names = namespace_names(namespaces@);
    let mut i: usize = 0;
    assert(engine_namespaces(*engine) =~= base.union(name_set(names.take(0))));
    while i < namespaces.len()
        invariant
            i <= namespaces.len(),
            names == namespace_names(namespaces@),
            forall|k: int|
                0 <= k < namespaces@.len() ==> !has_separator(
                    (#[trigger] namespaces@[k]).outline.name@,
                ),
            forall|k: int, j: int|
                0 <= k < j < namespaces@.len() ==> (#[trigger] namespaces@[k]).outline.name@ != (
                #[trigger] namespaces@[j]).outline.name@,
            engine_namespaces(*engine) == base.union(name_set(names.take(i as int))),
            forall|k: int|
                0 <= k < i ==> engine_module_signatures(
                    *engine,
                    (#[trigger] namespaces@[k]).outline.name@,
                ) == module_signatures(*namespaces@[k].module, Seq::empty()),
        decreases namespaces.len() - i,
    {
        let namespace = &namespaces[i];
        register_static_module(engine, namespace.outline.name.as_str(), &namespace.module);
        proof {
            let shorter = names.take(i as int);
            let longer = names.take(i as int + 1);
            assert(longer =~= shorter.push(names[i as int]));
            assert forall|n: Seq<char>|
                name_set(longer).contains(n) <==> (name_set(shorter).contains(n) || n
                    == names[i as int]) by {
                if shorter.contains(n) {
                    let k = choose|k: int| 0 <= k < shorter.len() && shorter[k] == n;
                    assert(longer[k] == n);
                }
                if n == names[i as int] {
                    assert(longer[i as int] == n);
                }
            }
            assert(engine_namespaces(*engine) =~= base.union(name_set(longer)));
            assert forall|k: int| 0 <= k < i + 1 implies engine_module_signatures(
                *engine,
                (#[trigger] namespaces@[k]).outline.name@,
            ) == module_signatures(*namespaces@[k].module, Seq::empty()) by {
                if k < i {
                    assert(namespaces@[k].outline.name@ != namespaces@[i as int].outline.name@);
                }
            }
        }
        i += 1;
    }
    proof {
        assert(names.take(names.len() as int) =~= names);
    }
}

/// The outlines of a list of namespaces, taken out of it.
fn take_outlines(namespaces: Vec<ComposedNamespace>) -> (outlines: Vec<NamespaceModule>)
    ensures
        outlines@ == outlines_of(namespaces@),
{
    let mut rest = namespaces;
    let ghost built = rest@;
    let mut outlines: Vec<NamespaceModule> = Vec::new();
    while rest.len() > 0
        invariant
            outlines@.len() + rest@.len() == built.len(),
            forall|k: int| 0 <= k < outlines@.len() ==> outlines@[k] == (#[trigger] built[k]).outline,
            forall|k: int|
                0 <= k < rest@.len() ==> (#[trigger] rest@[k]) == built[outlines@.len() + k],
        decreases rest.len(),
    {
        let namespace = rest.remove(0);
        outlines.push(namespace.outline);
    }
    assert(outlines@ =~= outlines_of(built));
    outlines
}

/// The outlines of the namespaces that `build_namespaces` gives for a toggle
/// set are flat, go by the enabled names, and list nothing under `sci`.
proof fn lemma_built_outlines(built: Seq<ComposedNamespace>, toggles: ToggleSet)
    requires
        namespace_names(built) == toggles.enabled_names(),
        forall|i: int| 0 <= i < built.len() ==> (#[trigger] built[i]).wf(),
        sci_is_empty(built),
    ensures
        outlines_match(outlines_of(built), toggles),
{
    let outlines = outlines_of(built);
    let names = toggles.enabled_names();
    assert forall|i: int| 0 <= i < outlines.len() implies (#[trigger] outlines[i]).name@
        == names[i] && outlines[i].children@.len() == 0 by {
        assert(built[i].wf());
        assert(namespace_names(built)[i] == built[i].outline.name@);
    }
    assert forall|i: int|
        0 <= i < outlines.len() && (#[trigger] outlines[i]).name@
            == Capability::Sci.spec_name() implies outlines[i].symbols@.len() == 0 by {
        assert(built[i].outline.name@ == Capability::Sci.spec_name());
        assert(built[i].is_empty());
    }
}

/// Registers the namespace of every active capability of `toggles` with the
/// engine, and hands back the engine together with the outlines of what was
/// registered: under each enabled name the engine holds a module with
/// exactly the function names that the outline of that name lists.
pub fn configure_indexed(engine: rhai::Engine, toggles: &ToggleSet) -> (configured: (
    rhai::Engine,
    Vec<NamespaceModule>,
))
    ensures
        engine_namespaces(configured.0) == engine_namespaces(engine).union(
            name_set(toggles.enabled_names()),
        ),
        outlines_match(configured.1@, *toggles),
        outlines_serve(configured.0, configured.1@),
{
    let mut engine = engine;
    let namespaces = build_namespaces(toggles);
    let ghost built = namespaces@;
    proof {
        toggles.lemma_enabled_names();
        lemma_enabled_names_distinct(*toggles);
        assert forall|i: int| 0 <= i < built.len() implies !has_separator(
            (#[trigger] built[i]).outline.name@,
        ) by {
            assert(built[i].outline.name@ == namespace_names(built)[i]);
            capability_at(*toggles, i).lemma_name_is_plain();
        }
        assert forall|i: int, j: int| 0 <= i < j < built.len() implies (#[trigger] built[i]).outline.name@
            != (#[trigger] built[j]).outline.name@ by {
            assert(built[i].outline.name@ == namespace_names(built)[i]);
            assert(built[j].outline.name@ == namespace_names(built)[j]);
        }
    }
    register_namespaces(&mut engine, &namespaces);
    let outlines = take_outlines(namespaces);
    proof {
        lemma_built_outlines(built, *toggles);
        assert forall|i: int, x: Seq<char>|
            #![trigger holds(outlines@[i].symbols@, x)]
            0 <= i < outlines@.len() implies (holds(outlines@[i].symbols@, x) <==> symbol_names(
            engine_module_signatures(engine, outlines@[i].name@),
        ).contains(x)) by {
            assert(built[i].wf());
            assert(outlines@[i] == built[i].outline);
            assert(engine_module_signatures(engine, built[i].outline.name@) == module_signatures(
                *built[i].module,
                Seq::empty(),
            ));
        }
    }
    (engine, outlines)
}

/// Registers the namespace of every active capability of `toggles` with the
/// engine, and hands the engine back. The modules registered are flat; under
/// `sci` stands a module without functions.
pub fn configure_engine_for(engine: rhai::Engine, toggles: &ToggleSet) -> (configured:
    rhai::Engine)
    ensures
        engine_namespaces(configured) == engine_namespaces(engine).union(
            name_set(toggles.enabled_names()),
        ),
        serves_active(configured, *toggles),
{
    let (configured, outlines) = configure_indexed(engine, toggles);
    assert(outlines_match(outlines@, *toggles) && outlines_serve(configured, outlines@));
    configured
}

/// Registers every bundled namespace with the engine, and hands the engine
/// back.
pub fn configure_engine(engine: rhai::Engine) -> (configured: rhai::Engine)
    ensures
        engine_namespaces(configured) == engine_namespaces(engine).union(
            name_set(ToggleSet::all_active().enabled_names()),
        ),
        forall|c: Capability| engine_namespaces(configured).contains(c.spec_name()),
        serves_active(configured, ToggleSet::all_active()),
{
    let toggles = ToggleSet::all();
    let configured = configure_engine_for(engine, &toggles);
    proof {
        toggles.lemma_enabled_names();
        assert forall|c: Capability| engine_namespaces(configured).contains(
            c.spec_name(),
        ) by {
            assert(toggles.enabled(c));
            assert(toggles.enabled_names().contains(c.spec_name()));
        }
    }
    configured
}

/// The completion entries under a toggle set: the index of the namespaces of
/// its active capabilities, sorted, each entry once.
pub fn completion_entries(toggles: &ToggleSet) -> (entries: Vec<String>)
    ensures
        strictly_sorted(entries@),
        forall|c: Capability|
            toggles.enabled(c) ==> holds(entries@, #[trigger] c.spec_name()) && holds(
                entries@,
                with_separator(c.spec_name()),
            ),
        forall|e: Seq<char>| #[trigger] holds(entries@, e) ==> has_place(entries@, *toggles, e),
        forall|rest: Seq<char>|
            holds(entries@, #[trigger] qualified(Capability::Sci.spec_name(), rest))
                ==> rest.len() == 0,
        indexes_active(entries@, *toggles),
{
    let namespaces = build_namespaces(toggles);
    let ghost built = namespaces@;
    let outlines = take_outlines(namespaces);
    let entries = completion_index(&outlines);
    proof {
        lemma_built_outlines(built, *toggles);
        lemma_entries_of_outlines(entries@, outlines@, *toggles);
    }
    entries
}

/// What a list that indexes outlines of the active capabilities holds: the
/// name of every active capability, bare and with the separator; every
/// entry in its place in the hierarchy; and nothing under `sci::`.
pub proof fn lemma_entries_of_outlines(
    entries: Seq<String>,
    outlines: Seq<NamespaceModule>,
    toggles: ToggleSet,
)
    requires
        outlines_match(outlines, toggles),
        forall|e: Seq<char>| #![trigger holds(entries, e)] holds(entries, e) <==> indexed(outlines, e),
    ensures
        forall|c: Capability|
            toggles.enabled(c) ==> holds(entries, #[trigger] c.spec_name()) && holds(
                entries,
                with_separator(c.spec_name()),
            ),
        forall|e: Seq<char>| #[trigger] holds(entries, e) ==> has_place(entries, toggles, e),
        forall|rest: Seq<char>|
            holds(entries, #[trigger] qualified(Capability::Sci.spec_name(), rest))
                ==> rest.len() == 0,
        indexes_active(entries, toggles),
{
    let names = toggles.enabled_names();
    toggles.lemma_enabled_names();
    assert forall|c: Capability| toggles.enabled(c) implies holds(
        entries,
        #[trigger] c.spec_name(),
    ) && holds(entries, with_separator(c.spec_name())) by {
        let i = choose|i: int| 0 <= i < names.len() && names[i] == c.spec_name();
        assert(outlines[i].announced_at_root(c.spec_name()));
        assert(outlines[i].announced_at_root(with_separator(c.spec_name())));
    }
    assert forall|e: Seq<char>| #[trigger] holds(entries, e) implies has_place(
        entries,
        toggles,
        e,
    ) by {
        lemma_index_hierarchy(outlines, e);
        if exists|i: int|
            #![trigger outlines[i]]
            0 <= i < outlines.len() && e == outlines[i].name@ {
            let i = choose|i: int|
                #![trigger outlines[i]]
                0 <= i < outlines.len() && e == outlines[i].name@;
            let c = choose|c: Capability| toggles.enabled(c) && c.spec_name() == names[i];
            assert(toggles.enabled(c) && e == c.spec_name());
        } else if exists|p: Seq<char>| e == with_separator(p) && #[trigger] indexed(outlines, p) {
            let p = choose|p: Seq<char>| e == with_separator(p) && #[trigger] indexed(outlines, p);
            assert(holds(entries, p));
        } else {
            let (p, s) = choose|p: Seq<char>, s: Seq<char>|
                e == #[trigger] qualified(p, s) && s.len() > 0 && indexed(
                    outlines,
                    with_separator(p),
                );
            assert(holds(entries, with_separator(p)));
            assert(e == qualified(p, s) && s.len() > 0);
        }
    }
    assert forall|rest: Seq<char>|
        holds(
            entries,
            #[trigger] qualified(Capability::Sci.spec_name(), rest),
        ) implies rest.len() == 0 by {
        lemma_nothing_under_sci(outlines, toggles, rest);
    }
}

/// The completion entries of all bundled namespaces.
pub fn collect_completion_entries() -> (entries: Vec<String>)
    ensures
        strictly_sorted(entries@),
        forall|c: Capability|
            holds(entries@, #[trigger] c.spec_name()) && holds(
                entries@,
                with_separator(c.spec_name()),
            ),
        forall|e: Seq<char>|
            #[trigger] holds(entries@, e) ==> has_place(entries@, ToggleSet::all_active(), e),
        forall|rest: Seq<char>|
            holds(entries@, #[trigger] qualified(Capability::Sci.spec_name(), rest))
                ==> rest.len() == 0,
        indexes_active(entries@, ToggleSet::all_active()),
{
    let toggles = ToggleSet::all();
    completion_entries(&toggles)
}

/// A sink behind a shared pointer, for callers that keep sinks of several
/// kinds in one place.
pub type OutputSink = Arc<dyn Fn(String) + Send + Sync + 'static>;

/// How the evaluation of one script ended.
#[derive(Debug)]
pub enum ScriptOutcome {
    /// The script did not compile; the text is the compiler's diagnostic.
    Rejected(String),
    /// The script ran to its end; the text renders its value.
    Value(String),
    /// The script failed while it ran; the text renders the error and what
    /// was thrown with it.
    Failed(String),
}

impl ScriptOutcome {
    /// The text of the terminal event that reports the outcome.
    pub open spec fn text(self) -> Seq<char> {
        match self {
            ScriptOutcome::Rejected(diagnostic) => diagnostic@,
            ScriptOutcome::Value(value) => value@,
            ScriptOutcome::Failed(error) => error@,
        }
    }

    /// The terminal event that reports the outcome.
    pub fn into_event(self) -> (event: String)
        ensures
            event@ == self.text(),
    {
        match self {
            ScriptOutcome::Rejected(diagnostic) => diagnostic,
            ScriptOutcome::Value(value) => value,
            ScriptOutcome::Failed(error) => error,
        }
    }
}

/// The outcome of an evaluation, from what the engine handed back: the
/// rendered value of a script that ran to its end, or the rendered error of
/// one that failed.
pub fn evaluation_outcome(result: Result<String, String>) -> (outcome: ScriptOutcome)
    ensures
        result matches Ok(value) ==> outcome == ScriptOutcome::Value(value),
        result matches Err(error) ==> outcome == ScriptOutcome::Failed(error),
{
    match result {
        Ok(value) => ScriptOutcome::Value(value),
        Err(error) => ScriptOutcome::Failed(error),
    }
}

/// Compiles `script` and, only if that succeeds, evaluates it against a
/// fresh scope. A script that does not compile under the engine is rejected
/// with the compiler's diagnostic; one that compiles ends with a value or
/// with a failure.
pub fn evaluate_script(engine: &rhai::Engine, script: &str) -> (outcome: ScriptOutcome)
    ensures
        compile_diagnostic(*engine, script@) matches Some(diagnostic) ==> outcome is Rejected
            && outcome.text() == diagnostic,
        compile_diagnostic(*engine, script@) is None ==> outcome is Value || outcome is Failed,
{
    evaluate_compiled(engine, compile(engine, script))
}

/// The outcome of a script from what the compiler handed back. A script
/// that did not compile is rejected with the diagnostic handed in, and
/// nothing is evaluated; a compiled script is evaluated against a fresh
/// scope, and ends with a value or with a failure.
pub fn evaluate_compiled(engine: &rhai::Engine, compiled: Result<rhai::AST, String>) -> (outcome:
    ScriptOutcome)
    ensures
        compiled matches Err(diagnostic) ==> outcome == ScriptOutcome::Rejected(diagnostic),
        compiled is Ok ==> outcome is Value || outcome is Failed,
{
    match compiled {
        Ok(ast) => evaluation_outcome(eval_ast(engine, &ast)),
        Err(diagnostic) => ScriptOutcome::Rejected(diagnostic),
    }
}

/// Hands one print-time message to the sink.
pub fn forward_print<F: ?Sized + Fn(String) + Send + Sync + 'static>(sink: &Arc<F>, text: &str)
    requires
        forall|message: String| call_requires(&**sink, (message,)),
    ensures
        exists|message: String| message@ == text@ && call_ensures(&**sink, (message,), ()),
{
    let message = String::from_str(text);
    (&**sink)(message)
}

/// Hands the terminal event of an outcome to the sink.
pub fn deliver_outcome<F: ?Sized + Fn(String) + Send + Sync + 'static>(
    sink: &Arc<F>,
    outcome: ScriptOutcome,
)
    requires
        forall|message: String| call_requires(&**sink, (message,)),
    ensures
        exists|event: String| event@ == outcome.text() && call_ensures(&**sink, (event,), ()),
{
    let event = outcome.into_event();
    (&**sink)(event)
}

/// Whether `engine` is one that a one-shot run under `toggles` works with:
/// it holds exactly the namespaces of the active capabilities.
pub open spec fn hosts(engine: rhai::Engine, toggles: ToggleSet) -> bool {
    &&& engine_namespaces(engine) == name_set(toggles.enabled_names())
    &&& serves_active(engine, toggles)
}

/// One-shot execution under a toggle set: a fresh engine with the active
/// namespaces, prints routed to the sink as they happen, then exactly one
/// terminal event. The sink is handed an event from an engine that holds
/// exactly the active namespaces; where the script does not compile under
/// that engine, the event is the compiler's diagnostic.
pub fn run_script<F: ?Sized + Fn(String) + Send + Sync + 'static>(
    toggles: &ToggleSet,
    script: &str,
    sink: &Arc<F>,
)
    requires
        forall|message: String| call_requires(&**sink, (message,)),
    ensures
        exists|event: String| call_ensures(&**sink, (event,), ()),
        exists|engine: rhai::Engine, event: String|
            #![trigger hosts(engine, *toggles), call_ensures(&**sink, (event,), ())]
            hosts(engine, *toggles) && call_ensures(&**sink, (event,), ()) && (compile_diagnostic(
                engine,
                script@,
            ) matches Some(diagnostic) ==> event@ == diagnostic),
{
    let mut engine = configure_engine_for(new_engine(), toggles);
    on_print(&mut engine, sink);
    proof {
        assert(engine_namespaces(engine) =~= name_set(toggles.enabled_names()));
        let outlines = choose|outlines: Seq<NamespaceModule>|
            #![trigger outlines_match(outlines, *toggles)]
            outlines_match(outlines, *toggles) && outlines_serve(engine, outlines);
        assert(outlines_match(outlines, *toggles) && outlines_serve(engine, outlines));
        assert(hosts(engine, *toggles));
    }
    let outcome = evaluate_script(&engine, script);
    let ghost text = outcome.text();
    deliver_outcome(sink, outcome);
    proof {
        let event = choose|event: String| event@ == text && call_ensures(&**sink, (event,), ());
        assert(hosts(engine, *toggles) && call_ensures(&**sink, (event,), ()));
    }
}

/// One-shot execution with every bundled namespace active; see `run_script`.
pub fn run_rhai_script_with_sink<F: ?Sized + Fn(String) + Send + Sync + 'static>(
    script: &str,
    sink: &Arc<F>,
)
    requires
        forall|message: String| call_requires(&**sink, (message,)),
    ensures
        exists|event: String| call_ensures(&**sink, (event,), ()),
        exists|engine: rhai::Engine, event: String|
            #![trigger hosts(engine, ToggleSet::all_active()), call_ensures(&**sink, (event,), ())]
            hosts(engine, ToggleSet::all_active()) && call_ensures(&**sink, (event,), ()) && (
            compile_diagnostic(engine, script@) matches Some(diagnostic) ==> event@ == diagnostic),
{
    let toggles = ToggleSet::all();
    run_script(&toggles, script, sink)
}

/// The state behind the REPL: one engine, one scope of variables, the
/// toggle set that the engine was built from, and the outlines of the
/// namespaces that were registered with it.
pub struct SessionState {
    engine: rhai::Engine,
    scope: rhai::Scope<'static>,
    toggles: ToggleSet,
    outlines: Vec<NamespaceModule>,
}

impl SessionState {
    /// The toggle set in force.
    pub closed spec fn toggle_set(self) -> ToggleSet {
        self.toggles
    }

    /// The names of the namespaces registered with the session's engine.
    pub closed spec fn registered(self) -> Set<Seq<char>> {
        engine_namespaces(self.engine)
    }

    /// The number of entries in the session's scope.
    pub closed spec fn variables(self) -> nat {
        scope_len(self.scope)
    }

    /// The function names of the module that the session's engine holds
    /// under `name`.
    pub closed spec fn offered(self, name: Seq<char>) -> Set<Seq<char>> {
        symbol_names(engine_module_signatures(self.engine, name))
    }

    /// The outlines that the session keeps of its namespaces.
    pub closed spec fn outline_list(self) -> Seq<NamespaceModule> {
        self.outlines@
    }

    /// Whether the outlines list exactly what the engine holds under their
    /// names.
    pub closed spec fn outlines_current(self) -> bool {
        outlines_serve(self.engine, self.outlines@)
    }

    /// The engine holds exactly the namespaces of the active capabilities,
    /// and the outlines are those of these namespaces.
    pub open spec fn wf(self) -> bool {
        &&& self.registered() == name_set(self.toggle_set().enabled_names())
        &&& outlines_match(self.outline_list(), self.toggle_set())
        &&& self.outlines_current()
    }

    /// Whether the session's completion index lists `entry`: the name of an
    /// active capability, that name with the separator, or that name, the
    /// separator and the name of a function that the engine holds under it.
    pub open spec fn lists(self, entry: Seq<char>) -> bool {
        exists|c: Capability|
            #![trigger c.spec_name()]
            self.toggle_set().enabled(c) && {
                ||| entry == c.spec_name()
                ||| entry == with_separator(c.spec_name())
                ||| exists|x: Seq<char>|
                    self.offered(c.spec_name()).contains(x) && entry == #[trigger] qualified(
                        c.spec_name(),
                        x,
                    )
            }
    }

    /// The index of the session's outlines is what `lists` says.
    pub proof fn lemma_lists_is_indexed(self, entry: Seq<char>)
        requires
            self.wf(),
        ensures
            self.lists(entry) <==> indexed(self.outline_list(), entry),
    {
        let outlines = self.outline_list();
        let toggles = self.toggle_set();
        let names = toggles.enabled_names();
        toggles.lemma_enabled_names();
        if indexed(outlines, entry) {
            let i = choose|i: int|
                #![trigger outlines[i]]
                0 <= i < outlines.len() && outlines[i].announced_at_root(entry);
            let node = outlines[i];
            let c = choose|c: Capability| toggles.enabled(c) && c.spec_name() == names[i];
            assert(node.name@ == c.spec_name());
            node.lemma_announces_split(node.name@, entry);
            assert(!node.names_below(node.children@.len() as int, node.name@, entry));
            if node.announces(node.name@, entry) {
                let k = choose|k: int|
                    #![trigger node.symbols@[k]]
                    0 <= k < node.symbols@.len() && k < node.symbols@.len() && entry == qualified(
                        node.name@,
                        node.symbols@[k]@,
                    );
                let x = node.symbols@[k]@;
                assert(holds(outlines[i].symbols@, x));
                assert(self.offered(c.spec_name()).contains(x));
                assert(entry == qualified(c.spec_name(), x));
            }
            assert(toggles.enabled(c) && (entry == c.spec_name() || entry == with_separator(
                c.spec_name(),
            ) || exists|x: Seq<char>|
                self.offered(c.spec_name()).contains(x) && entry == #[trigger] qualified(
                    c.spec_name(),
                    x,
                )));
        }
        if self.lists(entry) {
            let c = choose|c: Capability|
                #![trigger c.spec_name()]
                toggles.enabled(c) && {
                    ||| entry == c.spec_name()
                    ||| entry == with_separator(c.spec_name())
                    ||| exists|x: Seq<char>|
                        self.offered(c.spec_name()).contains(x) && entry == #[trigger] qualified(
                            c.spec_name(),
                            x,
                        )
                };
            let i = choose|i: int| 0 <= i < names.len() && names[i] == c.spec_name();
            let node = outlines[i];
            assert(node.name@ == c.spec_name());
            if entry != c.spec_name() && entry != with_separator(c.spec_name()) {
                let x = choose|x: Seq<char>|
                    self.offered(c.spec_name()).contains(x) && entry == #[trigger] qualified(
                        c.spec_name(),
                        x,
                    );
                assert(holds(outlines[i].symbols@, x));
                let k = choose|k: int|
                    0 <= k < node.symbols@.len() && (#[trigger] node.symbols@[k])@ == x;
                assert(node.names_symbol(node.symbols@.len() as int, node.name@, entry));
                node.lemma_announces_split(node.name@, entry);
            }
            assert(outlines[i].announced_at_root(entry));
        }
    }

    /// Whether the session is what `update_selection` with `names` makes of
    /// `before`: the toggle set replaced, the engine holding exactly the
    /// namespaces of the new toggle set, the scope empty.
    pub open spec fn follows_selection(self, before: SessionState, names: Seq<String>) -> bool {
        &&& self.wf()
        &&& self.toggle_set() == before.toggle_set().replaced_by(names)
        &&& self.variables() == 0
    }

    /// Whether two sessions agree in all that a selection determines.
    pub open spec fn same_state(self, other: SessionState) -> bool {
        &&& self.toggle_set() == other.toggle_set()
        &&& self.registered() == other.registered()
        &&& self.variables() == other.variables()
    }

    /// The session under a toggle set, with an empty scope.
    pub fn with_toggles(toggles: ToggleSet) -> (session: SessionState)
        ensures
            session.wf(),
            session.toggle_set() == toggles,
            session.variables() == 0,
    {
        let (engine, outlines) = configure_indexed(new_engine(), &toggles);
        proof {
            assert(engine_namespaces(engine) =~= name_set(toggles.enabled_names()));
        }
        SessionState { engine, scope: new_scope(), toggles, outlines }
    }

    /// The session at start: every capability active, the scope empty.
    pub fn new() -> (session: SessionState)
        ensures
            session.wf(),
            forall|c: Capability| session.toggle_set().enabled(c),
            session.variables() == 0,
    {
        SessionState::with_toggles(ToggleSet::all())
    }

    /// The toggle set in force.
    pub fn toggles(&self) -> (toggles: ToggleSet)
        ensures
            toggles == self.toggle_set(),
    {
        self.toggles
    }

    /// The number of entries in the session's scope.
    pub fn variable_count(&self) -> (count: usize)
        ensures
            count == self.variables(),
    {
        scope_entries(&self.scope)
    }

    /// The catalogue with the session's flags.
    pub fn list_capabilities(&self) -> (list: Vec<CapabilityDescriptor>)
        ensures
            list@.len() == catalogue().len(),
            forall|i: int|
                0 <= i < list@.len() ==> (#[trigger] list@[i]).shows(
                    catalogue()[i],
                    self.toggle_set().enabled(catalogue()[i]),
                ),
    {
        describe(&self.toggles)
    }

    /// Replaces the toggle set by a selection and resets the session: the
    /// engine is rebuilt from the new toggle set alone and the scope is
    /// emptied, so that nothing of an earlier selection is left.
    pub fn update_selection(&mut self, names: &Vec<String>)
        ensures
            final(self).follows_selection(*old(self), names@),
    {
        let next = apply_selection(&self.toggles, names);
        let (engine, outlines) = configure_indexed(new_engine(), &next);
        proof {
            assert(engine_namespaces(engine) =~= name_set(next.enabled_names()));
        }
        self.engine = engine;
        self.scope = new_scope();
        self.toggles = next;
        self.outlines = outlines;
    }

    /// The completion entries of the session: the index of the namespaces
    /// that are registered with its engine. An entry is listed exactly if it
    /// is the name of an active capability, that name with the separator, or
    /// names a function that the engine holds under that name.
    pub fn completion_entries(&self) -> (entries: Vec<String>)
        requires
            self.wf(),
        ensures
            strictly_sorted(entries@),
            forall|e: Seq<char>| #![trigger holds(entries@, e)] holds(entries@, e) <==> self.lists(e),
            forall|c: Capability|
                self.toggle_set().enabled(c) ==> holds(entries@, #[trigger] c.spec_name())
                    && holds(entries@, with_separator(c.spec_name())),
            forall|e: Seq<char>|
                #[trigger] holds(entries@, e) ==> has_place(entries@, self.toggle_set(), e),
            forall|rest: Seq<char>|
                holds(entries@, #[trigger] qualified(Capability::Sci.spec_name(), rest))
                    ==> rest.len() == 0,
            indexes_active(entries@, self.toggle_set()),
    {
        let entries = completion_index(&self.outlines);
        proof {
            lemma_entries_of_outlines(entries@, self.outlines@, self.toggles);
            assert forall|e: Seq<char>|
                #![trigger holds(entries@, e)]
                holds(entries@, e) <==> self.lists(e) by {
                self.lemma_lists_is_indexed(e);
            }
        }
        entries
    }

    /// Evaluates `script` against the session's scope: the print hook is
    /// bound to `sink` for this call, prints reach the sink as they happen,
    /// then exactly one terminal event follows. The toggle set and the
    /// registered namespaces stay as they are.
    pub fn repl_submit<F: ?Sized + Fn(String) + Send + Sync + 'static>(
        &mut self,
        script: &str,
        sink: &Arc<F>,
    )
        requires
            forall|message: String| call_requires(&**sink, (message,)),
        ensures
            old(self).wf() ==> final(self).wf(),
            final(self).toggle_set() == old(self).toggle_set(),
            final(self).registered() == old(self).registered(),
            forall|name: Seq<char>| #[trigger] final(self).offered(name) == old(self).offered(name),
            forall|e: Seq<char>| final(self).lists(e) == old(self).lists(e),
            exists|event: String| call_ensures(&**sink, (event,), ()),
    {
        on_print(&mut self.engine, sink);
        let result = eval_with_scope(&self.engine, &mut self.scope, script);
        deliver_outcome(sink, evaluation_outcome(result))
    }
}

/// Updating a session twice with one selection leaves it as the first update
/// left it: the same toggle set, the same registered namespaces, an empty
/// scope.
pub proof fn lemma_update_idempotent(
    start: SessionState,
    once: SessionState,
    twice: SessionState,
    names: Seq<String>,
)
    requires
        once.follows_selection(start, names),
        twice.follows_selection(once, names),
    ensures
        twice.same_state(once),
{
}

/// Enabling a capability and disabling it at once leaves the session as if
/// the capability had never been enabled: it is in the state that the second
/// selection alone leads to, and the capability's namespace is not
/// registered.
pub proof fn lemma_update_enable_then_disable(
    start: SessionState,
    enabled: SessionState,
    disabled: SessionState,
    never: SessionState,
    capability: Capability,
    with: Seq<String>,
    without: Seq<String>,
)
    requires
        selects(with, capability),
        !selects(without, capability),
        enabled.follows_selection(start, with),
        disabled.follows_selection(enabled, without),
        never.follows_selection(start, without),
    ensures
        enabled.registered().contains(capability.spec_name()),
        disabled.same_state(never),
        !disabled.toggle_set().enabled(capability),
        !disabled.registered().contains(capability.spec_name()),
{
    enabled.toggle_set().lemma_enabled_names();
    disabled.toggle_set().lemma_enabled_names();
    assert(enabled.toggle_set().enabled(capability));
    assert(enabled.toggle_set().enabled_names().contains(capability.spec_name()));
}

/// The session's completion list is determined by the session: two sorted
/// lists that hold exactly what the session lists read the same.
pub proof fn lemma_session_index_determined(
    session: SessionState,
    first: Seq<String>,
    second: Seq<String>,
)
    requires
        strictly_sorted(first),
        strictly_sorted(second),
        forall|e: Seq<char>| #![trigger holds(first, e)] holds(first, e) <==> session.lists(e),
        forall|e: Seq<char>| #![trigger holds(second, e)] holds(second, e) <==> session.lists(e),
    ensures
        readings(first) == readings(second),
{
    assert forall|e: Seq<char>| holds(first, e) <==> holds(second, e) by {
        assert(holds(first, e) <==> session.lists(e));
        assert(holds(second, e) <==> session.lists(e));
    }
    lemma_sorted_lists_agree(first, second);
}

/// Two sessions under one toggle set whose engines hold the same function
/// names under every name list the same entries.
pub proof fn lemma_same_offer_same_index(first: SessionState, second: SessionState, entry: Seq<char>)
    requires
        first.toggle_set() == second.toggle_set(),
        forall|name: Seq<char>| #[trigger] first.offered(name) == second.offered(name),
    ensures
        first.lists(entry) == second.lists(entry),
{
    if first.lists(entry) {
        let c = choose|c: Capability|
            #![trigger c.spec_name()]
            first.toggle_set().enabled(c) && {
                ||| entry == c.spec_name()
                ||| entry == with_separator(c.spec_name())
                ||| exists|x: Seq<char>|
                    first.offered(c.spec_name()).contains(x) && entry == #[trigger] qualified(
                        c.spec_name(),
                        x,
                    )
            };
        assert(first.offered(c.spec_name()) == second.offered(c.spec_name()));
    }
    if second.lists(entry) {
        let c = choose|c: Capability|
            #![trigger c.spec_name()]
            second.toggle_set().enabled(c) && {
                ||| entry == c.spec_name()
                ||| entry == with_separator(c.spec_name())
                ||| exists|x: Seq<char>|
                    second.offered(c.spec_name()).contains(x) && entry == #[trigger] qualified(
                        c.spec_name(),
                        x,
                    )
            };
        assert(first.offered(c.spec_name()) == second.offered(c.spec_name()));
    }
}

} // verus!
