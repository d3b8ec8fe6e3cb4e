//! A scripting host: a registry of optional capability namespaces, a
//! completion index over them, and the execution of scripts whose output is
//! routed through a caller-supplied sink.

pub mod completion;
pub mod composer;
pub mod engine;
pub mod host;
pub mod namespace;
pub mod registry;
pub mod sci;
pub mod text;
pub mod transport;

pub use completion::completion_index;
pub use composer::{compose_namespace, flatten_package_module, outline_module, ComposedNamespace};
pub use engine::SharedModule;
pub use host::{
    collect_completion_entries, completion_entries, configure_engine, configure_engine_for,
    configure_indexed, evaluate_compiled, evaluate_script,
    run_rhai_script_with_sink, run_script, OutputSink, ScriptOutcome, SessionState,
};
pub use namespace::NamespaceModule;
pub use registry::{
    apply_selection, build_namespaces, describe, Capability, CapabilityDescriptor, ToggleSet,
};
pub use sci::SciPackage;
pub use transport::{append_output_script, TransportError};
