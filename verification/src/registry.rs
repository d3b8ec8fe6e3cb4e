//! The capability registry: the fixed catalogue of capabilities, the toggle
//! set that says which of them are active, and the namespaces built from it.

use vstd::prelude::*;
use vstd::string::*;
use crate::composer::{compose_namespace, offers_signature, ComposedNamespace};
use crate::engine::{
    fs_package_module, ml_package_module, module_signatures, rand_package_module,
    url_package_module,
};
use crate::sci::SciPackage;
use crate::text::{has_separator, holds, name_matches, spells};

verus! {

/// A capability that the host can offer to scripts, in catalogue order.
#[derive(Clone, Copy, Debug, PartialEq, Eq, Structural)]
pub enum Capability {
    Rand,
    Fs,
    Url,
    Ml,
    Sci,
}

impl Capability {
    /// The namespace under which scripts reach the capability.
    pub open spec fn spec_name(self) -> Seq<char> {
        match self {
            Capability::Rand => "rand"@,
            Capability::Fs => "fs"@,
            Capability::Url => "url"@,
            Capability::Ml => "ml"@,
            Capability::Sci => "sci"@,
        }
    }

    /// What the capability is for, in a few words.
    pub open spec fn spec_description(self) -> Seq<char> {
        match self {
            Capability::Rand => "Random number generation and shuffling"@,
            Capability::Fs => "Access to files and directories"@,
            Capability::Url => "Parsing and building of URLs"@,
            Capability::Ml => "Machine-learning helpers"@,
            Capability::Sci => "Numerical and scientific helpers"@,
        }
    }

    /// The package that provides the capability.
    pub open spec fn spec_origin(self) -> Seq<char> {
        match self {
            Capability::Rand => "rhai-rand"@,
            Capability::Fs => "rhai-fs"@,
            Capability::Url => "rhai-url"@,
            Capability::Ml => "rhai-ml"@,
            Capability::Sci => "rhai-sci"@,
        }
    }

    /// The namespace under which scripts reach the capability.
    pub fn name(self) -> (r: &'static str)
        ensures
            r@ == self.spec_name(),
    {
        match self {
            Capability::Rand => "rand",
            Capability::Fs => "fs",
            Capability::Url => "url",
            Capability::Ml => "ml",
            Capability::Sci => "sci",
        }
    }

    /// What the capability is for, in a few words.
    pub fn description(self) -> (r: &'static str)
        ensures
            r@ == self.spec_description(),
    {
        match self {
            Capability::Rand => "Random number generation and shuffling",
            Capability::Fs => "Access to files and directories",
            Capability::Url => "Parsing and building of URLs",
            Capability::Ml => "Machine-learning helpers",
            Capability::Sci => "Numerical and scientific helpers",
        }
    }

    /// The package that provides the capability.
    pub fn origin(self) -> (r: &'static str)
        ensures
            r@ == self.spec_origin(),
    {
        match self {
            Capability::Rand => "rhai-rand",
            Capability::Fs => "rhai-fs",
            Capability::Url => "rhai-url",
            Capability::Ml => "rhai-ml",
            Capability::Sci => "rhai-sci",
        }
    }

    /// Two capabilities with one name are one capability.
    pub proof fn lemma_names_differ(a: Capability, b: Capability)
        ensures
            a.spec_name() == b.spec_name() ==> a == b,
    {
        reveal_strlit("rand");
        reveal_strlit("fs");
        reveal_strlit("url");
        reveal_strlit("ml");
        reveal_strlit("sci");
        assert("rand"@.len() == 4 && "fs"@.len() == 2 && "ml"@.len() == 2);
        assert("url"@.len() == 3 && "sci"@.len() == 3);
        assert("fs"@[0] == 'f' && "ml"@[0] == 'm');
        assert("url"@[0] == 'u' && "sci"@[0] == 's');
    }

    /// No capability name holds the path separator.
    pub proof fn lemma_name_is_plain(self)
        ensures
            !has_separator(self.spec_name()),
    {
        reveal_strlit("rand");
        reveal_strlit("fs");
        reveal_strlit("url");
        reveal_strlit("ml");
        reveal_strlit("sci");
    }
}

/// The catalogue: every known capability, in its fixed order.
pub open spec fn catalogue() -> Seq<Capability> {
    seq![Capability::Rand, Capability::Fs, Capability::Url, Capability::Ml, Capability::Sci]
}

/// Which capabilities are active.
#[derive(Clone, Copy, Debug, PartialEq, Eq, Structural)]
pub struct ToggleSet {
    pub rand: bool,
    pub fs: bool,
    pub url: bool,
    pub ml: bool,
    pub sci: bool,
}

/// One line of the catalogue as it is shown to a user.
#[derive(Debug)]
pub struct CapabilityDescriptor {
    pub name: String,
    pub description: String,
    pub origin: String,
    pub selected: bool,
}

impl CapabilityDescriptor {
    /// Whether the descriptor shows `capability` with the flag `selected`.
    pub open spec fn shows(self, capability: Capability, selected: bool) -> bool {
        &&& self.name@ == capability.spec_name()
        &&& self.description@ == capability.spec_description()
        &&& self.origin@ == capability.spec_origin()
        &&& self.selected == selected
    }
}

/// Whether one of the selected names, trimmed and without regard to ASCII
/// case, is the name of `capability`.
pub open spec fn selects(selected: Seq<String>, capability: Capability) -> bool {
    exists|i: int|
        0 <= i < selected.len() && spells((#[trigger] selected[i])@, capability.spec_name())
}

impl ToggleSet {
    /// Whether `capability` is active.
    pub open spec fn enabled(self, capability: Capability) -> bool {
        match capability {
            Capability::Rand => self.rand,
            Capability::Fs => self.fs,
            Capability::Url => self.url,
            Capability::Ml => self.ml,
            Capability::Sci => self.sci,
        }
    }

    /// The toggle set that a selection leaves behind, whatever `self` was:
    /// a capability is active exactly if the selection names it.
    pub open spec fn replaced_by(self, selected: Seq<String>) -> ToggleSet {
        ToggleSet {
            rand: selects(selected, Capability::Rand),
            fs: selects(selected, Capability::Fs),
            url: selects(selected, Capability::Url),
            ml: selects(selected, Capability::Ml),
            sci: selects(selected, Capability::Sci),
        }
    }

    /// The names of the active capabilities, in catalogue order.
    pub open spec fn enabled_names(self) -> Seq<Seq<char>> {
        (if self.rand {
            seq![Capability::Rand.spec_name()]
        } else {
            seq![]
        }) + (if self.fs {
            seq![Capability::Fs.spec_name()]
        } else {
            seq![]
        }) + (if self.url {
            seq![Capability::Url.spec_name()]
        } else {
            seq![]
        }) + (if self.ml {
            seq![Capability::Ml.spec_name()]
        } else {
            seq![]
        }) + (if self.sci {
            seq![Capability::Sci.spec_name()]
        } else {
            seq![]
        })
    }

    /// The toggle set with every capability active.
    pub open spec fn all_active() -> ToggleSet {
        ToggleSet { rand: true, fs: true, url: true, ml: true, sci: true }
    }

    /// The toggle set with no capability active.
    pub open spec fn none_active() -> ToggleSet {
        ToggleSet { rand: false, fs: false, url: false, ml: false, sci: false }
    }

    /// The toggle set with every capability active: the state at start.
    pub fn all() -> (toggles: ToggleSet)
        ensures
            toggles == ToggleSet::all_active(),
            forall|c: Capability| toggles.enabled(c),
    {
        ToggleSet { rand: true, fs: true, url: true, ml: true, sci: true }
    }

    /// The toggle set with no capability active.
    pub fn none() -> (toggles: ToggleSet)
        ensures
            toggles == ToggleSet::none_active(),
            forall|c: Capability| !toggles.enabled(c),
    {
        ToggleSet { rand: false, fs: false, url: false, ml: false, sci: false }
    }

    /// Whether `capability` is active.
    pub fn is_enabled(&self, capability: Capability) -> (r: bool)
        ensures
            r == self.enabled(capability),
    {
        match capability {
            Capability::Rand => self.rand,
            Capability::Fs => self.fs,
            Capability::Url => self.url,
            Capability::Ml => self.ml,
            Capability::Sci => self.sci,
        }
    }

    /// An active capability's name is among the enabled names, and every
    /// enabled name is the name of an active capability.
    pub proof fn lemma_enabled_names(self)
        ensures
            forall|c: Capability| self.enabled(c) <==> self.enabled_names().contains(c.spec_name()),
            forall|i: int|
                0 <= i < self.enabled_names().len() ==> exists|c: Capability|
                    self.enabled(c) && c.spec_name() == #[trigger] self.enabled_names()[i],
    {
        reveal_strlit("rand");
        reveal_strlit("fs");
        reveal_strlit("url");
        reveal_strlit("ml");
        reveal_strlit("sci");
        let names = self.enabled_names();
        let rand = if self.rand { seq![Capability::Rand.spec_name()] } else { seq![] };
        let fs = if self.fs { seq![Capability::Fs.spec_name()] } else { seq![] };
        let url = if self.url { seq![Capability::Url.spec_name()] } else { seq![] };
        let ml = if self.ml { seq![Capability::Ml.spec_name()] } else { seq![] };
        let sci = if self.sci { seq![Capability::Sci.spec_name()] } else { seq![] };
        assert(names == rand + fs + url + ml + sci);
        assert forall|c: Capability| self.enabled(c) implies names.contains(c.spec_name()) by {
            let at: int = match c {
                Capability::Rand => 0,
                Capability::Fs => rand.len() as int,
                Capability::Url => (rand.len() + fs.len()) as int,
                Capability::Ml => (rand.len() + fs.len() + url.len()) as int,
                Capability::Sci => (rand.len() + fs.len() + url.len() + ml.len()) as int,
            };
            assert(names[at] == c.spec_name());
        }
        assert forall|i: int| 0 <= i < names.len() implies exists|c: Capability|
            self.enabled(c) && c.spec_name() == #[trigger] names[i] by {
            let a = rand.len() as int;
            let b = a + fs.len();
            let c = b + url.len();
            let d = c + ml.len();
            if i < a {
                assert(self.enabled(Capability::Rand) && Capability::Rand.spec_name() == names[i]);
            } else if i < b {
                assert(self.enabled(Capability::Fs) && Capability::Fs.spec_name() == names[i]);
            } else if i < c {
                assert(self.enabled(Capability::Url) && Capability::Url.spec_name() == names[i]);
            } else if i < d {
                assert(self.enabled(Capability::Ml) && Capability::Ml.spec_name() == names[i]);
            } else {
                assert(self.enabled(Capability::Sci) && Capability::Sci.spec_name() == names[i]);
            }
        }
        assert forall|c: Capability| names.contains(c.spec_name()) implies self.enabled(c) by {
            let i = choose|i: int| 0 <= i < names.len() && names[i] == c.spec_name();
            let w = choose|w: Capability| self.enabled(w) && w.spec_name() == names[i];
            Capability::lemma_names_differ(w, c);
        }
    }
}

/// The capability whose name stands at a place of the enabled names.
pub open spec fn capability_at(toggles: ToggleSet, place: int) -> Capability {
    let a = if toggles.rand { 1int } else { 0int };
    let b = a + if toggles.fs { 1int } else { 0int };
    let c = b + if toggles.url { 1int } else { 0int };
    let d = c + if toggles.ml { 1int } else { 0int };
    if place < a {
        Capability::Rand
    } else if place < b {
        Capability::Fs
    } else if place < c {
        Capability::Url
    } else if place < d {
        Capability::Ml
    } else {
        Capability::Sci
    }
}

/// The enabled names are the names of different capabilities, each of them
/// active; so no name stands among them twice.
pub proof fn lemma_enabled_names_distinct(toggles: ToggleSet)
    ensures
        forall|i: int|
            0 <= i < toggles.enabled_names().len() ==> #[trigger] toggles.enabled_names()[i]
                == capability_at(toggles, i).spec_name() && toggles.enabled(
                capability_at(toggles, i),
            ),
        forall|i: int, j: int|
            0 <= i < j < toggles.enabled_names().len() ==> #[trigger] toggles.enabled_names()[i]
                != #[trigger] toggles.enabled_names()[j],
{
    let names = toggles.enabled_names();
    let rand = if toggles.rand { seq![Capability::Rand.spec_name()] } else { seq![] };
    let fs = if toggles.fs { seq![Capability::Fs.spec_name()] } else { seq![] };
    let url = if toggles.url { seq![Capability::Url.spec_name()] } else { seq![] };
    let ml = if toggles.ml { seq![Capability::Ml.spec_name()] } else { seq![] };
    let sci = if toggles.sci { seq![Capability::Sci.spec_name()] } else { seq![] };
    assert(names == rand + fs + url + ml + sci);
    assert forall|i: int| 0 <= i < names.len() implies #[trigger] names[i] == capability_at(
        toggles,
        i,
    ).spec_name() && toggles.enabled(capability_at(toggles, i)) by {
    }
    assert forall|i: int, j: int| 0 <= i < j < names.len() implies #[trigger] names[i]
        != #[trigger] names[j] by {
        assert(capability_at(toggles, i) != capability_at(toggles, j));
        Capability::lemma_names_differ(capability_at(toggles, i), capability_at(toggles, j));
    }
}

impl View for ToggleSet {
    type V = Map<Seq<char>, bool>;

    /// The toggle set as the mapping from each capability's name to its flag.
    open spec fn view(&self) -> Map<Seq<char>, bool> {
        Map::new(
            |name: Seq<char>| exists|c: Capability| #[trigger] c.spec_name() == name,
            |name: Seq<char>| self.enabled(choose|c: Capability| #[trigger] c.spec_name() == name),
        )
    }
}

/// The mapping of a toggle set has exactly the capability names as its keys,
/// and under each name the flag of that capability.
pub proof fn lemma_toggle_mapping(toggles: ToggleSet, capability: Capability)
    ensures
        toggles@.contains_key(capability.spec_name()),
        toggles@[capability.spec_name()] == toggles.enabled(capability),
        forall|name: Seq<char>|
            toggles@.contains_key(name) ==> exists|c: Capability| #[trigger] c.spec_name() == name,
{
    let name = capability.spec_name();
    assert(capability.spec_name() == name);
    let chosen = choose|c: Capability| #[trigger] c.spec_name() == name;
    Capability::lemma_names_differ(chosen, capability);
}

impl Default for ToggleSet {
    /// The toggle set at start: every capability active.
    fn default() -> (toggles: ToggleSet)
        ensures
            toggles == ToggleSet::all_active(),
    {
        ToggleSet::all()
    }
}

/// Whether one of `selected` names `capability`.
pub fn selection_names(selected: &Vec<String>, capability: Capability) -> (r: bool)
    ensures
        r == selects(selected@, capability),
{
    let mut i: usize = 0;
    while i < selected.len()
        invariant
            i <= selected.len(),
            forall|k: int|
                0 <= k < i ==> !spells((#[trigger] selected@[k])@, capability.spec_name()),
        decreases selected.len() - i,
    {
        if name_matches(selected[i].as_str(), capability.name()) {
            return true;
        }
        i += 1;
    }
    false
}

/// Replaces the toggle set by a selection: afterwards a capability is active
/// exactly if one of `selected_names`, trimmed and without regard to ASCII
/// case, is its name. Names that belong to no capability change nothing.
pub fn apply_selection(current: &ToggleSet, selected_names: &Vec<String>) -> (next: ToggleSet)
    ensures
        next == current.replaced_by(selected_names@),
{
    ToggleSet {
        rand: selection_names(selected_names, Capability::Rand),
        fs: selection_names(selected_names, Capability::Fs),
        url: selection_names(selected_names, Capability::Url),
        ml: selection_names(selected_names, Capability::Ml),
        sci: selection_names(selected_names, Capability::Sci),
    }
}

/// The descriptor of one capability under a toggle set.
pub fn describe_capability(toggles: &ToggleSet, capability: Capability) -> (line:
    CapabilityDescriptor)
    ensures
        line.shows(capability, toggles.enabled(capability)),
{
    CapabilityDescriptor {
        name: String::from_str(capability.name()),
        description: String::from_str(capability.description()),
        origin: String::from_str(capability.origin()),
        selected: toggles.is_enabled(capability),
    }
}

/// The whole catalogue in its fixed order, each capability with its current
/// flag.
pub fn describe(toggles: &ToggleSet) -> (list: Vec<CapabilityDescriptor>)
    ensures
        list@.len() == catalogue().len(),
        forall|i: int|
            0 <= i < list@.len() ==> (#[trigger] list@[i]).shows(
                catalogue()[i],
                toggles.enabled(catalogue()[i]),
            ),
{
    let mut list: Vec<CapabilityDescriptor> = Vec::new();
    list.push(describe_capability(toggles, Capability::Rand));
    list.push(describe_capability(toggles, Capability::Fs));
    list.push(describe_capability(toggles, Capability::Url));
    list.push(describe_capability(toggles, Capability::Ml));
    list.push(describe_capability(toggles, Capability::Sci));
    list
}

/// The composed namespace of one capability, under the capability's name.
/// The `sci` capability offers no callable.
pub fn compose_capability(capability: Capability) -> (composed: ComposedNamespace)
    ensures
        composed.wf(),
        composed.outline.name@ == capability.spec_name(),
        capability == Capability::Sci ==> composed.is_empty(),
{
    match capability {
        Capability::Rand => compose_namespace(capability.name(), &rand_package_module()),
        Capability::Fs => compose_namespace(capability.name(), &fs_package_module()),
        Capability::Url => compose_namespace(capability.name(), &url_package_module()),
        Capability::Ml => compose_namespace(capability.name(), &ml_package_module()),
        Capability::Sci => {
            let package = SciPackage::new().as_shared_module();
            let composed = compose_namespace(capability.name(), &package);
            proof {
                let root = Seq::<Seq<char>>::empty();
                assert forall|s: Seq<char>| !module_signatures(*composed.module, root).contains(
                    s,
                ) by {
                    if module_signatures(*composed.module, root).contains(s) {
                        assert(offers_signature(*package, s));
                        let path = choose|path: Seq<Seq<char>>|
                            #[trigger] module_signatures(*package, path).contains(s);
                        assert(module_signatures(*package, path) == Set::<Seq<char>>::empty());
                    }
                }
                assert(module_signatures(*composed.module, root) =~= Set::<Seq<char>>::empty());
                if composed.outline.symbols@.len() > 0 {
                    assert(holds(composed.outline.symbols@, composed.outline.symbols@[0]@));
                }
            }
            composed
        },
    }
}

/// The names of a list of composed namespaces, in order.
pub open spec fn namespace_names(namespaces: Seq<ComposedNamespace>) -> Seq<Seq<char>> {
    Seq::new(namespaces.len(), |i: int| namespaces[i].outline.name@)
}

/// Whether every namespace of the list that goes by the name of the `sci`
/// capability offers no callable.
pub open spec fn sci_is_empty(namespaces: Seq<ComposedNamespace>) -> bool {
    forall|i: int|
        0 <= i < namespaces.len() && (#[trigger] namespaces[i]).outline.name@
            == Capability::Sci.spec_name() ==> namespaces[i].is_empty()
}

/// Builds the namespace of every active capability, in catalogue order; an
/// inactive capability has no namespace at all, and the namespace of `sci`
/// offers no callable.
pub fn build_namespaces(toggles: &ToggleSet) -> (namespaces: Vec<ComposedNamespace>)
    ensures
        namespace_names(namespaces@) == toggles.enabled_names(),
        forall|i: int| 0 <= i < namespaces@.len() ==> (#[trigger] namespaces@[i]).wf(),
        sci_is_empty(namespaces@),
{
    let mut namespaces: Vec<ComposedNamespace> = Vec::new();
    proof {
        Capability::lemma_names_differ(Capability::Rand, Capability::Sci);
        Capability::lemma_names_differ(Capability::Fs, Capability::Sci);
        Capability::lemma_names_differ(Capability::Url, Capability::Sci);
        Capability::lemma_names_differ(Capability::Ml, Capability::Sci);
    }
    assert(namespace_names(namespaces@) =~= Seq::<Seq<char>>::empty());
    if toggles.rand {
        namespaces.push(compose_capability(Capability::Rand));
    }
    let ghost n1 = namespace_names(namespaces@);
    assert(sci_is_empty(namespaces@));
    assert(n1 =~= if toggles.rand {
        seq![Capability::Rand.spec_name()]
    } else {
        seq![]
    });
    if toggles.fs {
        namespaces.push(compose_capability(Capability::Fs));
    }
    let ghost n2 = namespace_names(namespaces@);
    assert(sci_is_empty(namespaces@));
    assert(n2 =~= n1 + (if toggles.fs {
        seq![Capability::Fs.spec_name()]
    } else {
        seq![]
    }));
    if toggles.url {
        namespaces.push(compose_capability(Capability::Url));
    }
    let ghost n3 = namespace_names(namespaces@);
    assert(sci_is_empty(namespaces@));
    assert(n3 =~= n2 + (if toggles.url {
        seq![Capability::Url.spec_name()]
    } else {
        seq![]
    }));
    if toggles.ml {
        namespaces.push(compose_capability(Capability::Ml));
    }
    let ghost n4 = namespace_names(namespaces@);
    assert(sci_is_empty(namespaces@));
    assert(n4 =~= n3 + (if toggles.ml {
        seq![Capability::Ml.spec_name()]
    } else {
        seq![]
    }));
    if toggles.sci {
        namespaces.push(compose_capability(Capability::Sci));
    }
    let ghost n5 = namespace_names(namespaces@);
    assert(sci_is_empty(namespaces@));
    assert(n5 =~= n4 + (if toggles.sci {
        seq![Capability::Sci.spec_name()]
    } else {
        seq![]
    }));
    namespaces
}

/// Applying one selection twice gives what applying it once gives: the same
/// toggle set, and with it the same names to build namespaces for.
pub proof fn lemma_selection_idempotent(current: ToggleSet, selected: Seq<String>)
    ensures
        current.replaced_by(selected).replaced_by(selected) == current.replaced_by(selected),
        current.replaced_by(selected).replaced_by(selected).enabled_names() == current.replaced_by(
            selected,
        ).enabled_names(),
{
}

/// A selection that names a capability, followed at once by one that does
/// not, leaves the toggle set that the second selection alone would have
/// left: the capability is inactive and its name is not among the names to
/// build namespaces for.
pub proof fn lemma_enable_then_disable(
    current: ToggleSet,
    capability: Capability,
    with: Seq<String>,
    without: Seq<String>,
)
    requires
        selects(with, capability),
        !selects(without, capability),
    ensures
        current.replaced_by(with).enabled(capability),
        current.replaced_by(with).replaced_by(without) == current.replaced_by(without),
        !current.replaced_by(with).replaced_by(without).enabled(capability),
        !current.replaced_by(with).replaced_by(without).enabled_names().contains(
            capability.spec_name(),
        ),
{
    current.replaced_by(without).lemma_enabled_names();
}

} // verus!
