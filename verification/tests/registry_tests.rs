use script_host::registry::{
    apply_selection, build_namespaces, compose_capability, describe, describe_capability,
    selection_names, Capability, ToggleSet,
};
use script_host::sci::SciPackage;

fn names(list: &[&str]) -> Vec<String> {
    list.iter().map(|name| name.to_string()).collect()
}

#[test]
fn capability_names_are_the_namespaces() {
    assert_eq!(Capability::Rand.name(), "rand");
    assert_eq!(Capability::Fs.name(), "fs");
    assert_eq!(Capability::Url.name(), "url");
    assert_eq!(Capability::Ml.name(), "ml");
    assert_eq!(Capability::Sci.name(), "sci");
}

#[test]
fn toggle_sets_all_and_none() {
    let all = ToggleSet::all();
    let none = ToggleSet::none();
    for capability in [Capability::Rand, Capability::Fs, Capability::Url, Capability::Ml, Capability::Sci] {
        assert!(all.is_enabled(capability));
        assert!(!none.is_enabled(capability));
    }
}

#[test]
fn default_toggle_set_has_everything_active() {
    assert_eq!(ToggleSet::default(), ToggleSet::all());
    assert_ne!(ToggleSet::default(), ToggleSet::none());
}

#[test]
fn apply_selection_is_a_full_replace() {
    let current = ToggleSet::all();
    let next = apply_selection(&current, &names(&["fs"]));
    assert_eq!(next, ToggleSet { rand: false, fs: true, url: false, ml: false, sci: false });
    let from_none = apply_selection(&ToggleSet::none(), &names(&["fs"]));
    assert_eq!(from_none, next);
}

#[test]
fn apply_selection_with_nothing_selected_disables_everything() {
    assert_eq!(apply_selection(&ToggleSet::all(), &Vec::new()), ToggleSet::none());
}

#[test]
fn apply_selection_trims_and_ignores_case() {
    let next = apply_selection(&ToggleSet::none(), &names(&["  RAND\t", "Ml", "\u{a0}sci\u{3000}"]));
    assert_eq!(next, ToggleSet { rand: true, fs: false, url: false, ml: true, sci: true });
}

#[test]
fn apply_selection_ignores_unknown_names() {
    let next = apply_selection(&ToggleSet::all(), &names(&["random", "f s", "", "url::", "rhai-ml"]));
    assert_eq!(next, ToggleSet::none());
}

#[test]
fn apply_selection_accepts_repeated_names() {
    let next = apply_selection(&ToggleSet::none(), &names(&["url", "URL", "url"]));
    assert_eq!(next, ToggleSet { rand: false, fs: false, url: true, ml: false, sci: false });
}

#[test]
fn apply_selection_is_idempotent() {
    let selection = names(&["rand", "sci", "nothing"]);
    let once = apply_selection(&ToggleSet::all(), &selection);
    let twice = apply_selection(&once, &selection);
    assert_eq!(once, twice);
    let first: Vec<String> = build_namespaces(&once).iter().map(|n| n.outline.name.clone()).collect();
    let second: Vec<String> = build_namespaces(&twice).iter().map(|n| n.outline.name.clone()).collect();
    assert_eq!(first, second);
    assert_eq!(first, names(&["rand", "sci"]));
}

#[test]
fn enabling_then_disabling_restores_the_toggle_set() {
    let start = ToggleSet::none();
    for capability in [Capability::Rand, Capability::Fs, Capability::Url, Capability::Ml, Capability::Sci] {
        let never = apply_selection(&start, &names(&["ml"]));
        let mut with = names(&["ml"]);
        with.push(capability.name().to_string());
        let enabled = apply_selection(&start, &with);
        assert!(enabled.is_enabled(capability));
        let disabled = apply_selection(&enabled, &names(&["ml"]));
        assert_eq!(disabled, never);
    }
}

#[test]
fn selection_names_finds_a_capability() {
    let selection = names(&["x", " Fs "]);
    assert!(selection_names(&selection, Capability::Fs));
    assert!(!selection_names(&selection, Capability::Rand));
    assert!(!selection_names(&Vec::new(), Capability::Fs));
}

#[test]
fn describe_lists_the_catalogue_in_order() {
    let toggles = ToggleSet { rand: true, fs: false, url: true, ml: false, sci: false };
    let list = describe(&toggles);
    let shown: Vec<(&str, bool)> = list.iter().map(|line| (line.name.as_str(), line.selected)).collect();
    assert_eq!(
        shown,
        vec![("rand", true), ("fs", false), ("url", true), ("ml", false), ("sci", false)]
    );
    assert_eq!(list[0].origin, "rhai-rand");
    assert_eq!(list[4].origin, "rhai-sci");
    assert!(list.iter().all(|line| !line.description.is_empty()));
}

#[test]
fn describe_capability_shows_one_line() {
    let line = describe_capability(&ToggleSet::all(), Capability::Url);
    assert_eq!(line.name, "url");
    assert_eq!(line.description, Capability::Url.description());
    assert_eq!(line.origin, Capability::Url.origin());
    assert!(line.selected);
}

#[test]
fn build_namespaces_omits_inactive_capabilities() {
    assert!(build_namespaces(&ToggleSet::none()).is_empty());
    let toggles = ToggleSet { rand: false, fs: true, url: false, ml: true, sci: false };
    let built: Vec<String> = build_namespaces(&toggles).iter().map(|n| n.outline.name.clone()).collect();
    assert_eq!(built, names(&["fs", "ml"]));
    let all: Vec<String> = build_namespaces(&ToggleSet::all()).iter().map(|n| n.outline.name.clone()).collect();
    assert_eq!(all, names(&["rand", "fs", "url", "ml", "sci"]));
}

#[test]
fn composed_capabilities_are_flat_and_named() {
    let rand = compose_capability(Capability::Rand);
    assert_eq!(rand.outline.name, "rand");
    assert!(rand.outline.children.is_empty());
    assert!(rand.outline.symbols.contains(&"rand".to_string()));
    assert_eq!(rand.module.iter_sub_modules().count(), 0);
    assert!(rand.module.count().1 > 0);
}

#[test]
fn sci_package_is_empty() {
    let package = SciPackage::new();
    let module = package.as_shared_module();
    assert!(module.is_empty());
    let sci = compose_capability(Capability::Sci);
    assert_eq!(sci.outline.name, "sci");
    assert!(sci.outline.symbols.is_empty());
    assert!(sci.outline.children.is_empty());
    assert!(SciPackage::default().as_shared_module().is_empty());
}
