//! Plugin lifecycle reference counting.

use pact_plugins::manager::{LoadStep, PluginIdentity, PluginManager, ReleaseStep};

fn identity(name: &str, version: &str) -> PluginIdentity {
    PluginIdentity { name: name.to_string(), version: version.to_string() }
}

#[test]
fn balanced_loads_and_releases_start_and_stop_once() {
    let mut manager = PluginManager::new();
    let id = identity("custom-matcher", "1.0");
    let mut starts = 0;
    for _ in 0..3 {
        if matches!(manager.load(&id), LoadStep::Started) {
            starts += 1;
        }
    }
    assert_eq!(starts, 1);
    assert_eq!(manager.loaded_count(&id), 3);
    let mut stops = 0;
    for _ in 0..3 {
        if matches!(manager.release(&id), ReleaseStep::Stop) {
            stops += 1;
        }
    }
    assert_eq!(stops, 1);
    assert_eq!(manager.loaded_count(&id), 0);
    assert!(manager.entries.is_empty());
}

#[test]
fn releasing_an_unknown_identity_is_a_no_op() {
    let mut manager = PluginManager::new();
    let id = identity("never-loaded", "0.1");
    assert!(matches!(manager.release(&id), ReleaseStep::NotLoaded));
    assert!(manager.entries.is_empty());

    let other = identity("loaded", "1.0");
    assert!(matches!(manager.load(&other), LoadStep::Started));
    assert!(matches!(manager.release(&id), ReleaseStep::NotLoaded));
    assert_eq!(manager.loaded_count(&other), 1);
}

#[test]
fn identities_are_counted_separately() {
    let mut manager = PluginManager::new();
    let a = identity("matcher", "1.0");
    let b = identity("matcher", "2.0");
    assert!(matches!(manager.load(&a), LoadStep::Started));
    assert!(matches!(manager.load(&b), LoadStep::Started));
    assert!(matches!(manager.load(&a), LoadStep::Attached));
    assert_eq!(manager.loaded_count(&a), 2);
    assert_eq!(manager.loaded_count(&b), 1);
    assert!(matches!(manager.release(&b), ReleaseStep::Stop));
    assert!(matches!(manager.release(&a), ReleaseStep::Retained));
    assert!(matches!(manager.release(&a), ReleaseStep::Stop));
}
