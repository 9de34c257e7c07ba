use himitsu::env_cache::Scope;
use himitsu::envs_mut::{project_config_probes, resolve_scope, ResolvedScope, ScopeHint};
use himitsu::error::HimitsuError;

fn ancestors(p: &str) -> Vec<String> {
    std::path::Path::new(p).ancestors().map(|a| a.to_string_lossy().into_owned()).collect()
}

fn first_existing(probes: &[String], existing: &[&str]) -> Option<String> {
    probes.iter().find(|p| existing.contains(&p.as_str())).cloned()
}

#[test]
fn probes_walk_up_nearest_first() {
    let probes = project_config_probes(&ancestors("/home/u/proj/a"));
    assert_eq!(probes.len(), 5 * 7);
    assert_eq!(probes[0], "/home/u/proj/a/.himitsu.yaml");
    assert_eq!(probes[6], "/home/u/proj/a/.himitsu/config.yml");
    assert_eq!(probes[7], "/home/u/proj/.himitsu.yaml");
    assert_eq!(probes[28], "/.himitsu.yaml");
    assert_eq!(probes[34], "/.himitsu/config.yml");
}

#[test]
fn probes_stop_after_twenty_one_levels() {
    let deep = format!("/{}", (0..30).map(|i| format!("d{i}")).collect::<Vec<_>>().join("/"));
    let probes = project_config_probes(&ancestors(&deep));
    assert_eq!(probes.len(), 21 * 7);
    assert!(!probes.iter().any(|p| p == "/.himitsu.yaml"));
}

#[test]
fn auto_prefers_a_project_config_found_walking_up() {
    let probes = project_config_probes(&ancestors("/t/proj/a/b"));
    let found = first_existing(&probes, &["/t/proj/.himitsu.yaml", "/t/.himitsu.yaml"]);
    let r = resolve_scope(ScopeHint::Auto, "/t/proj/a/b", found, "/cfg/config.yaml").unwrap();
    assert_eq!(
        r,
        ResolvedScope { scope: Scope::Project, config_path: "/t/proj/.himitsu.yaml".into() }
    );
}

#[test]
fn auto_falls_back_to_global() {
    let r = resolve_scope(ScopeHint::Auto, "/t/isolated", None, "/cfg/config.yaml").unwrap();
    assert_eq!(r, ResolvedScope { scope: Scope::Global, config_path: "/cfg/config.yaml".into() });
}

#[test]
fn project_scope_needs_a_project_config() {
    let err = resolve_scope(ScopeHint::Project, "/t/lonely", None, "/cfg/config.yaml").unwrap_err();
    assert_eq!(
        err,
        HimitsuError::ProjectConfigRequired(
            "no project config (.himitsu.yaml) found walking up from /t/lonely".into()
        )
    );
}

#[test]
fn global_scope_ignores_a_project_config() {
    let r = resolve_scope(ScopeHint::Global, "/t", Some("/t/himitsu.yaml".into()), "/g.yaml").unwrap();
    assert_eq!(r.scope, Scope::Global);
    assert_eq!(r.config_path, "/g.yaml");
}
