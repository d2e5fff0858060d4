use moklog::config::Config;
use moklog::hooks::{hook_name, HookError, HookKind, ThemeHooks};
use moklog::session::{site_content_diff, BuildLock, BuildRequest, SiteContentDiffElem};

#[test]
fn second_build_request_waits_for_the_first() {
    let mut lock = BuildLock::new();
    assert_eq!(lock.request(), BuildRequest::Started);
    assert!(lock.is_running());
    assert_eq!(lock.request(), BuildRequest::Queued);
    assert_eq!(lock.request(), BuildRequest::Busy);
    assert!(lock.finish());
    assert!(lock.is_running());
    assert!(!lock.finish());
    assert!(!lock.is_running());
    assert_eq!(lock.request(), BuildRequest::Started);
}

#[test]
fn diff_lists_added_then_removed() {
    let d = site_content_diff(&vec![1, 2, 3], &vec![2, 3, 4, 5]);
    assert_eq!(
        d,
        vec![SiteContentDiffElem::Added(4), SiteContentDiffElem::Added(5), SiteContentDiffElem::Removed(1)]
    );
    assert!(site_content_diff(&vec![7], &vec![7]).is_empty());
    assert_eq!(site_content_diff(&vec![], &vec![9]), vec![SiteContentDiffElem::Added(9)]);
    assert_eq!(
        site_content_diff(&vec![1, 1, 2], &vec![3, 3, 2, 3]),
        vec![SiteContentDiffElem::Added(3), SiteContentDiffElem::Removed(1)]
    );
}

#[test]
fn hook_counters_read_before_increment() {
    let mut hooks = ThemeHooks::new();
    assert_eq!(hooks.add(HookKind::Filter, "upper".into(), "fn filter(v, a, n) { v }".into()), Ok(()));
    assert_eq!(hooks.add(HookKind::Function, "upper".into(), "fn main(a, n) { 1 }".into()), Ok(()));
    assert_eq!(hooks.add(HookKind::Filter, "upper".into(), "x".into()), Err(HookError::Duplicate));
    assert_eq!(hooks.invoke(HookKind::Filter, "upper"), Some(0));
    assert_eq!(hooks.invoke(HookKind::Filter, "upper"), Some(1));
    assert_eq!(hooks.invoke(HookKind::Function, "upper"), Some(0));
    assert_eq!(hooks.invoke(HookKind::Tester, "upper"), None);
    assert_eq!(hook_name("first_word.rhai"), "first_word");
}

#[test]
fn config_getters() {
    let c = Config {
        postgres: "postgres://db".into(),
        admin_key: "SECRET-REDACTED".into(),
        git: "https://git.example/site".into(),
        branch: "main".into(),
        default_timezone: 9,
        sitename: "Site".into(),
        srv_large_subdomain: true,
    };
    assert_eq!(c.postgres(), "postgres://db");
    assert_eq!(c.admin_key(), "SECRET-REDACTED");
    assert_eq!(c.git(), "https://git.example/site");
    assert_eq!(c.branch(), "main");
    assert_eq!(c.default_timezone(), 9);
    assert_eq!(c.sitename(), "Site");
    assert!(c.srv_large_subdomain());
}
