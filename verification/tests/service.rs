use taskbase::service::{ready_route, DbService, InvalidNamespace, READY_TOPIC};

fn names(list: &[&str]) -> Vec<String> {
    list.iter().map(|name| name.to_string()).collect()
}

#[test]
fn ready_topic_is_task_ready() {
    assert_eq!(READY_TOPIC, "task_ready");
}

#[test]
fn ready_route_is_topic_then_namespace() {
    assert_eq!(ready_route("default"), "task_ready/default");
    assert_eq!(ready_route(""), "task_ready/");
    assert_eq!(ready_route("名前"), "task_ready/名前");
}

#[test]
fn new_keeps_each_namespace_once_in_first_order() {
    let scope = DbService::new(names(&["b", "a", "b", "c", "a", "b"])).unwrap();
    assert_eq!(scope.namespaces(), &names(&["b", "a", "c"]));
}

#[test]
fn new_accepts_no_namespaces() {
    let scope = DbService::new(Vec::new()).unwrap();
    assert!(scope.namespaces().is_empty());
    assert!(scope.listen_channels().is_empty());
    assert!(!scope.is_authorized("default"));
}

#[test]
fn new_refuses_first_namespace_with_separator() {
    assert_eq!(
        DbService::new(names(&["default", "a/b", "c/d"])).err(),
        Some(InvalidNamespace { index: 1 })
    );
    assert_eq!(
        DbService::new(names(&["/"])).err(),
        Some(InvalidNamespace { index: 0 })
    );
    assert_eq!(
        DbService::new(names(&["x", "x", "x/"])).err(),
        Some(InvalidNamespace { index: 2 })
    );
}

#[test]
fn position_finds_authorized_namespaces() {
    let scope = DbService::new(names(&["default", "billing"])).unwrap();
    assert_eq!(scope.position("default"), Some(0));
    assert_eq!(scope.position("billing"), Some(1));
    assert_eq!(scope.position("unknown"), None);
    assert_eq!(scope.position(""), None);
    assert_eq!(scope.position("Default"), None);
}

#[test]
fn is_authorized_is_membership() {
    let scope = DbService::new(names(&["default", "billing", ""])).unwrap();
    assert!(scope.is_authorized("default"));
    assert!(scope.is_authorized("billing"));
    assert!(scope.is_authorized(""));
    assert!(!scope.is_authorized("unknown"));
    assert!(!scope.is_authorized("default/"));
}

#[test]
fn listen_channels_has_one_topic_per_namespace() {
    let scope = DbService::new(names(&["default", "billing", "default"])).unwrap();
    assert_eq!(
        scope.listen_channels(),
        names(&["task_ready/default", "task_ready/billing"])
    );
}
