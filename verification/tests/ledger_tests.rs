use blades::ledger::{cleanup_plan, DeleteAction, Ledger};

#[test]
fn reconcile_deletes_only_stale_paths() {
    // previous manifest {x.html, y.html}, new ledger {x.html: 1, z.html: 1}:
    // y.html is deleted, x.html and z.html stay, the new manifest is {x, z}
    let mut led = Ledger::new();
    led.record("x.html".to_string());
    led.record("z.html".to_string());
    let previous = vec!["x.html".to_string(), "y.html".to_string()];
    let plan = cleanup_plan(&previous, &led);
    assert_eq!(plan.len(), 1);
    match &plan[0] {
        DeleteAction::File(f) => assert_eq!(f, "y.html"),
        DeleteAction::Directory(_) => panic!("y.html is a file, not a directory"),
    }
    let mut manifest = led.paths();
    manifest.sort();
    assert_eq!(manifest, vec!["x.html".to_string(), "z.html".to_string()]);
}

#[test]
fn collision_counts_twice_and_warns() {
    // two renders of the same path: count 2 and a warning entry, no error
    let mut led = Ledger::new();
    led.record("same.html".to_string());
    led.record("other.html".to_string());
    led.record("same.html".to_string());
    let warn = led.collisions();
    assert_eq!(warn.len(), 1);
    assert_eq!(warn[0].0, "same.html");
    assert_eq!(warn[0].1, 2);
}

#[test]
fn merge_sums_counts_per_path() {
    let mut a = Ledger::new();
    a.record("a.html".to_string());
    a.record("b.html".to_string());
    let mut b = Ledger::new();
    b.record("b.html".to_string());
    b.record("c.html".to_string());
    a.merge(&b);
    let mut paths = a.paths();
    paths.sort();
    assert_eq!(
        paths,
        vec!["a.html".to_string(), "b.html".to_string(), "c.html".to_string()]
    );
    let warn = a.collisions();
    assert_eq!(warn.len(), 1);
    assert_eq!(warn[0].0, "b.html");
    assert_eq!(warn[0].1, 2);
}

#[test]
fn stale_index_removes_its_directory() {
    // a stale index.html owns its directory: the whole directory goes,
    // trailing separator kept
    let led = Ledger::new();
    let previous = vec!["blog/index.html".to_string(), "top.html".to_string()];
    let plan = cleanup_plan(&previous, &led);
    assert_eq!(plan.len(), 2);
    match &plan[0] {
        DeleteAction::Directory(d) => assert_eq!(d, "blog/"),
        DeleteAction::File(_) => panic!("expected a directory delete"),
    }
    match &plan[1] {
        DeleteAction::File(f) => assert_eq!(f, "top.html"),
        DeleteAction::Directory(_) => panic!("expected a file delete"),
    }
}

#[test]
fn bare_index_is_just_a_file() {
    // "index.html" with no directory prefix deletes only the file
    let led = Ledger::new();
    let previous = vec!["index.html".to_string()];
    let plan = cleanup_plan(&previous, &led);
    assert_eq!(plan.len(), 1);
    match &plan[0] {
        DeleteAction::File(f) => assert_eq!(f, "index.html"),
        DeleteAction::Directory(_) => panic!("bare index.html is a plain file"),
    }
}
