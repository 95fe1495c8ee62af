use gdpack::engine::{parent_dir, Created, InstallPlan, Loader, UpdatePlan};
use gdpack::manifest::Package;

fn package(files: &[&str]) -> Package {
    Package::new(
        "Widget".to_string(),
        "d".to_string(),
        "u".to_string(),
        "1.3".to_string(),
        files.iter().map(|f| f.to_string()).collect(),
    )
}

fn describe(c: &[Created]) -> Vec<String> {
    c.iter()
        .map(|e| match e {
            Created::Dir(d) => format!("dir:{}", d),
            Created::File(f) => format!("file:{}", f),
        })
        .collect()
}

/// Drives a loader with the given copy outcomes, returning what was asked for.
fn drive(l: &mut Loader, outcomes: &[bool]) -> Vec<String> {
    let mut asked = Vec::new();
    let mut k: usize = 0;
    while let Some(i) = l.pending() {
        asked.push(l.current().clone());
        assert_eq!(i, k);
        l.record(true, outcomes[k]);
        k += 1;
    }
    asked
}

#[test]
fn parent_directories() {
    assert_eq!(parent_dir("sub/b.gd"), "sub");
    assert_eq!(parent_dir("a.gd"), "");
    assert_eq!(parent_dir("x/y/z.gd"), "x/y");
}

#[test]
fn install_writes_every_file_in_order() {
    let p = package(&["a.gd", "sub/b.gd"]);
    let plan = p.install(&vec![false, false]);
    let mut l = match plan {
        InstallPlan::Load(l) => l,
        InstallPlan::AlreadyInstalled(_) => panic!("nothing was installed"),
    };
    assert_eq!(drive(&mut l, &[true, true]), vec!["a.gd", "sub/b.gd"]);
    assert!(l.is_complete());
    assert!(!l.is_failed());
    assert_eq!(describe(l.created()), vec!["dir:", "file:a.gd", "dir:sub", "file:sub/b.gd"]);
}

#[test]
fn failed_copy_rolls_back_earlier_files() {
    let p = package(&["a.gd", "b.gd", "c.gd"]);
    let mut l = p.load();
    assert_eq!(drive(&mut l, &[true, false, true]), vec!["a.gd", "b.gd"]);
    assert!(l.is_failed());
    assert!(!l.is_complete());
    assert_eq!(l.pending(), None);
    assert_eq!(describe(l.created()), vec!["dir:", "file:a.gd", "dir:"]);
}

#[test]
fn first_copy_failing_leaves_no_file() {
    let p = package(&["sub/a.gd"]);
    let mut l = p.load();
    l.record(false, false);
    assert!(l.is_failed());
    assert!(l.created().is_empty());
}

#[test]
fn second_install_is_a_no_op() {
    let p = package(&["a.gd", "sub/b.gd"]);
    let mut l = p.load();
    drive(&mut l, &[true, true]);
    match p.install(&vec![true, true]) {
        InstallPlan::AlreadyInstalled(e) => assert_eq!(e, vec!["a.gd", "sub/b.gd"]),
        InstallPlan::Load(_) => panic!("files were written twice"),
    }
}

#[test]
fn partial_existing_state_blocks_install() {
    let p = package(&["a.gd", "b.gd", "c.gd"]);
    assert_eq!(p.existing_files(&vec![false, true, false]), vec!["b.gd"]);
    match p.install(&vec![false, true, false]) {
        InstallPlan::AlreadyInstalled(e) => assert_eq!(e, vec!["b.gd"]),
        InstallPlan::Load(_) => panic!("existing file would be overwritten"),
    }
}

#[test]
fn empty_file_list_installs_nothing() {
    let p = package(&[]);
    let l = match p.install(&vec![]) {
        InstallPlan::Load(l) => l,
        InstallPlan::AlreadyInstalled(_) => panic!(),
    };
    assert!(l.is_complete());
    assert_eq!(l.pending(), None);
}

#[test]
fn update_requires_installed_package_and_higher_version() {
    let p = package(&["a.gd", "b.gd"]);
    assert!(matches!(p.update(false, true), UpdatePlan::NotInstalled));
    assert!(matches!(p.update(true, false), UpdatePlan::NotAnUpgrade));
    match p.update(true, true) {
        UpdatePlan::Load(mut l) => {
            assert_eq!(drive(&mut l, &[true, true]), vec!["a.gd", "b.gd"]);
            assert!(l.is_complete());
        }
        _ => panic!("update should rewrite"),
    }
}

#[test]
fn local_widget_install_layout() {
    let p = Package::new(
        "widget".to_string(),
        "d".to_string(),
        "u".to_string(),
        "1.0".to_string(),
        vec!["a.gd".to_string(), "sub/b.gd".to_string()],
    );
    assert_eq!(p.destination(), "./pack/widget");
    let mut l = p.load();
    drive(&mut l, &[true, true]);
    let dirs: Vec<String> = l
        .created()
        .iter()
        .filter_map(|c| match c {
            Created::Dir(d) => Some(d.clone()),
            _ => None,
        })
        .collect();
    assert_eq!(dirs, vec!["", "sub"]);
}
