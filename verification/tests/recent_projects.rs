use veal::recent::add_recent_project;
use veal::recent::AppConfig;
use veal::recent::MAX_RECENT_PROJECTS;

fn paths(config: &AppConfig) -> Vec<String> {
    config.recent_projects.iter().map(|p| p.path.clone()).collect()
}

fn add(config: &mut AppConfig, name: &str, when: &str, path: &str) {
    add_recent_project(config, name.to_string(), when.to_string(), path.to_string());
}

#[test]
fn first_project_goes_into_empty_list() {
    let mut config = AppConfig::default();
    assert!(config.recent_projects.is_empty());
    add(&mut config, "alpha", "Jan  1, 10:00 AM", "/p/alpha.veal");
    assert_eq!(config.recent_projects.len(), 1);
    assert_eq!(config.recent_projects[0].name, "alpha");
    assert_eq!(config.recent_projects[0].last_modified, "Jan  1, 10:00 AM");
    assert_eq!(config.recent_projects[0].path, "/p/alpha.veal");
}

#[test]
fn newest_project_comes_first_and_order_is_kept() {
    let mut config = AppConfig::default();
    add(&mut config, "a", "t1", "/a.veal");
    add(&mut config, "b", "t2", "/b.veal");
    add(&mut config, "c", "t3", "/c.veal");
    assert_eq!(paths(&config), vec!["/c.veal", "/b.veal", "/a.veal"]);
}

#[test]
fn reopening_moves_project_to_front_without_duplicate() {
    let mut config = AppConfig::default();
    add(&mut config, "a", "t1", "/a.veal");
    add(&mut config, "b", "t2", "/b.veal");
    add(&mut config, "c", "t3", "/c.veal");
    add(&mut config, "a again", "t4", "/a.veal");
    assert_eq!(paths(&config), vec!["/a.veal", "/c.veal", "/b.veal"]);
    assert_eq!(config.recent_projects[0].name, "a again");
    assert_eq!(config.recent_projects[0].last_modified, "t4");
}

#[test]
fn list_keeps_at_most_five_projects() {
    let mut config = AppConfig::default();
    for i in 0..7 {
        add(&mut config, &format!("p{}", i), "t", &format!("/p{}.veal", i));
    }
    assert_eq!(MAX_RECENT_PROJECTS, 5);
    assert_eq!(config.recent_projects.len(), 5);
    assert_eq!(paths(&config), vec!["/p6.veal", "/p5.veal", "/p4.veal", "/p3.veal", "/p2.veal"]);
}

#[test]
fn reopening_in_full_list_keeps_five() {
    let mut config = AppConfig::default();
    for i in 0..5 {
        add(&mut config, &format!("p{}", i), "t", &format!("/p{}.veal", i));
    }
    add(&mut config, "p0", "t", "/p0.veal");
    assert_eq!(paths(&config), vec!["/p0.veal", "/p4.veal", "/p3.veal", "/p2.veal", "/p1.veal"]);
}

#[test]
fn adding_twice_equals_adding_once() {
    let mut once = AppConfig::default();
    add(&mut once, "a", "t1", "/a.veal");
    add(&mut once, "b", "t2", "/b.veal");
    add(&mut once, "a", "t3", "/a.veal");
    let mut twice = AppConfig::default();
    add(&mut twice, "a", "t1", "/a.veal");
    add(&mut twice, "b", "t2", "/b.veal");
    add(&mut twice, "a", "t3", "/a.veal");
    add(&mut twice, "a", "t3", "/a.veal");
    assert_eq!(paths(&once), paths(&twice));
    assert_eq!(once.recent_projects[0].last_modified, twice.recent_projects[0].last_modified);
}

#[test]
fn duplicates_already_in_list_are_all_dropped() {
    let mut config = AppConfig::default();
    config.recent_projects.push(veal::recent::RecentProject {
        name: "x".to_string(),
        last_modified: "t".to_string(),
        path: "/x.veal".to_string(),
    });
    config.recent_projects.push(veal::recent::RecentProject {
        name: "x2".to_string(),
        last_modified: "t".to_string(),
        path: "/x.veal".to_string(),
    });
    add(&mut config, "y", "t", "/y.veal");
    assert_eq!(paths(&config), vec!["/y.veal", "/x.veal", "/x.veal"]);
    add(&mut config, "x3", "t", "/x.veal");
    assert_eq!(paths(&config), vec!["/x.veal", "/y.veal"]);
}

#[test]
fn paths_are_compared_exactly() {
    let mut config = AppConfig::default();
    add(&mut config, "a", "t", "/a.veal");
    add(&mut config, "A", "t", "/A.veal");
    add(&mut config, "a2", "t", "/a.veal/");
    assert_eq!(paths(&config), vec!["/a.veal/", "/A.veal", "/a.veal"]);
}
