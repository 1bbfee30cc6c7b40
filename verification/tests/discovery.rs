use level_sync::config::patch_config;
use level_sync::levels::{base_levels, collect_levels, level_dir_name};

fn strings(items: &[&str]) -> Vec<String> {
    items.iter().map(|s| s.to_string()).collect()
}

#[test]
fn base_list_is_fixed() {
    let base = base_levels();
    assert_eq!(base.len(), 14);
    assert_eq!(base[0], "gridmap_v2");
    assert_eq!(base[13], "derby");
}

#[test]
fn level_dir_extracts_the_name() {
    assert_eq!(level_dir_name("levels/utah/"), Some("utah".to_string()));
    assert_eq!(level_dir_name("levels/my_map/"), Some("my_map".to_string()));
}

#[test]
fn level_dir_rejects_other_paths() {
    assert_eq!(level_dir_name("levels/utah"), None);
    assert_eq!(level_dir_name("levels//"), None);
    assert_eq!(level_dir_name("levels/a/b/"), None);
    assert_eq!(level_dir_name("art/utah/"), None);
    assert_eq!(level_dir_name(""), None);
    assert_eq!(level_dir_name("levels/"), None);
}

#[test]
fn collect_appends_new_names_once() {
    let base = strings(&["a", "b"]);
    let entries = strings(&[
        "levels/c/",
        "levels/b/",
        "readme.txt",
        "levels/c/",
        "levels/d/",
    ]);
    let out = collect_levels(base, &entries);
    assert_eq!(out, strings(&["a", "b", "c", "d"]));
}

#[test]
fn collect_with_no_entries_keeps_base() {
    let out = collect_levels(strings(&["a"]), &strings(&[]));
    assert_eq!(out, strings(&["a"]));
}

#[test]
fn patch_rewrites_the_map_value() {
    let content = "[General]\nMap = \"/levels/gridmap_v2/info.json\"\n";
    let out = patch_config(content, "utah");
    assert_eq!(out, "[General]\nMap = \"/levels/utah/info.json\"\n");
}

#[test]
fn patch_leaves_unmatched_text_alone() {
    let content = "[General]\nMap = \"something else\"\n";
    assert_eq!(patch_config(content, "utah"), content);
    assert_eq!(patch_config("", "utah"), "");
}

#[test]
fn patch_skips_an_empty_segment() {
    let content = "Map = \"/levels//info.json\"";
    assert_eq!(patch_config(content, "utah"), content);
}

#[test]
fn patch_touches_only_the_first_occurrence() {
    let content = "\"/levels/a/info.json\" \"/levels/b/info.json\"";
    let out = patch_config(content, "c");
    assert_eq!(out, "\"/levels/c/info.json\" \"/levels/b/info.json\"");
}
