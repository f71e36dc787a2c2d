use fde_core::manager::{find_file_entry_by_folder, scan, FileItem, FolderListing};

fn item(name: &str, path: &str) -> FileItem {
    FileItem { name: name.to_string(), path: path.to_string() }
}

fn listing(name: &str, path: &str, files: Vec<FileItem>) -> FolderListing {
    FolderListing { name: name.to_string(), path: path.to_string(), files }
}

#[test]
fn test_scan() {
    let result = scan(&Vec::new(), &Vec::new());
    println!("{:#?}", result);
    assert!(result.projects.is_empty());
    assert!(result.recipes.is_empty());
}

#[test]
fn test_scan_keeps_only_complete_folders() {
    let complete = listing(
        "name_display",
        "recipes/name_display",
        vec![
            item("name_display_dc_bit.bit", "recipes/name_display/name_display_dc_bit.bit"),
            item("name_display_cons.xml", "recipes/name_display/name_display_cons.xml"),
            item("name_display_meta.json", "recipes/name_display/name_display_meta.json"),
            item("notes.txt", "recipes/name_display/notes.txt"),
        ],
    );
    let incomplete = listing(
        "counter",
        "recipes/counter",
        vec![item("counter_dc_bit.bit", "recipes/counter/counter_dc_bit.bit")],
    );
    let wrong_names = listing(
        "blink",
        "recipes/blink",
        vec![
            item("other_dc_bit.bit", "recipes/blink/other_dc_bit.bit"),
            item("blink_cons.xml", "recipes/blink/blink_cons.xml"),
            item("blink_meta.json", "recipes/blink/blink_meta.json"),
        ],
    );
    let result = scan(&Vec::new(), &vec![complete, incomplete, wrong_names]);
    assert!(result.projects.is_empty());
    assert_eq!(result.recipes.len(), 1);
    let entry = &result.recipes[0];
    assert_eq!(entry.folder, "name_display");
    assert_eq!(entry.folder_path, "recipes/name_display");
    assert_eq!(entry.dc_bit, "recipes/name_display/name_display_dc_bit.bit");
    assert_eq!(entry.cons, "recipes/name_display/name_display_cons.xml");
    assert_eq!(entry.meta, "recipes/name_display/name_display_meta.json");
}

#[test]
fn test_find_file_entry_by_folder() {
    let l1 = listing(
        "alpha",
        "projects/alpha",
        vec![
            item("alpha_dc_bit.bit", "a.bit"),
            item("alpha_cons.xml", "a.xml"),
            item("alpha_meta.json", "a.json"),
        ],
    );
    let l2 = listing(
        "beta",
        "projects/beta",
        vec![
            item("beta_dc_bit.bit", "b.bit"),
            item("beta_cons.xml", "b.xml"),
            item("beta_meta.json", "b.json"),
        ],
    );
    let result = scan(&vec![l1, l2], &Vec::new());
    let found = find_file_entry_by_folder(&result.projects, "beta").unwrap();
    assert_eq!(found.dc_bit, "b.bit");
    assert!(find_file_entry_by_folder(&result.projects, "gamma").is_none());
}
