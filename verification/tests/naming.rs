use jumper::file_ops::{format_size, get_unique_path, plan_destinations, FileOpError};

fn occ(names: &[&str]) -> Vec<String> {
    names.iter().map(|s| s.to_string()).collect()
}

#[test]
fn free_name_is_used_as_is() {
    let r = get_unique_path(&"a.txt".to_string(), false, &occ(&["b.txt"])).unwrap();
    assert_eq!(r, "a.txt");
}

#[test]
fn first_collision_gets_suffix_one() {
    let r = get_unique_path(&"a.txt".to_string(), false, &occ(&["a.txt"])).unwrap();
    assert_eq!(r, "a (1).txt");
}

#[test]
fn second_collision_gets_suffix_two() {
    let r = get_unique_path(&"a.txt".to_string(), false, &occ(&["a.txt", "a (1).txt"])).unwrap();
    assert_eq!(r, "a (2).txt");
}

#[test]
fn directory_suffix_goes_after_whole_name() {
    let r = get_unique_path(&"photos.old".to_string(), true, &occ(&["photos.old"])).unwrap();
    assert_eq!(r, "photos.old (1)");
}

#[test]
fn leading_dot_is_no_extension() {
    let r = get_unique_path(&".bashrc".to_string(), false, &occ(&[".bashrc"])).unwrap();
    assert_eq!(r, ".bashrc (1)");
}

#[test]
fn no_extension_suffix_goes_at_end() {
    let r = get_unique_path(&"notes".to_string(), false, &occ(&["notes", "notes (1)"])).unwrap();
    assert_eq!(r, "notes (2)");
}

#[test]
fn exhausted_probes_report_no_unique_destination() {
    let mut names: Vec<String> = vec!["n.txt".to_string()];
    for i in 1..=9999u64 {
        names.push(format!("n ({}).txt", i));
    }
    let r = get_unique_path(&"n.txt".to_string(), false, &names);
    assert_eq!(r.unwrap_err(), FileOpError::NoUniqueDestination);
}

#[test]
fn batch_plan_threads_chosen_names() {
    // two same-named sources land beside an existing "a.txt" as (1) and (2)
    let sources = vec![
        ("/src1/a.txt".to_string(), false),
        ("/src2/a.txt".to_string(), false),
    ];
    let plan = plan_destinations(&sources, &"/dest".to_string(), occ(&["a.txt"])).unwrap();
    assert_eq!(plan.len(), 2);
    assert_eq!(plan[0].source, "/src1/a.txt");
    assert_eq!(plan[0].dest, "/dest/a (1).txt");
    assert_eq!(plan[1].source, "/src2/a.txt");
    assert_eq!(plan[1].dest, "/dest/a (2).txt");
}

#[test]
fn batch_plan_into_empty_directory_keeps_names() {
    let sources = vec![
        ("/from/x".to_string(), true),
        ("/from/y.md".to_string(), false),
    ];
    let plan = plan_destinations(&sources, &"/to".to_string(), Vec::new()).unwrap();
    assert_eq!(plan[0].dest, "/to/x");
    assert_eq!(plan[1].dest, "/to/y.md");
}

#[test]
fn every_failure_has_its_label() {
    assert_eq!(FileOpError::NoUniqueDestination.label(), "no unique destination name");
    assert_eq!(FileOpError::AlreadyExists.label(), "already exists");
    assert_eq!(FileOpError::NotFound.label(), "not found");
}

#[test]
fn size_labels_whole_bytes_below_one_kb() {
    assert_eq!(format_size(0), "0 B");
    assert_eq!(format_size(1023), "1023 B");
}

#[test]
fn size_labels_scale_with_two_decimals() {
    assert_eq!(format_size(1024), "1.00 KB");
    assert_eq!(format_size(1536), "1.50 KB");
    assert_eq!(format_size(1136), "1.11 KB");
    assert_eq!(format_size(1048576), "1.00 MB");
    assert_eq!(format_size(5 * 1048576 + 1048576 / 4), "5.25 MB");
    assert_eq!(format_size(1073741824), "1.00 GB");
    assert_eq!(format_size(3 * 1073741824 + 1073741824 / 2), "3.50 GB");
}
