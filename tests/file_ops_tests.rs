use extract_images::config::Config;
use extract_images::error::ExtractError;
use extract_images::file_ops::{
    decide_entry, excludes_folded, file_extension, make_dest_name, next_step, plan_copies, reports_copy, EntryAction,
    SourceEntry,
};

fn config(prefix: &str, exclude: Option<&str>, dry_run: bool) -> Config {
    Config {
        output: None,
        min_size_kb: 100,
        prefix: prefix.to_string(),
        exclude_extensions: exclude.map(|s| s.to_string()),
        verbose: false,
        dry_run,
    }
}

fn file(name: &str, len: u64) -> SourceEntry {
    SourceEntry { name: Some(name.to_string()), len, is_file: true }
}

fn dir(name: &str) -> SourceEntry {
    SourceEntry { name: Some(name.to_string()), len: 4096, is_file: false }
}

#[test]
fn extension_follows_the_last_dot() {
    assert_eq!(file_extension("a.JPG"), Some("JPG"));
    assert_eq!(file_extension("archive.tar.gz"), Some("gz"));
    assert_eq!(file_extension("trailing."), Some(""));
    assert_eq!(file_extension("noext"), None);
    assert_eq!(file_extension(".hidden"), None);
    assert_eq!(file_extension(".."), None);
    assert_eq!(file_extension(""), None);
}

#[test]
fn dest_name_has_prefix_number_and_extension() {
    assert_eq!(make_dest_name("image", 12, "png"), "image_12.png");
    assert_eq!(make_dest_name("", 1, ""), "_1.");
}

#[test]
fn directories_are_skipped() {
    let r = decide_entry(&config("image", None, false), 0, &dir("sub"));
    assert!(matches!(r, Ok(EntryAction::SkipNotFile)));
}

#[test]
fn small_files_are_skipped() {
    let c = config("image", None, false);
    assert!(matches!(decide_entry(&c, 0, &file("a.jpg", 102_399)), Ok(EntryAction::SkipTooSmall)));
    assert!(matches!(decide_entry(&c, 0, &file("a.jpg", 102_400)), Ok(EntryAction::Copy(_))));
}

#[test]
fn a_threshold_past_the_largest_size_takes_nothing() {
    let mut c = config("image", None, false);
    c.min_size_kb = u64::MAX;
    assert!(matches!(decide_entry(&c, 0, &file("a.jpg", u64::MAX)), Ok(EntryAction::SkipTooSmall)));
}

#[test]
fn an_undecodable_name_stops_the_run() {
    let entry = SourceEntry { name: None, len: 200_000, is_file: true };
    let r = decide_entry(&config("image", None, false), 0, &entry);
    assert!(matches!(r, Err(ExtractError::InvalidFileName)));
}

#[test]
fn an_undecodable_name_below_the_threshold_is_only_skipped() {
    let entry = SourceEntry { name: None, len: 10, is_file: true };
    let r = decide_entry(&config("image", None, false), 0, &entry);
    assert!(matches!(r, Ok(EntryAction::SkipTooSmall)));
}

#[test]
fn excluded_extensions_match_in_any_case() {
    let c = config("image", Some("ico, BMP"), false);
    assert!(matches!(decide_entry(&c, 0, &file("bad.ICO", 200_000)), Ok(EntryAction::SkipExcluded)));
    assert!(matches!(decide_entry(&c, 0, &file("bad.bmp", 200_000)), Ok(EntryAction::SkipExcluded)));
}

#[test]
fn copies_are_numbered_after_those_before() {
    let r = decide_entry(&config("image", None, false), 2, &file("x.png", 200_000));
    match r {
        Ok(EntryAction::Copy(dest)) => assert_eq!(dest, "image_3.png"),
        other => panic!("unexpected {:?}", other),
    }
}

#[test]
fn a_name_without_extension_gets_jpg() {
    let r = decide_entry(&config("img", None, false), 0, &file("a1b2c3", 200_000));
    match r {
        Ok(EntryAction::Copy(dest)) => assert_eq!(dest, "img_1.jpg"),
        other => panic!("unexpected {:?}", other),
    }
}

#[test]
fn excluding_jpg_also_skips_names_without_extension() {
    let c = config("image", Some("jpg"), false);
    assert!(matches!(decide_entry(&c, 0, &file("a1b2c3", 200_000)), Ok(EntryAction::SkipExcluded)));
}

#[test]
fn dry_run_simulates_under_the_same_name() {
    let r = decide_entry(&config("image", None, true), 0, &file("test.jpg", 200_000));
    match r {
        Ok(EntryAction::Simulate(dest)) => assert_eq!(dest, "image_1.jpg"),
        other => panic!("unexpected {:?}", other),
    }
}

#[test]
fn test_copy_files_with_empty_directory() {
    let plan = plan_copies(&config("image", None, false), &vec![]);
    assert_eq!(plan.copies.len(), 0);
    assert_eq!(plan.invalid_name_at, None);
}

#[test]
fn test_full_workflow() {
    let entries = vec![
        file("small.jpg", 50_000),
        file("large.jpg", 200_000),
        file("another.png", 150_000),
    ];
    let plan = plan_copies(&config("wallpaper", None, false), &entries);
    assert_eq!(plan.invalid_name_at, None);
    assert_eq!(plan.copies.len(), 2);
    let names: Vec<&str> = plan.copies.iter().map(|c| c.dest.as_str()).collect();
    assert!(names.iter().any(|n| n.starts_with("wallpaper_") && n.ends_with(".jpg")));
    assert!(names.iter().any(|n| n.starts_with("wallpaper_") && n.ends_with(".png")));
    assert!(plan.copies.iter().all(|c| c.source != 0 && c.write));
    assert_eq!(names, vec!["wallpaper_1.jpg", "wallpaper_2.png"]);
}

#[test]
fn test_dry_run_mode() {
    let entries = vec![file("test.jpg", 200_000)];
    let mut c = config("image", None, true);
    c.verbose = true;
    let plan = plan_copies(&c, &entries);
    assert_eq!(plan.copies.len(), 1);
    assert_eq!(plan.copies[0].dest, "image_1.jpg");
    assert!(!plan.copies[0].write);
}

#[test]
fn test_extension_filtering() {
    let entries = vec![file("good.jpg", 200_000), file("bad.ico", 200_000)];
    let plan = plan_copies(&config("image", Some("ico,bmp"), false), &entries);
    assert_eq!(plan.copies.len(), 1);
    assert_eq!(plan.copies[0].dest, "image_1.jpg");
    assert_eq!(plan.copies[0].source, 0);
}

#[test]
fn excluded_file_first_does_not_use_a_number() {
    let entries = vec![file("bad.ico", 200_000), file("good.jpg", 200_000)];
    let plan = plan_copies(&config("image", Some("ico,bmp"), false), &entries);
    assert_eq!(plan.copies.len(), 1);
    assert_eq!(plan.copies[0].dest, "image_1.jpg");
    assert_eq!(plan.copies[0].source, 1);
}

#[test]
fn every_large_file_is_taken_in_order() {
    let entries = vec![
        file("a.jpg", 200_000),
        dir("sub"),
        file("b", 102_400),
        file("c.PNG", 1_000_000),
    ];
    let plan = plan_copies(&config("p", None, false), &entries);
    let got: Vec<(usize, &str)> = plan.copies.iter().map(|c| (c.source, c.dest.as_str())).collect();
    assert_eq!(got, vec![(0, "p_1.jpg"), (2, "p_2.jpg"), (3, "p_3.PNG")]);
}

#[test]
fn small_files_never_appear_in_the_plan() {
    let entries = vec![file("a.jpg", 1), file("b.jpg", 102_399), file("c.jpg", 0)];
    let plan = plan_copies(&config("image", None, false), &entries);
    assert!(plan.copies.is_empty());
    assert_eq!(plan.invalid_name_at, None);
}

#[test]
fn dry_run_plans_the_same_copies_and_writes_none() {
    let entries = vec![
        file("a.jpg", 200_000),
        file("s.jpg", 5),
        file("b.bmp", 300_000),
        file("c.gif", 300_000),
    ];
    let normal = plan_copies(&config("image", Some("bmp"), false), &entries);
    let dry = plan_copies(&config("image", Some("bmp"), true), &entries);
    assert_eq!(normal.copies.len(), dry.copies.len());
    for (n, d) in normal.copies.iter().zip(dry.copies.iter()) {
        assert_eq!(n.source, d.source);
        assert_eq!(n.dest, d.dest);
        assert!(n.write);
        assert!(!d.write);
    }
}

#[test]
fn a_bad_name_ends_the_plan_after_the_copies_before_it() {
    let entries = vec![
        file("a.jpg", 200_000),
        SourceEntry { name: None, len: 200_000, is_file: true },
        file("b.jpg", 200_000),
    ];
    let plan = plan_copies(&config("image", None, false), &entries);
    assert_eq!(plan.invalid_name_at, Some(1));
    assert_eq!(plan.copies.len(), 1);
    assert_eq!(plan.copies[0].dest, "image_1.jpg");
}

#[test]
fn copies_are_reported_first_ten_then_every_tenth() {
    assert!(reports_copy(false, 0));
    assert!(reports_copy(false, 9));
    assert!(reports_copy(false, 10));
    assert!(!reports_copy(false, 11));
    assert!(!reports_copy(false, 19));
    assert!(reports_copy(false, 20));
    assert!(reports_copy(true, 11));
}

#[test]
fn next_step_counts_only_taken_entries() {
    let c = config("image", Some("ico"), false);
    match next_step(&c, 4, &file("a.jpg", 200_000)) {
        Ok((EntryAction::Copy(dest), n)) => {
            assert_eq!(dest, "image_5.jpg");
            assert_eq!(n, 5);
        }
        other => panic!("unexpected {:?}", other),
    }
    assert!(matches!(next_step(&c, 4, &file("a.jpg", 5)), Ok((EntryAction::SkipTooSmall, 4))));
    assert!(matches!(next_step(&c, 4, &file("a.ico", 200_000)), Ok((EntryAction::SkipExcluded, 4))));
    assert!(matches!(next_step(&c, 4, &dir("d")), Ok((EntryAction::SkipNotFile, 4))));
    let dry = config("image", None, true);
    assert!(matches!(next_step(&dry, 0, &file("a.jpg", 200_000)), Ok((EntryAction::Simulate(_), 1))));
    let bad = SourceEntry { name: None, len: 200_000, is_file: true };
    assert!(matches!(next_step(&c, 0, &bad), Err(ExtractError::InvalidFileName)));
}

fn dests(plan: &extract_images::file_ops::CopyPlan) -> Vec<String> {
    plan.copies.iter().map(|c| c.dest.clone()).collect()
}

#[test]
fn inserting_a_small_file_changes_nothing() {
    let c = config("image", None, false);
    let base = vec![file("a.jpg", 200_000), file("b.png", 300_000)];
    let with_small = vec![file("a.jpg", 200_000), file("tiny.jpg", 10), file("b.png", 300_000)];
    let p1 = plan_copies(&c, &base);
    let p2 = plan_copies(&c, &with_small);
    assert_eq!(dests(&p1), dests(&p2));
    assert_eq!(p2.copies[1].source, 2);
}

#[test]
fn removing_an_excluded_file_changes_nothing() {
    let c = config("image", Some("ICO"), false);
    let with_excluded = vec![file("x.Ico", 200_000), file("a.jpg", 200_000)];
    let without = vec![file("a.jpg", 200_000)];
    assert_eq!(dests(&plan_copies(&c, &with_excluded)), dests(&plan_copies(&c, &without)));
    assert_eq!(dests(&plan_copies(&c, &without)), vec!["image_1.jpg"]);
}

#[test]
fn excludes_folded_compares_exactly() {
    let list = vec!["ico".to_string(), "bmp".to_string()];
    assert!(excludes_folded(&list, &"ico".to_string()));
    assert!(excludes_folded(&list, &"bmp".to_string()));
    assert!(!excludes_folded(&list, &"jpg".to_string()));
    assert!(!excludes_folded(&list, &"ICO".to_string()));
    assert!(!excludes_folded(&vec![], &"ico".to_string()));
}
