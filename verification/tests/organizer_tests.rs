use toolbox::organizer::{
    category_counts, category_for_extension, extension_of, file_category_for, get_file_categories,
    plan_moves,
};

#[test]
fn counts_sum_plan_entries_per_category() {
    let names = vec![
        "a.pdf".to_string(),
        "b.png".to_string(),
        "c.txt".to_string(),
        "d.doc".to_string(),
        "e.unknown".to_string(),
    ];
    let plan = plan_moves(&names);
    let counts = category_counts(&plan);
    assert_eq!(
        counts,
        vec![("Documents".to_string(), 3), ("Images".to_string(), 1)]
    );
}

#[test]
fn dry_run_example_plans_known_and_skips_unknown() {
    let names = vec!["a.pdf".to_string(), "b.png".to_string(), "c.xyz".to_string()];
    let plan = plan_moves(&names);
    assert_eq!(plan.len(), 2);
    assert_eq!(plan[0].name, "a.pdf");
    assert_eq!(plan[0].category, "Documents");
    assert_eq!(plan[1].name, "b.png");
    assert_eq!(plan[1].category, "Images");
    assert!(plan.iter().all(|p| p.name != "c.xyz"));
}

#[test]
fn extension_matching_is_case_insensitive() {
    assert_eq!(file_category_for("REPORT.PDF").as_deref(), Some("Documents"));
    assert_eq!(file_category_for("photo.JpG").as_deref(), Some("Images"));
    assert_eq!(file_category_for("song.mp3").as_deref(), Some("Audio"));
}

#[test]
fn files_without_usable_extension_are_skipped() {
    assert_eq!(file_category_for("README"), None);
    assert_eq!(file_category_for(".bashrc"), None);
    assert_eq!(file_category_for("archive."), None);
    assert_eq!(file_category_for("weird.unknownext"), None);
}

#[test]
fn extension_is_what_follows_the_last_dot() {
    assert_eq!(extension_of("archive.tar.gz").as_deref(), Some("gz"));
    assert_eq!(extension_of("a.pdf").as_deref(), Some("pdf"));
    assert_eq!(extension_of("noext"), None);
    assert_eq!(extension_of(".hidden"), None);
    assert_eq!(extension_of("trailing.").as_deref(), Some(""));
}

#[test]
fn every_category_claims_its_extensions() {
    let cats = get_file_categories();
    assert_eq!(cats.len(), 7);
    for (name, exts) in &cats {
        for ext in exts {
            assert_eq!(category_for_extension(ext).as_deref(), Some(name.as_str()));
        }
    }
}

#[test]
fn table_holds_the_fixed_categories() {
    let cats = get_file_categories();
    let names: Vec<&str> = cats.iter().map(|c| c.0.as_str()).collect();
    assert_eq!(
        names,
        vec!["Documents", "Images", "Videos", "Audio", "Archives", "Code", "Spreadsheets"]
    );
    assert_eq!(
        cats[4].1,
        vec!["zip", "rar", "7z", "tar", "gz", "bz2", "xz"]
    );
}

#[test]
fn empty_listing_plans_nothing() {
    let plan = plan_moves(&Vec::new());
    assert!(plan.is_empty());
}

#[test]
fn plan_keeps_listing_order() {
    let names = vec![
        "z.rs".to_string(),
        "skip.nope".to_string(),
        "a.csv".to_string(),
        "m.mp4".to_string(),
    ];
    let plan = plan_moves(&names);
    let got: Vec<(&str, &str)> =
        plan.iter().map(|p| (p.name.as_str(), p.category.as_str())).collect();
    assert_eq!(got, vec![("z.rs", "Code"), ("a.csv", "Spreadsheets"), ("m.mp4", "Videos")]);
}
