use asset_bundler::error::Error;
use asset_bundler::selection::{
    archive_content, check_prod_key, dedup_files, extraction_step, plan_run, required_files,
    select_required, source_kind, ExtractionStep, RunPlan, Selection, SourceKind,
};

fn strings(list: &[&str]) -> Vec<String> {
    list.iter().map(|s| s.to_string()).collect()
}

#[test]
fn kinds_go_by_the_extension() {
    assert_eq!(source_kind(&"/a/b/game.zip".to_string()), SourceKind::Zip);
    assert_eq!(source_kind(&"game.7z".to_string()), SourceKind::SevenZip);
    assert_eq!(source_kind(&"dir.x/game.xci".to_string()), SourceKind::Xci);
    assert_eq!(source_kind(&"game.tar.nsp".to_string()), SourceKind::Nsp);
    assert_eq!(source_kind(&"game.XCI".to_string()), SourceKind::Unsupported);
    assert_eq!(source_kind(&".xci".to_string()), SourceKind::Unsupported);
    assert_eq!(source_kind(&"a.zip/game".to_string()), SourceKind::Unsupported);
    assert_eq!(source_kind(&"game.zip.bak".to_string()), SourceKind::Unsupported);
    assert_eq!(source_kind(&"".to_string()), SourceKind::Unsupported);
}

#[test]
fn plan_weighs_original_game_files() {
    assert_eq!(
        plan_run(&strings(&[])),
        Some(RunPlan { max_progress: 3, prod_key_required: false })
    );
    assert_eq!(
        plan_run(&strings(&["a.zip", "b.7z"])),
        Some(RunPlan { max_progress: 3, prod_key_required: false })
    );
    assert_eq!(
        plan_run(&strings(&["a.xci", "b.zip", "c.nsp", "d.xci", ".nsp"])),
        Some(RunPlan { max_progress: 9, prod_key_required: true })
    );
}

#[test]
fn missing_production_key_is_refused() {
    let needs = RunPlan { max_progress: 5, prod_key_required: true };
    let free = RunPlan { max_progress: 3, prod_key_required: false };
    assert!(matches!(check_prod_key(&needs, &None), Err(Error::ProdKeyNotSet)));
    assert!(check_prod_key(&needs, &Some("prod.keys".to_string())).is_ok());
    assert!(check_prod_key(&free, &None).is_ok());
}

#[test]
fn dedup_keeps_the_first_of_equal_names() {
    let mut files = strings(&["b", "a", "b", "c", "a", "b"]);
    dedup_files(&mut files);
    assert_eq!(files, strings(&["b", "a", "c"]));
    let mut none: Vec<String> = Vec::new();
    dedup_files(&mut none);
    assert!(none.is_empty());
}

#[test]
fn required_names_are_picked_in_order() {
    let relative = vec![
        Some("romfs/x".to_string()),
        None,
        Some("romfs/b".to_string()),
        Some("romfs/a".to_string()),
        Some("romfs/b".to_string()),
    ];
    let required = strings(&["romfs/a", "romfs/b"]);
    assert_eq!(select_required(&relative, &required), strings(&["romfs/b", "romfs/a", "romfs/b"]));
}

#[test]
fn archive_members_are_read_relative_to_the_directory_above_romfs() {
    let members = strings(&[
        "game/romfs/Pack/MW_Model.pack",
        "game/romfs/Model/other.zs",
        "game/exefs/main",
        "elsewhere/romfs/Pack/MW_Model.pack",
    ]);
    let content = archive_content(&members, &"game/romfs".to_string(), &required_files());
    assert_eq!(content, strings(&["romfs/Pack/MW_Model.pack"]));
}

#[test]
fn required_files_are_the_pack_and_the_eighteen_models() {
    let required = required_files();
    assert_eq!(required.len(), 19);
    assert_eq!(required[0], "romfs/Pack/MW_Model.pack");
    assert_eq!(required[1], "romfs/Model/MW_Field_plain.Nin_NX_NVN.zs");
    assert_eq!(required[18], "romfs/Model/MW_DV_airship_V.Nin_NX_NVN.zs");
}

#[test]
fn added_files_are_selected_once() {
    let mut s = Selection::new();
    s.add_file("a.zip".to_string());
    s.add_file("b.xci".to_string());
    s.add_file("a.zip".to_string());
    assert_eq!(s.selected_files, strings(&["a.zip", "b.xci"]));
    assert!(!s.has_original_game_files);
}

#[test]
fn original_game_files_suffice() {
    let mut s = Selection::new();
    assert!(matches!(s.assert_added_files(), Err(Error::RequiredFilesMissing(_))));
    s.check_added_file(&"game.xci".to_string(), &Vec::new(), &"".to_string()).unwrap();
    assert!(s.has_original_game_files);
    assert!(s.assert_added_files().is_ok());
}

#[test]
fn archives_must_hold_every_required_file() {
    let mut s = Selection::new();
    s.required_files = strings(&["romfs/a", "romfs/b", "romfs/c", "romfs/a"]);
    s.check_added_file(
        &"one.zip".to_string(),
        &strings(&["g/romfs/a", "g/romfs/z"]),
        &"g/romfs".to_string(),
    )
    .unwrap();
    assert_eq!(s.file_content.len(), 1);
    assert_eq!(s.file_content[0].file, "one.zip");
    assert_eq!(s.file_content[0].names, strings(&["romfs/a"]));
    match s.assert_added_files() {
        Err(Error::RequiredFilesMissing(names)) => {
            assert_eq!(names, strings(&["romfs/b", "romfs/c"]))
        }
        other => panic!("unexpected: {:?}", other),
    }
    s.check_added_file(
        &"two.7z".to_string(),
        &strings(&["romfs/c", "romfs/b"]),
        &"romfs".to_string(),
    )
    .unwrap();
    assert!(s.assert_added_files().is_ok());
    // What is known of an archive is replaced when it is added again.
    s.check_added_file(&"two.7z".to_string(), &strings(&["romfs/c"]), &"romfs".to_string())
        .unwrap();
    assert_eq!(s.file_content.len(), 2);
    assert_eq!(s.file_content[1].file, "two.7z");
    assert_eq!(s.file_content[1].names, strings(&["romfs/c"]));
    assert!(matches!(s.assert_added_files(), Err(Error::RequiredFilesMissing(_))));
    // A file of another kind changes nothing.
    s.check_added_file(&"notes.txt".to_string(), &strings(&["romfs/b"]), &"romfs".to_string())
        .unwrap();
    assert_eq!(s.file_content.len(), 2);
    assert!(!s.has_original_game_files);
}

#[test]
fn removing_a_file_forgets_what_is_known_of_it() {
    let mut s = Selection::new();
    s.add_file("one.zip".to_string());
    s.add_file("game.xci".to_string());
    s.check_added_file(&"one.zip".to_string(), &strings(&["romfs/Pack/MW_Model.pack"]), &"romfs".to_string())
        .unwrap();
    s.check_added_file(&"game.xci".to_string(), &Vec::new(), &"".to_string()).unwrap();
    assert!(s.has_original_game_files);
    let left = s.remove_file(&"one.zip".to_string());
    assert_eq!(left, strings(&["game.xci"]));
    assert_eq!(s.selected_files, strings(&["game.xci"]));
    assert!(s.file_content.is_empty());
    assert!(!s.has_original_game_files);
    let left = s.remove_file(&"game.xci".to_string());
    assert!(left.is_empty());
    assert!(s.has_original_game_files);
    let left = s.remove_file(&"game.xci".to_string());
    assert!(left.is_empty());
    assert!(!s.has_original_game_files);
}

#[test]
fn each_kind_takes_its_step() {
    assert_eq!(extraction_step(SourceKind::Xci).unwrap(), ExtractionStep::UnpackCartridge);
    assert_eq!(extraction_step(SourceKind::Zip).unwrap(), ExtractionStep::ExtractZip);
    assert_eq!(extraction_step(SourceKind::SevenZip).unwrap(), ExtractionStep::ExtractSevenZip);
    assert!(matches!(extraction_step(SourceKind::Nsp), Err(Error::FileExtensionUnsupported)));
    assert!(matches!(
        extraction_step(SourceKind::Unsupported),
        Err(Error::FileExtensionUnsupported)
    ));
}
