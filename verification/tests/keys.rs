use asset_bundler::keys::{find_key, find_keys, find_keys_probes, key_probes};

fn strings(list: &[&str]) -> Vec<String> {
    list.iter().map(|s| s.to_string()).collect()
}

#[test]
fn probes_name_three_paths_per_guess() {
    let probes = key_probes(&"/data".to_string(), &strings(&["yuzu", "yuzu-emu"]), &"keys".to_string());
    assert_eq!(
        probes,
        strings(&[
            "/data/yuzu",
            "/data/yuzu/keys",
            "/data/yuzu/keys/prod.keys",
            "/data/yuzu-emu",
            "/data/yuzu-emu/keys",
            "/data/yuzu-emu/keys/prod.keys",
        ])
    );
}

#[test]
fn key_is_found_where_all_three_paths_exist() {
    let existing = strings(&[
        "/data/yuzu",
        "/data/yuzu/keys",
        "/data/yuzu/keys/prod.keys",
        "/data/yuzu-emu",
        "/data/yuzu-emu/keys",
        "/data/other/keys/prod.keys",
    ]);
    let mut found = Vec::new();
    let r = find_key(
        &mut found,
        &"/data".to_string(),
        &strings(&["yuzu", "yuzu-emu", "other"]),
        &"keys".to_string(),
        &existing,
    );
    assert!(r.is_ok());
    assert_eq!(found, strings(&["/data/yuzu/keys/prod.keys"]));
}

#[test]
fn key_is_not_added_twice() {
    let existing = strings(&["/d/a", "/d/a/k", "/d/a/k/prod.keys"]);
    let mut found = strings(&["/elsewhere/prod.keys"]);
    for _ in 0..2 {
        find_key(&mut found, &"/d".to_string(), &strings(&["a", "a"]), &"k".to_string(), &existing)
            .unwrap();
    }
    assert_eq!(found, strings(&["/elsewhere/prod.keys", "/d/a/k/prod.keys"]));
}

#[test]
fn find_keys_looks_below_every_directory() {
    let data = Some("/home/u/.local/share".to_string());
    let config = Some("/home/u/.config".to_string());
    let probes = find_keys_probes(&data, &config, &None);
    assert_eq!(probes.len(), 18);
    assert_eq!(probes[0], "/home/u/.local/share/yuzu");
    assert_eq!(probes[8], "/home/u/.local/share/Ryujinx/system/prod.keys");
    assert_eq!(probes[17], "/home/u/.config/Ryujinx/system/prod.keys");

    let existing = strings(&[
        "/home/u/.config/Ryujinx",
        "/home/u/.config/Ryujinx/system",
        "/home/u/.config/Ryujinx/system/prod.keys",
        "/home/u/.local/share/yuzu-emu",
        "/home/u/.local/share/yuzu-emu/keys",
        "/home/u/.local/share/yuzu-emu/keys/prod.keys",
        "/home/u/.config/yuzu",
    ]);
    let keys = find_keys(&data, &config, &data, &existing).unwrap();
    assert_eq!(
        keys,
        strings(&[
            "/home/u/.local/share/yuzu-emu/keys/prod.keys",
            "/home/u/.config/Ryujinx/system/prod.keys",
        ])
    );
    assert!(find_keys(&None, &None, &None, &existing).unwrap().is_empty());
}
