use asset_bundler::path::{extension_of, OutputPath};

fn chars(s: &str) -> Vec<char> {
    s.chars().collect()
}

fn text(p: &OutputPath) -> String {
    p.chars().iter().collect()
}

#[test]
fn root_is_empty() {
    assert_eq!(text(&OutputPath::root()), "");
    assert_eq!(text(&OutputPath::from_str("a/b")), "a/b");
}

#[test]
fn join_puts_a_separator_between() {
    assert_eq!(text(&OutputPath::root().join(&chars("a.pack"))), "a.pack");
    assert_eq!(text(&OutputPath::from_str("a").join(&chars("b/c.bfres"))), "a/b/c.bfres");
    assert_eq!(text(&OutputPath::from_str("a").join(&chars(""))), "a/");
}

#[test]
fn parent_drops_the_last_part() {
    assert_eq!(text(&OutputPath::from_str("a/b/c.x").parent()), "a/b");
    assert_eq!(text(&OutputPath::from_str("c.x").parent()), "");
    assert_eq!(text(&OutputPath::from_str("a/").parent()), "a");
    assert_eq!(text(&OutputPath::from_str("").parent()), "");
}

#[test]
fn file_stem_drops_the_last_extension() {
    let stem = |s: &str| -> String { OutputPath::from_str(s).file_stem().iter().collect() };
    assert_eq!(stem("a/b/c.x"), "c");
    assert_eq!(stem("a/b/c.x.y"), "c.x");
    assert_eq!(stem("a.b/c"), "c");
    assert_eq!(stem(".hidden"), ".hidden");
    assert_eq!(stem("a/.hidden.x"), ".hidden");
    assert_eq!(stem("a/"), "");
    assert_eq!(stem("name."), "name");
}

#[test]
fn set_extension_replaces_the_last_extension() {
    let with = |s: &str, e: &str| -> String {
        let mut p = OutputPath::from_str(s);
        p.set_extension(&chars(e));
        text(&p)
    };
    assert_eq!(with("a/b.zs", "bfres"), "a/b.bfres");
    assert_eq!(with("a/b", "bfres"), "a/b.bfres");
    assert_eq!(with("a/b.x.zs", "sarc"), "a/b.x.sarc");
    assert_eq!(with("a.d/b", "sarc"), "a.d/b.sarc");
    assert_eq!(with("a/b.zs", ""), "a/b");
    assert_eq!(with("a/", "bfres"), "a/");
    assert_eq!(with("", "bfres"), "");
}

#[test]
fn opened_names_a_directory_after_the_container() {
    assert_eq!(text(&OutputPath::from_str("a/b.bfres").opened()), "a/b");
    assert_eq!(text(&OutputPath::from_str("b.bfres").opened()), "b");
    assert_eq!(text(&OutputPath::from_str("a/b.Nin_NX_NVN.bfres").opened()), "a/b.Nin_NX_NVN");
}

#[test]
fn flattened_strips_markers_and_separators() {
    let flat = |s: &str| -> String { OutputPath::from_str(s).flattened().iter().collect() };
    assert_eq!(flat(""), "");
    assert_eq!(flat("a/b/c"), "a_b_c");
    assert_eq!(flat("Model/M1_Player.Nin_NX_NVN"), "M1_Player");
    assert_eq!(flat("output/pack/Model/x"), "_pack_x");
    assert_eq!(flat("Model_x"), "x");
    assert_eq!(flat("outoutputput"), "output");
    assert_eq!(flat("MyModel/a"), "Mya");
}

#[test]
fn extension_is_what_follows_the_last_dot() {
    let ext = |s: &str| -> Option<String> { extension_of(&chars(s)).map(|e| e.iter().collect()) };
    assert_eq!(ext("a/b.zip"), Some("zip".to_string()));
    assert_eq!(ext("a/b.tar.gz"), Some("gz".to_string()));
    assert_eq!(ext("a.d/b"), None);
    assert_eq!(ext(".hidden"), None);
    assert_eq!(ext("name."), Some("".to_string()));
    assert_eq!(ext(""), None);
}

#[test]
fn container_opens_beside_itself_whatever_its_extension() {
    for name in ["a/b.zs", "b", "a/b.x.y", ".h"] {
        let mut bfres = OutputPath::from_str(name);
        bfres.set_extension(&chars("bfres"));
        let mut sarc = OutputPath::from_str(name);
        sarc.set_extension(&chars("sarc"));
        assert_eq!(text(&bfres.opened()), text(&sarc.opened()));
        let beside = OutputPath::from_str(name).parent().join(&OutputPath::from_str(name).file_stem());
        assert_eq!(text(&bfres.opened()), text(&beside));
    }
}
