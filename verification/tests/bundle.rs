use asset_bundler::bundle::bundle_assets;
use asset_bundler::container::{ContainerNode, Decoded, FlatContainer, FlatEntry, ModelContainer};
use asset_bundler::error::Error;
use asset_bundler::progress::{Percentage, ProgressState};
use asset_bundler::texture::{Texture, TextureGroup};
use std::io::Read;

fn read_archive(bytes: &[u8]) -> Vec<(String, u64)> {
    let mut archive = tar::Archive::new(bytes);
    let mut out = Vec::new();
    for entry in archive.entries().unwrap() {
        let mut entry = entry.unwrap();
        let mut data = Vec::new();
        entry.read_to_end(&mut data).unwrap();
        let mtime = entry.header().mtime().unwrap();
        out.push((entry.path().unwrap().to_string_lossy().to_string(), mtime));
    }
    out
}

fn model(name: &str) -> ContainerNode {
    ContainerNode::ModelContainer(ModelContainer {
        groups: vec![TextureGroup {
            name: "g".to_string(),
            textures: vec![Texture {
                name: name.to_string(),
                width: 2,
                height: 2,
                mips: vec![vec![vec![255u8; 16]]],
            }],
        }],
    })
}

fn pack(entry_name: &str, texture: &str) -> ContainerNode {
    ContainerNode::FlatContainer(FlatContainer {
        entries: vec![FlatEntry {
            name: Some(entry_name.to_string()),
            raw: vec![],
            decompressed: None,
            decoded: Some(Decoded { extension: "bfres".to_string(), node: model(texture) }),
        }],
    })
}

#[test]
fn bundles_every_file_and_signals_progress() {
    let files = vec![Some(model("A")), None, Some(pack("Model/B.bfres", "Skin")), None];
    let mut progress = ProgressState::new(1, 6).unwrap();
    let out = bundle_assets(&files, 99, &mut progress).unwrap();
    let entries = read_archive(&out.data);
    let names: Vec<&str> = entries.iter().map(|e| e.0.as_str()).collect();
    assert_eq!(names, vec!["_A_0.png", "_0A_0.png", "B_Skin_0.png", "B_0Skin_0.png"]);
    assert!(entries.iter().all(|e| e.1 == 99));
    assert_eq!(
        out.signals,
        vec![
            Percentage { numerator: 100 * 6, denominator: 24 },
            Percentage { numerator: 100 * 8, denominator: 24 },
            Percentage { numerator: 100 * 10, denominator: 24 },
            Percentage { numerator: 100 * 12, denominator: 24 },
            Percentage { numerator: 100 * 16, denominator: 24 },
        ]
    );
    assert_eq!(progress.read_percentage(), Percentage { numerator: 1600, denominator: 24 });
}

#[test]
fn run_without_files_is_an_empty_archive() {
    let mut progress = ProgressState::new(0, 3).unwrap();
    let out = bundle_assets(&Vec::new(), 0, &mut progress).unwrap();
    assert_eq!(out.data, vec![0u8; 1024]);
    assert_eq!(out.signals, vec![Percentage { numerator: 100, denominator: 3 }]);
}

#[test]
fn first_failure_ends_the_run() {
    let files = vec![Some(model("A")), Some(model("x/../B")), Some(model("C"))];
    let mut progress = ProgressState::new(0, 5).unwrap();
    let r = bundle_assets(&files, 0, &mut progress);
    assert!(matches!(r, Err(Error::Io(_))));
    assert_eq!(progress.read_percentage(), Percentage { numerator: 100 * 2, denominator: 15 });
}
