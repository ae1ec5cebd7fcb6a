use asset_bundler::archive::ArchiveSink;
use asset_bundler::pixels::RgbaImage;
use asset_bundler::texture::{
    decompose, entry_name_of, is_excluded, is_tiled, write_image, write_mip, write_tiles,
    write_variants, Texture,
};
use std::io::Read;

fn chars(s: &str) -> Vec<char> {
    s.chars().collect()
}

fn read_archive(bytes: &[u8]) -> Vec<(String, Vec<u8>)> {
    let mut archive = tar::Archive::new(bytes);
    let mut out = Vec::new();
    for entry in archive.entries().unwrap() {
        let mut entry = entry.unwrap();
        let name = entry.path().unwrap().to_string_lossy().to_string();
        let mut data = Vec::new();
        entry.read_to_end(&mut data).unwrap();
        out.push((name, data));
    }
    out
}

fn decode(png: &[u8]) -> (u32, u32, Vec<u8>) {
    let img = image::load_from_memory(png).unwrap();
    (img.width(), img.height(), img.to_rgba8().into_raw())
}

fn solid(width: u32, height: u32, rgba: [u8; 4]) -> Vec<u8> {
    let mut data = Vec::with_capacity((width * height * 4) as usize);
    for _ in 0..width * height {
        data.extend_from_slice(&rgba);
    }
    data
}

fn texture(name: &str, width: u32, height: u32, mips: Vec<Vec<Vec<u8>>>) -> Texture {
    Texture { name: name.to_string(), width, height, mips }
}

fn entries_of(tex: &Texture, flat: &str) -> Vec<(String, Vec<u8>)> {
    let mut sink = ArchiveSink::new(5);
    decompose(tex, &chars(flat), &mut sink).unwrap();
    read_archive(&sink.finalize().unwrap())
}

#[test]
fn entry_names_follow_the_convention() {
    assert_eq!(
        entry_name_of(&chars("pack_Mario"), false, &chars("Body"), 0, None),
        chars("pack_Mario_Body_0.png")
    );
    assert_eq!(
        entry_name_of(&chars("pack_Mario"), true, &chars("Body"), 0, None),
        chars("pack_Mario_0Body_0.png")
    );
    assert_eq!(
        entry_name_of(&chars("f"), false, &chars("M1_Field_plain"), 2, Some(767)),
        chars("f_M1_Field_plain_2_767.png")
    );
    assert_eq!(
        entry_name_of(&chars("f"), true, &chars("M1_Field_plain"), 10, Some(0)),
        chars("f_0M1_Field_plain_10_0.png")
    );
    assert_eq!(entry_name_of(&chars(""), false, &chars("T"), 0, None), chars("_T_0.png"));
}

#[test]
fn naming_rules() {
    assert!(is_excluded(&chars("WU_Body")));
    assert!(!is_excluded(&chars("Body_WU_")));
    assert!(!is_excluded(&chars("WU")));
    assert!(is_tiled(&chars("M1_Field_plain")));
    assert!(!is_tiled(&chars("M1_Field_anime_plain")));
    assert!(!is_tiled(&chars("M1_Field")));
    assert!(!is_tiled(&chars("Field_plain")));
    assert!(!is_tiled(&chars("M1_Field_x_Field_anime_")));
}

#[test]
fn write_image_appends_one_png() {
    let img = RgbaImage::from_raw(2, 2, solid(2, 2, [1, 2, 3, 4])).unwrap();
    let mut sink = ArchiveSink::new(0);
    write_image(&img, &chars("one.png"), &mut sink).unwrap();
    let entries = read_archive(&sink.finalize().unwrap());
    assert_eq!(entries.len(), 1);
    assert_eq!(entries[0].0, "one.png");
    assert_eq!(decode(&entries[0].1), (2, 2, solid(2, 2, [1, 2, 3, 4])));
}

#[test]
fn write_variants_appends_plain_then_faux() {
    let img = RgbaImage::from_raw(2, 1, vec![10, 20, 30, 40, 50, 60, 70, 0]).unwrap();
    let mut sink = ArchiveSink::new(0);
    write_variants(&img, &chars("p"), &chars("T"), 3, Some(17), &mut sink).unwrap();
    let entries = read_archive(&sink.finalize().unwrap());
    assert_eq!(entries.len(), 2);
    assert_eq!(entries[0].0, "p_T_3_17.png");
    assert_eq!(entries[1].0, "p_0T_3_17.png");
    assert_eq!(decode(&entries[0].1), (2, 1, vec![10, 20, 30, 40, 50, 60, 70, 0]));
    assert_eq!(decode(&entries[1].1), (2, 1, vec![10, 20, 30, 192, 50, 60, 70, 192]));
}

#[test]
fn untiled_texture_adds_the_whole_pair_per_mip() {
    let tex = texture(
        "Body",
        4,
        4,
        vec![
            vec![solid(4, 4, [9, 8, 7, 255])],
            vec![],
            vec![solid(4, 4, [1, 1, 1, 0]), solid(4, 4, [2, 2, 2, 2])],
        ],
    );
    let entries = entries_of(&tex, "dir");
    let names: Vec<&str> = entries.iter().map(|e| e.0.as_str()).collect();
    assert_eq!(names, vec!["dir_Body_0.png", "dir_0Body_0.png", "dir_Body_2.png", "dir_0Body_2.png"]);
    assert_eq!(decode(&entries[0].1), (4, 4, solid(4, 4, [9, 8, 7, 255])));
    assert_eq!(decode(&entries[1].1), (4, 4, solid(4, 4, [9, 8, 7, 192])));
    assert_eq!(decode(&entries[2].1), (4, 4, solid(4, 4, [1, 1, 1, 0])));
    assert_eq!(decode(&entries[3].1), (4, 4, solid(4, 4, [1, 1, 1, 192])));
}

#[test]
fn excluded_texture_adds_nothing() {
    let tex = texture("WU_Body", 4, 4, vec![vec![solid(4, 4, [9, 8, 7, 255])]]);
    assert!(entries_of(&tex, "dir").is_empty());
}

#[test]
fn buffer_of_another_size_is_passed_over() {
    let tex = texture(
        "Body",
        4,
        4,
        vec![vec![vec![0u8; 63]], vec![vec![0u8; 65]], vec![vec![7u8; 64]]],
    );
    let entries = entries_of(&tex, "d");
    let names: Vec<&str> = entries.iter().map(|e| e.0.as_str()).collect();
    assert_eq!(names, vec!["d_Body_2.png", "d_0Body_2.png"]);
}

#[test]
fn zero_dimensions_count_as_one() {
    let tex = texture("Dot", 0, 0, vec![vec![vec![1, 2, 3, 4]]]);
    let entries = entries_of(&tex, "d");
    assert_eq!(entries.len(), 2);
    assert_eq!(decode(&entries[0].1), (1, 1, vec![1, 2, 3, 4]));
    assert_eq!(decode(&entries[1].1), (1, 1, vec![1, 2, 3, 192]));
}

#[test]
fn texture_without_mips_adds_nothing() {
    let tex = texture("Body", 4, 4, vec![]);
    assert!(entries_of(&tex, "d").is_empty());
}

#[test]
fn opaque_field_texture_adds_1538_entries() {
    let tex = texture("M1_Field_plain", 256, 768, vec![vec![solid(256, 768, [10, 20, 30, 255])]]);
    let entries = entries_of(&tex, "course");
    assert_eq!(entries.len(), 768 * 2 + 2);
    assert_eq!(entries[0].0, "course_M1_Field_plain_0_0.png");
    assert_eq!(entries[1].0, "course_0M1_Field_plain_0_0.png");
    assert_eq!(entries[2].0, "course_M1_Field_plain_0_1.png");
    assert_eq!(entries[1534].0, "course_M1_Field_plain_0_767.png");
    assert_eq!(entries[1535].0, "course_0M1_Field_plain_0_767.png");
    assert_eq!(entries[1536].0, "course_M1_Field_plain_0.png");
    assert_eq!(entries[1537].0, "course_0M1_Field_plain_0.png");
    assert_eq!(decode(&entries[0].1), (16, 16, solid(16, 16, [10, 20, 30, 255])));
    assert_eq!(decode(&entries[1535].1), (16, 16, solid(16, 16, [10, 20, 30, 192])));
    assert_eq!(decode(&entries[1536].1).0, 256);
    assert_eq!(decode(&entries[1536].1).1, 768);
}

#[test]
fn transparent_tiles_add_nothing() {
    // 32 x 16: tile 0 is transparent, tile 1 has one visible pixel.
    let mut data = solid(32, 16, [5, 6, 7, 0]);
    let visible = (3 * 32 + 20) * 4;
    data[visible + 3] = 1;
    let tex = texture("X_Field_Y", 32, 16, vec![vec![data.clone()]]);
    let entries = entries_of(&tex, "c");
    let names: Vec<&str> = entries.iter().map(|e| e.0.as_str()).collect();
    assert_eq!(
        names,
        vec!["c_X_Field_Y_0_1.png", "c_0X_Field_Y_0_1.png", "c_X_Field_Y_0.png", "c_0X_Field_Y_0.png"]
    );
    let (w, h, plain) = decode(&entries[0].1);
    let (fw, fh, faux) = decode(&entries[1].1);
    assert_eq!((w, h, fw, fh), (16, 16, 16, 16));
    assert_eq!(plain[(3 * 16 + 4) * 4 + 3], 1);
    for i in 0..plain.len() {
        if i % 4 == 3 {
            assert_eq!(faux[i], 192);
        } else {
            assert_eq!(faux[i], plain[i]);
        }
    }
    assert_eq!(decode(&entries[2].1), (32, 16, data));
}

#[test]
fn fully_transparent_field_texture_adds_only_the_whole_pair() {
    let tex = texture("X_Field_Y", 64, 64, vec![vec![solid(64, 64, [1, 2, 3, 0])]]);
    let entries = entries_of(&tex, "c");
    let names: Vec<&str> = entries.iter().map(|e| e.0.as_str()).collect();
    assert_eq!(names, vec!["c_X_Field_Y_0.png", "c_0X_Field_Y_0.png"]);
}

#[test]
fn tiles_at_the_edge_are_cut_down() {
    // 20 x 20, opaque: tiles 0, 1, 16 and 17 lie in it, all others are empty.
    let tex = texture("a_Field_b", 20, 20, vec![vec![solid(20, 20, [1, 2, 3, 4])]]);
    let entries = entries_of(&tex, "c");
    let names: Vec<&str> = entries.iter().map(|e| e.0.as_str()).collect();
    assert_eq!(
        names,
        vec![
            "c_a_Field_b_0_0.png",
            "c_0a_Field_b_0_0.png",
            "c_a_Field_b_0_1.png",
            "c_0a_Field_b_0_1.png",
            "c_a_Field_b_0_16.png",
            "c_0a_Field_b_0_16.png",
            "c_a_Field_b_0_17.png",
            "c_0a_Field_b_0_17.png",
            "c_a_Field_b_0.png",
            "c_0a_Field_b_0.png",
        ]
    );
    assert_eq!(decode(&entries[0].1), (16, 16, solid(16, 16, [1, 2, 3, 4])));
    assert_eq!(decode(&entries[2].1), (4, 16, solid(4, 16, [1, 2, 3, 4])));
    assert_eq!(decode(&entries[4].1), (16, 4, solid(16, 4, [1, 2, 3, 4])));
    assert_eq!(decode(&entries[6].1), (4, 4, solid(4, 4, [1, 2, 3, 4])));
}

#[test]
fn animated_field_texture_is_not_tiled() {
    let tex = texture("a_Field_anime_b", 16, 16, vec![vec![solid(16, 16, [1, 2, 3, 4])]]);
    assert_eq!(entries_of(&tex, "c").len(), 2);
}

#[test]
fn write_tiles_and_write_mip_agree_with_decompose() {
    let data = solid(16, 32, [4, 3, 2, 1]);
    let img = RgbaImage::from_raw(16, 32, data.clone()).unwrap();
    let mut sink = ArchiveSink::new(0);
    write_tiles(&img, &chars("c"), &chars("T"), 4, &mut sink).unwrap();
    let tiles = read_archive(&sink.finalize().unwrap());
    let names: Vec<&str> = tiles.iter().map(|e| e.0.as_str()).collect();
    assert_eq!(names, vec!["c_T_4_0.png", "c_0T_4_0.png", "c_T_4_16.png", "c_0T_4_16.png"]);

    let tex = texture("T", 16, 32, vec![vec![], vec![data]]);
    let mut sink = ArchiveSink::new(0);
    write_mip(&tex, &chars("T"), 0, &chars("c"), &mut sink).unwrap();
    write_mip(&tex, &chars("T"), 1, &chars("c"), &mut sink).unwrap();
    let whole = read_archive(&sink.finalize().unwrap());
    let names: Vec<&str> = whole.iter().map(|e| e.0.as_str()).collect();
    assert_eq!(names, vec!["c_T_1.png", "c_0T_1.png"]);
}

#[test]
fn refused_name_ends_the_texture_with_an_error() {
    let tex = texture("x/../T", 1, 1, vec![vec![vec![1, 2, 3, 4]]]);
    let mut sink = ArchiveSink::new(0);
    let r = decompose(&tex, &chars("c"), &mut sink);
    assert!(matches!(r, Err(asset_bundler::error::Error::Io(_))));
    assert!(read_archive(&sink.finalize().unwrap()).is_empty());
}

#[test]
fn write_image_refuses_an_image_without_pixels_and_a_name_that_cannot_be_stored() {
    let empty = RgbaImage::from_raw(0, 4, vec![]).unwrap();
    let pixel = RgbaImage::from_raw(1, 1, vec![1, 2, 3, 4]).unwrap();
    let mut sink = ArchiveSink::new(0);
    assert!(matches!(
        write_image(&empty, &chars("a.png"), &mut sink),
        Err(asset_bundler::error::Error::Image(_))
    ));
    assert!(matches!(
        write_image(&pixel, &chars("a//b.png"), &mut sink),
        Err(asset_bundler::error::Error::Io(_))
    ));
    assert!(matches!(
        write_variants(&empty, &chars("f"), &chars("T"), 0, None, &mut sink),
        Err(asset_bundler::error::Error::Image(_))
    ));
    assert!(write_image(&pixel, &chars("a/b.png"), &mut sink).is_ok());
    let entries = read_archive(&sink.finalize().unwrap());
    assert_eq!(entries.len(), 1);
    assert_eq!(entries[0].0, "a/b.png");
}

#[test]
fn the_run_stops_at_the_first_name_that_cannot_be_stored() {
    // The plain name can be stored, the faux name cannot: `0` and `:` begin it.
    let tex = texture(":T", 1, 1, vec![vec![vec![1, 2, 3, 4]], vec![vec![5, 6, 7, 8]]]);
    let mut sink = ArchiveSink::new(0);
    let r = decompose(&tex, &chars(""), &mut sink);
    assert!(matches!(r, Err(asset_bundler::error::Error::Io(_))));
    let entries = read_archive(&sink.finalize().unwrap());
    assert_eq!(entries.len(), 0);

    let tex = texture("a//T", 1, 1, vec![vec![vec![1, 2, 3, 4]]]);
    let mut sink = ArchiveSink::new(0);
    assert!(decompose(&tex, &chars("f"), &mut sink).is_err());
    assert!(read_archive(&sink.finalize().unwrap()).is_empty());

    let tex = texture("dir/T", 1, 1, vec![vec![vec![1, 2, 3, 4]]]);
    let mut sink = ArchiveSink::new(0);
    assert!(decompose(&tex, &chars("f"), &mut sink).is_ok());
    let names: Vec<String> = read_archive(&sink.finalize().unwrap()).into_iter().map(|e| e.0).collect();
    assert_eq!(names, vec!["f_dir/T_0.png", "f_0dir/T_0.png"]);
}

#[test]
fn entries_of_one_texture_bear_different_names() {
    let mut data = solid(32, 32, [5, 6, 7, 9]);
    data[3] = 0;
    let tex = texture(
        "0_Field_0",
        32,
        32,
        vec![vec![data.clone()], vec![], vec![data.clone()], vec![vec![1]], vec![data]],
    );
    let entries = entries_of(&tex, "0");
    assert_eq!(entries.len(), 3 * (4 * 2 + 2));
    let mut names: Vec<&str> = entries.iter().map(|e| e.0.as_str()).collect();
    names.sort();
    names.dedup();
    assert_eq!(names.len(), 30);
}
