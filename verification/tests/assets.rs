use prismata::assets::{categorize_assets, file_stem_and_extension};

fn path(s: &str) -> Vec<String> {
    s.split('/').map(|c| c.to_string()).collect()
}

fn split(s: &str) -> (String, Option<String>) {
    let chars: Vec<char> = s.chars().collect();
    let (stem, ext) = file_stem_and_extension(&chars);
    (stem.into_iter().collect(), ext.map(|e| e.into_iter().collect()))
}

#[test]
fn file_names_split_like_paths() {
    for name in ["tree.glb", "a.b.png", ".hidden", "noext", "..", "...", "x.", "..x"] {
        let p = std::path::Path::new(name);
        let expected_stem = p.file_stem().map(|s| s.to_str().unwrap().to_string());
        let expected_ext = p.extension().map(|s| s.to_str().unwrap().to_string());
        let (stem, ext) = split(name);
        if name != ".." {
            assert_eq!(Some(stem), expected_stem, "{name}");
        }
        assert_eq!(ext, expected_ext, "{name}");
    }
}

#[test]
fn assets_group_into_sorted_packs() {
    let paths = vec![
        path("Zoo/Models/lion.glb"),
        path("Farm/Previews/cow.png"),
        path("Farm/Models/cow.gltf"),
        path("Farm/Models/barn.glb"),
        path("Farm/Textures/cow.png"),
        path("Farm/Models/readme.txt"),
        path("Farm/cow.glb"),
        path("Farm/Models/cow.glb"),
    ];
    let packs = categorize_assets(&paths);
    assert_eq!(packs.len(), 2);
    assert_eq!(packs[0].name, "Farm");
    assert_eq!(packs[1].name, "Zoo");
    let farm = &packs[0].spawnables;
    assert_eq!(farm.len(), 2);
    assert_eq!(farm[0].name, "barn");
    assert_eq!(farm[0].model, Some(3));
    assert_eq!(farm[0].preview, None);
    assert_eq!(farm[1].name, "cow");
    // The later model path replaces the earlier one.
    assert_eq!(farm[1].model, Some(7));
    assert_eq!(farm[1].preview, Some(1));
    let zoo = &packs[1].spawnables;
    assert_eq!(zoo.len(), 1);
    assert_eq!(zoo[0].name, "lion");
    assert_eq!(zoo[0].model, Some(0));
}

#[test]
fn no_asset_paths_no_packs() {
    assert!(categorize_assets(&vec![path("a/b"), path("a/Models/.glb")]).is_empty());
}
