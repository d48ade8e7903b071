use app_image_manager::paths::{has_extension, is_absolute, is_inside, is_same_path, joined_path,
    name_stem, path_file_name};
use std::path::{Component, Path};

const SAMPLES: [&str; 26] = [
    "", "/", ".", "..", "a", "/a", "a/b", "a//b", "a/./b", "./a", "././a", "a/", "a/.", "/a/../b",
    "a/..", "//a", "/home/u/.local/bin", "/home/u/.local/bin/", "/home/u/.local/bin/x.AppImage",
    "/home/u/.local/binx", ".hidden", "x.tar.gz", "x.", "..a", "/./a", "a/./",
];

#[test]
fn paths_agree_with_the_standard_library() {
    for a in SAMPLES {
        assert_eq!(is_absolute(a), Path::new(a).is_absolute(), "{:?}", a);
        let name = path_file_name(a);
        let want = Path::new(a).file_name().map(|n| n.to_str().unwrap().to_string());
        let got: Option<String> = name.as_ref().map(|n| n.iter().collect());
        assert_eq!(got, want, "{:?}", a);
        if let Some(n) = name {
            let want = Path::new(a).file_stem().unwrap().to_str().unwrap();
            assert_eq!(name_stem(&n), want, "{:?}", a);
        }
        for ext in ["AppImage", "gz", "", "desktop"] {
            let want = Path::new(a).extension().map(|e| e == ext).unwrap_or(false);
            assert_eq!(has_extension(a, ext), want, "{:?} {:?}", a, ext);
        }
        for b in SAMPLES {
            assert_eq!(is_same_path(a, b), Path::new(a) == Path::new(b), "{:?} {:?}", a, b);
            let inside = match Path::new(a).strip_prefix(b) {
                Ok(rest) => rest.components().all(|c| c != Component::ParentDir),
                Err(_) => false,
            };
            assert_eq!(is_inside(a, b), inside, "{:?} {:?}", a, b);
            assert_eq!(joined_path(a, b), Path::new(a).join(b).to_str().unwrap());
        }
    }
}

#[test]
fn what_is_joined_is_inside() {
    for a in SAMPLES {
        assert!(is_inside(&joined_path(a, "x.AppImage"), a), "{:?}", a);
    }
}

#[test]
fn joining_in_steps_leads_to_the_same_place() {
    for a in SAMPLES {
        if a.is_empty() {
            continue;
        }
        let once = joined_path(a, "x/y/z");
        let twice = joined_path(&joined_path(a, "x"), "y/z");
        assert!(is_same_path(&once, &twice), "{:?}", a);
        assert!(is_inside(&once, &joined_path(a, "x")));
    }
}
