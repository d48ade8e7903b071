use app_image_manager::appimage::AppImage;
use app_image_manager::desktop::DesktopEntry;
use app_image_manager::failure::{IoFailure, ToolOutput};
use app_image_manager::metadata::{extract_desktop, extract_file, find_root_desktop_name,
    icon_requests, install_name, is_listed, is_named, list_dir, parse_ls, root_desktop_name,
    validate_desktop, AppImageMetadata, Extraction, MetadataError, Progress};

fn output(success: bool, stdout: &str, stderr: &str) -> Result<ToolOutput, IoFailure> {
    Ok(ToolOutput {
        success,
        stdout: stdout.as_bytes().to_vec(),
        stderr: stderr.as_bytes().to_vec(),
    })
}

fn failure(not_found: bool) -> IoFailure {
    IoFailure {
        not_found,
        message: "cannot run".to_string(),
    }
}

#[test]
fn parse_ls_strips_prefix_and_filters() {
    let raw = "\
squashfs-root
squashfs-root/usr
squashfs-root/usr/share/icons/hicolor/48x48/apps/zcode.png
squashfs-root/usr/share/icons/hicolor/128x128/apps/zcode.png
squashfs-root/something/else
";
    let out = parse_ls(raw, "usr/share/icons/hicolor");
    assert_eq!(
        out,
        "usr/share/icons/hicolor/48x48/apps/zcode.png\n\
         usr/share/icons/hicolor/128x128/apps/zcode.png"
    );
}

#[test]
fn parse_ls_keeps_only_what_is_under_the_root() {
    let raw = "squashfs-root/usr/share/icons/hicolor-old/48x48/apps/a.png\n\
               squashfs-root/usr/share/icons/hicolor\n\
               squashfs-root/usr/share/icons/hicolor/48x48/apps/a.png\n";
    assert_eq!(
        parse_ls(raw, "usr/share/icons/hicolor"),
        "usr/share/icons/hicolor\nusr/share/icons/hicolor/48x48/apps/a.png"
    );
}

#[test]
fn the_root_of_a_listing_may_end_in_a_slash_or_be_empty() {
    let raw = "squashfs-root/usr\nsquashfs-root/usr/x\nsquashfs-root/usr-old\n";
    assert_eq!(parse_ls(raw, "usr"), "usr\nusr/x");
    assert_eq!(parse_ls(raw, "usr/"), "usr\nusr/x");
    assert_eq!(parse_ls(raw, ""), "usr\nusr/x\nusr-old");
    assert_eq!(parse_ls("usr", ""), "usr");
    assert_eq!(parse_ls(raw, "us"), "");
    assert_eq!(list_dir(output(true, raw, ""), "usr/").unwrap(), "usr\nusr/x");
}

#[test]
fn install_name_uses_desktop_name() {
    let mut d = DesktopEntry::default();
    d.set("Name", "My Cool App");
    let name = install_name(&d, "/tmp/whatever.AppImage");
    assert_eq!(name, "mycoolapp");
}

#[test]
fn install_name_falls_back_to_the_stem() {
    let mut d = DesktopEntry::default();
    assert_eq!(install_name(&d, "/tmp/What Ever.AppImage"), "What Ever");
    d.set("Name", "日本語");
    assert_eq!(install_name(&d, "/tmp/x.AppImage"), "x");
    assert_eq!(install_name(&d, ""), "appimage-app");
    d.set("Name", "A-b_C 9!");
    assert_eq!(install_name(&d, ""), "a-b_c9");
}

#[test]
fn an_install_name_is_its_own_install_name() {
    let mut d = DesktopEntry::default();
    d.set("Name", "ZCode Pro (β) 2");
    let once = install_name(&d, "");
    assert_eq!(once, "zcodepro2");
    d.set("Name", &once);
    assert_eq!(install_name(&d, ""), once);
}

#[test]
fn what_the_tool_wrote_is_the_file() {
    for listed in [true, false] {
        assert_eq!(extract_file(output(true, "x", ""), listed).unwrap(), Some(b"x".to_vec()));
        assert_eq!(extract_file(output(true, "", ""), listed).unwrap(), Some(vec![]));
        assert_eq!(extract_file(output(false, "x", "bad"), listed).unwrap(), Some(b"x".to_vec()));
        assert_eq!(extract_file(output(false, "", ""), listed).unwrap(), None);
    }
}

#[test]
fn a_missing_file_is_no_failure() {
    for words in [
        "File Not Found",
        "cat: No such file",
        "it does not exist",
        "NONEXISTENT",
        "could not exist",
        "File non trovato",
        "Datei oder Verzeichnis nicht gefunden",
        "\u{30d5}\u{30a1}\u{30a4}\u{30eb}",
    ] {
        assert_eq!(extract_file(output(false, "", words), false).unwrap(), None);
        // The same words about a file that is there are a failure.
        let e = extract_file(output(false, "", words), true).unwrap_err();
        assert_eq!(e.to_string(), format!("extraction failed: unsquashfs: {}", words));
    }
    let e = extract_file(output(false, "", "bad superblock"), true).unwrap_err();
    assert_eq!(e.to_string(), "extraction failed: unsquashfs: bad superblock");
}

#[test]
fn a_listing_tells_what_is_there() {
    let raw = "squashfs-root\nsquashfs-root/.DirIcon\n  ./usr/x \r\n";
    assert!(is_named(raw, ".DirIcon"));
    assert!(is_named(raw, "usr/x"));
    assert!(!is_named(raw, "DirIcon"));
    assert!(!is_named(raw, "usr"));
    assert!(!is_named("squashfs-root/.DirIcon.png\n", ".DirIcon"));
    assert!(!is_named("squashfs-root/usr/.DirIcon\n", ".DirIcon"));
    assert!(!is_named("", ".DirIcon"));
    assert!(is_listed(&output(true, raw, ""), ".DirIcon"));
    assert!(!is_listed(&output(true, "", raw), ".DirIcon"));
    assert!(!is_listed(&Err(failure(true)), ".DirIcon"));
}

#[test]
fn invalid_bytes_are_replaced() {
    let out = Ok(ToolOutput {
        success: false,
        stdout: vec![],
        stderr: vec![b'b', 0xff, b'd'],
    });
    let e = extract_file(out, true).unwrap_err();
    assert_eq!(e.to_string(), "extraction failed: unsquashfs: b\u{fffd}d");
}

#[test]
fn a_tool_that_cannot_run_is_told_apart() {
    let e = extract_file(Err(failure(true)), false).unwrap_err();
    assert!(matches!(e, MetadataError::UnsquashfsNotFound));
    assert_eq!(e.to_string(), "unsquashfs not found on PATH");
    let e = list_dir(Err(failure(false)), "usr").unwrap_err();
    assert_eq!(e.to_string(), "I/O error: cannot run");
    let e = find_root_desktop_name(Err(failure(true))).unwrap_err();
    assert!(matches!(e, MetadataError::UnsquashfsNotFound));
}

#[test]
fn a_listing_fails_only_without_output() {
    let e = list_dir(output(false, "", "no"), "usr").unwrap_err();
    assert_eq!(e.to_string(), "extraction failed: unsquashfs -ls: no");
    let got = list_dir(output(false, "squashfs-root/usr/x\n", "no"), "usr").unwrap();
    assert_eq!(got, "usr/x");
    assert_eq!(list_dir(output(true, "", ""), "usr").unwrap(), "");
}

#[test]
fn finds_the_desktop_entry_at_the_root() {
    let raw = "squashfs-root\nsquashfs-root/usr/x.desktop\nsquashfs-root/Foo.desktop\n";
    assert_eq!(root_desktop_name(raw), Some("Foo.desktop".to_string()));
    assert_eq!(root_desktop_name(" ./a.desktop \nb.desktop\n"), Some("a.desktop".to_string()));
    let spaced = "squashfs-root\nsquashfs-root/My App.desktop\nsquashfs-root/usr\n";
    assert_eq!(
        find_root_desktop_name(output(true, spaced, "")).unwrap(),
        "My App.desktop"
    );
    assert_eq!(root_desktop_name("squashfs-root/AppRun\n"), None);
    let e = find_root_desktop_name(output(true, "", "")).unwrap_err();
    assert_eq!(e.to_string(), "no .desktop file at the AppImage root");
}

#[test]
fn a_desktop_entry_needs_a_name() {
    let e = validate_desktop("[Desktop Entry]\nExec=x\n").unwrap_err();
    assert_eq!(e.to_string(), "invalid desktop entry: missing Name");
    let e = extract_desktop(output(false, "", "")).unwrap_err();
    assert!(matches!(e, MetadataError::NoDesktopEntry));
    let d = extract_desktop(output(true, "[Desktop Entry]\nName=Foo\n", "")).unwrap();
    assert_eq!(d.get("Name"), Some("Foo"));
}

#[test]
fn icons_are_read_off_the_paths() {
    let listing = "\
usr/share/icons/hicolor/48x48/apps/a.png
usr/share/icons/hicolor/scalable/apps/a.svg
usr/share/icons/hicolor/scalable/apps/a.png
usr/share/icons/hicolor/64/apps/b.png
usr/share/icons/hicolor/16x16/mimetypes/c.png
usr/share/icons/hicolor/16x16/apps
usr/share/icons/hicolor/256x256@2/apps/d.png";
    let got: Vec<(u32, String)> = icon_requests(listing)
        .into_iter()
        .map(|q| (q.size, q.path))
        .collect();
    assert_eq!(
        got,
        vec![
            (48, "usr/share/icons/hicolor/48x48/apps/a.png".to_string()),
            (64, "usr/share/icons/hicolor/64/apps/b.png".to_string()),
            (256, "usr/share/icons/hicolor/256x256@2/apps/d.png".to_string()),
        ]
    );
}

/// Run an extraction against a payload that answers by its arguments.
fn run(answer: impl Fn(&[String]) -> Result<ToolOutput, IoFailure>) -> Result<
    AppImageMetadata,
    MetadataError,
> {
    let app = AppImage {
        squashfs_offset: 4242,
    };
    let mut x: Extraction = AppImageMetadata::extract("/x/Foo.AppImage", app);
    loop {
        let args = x.args();
        assert_eq!(args[0], "-o");
        assert_eq!(args[1], "4242");
        assert_eq!(args[3], "/x/Foo.AppImage");
        match x.step(answer(&args))? {
            Progress::Run(next) => x = next,
            Progress::Done(m) => return Ok(m),
        }
    }
}

fn payload(args: &[String]) -> Result<ToolOutput, IoFailure> {
    if args[2] == "-ls" && args.len() == 4 {
        return output(
            true,
            "squashfs-root\nsquashfs-root/.DirIcon\nsquashfs-root/Foo.desktop\n",
            "",
        );
    }
    match args[4].as_str() {
        "Foo.desktop" => output(true, "[Desktop Entry]\nName=Foo\n", ""),
        "usr/share/icons/hicolor" => output(
            true,
            "squashfs-root/usr/share/icons/hicolor/48x48/apps/foo.png\n\
             squashfs-root/usr/share/icons/hicolor/64x64/apps/foo.png\n\
             squashfs-root/usr/share/icons/hicolor/128x128/apps/foo.png\n",
            "",
        ),
        "usr/share/icons/hicolor/48x48/apps/foo.png" => output(true, "png48", ""),
        "usr/share/icons/hicolor/128x128/apps/foo.png" => output(true, "png128", ""),
        ".DirIcon" => output(true, "dir", ""),
        _ => output(false, "", ""),
    }
}

#[test]
fn extraction_reads_every_icon_that_is_there() {
    let m = run(payload).unwrap();
    assert_eq!(m.desktop.get("Name"), Some("Foo"));
    let icons: Vec<(u32, Vec<u8>)> = m.icons.into_iter().map(|i| (i.size, i.png)).collect();
    assert_eq!(icons, vec![(48, b"png48".to_vec()), (128, b"png128".to_vec())]);
    assert_eq!(m.dir_icon, Some(b"dir".to_vec()));
}

#[test]
fn extraction_reports_the_first_failure() {
    let e = run(|args: &[String]| {
        if args.len() == 5 && args[4].ends_with("64x64/apps/foo.png") {
            return output(false, "", "broken");
        }
        if args.len() == 5 && args[4] == ".DirIcon" {
            return Err(failure(true));
        }
        payload(args)
    })
    .unwrap_err();
    assert_eq!(e.to_string(), "extraction failed: unsquashfs: broken");
}

#[test]
fn extraction_does_without_a_fallback_icon() {
    for words in ["not found", "File non trovato", "", "bad superblock"] {
        let m = run(|args: &[String]| {
            if args.len() == 4 {
                return output(true, "squashfs-root\nsquashfs-root/Foo.desktop\n", "");
            }
            if args[4] == ".DirIcon" || args[2] == "-ls" {
                return output(false, if args[2] == "-ls" { "\n" } else { "" }, words);
            }
            payload(args)
        })
        .unwrap();
        assert!(m.icons.is_empty());
        assert_eq!(m.dir_icon, None);
    }
}

#[test]
fn extraction_fails_on_a_fallback_icon_that_cannot_be_read() {
    let e = run(|args: &[String]| {
        if args.len() == 5 && args[4] == ".DirIcon" {
            return output(false, "", "block not found");
        }
        payload(args)
    })
    .unwrap_err();
    assert_eq!(e.to_string(), "extraction failed: unsquashfs: block not found");
}
