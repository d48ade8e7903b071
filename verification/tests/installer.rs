use app_image_manager::appimage::AppImageError;
use app_image_manager::desktop::DesktopEntry;
use app_image_manager::failure::{IoFailure, ToolOutput};
use app_image_manager::installer::{check_source, desktop_file_name,
    ensure_kde_sees_user_applications, exec_program, fallback_icon, force_update_args,
    install_from_metadata, install_icon_args, installed_app, legacy_migration, list,
    manual_install_icon, menu_changed, name_from_legacy_desktop_file, open_registry,
    prune_duplicate_entries, refresh_icon_cache, remove_entries_pointing_at, rewrite_desktop,
    rewrite_exec, run_helper, sycoca_programs, temp_icon_path, uninstall, uninstall_icons, DirFile,
    Dirs, InstallError, InstallStep, MigrationOutcome, MARKER_KEY};
use app_image_manager::metadata::{AppImageMetadata, Icon, MetadataError};
use app_image_manager::paths::is_inside;
use app_image_manager::registry::{Entry, Registry};

fn dirs() -> Dirs {
    Dirs::ensure(Some("/home/u".to_string())).unwrap()
}

fn metadata(content: &str) -> AppImageMetadata {
    AppImageMetadata {
        desktop: DesktopEntry::parse(content),
        icons: vec![],
        dir_icon: None,
    }
}

fn dir_file(name: &str, content: &str) -> DirFile {
    DirFile {
        path: format!("/home/u/.local/share/applications/{}", name),
        file_name: name.to_string(),
        content: Some(content.to_string()),
    }
}

fn zcode() -> Entry {
    Entry {
        name: "zcode".to_string(),
        display_name: "ZCode".to_string(),
        binary: "/home/u/.local/bin/zcode.AppImage".to_string(),
        desktop: "zcode.desktop".to_string(),
        icon: "zcode".to_string(),
        source: "/home/u/dl/ZCode.AppImage".to_string(),
    }
}

#[test]
fn rewrites_apprun_exec() {
    let new = rewrite_exec("AppRun --no-sandbox %U", "/home/u/.local/bin/zcode.AppImage");
    assert_eq!(new, "/home/u/.local/bin/zcode.AppImage --no-sandbox %U");
}

#[test]
fn rewrites_exec_without_args() {
    let new = rewrite_exec("AppRun", "/x/y.AppImage");
    assert_eq!(new, "/x/y.AppImage");
}

#[test]
fn rewrite_desktop_sets_marker_and_icon() {
    let mut src = DesktopEntry::default();
    src.set("Name", "ZCode");
    src.set("Exec", "AppRun --no-sandbox %U");
    src.set("Icon", "zcode");
    let out = rewrite_desktop(
        &src,
        "/home/u/.local/bin/zcode.AppImage",
        "zcode",
        "/home/u/dl/ZCode.AppImage",
        "ZCode",
    );
    assert_eq!(out.get("Icon"), Some("zcode"));
    assert_eq!(
        out.get("Exec"),
        Some("/home/u/.local/bin/zcode.AppImage --no-sandbox %U")
    );
    assert_eq!(out.get(MARKER_KEY), Some("true"));
    assert!(out.get("X-AppImage-Source").is_some());
}

#[test]
fn desktop_file_name_is_canonical() {
    // The ID an application would pick for itself, so a self-registering
    // app replaces the entry instead of adding a second one.
    assert_eq!(desktop_file_name("zcode"), "zcode.desktop");
}

#[test]
fn name_from_legacy_desktop_file_roundtrip() {
    assert_eq!(
        name_from_legacy_desktop_file("appimage-manager-zcode.desktop").as_deref(),
        Some("zcode")
    );
}

#[test]
fn name_from_legacy_desktop_file_rejects_foreign() {
    // Files without the 0.1.2 prefix or extension are not migration
    // candidates.
    assert_eq!(name_from_legacy_desktop_file("zcode.desktop"), None);
    assert_eq!(name_from_legacy_desktop_file("appimage-manager-zcode"), None);
    assert_eq!(name_from_legacy_desktop_file("appimage-manager-zcode.png"), None);
}

#[test]
fn exec_program_reads_plain_and_quoted_forms() {
    assert_eq!(
        exec_program("/home/u/.local/bin/zcode.AppImage --no-sandbox %U").as_deref(),
        Some("/home/u/.local/bin/zcode.AppImage")
    );
    // The form Electron writes when it registers itself: the duplicate
    // entry that must be recognised.
    assert_eq!(
        exec_program("\"/home/u/.local/bin/zcode.AppImage\" %U").as_deref(),
        Some("/home/u/.local/bin/zcode.AppImage")
    );
    assert_eq!(
        exec_program("\"/home/u/.local/bin/My App.AppImage\" %U").as_deref(),
        Some("/home/u/.local/bin/My App.AppImage")
    );
    assert_eq!(exec_program("  /usr/bin/foo").as_deref(), Some("/usr/bin/foo"));
    assert_eq!(exec_program(""), None);
}

#[test]
fn rewrite_desktop_rewrites_action_execs() {
    let src = DesktopEntry::parse(
        "[Desktop Entry]\n\
         Name=Foo\n\
         Exec=AppRun %U\n\
         Actions=new-window;\n\
         \n\
         [Desktop Action new-window]\n\
         Name=New Window\n\
         Exec=AppRun --new-window\n",
    );
    let out = rewrite_desktop(
        &src,
        "/home/u/.local/bin/foo.AppImage",
        "foo",
        "/home/u/dl/Foo.AppImage",
        "Foo",
    );
    // The action group survives, with its Exec pointing at the installed
    // binary rather than the unreachable relative AppRun.
    assert_eq!(out.groups.len(), 1);
    assert_eq!(
        out.groups[0].keys,
        vec![
            ("Name".to_string(), "New Window".to_string()),
            (
                "Exec".to_string(),
                "/home/u/.local/bin/foo.AppImage --new-window".to_string()
            ),
        ]
    );
}

#[test]
fn rewrite_desktop_guarantees_type_and_clears_hidden() {
    let src = DesktopEntry::parse("[Desktop Entry]\nName=Foo\nExec=AppRun\nHidden=true\n");
    let out = rewrite_desktop(
        &src,
        "/home/u/.local/bin/foo.AppImage",
        "foo",
        "/home/u/dl/Foo.AppImage",
        "Foo",
    );
    assert_eq!(out.get("Type"), Some("Application"));
    assert_eq!(out.get("Hidden"), None);
}

#[test]
fn rewrite_desktop_fills_gaps_and_keeps_the_rest() {
    let src = DesktopEntry::parse("[Desktop Entry]\nTryExec=AppRun\nType=Link\nX=1\n");
    let out = rewrite_desktop(&src, "/b/foo.AppImage", "foo", "/s", "Foo");
    assert_eq!(out.get("Exec"), Some("/b/foo.AppImage %U"));
    assert_eq!(out.get("Name"), Some("Foo"));
    assert_eq!(out.get("Type"), Some("Link"));
    assert_eq!(out.get("TryExec"), Some("/b/foo.AppImage"));
    assert_eq!(out.get("X-AppImage-Source"), Some("/s"));
    assert_eq!(out.get("X"), Some("1"));
}

#[test]
fn exec_edge_cases() {
    assert_eq!(exec_program("\"a\\\"b\" c").as_deref(), Some("a\"b"));
    assert_eq!(exec_program("\"open ended").as_deref(), Some("open ended"));
    assert_eq!(exec_program("\"/x\\").as_deref(), Some("/x"));
    assert_eq!(exec_program("   "), None);
    assert_eq!(exec_program("\"\"").as_deref(), Some(""));
    assert_eq!(rewrite_exec("AppRun   ", "/x"), "/x");
    assert_eq!(rewrite_exec("AppRun\t --a  b", "/x"), "/x --a  b");
    assert_eq!(rewrite_exec(" AppRun", "/x"), "/x");
    assert_eq!(rewrite_exec("   ", "/x"), "/x");
    assert_eq!(rewrite_exec(" AppRun %U", "/x/y.AppImage"), "/x/y.AppImage %U");
}

#[test]
fn a_rewritten_exec_runs_the_binary() {
    for exec in ["AppRun", "AppRun %U", "", "  x", "\"My App\" %U"] {
        let new = rewrite_exec(exec, "/home/u/.local/bin/z.AppImage");
        assert_eq!(
            exec_program(&new).as_deref(),
            Some("/home/u/.local/bin/z.AppImage"),
            "{:?}",
            exec
        );
    }
}

#[test]
fn dirs_lie_under_the_home() {
    let d = dirs();
    assert_eq!(d.bin, "/home/u/.local/bin");
    assert_eq!(d.applications, "/home/u/.local/share/applications");
    let e = Dirs::ensure(None).unwrap_err();
    assert!(e.not_found);
    assert_eq!(e.message, "HOME is not set");
}

#[test]
fn an_installation_is_planned_from_the_metadata() {
    let meta = metadata("[Desktop Entry]\nName=My App\nExec=AppRun %U\n");
    let plan = install_from_metadata(&dirs(), "/dl/x.AppImage", "/dl/x.AppImage", &meta);
    assert_eq!(plan.name, "myapp");
    assert_eq!(plan.display_name, "My App");
    assert_eq!(plan.binary, "/home/u/.local/bin/myapp.AppImage");
    assert_eq!(
        plan.entry.path,
        "/home/u/.local/share/applications/myapp.desktop"
    );
    assert_eq!(
        plan.entry.content,
        "[Desktop Entry]\nName=My App\nExec=/home/u/.local/bin/myapp.AppImage %U\nIcon=myapp\n\
         Type=Application\nX-AppImage-Manager=true\nX-AppImage-Source=/dl/x.AppImage\n"
    );
    assert_eq!(plan.record.desktop, "myapp.desktop");
    assert_eq!(plan.record.icon, "myapp");
    assert_eq!(plan.record.source, "/dl/x.AppImage");
    let app = installed_app(plan, Some("hint".to_string()));
    assert_eq!(app.desktop, "/home/u/.local/share/applications/myapp.desktop");
    assert_eq!(app.xdg_warning, Some("hint".to_string()));
}

#[test]
fn only_the_required_steps_can_fail() {
    let mut step = InstallStep::first();
    let mut seen = vec![];
    loop {
        seen.push(step);
        let failed = Err(InstallError::HelperMissing("h".to_string()));
        let required = matches!(
            step,
            InstallStep::CopyBinary | InstallStep::WriteEntry | InstallStep::SaveRegistry
        );
        assert_eq!(step.next(failed).is_err(), required, "{:?}", step);
        match step.next(Ok(())).unwrap() {
            Some(next) => step = next,
            None => break,
        }
    }
    assert_eq!(
        seen,
        vec![
            InstallStep::CopyBinary,
            InstallStep::InstallIcons,
            InstallStep::WriteEntry,
            InstallStep::SaveRegistry,
            InstallStep::PruneDuplicates,
            InstallStep::UpdateDatabase,
            InstallStep::RefreshIcons,
            InstallStep::RebuildMenu,
        ]
    );
}

#[test]
fn install_errors_in_words() {
    let io = IoFailure {
        not_found: false,
        message: "denied".to_string(),
    };
    assert_eq!(InstallError::from(io).to_string(), "I/O error: denied");
    assert_eq!(
        InstallError::from(AppImageError::NotFound).to_string(),
        "file not found"
    );
    assert_eq!(
        InstallError::from(MetadataError::NoDesktopEntry).to_string(),
        "no .desktop file at the AppImage root"
    );
    assert_eq!(
        InstallError::HelperMissing("h".to_string()).to_string(),
        "helper not found: h"
    );
    assert_eq!(
        InstallError::HelperFailed("h".to_string(), "m".to_string()).to_string(),
        "helper h failed: m"
    );
    assert!(check_source(true).is_ok());
    assert_eq!(
        check_source(false).unwrap_err().to_string(),
        "I/O error: source is not a regular file"
    );
}

#[test]
fn the_fallback_icon_is_for_want_of_others() {
    let mut meta = metadata("");
    assert!(fallback_icon(&meta, &vec![]).is_none());
    meta.dir_icon = Some(b"png".to_vec());
    meta.icons.push(Icon {
        size: 48,
        png: b"48".to_vec(),
    });
    assert_eq!(fallback_icon(&meta, &vec![false]), Some(&b"png".to_vec()));
    assert_eq!(fallback_icon(&meta, &vec![]), Some(&b"png".to_vec()));
    assert!(fallback_icon(&meta, &vec![false, true]).is_none());
}

#[test]
fn icon_paths_and_arguments() {
    assert_eq!(
        manual_install_icon(Some("/home/u".to_string()), 48, "z").unwrap(),
        "/home/u/.local/share/icons/hicolor/48x48/apps/z.png"
    );
    assert_eq!(manual_install_icon(None, 48, "z").unwrap_err().message, "HOME unset");
    assert_eq!(
        temp_icon_path("/tmp", 48, 7, 123456789012345678901234567890),
        "/tmp/app-image-manager-icon-48-7-123456789012345678901234567890.png"
    );
    assert_eq!(
        install_icon_args("z", 48, "/tmp/i.png"),
        vec!["install", "--noupdate", "--novendor", "--size", "48", "/tmp/i.png", "z"]
    );
    let removals = uninstall_icons("z", Some("/h".to_string()));
    assert_eq!(removals.len(), 10);
    assert_eq!(removals[1].args, vec!["uninstall", "--size", "22", "z"]);
    assert_eq!(
        removals[9].file.as_deref(),
        Some("/h/.local/share/icons/hicolor/1024x1024/apps/z.png")
    );
    assert!(uninstall_icons("z", None)[0].file.is_none());
}

#[test]
fn helpers_report_what_they_complain_of() {
    let ok = Ok(ToolOutput {
        success: true,
        stdout: vec![],
        stderr: vec![],
    });
    assert!(run_helper("h", ok).is_ok());
    let bad = Ok(ToolOutput {
        success: false,
        stdout: vec![],
        stderr: vec![b'x', 0xfe],
    });
    assert_eq!(
        run_helper("h", bad).unwrap_err(),
        ("h".to_string(), "x\u{fffd}".to_string())
    );
    let gone = Err(IoFailure {
        not_found: true,
        message: "gone".to_string(),
    });
    assert_eq!(
        run_helper("h", gone).unwrap_err(),
        ("h".to_string(), "gone".to_string())
    );
    assert_eq!(force_update_args(), vec!["forceupdate", "--theme", "hicolor"]);
    assert_eq!(refresh_icon_cache(Ok(()), None).unwrap(), None);
    let failed = || Err(("h".to_string(), "m".to_string()));
    assert_eq!(
        refresh_icon_cache(failed(), Some("/h".to_string())).unwrap().unwrap(),
        vec![
            "--force",
            "--ignore-theme-index",
            "--quiet",
            "/h/.local/share/icons/hicolor"
        ]
    );
    assert_eq!(
        refresh_icon_cache(failed(), None).unwrap_err(),
        ("HOME".to_string(), "unset".to_string())
    );
    assert_eq!(sycoca_programs(), vec!["kbuildsycoca6", "kbuildsycoca5"]);
}

#[test]
fn kde_is_told_of_a_missing_directory() {
    let share = "/home/u/.local/share";
    let list = format!("/usr/share:{}", share);
    let fine = ensure_kde_sees_user_applications(share, Some(list.clone()), &list);
    assert!(fine.xdg_data_dirs.is_none() && fine.warning.is_none());
    let other = "/usr/share:/home/u/.local/share/x";
    let r = ensure_kde_sees_user_applications(share, Some(other.to_string()), other);
    assert_eq!(
        r.xdg_data_dirs.as_deref(),
        Some("/home/u/.local/share:/usr/share:/home/u/.local/share/x")
    );
    let m = r.warning.unwrap();
    assert_eq!(m.key, "xdg_warning");
    assert_eq!(m.args, vec![("path".to_string(), share.to_string())]);
    let r = ensure_kde_sees_user_applications(share, None, "");
    assert_eq!(r.xdg_data_dirs.as_deref(), Some("/home/u/.local/share:"));
}

#[test]
fn legacy_installs_are_imported() {
    let content = "[Desktop Entry]\nName=ZCode\nExec=\"/b/z.AppImage\" %U\nIcon=zi\n\
                   X-AppImage-Manager=true\nX-AppImage-Source=/dl/z\n";
    let m = legacy_migration(&dirs(), "appimage-manager-zcode.desktop", content).unwrap();
    assert_eq!(m.entry.path, "/home/u/.local/share/applications/zcode.desktop");
    assert_eq!(m.entry.content, content);
    assert_eq!(m.record.name, "zcode");
    assert_eq!(m.record.display_name, "ZCode");
    assert_eq!(m.record.binary, "/b/z.AppImage");
    assert_eq!(m.record.desktop, "zcode.desktop");
    assert_eq!(m.record.icon, "zi");
    assert_eq!(m.record.source, "/dl/z");
    assert!(legacy_migration(&dirs(), "zcode.desktop", content).is_none());
    assert!(legacy_migration(&dirs(), "appimage-manager-z.desktop", "[Desktop Entry]\n").is_none());
    let bare = "[Desktop Entry]\nX-AppImage-Manager=true\n";
    let m = legacy_migration(&dirs(), "appimage-manager-a.desktop", bare).unwrap();
    assert_eq!(m.record.binary, "/home/u/.local/bin/a.AppImage");
    assert_eq!(m.record.display_name, "a");
    assert_eq!(m.record.icon, "a");
    assert_eq!(m.record.source, "");
}

#[test]
fn the_registry_takes_the_imports_that_were_written() {
    let bare = "[Desktop Entry]\nX-AppImage-Manager=true\n";
    let import = |file: &str, written: bool| MigrationOutcome {
        migration: legacy_migration(&dirs(), file, bare).unwrap(),
        written,
    };
    let reg = Registry::load("/r".to_string(), Ok(String::new())).unwrap();
    let (reg, save) = open_registry(
        reg,
        &vec![
            import("appimage-manager-a.desktop", true),
            import("appimage-manager-b.desktop", false),
        ],
    );
    assert!(reg.get("a").is_some());
    assert!(reg.get("b").is_none());
    let save = save.unwrap();
    assert_eq!(save.path, "/r");
    assert!(save.content.contains("[a]"));
    let (reg, save) = open_registry(reg, &vec![import("appimage-manager-c.desktop", false)]);
    assert!(save.is_none());
    assert_eq!(reg.iter().count(), 1);
}

#[test]
fn only_duplicates_are_pruned() {
    let mut reg = Registry::default();
    reg.upsert(zcode());
    let ours = "[Desktop Entry]\nExec=/home/u/.local/bin/zcode.AppImage %U\n";
    let quoted = "[Desktop Entry]\nExec=\"/home/u/.local/bin/zcode.AppImage\" %U\n";
    let dotted = "[Desktop Entry]\nExec=/home/u/.local//bin/./zcode.AppImage\n";
    let foreign = "[Desktop Entry]\nExec=/usr/bin/zcode\n";
    let files = vec![
        dir_file("zcode.desktop", ours),
        dir_file("ZCode.desktop", quoted),
        dir_file("dotted.desktop", dotted),
        dir_file("foreign.desktop", foreign),
        dir_file("zcode.txt", ours),
        dir_file("empty.desktop", ""),
        DirFile {
            path: "/a/unreadable.desktop".to_string(),
            file_name: "unreadable.desktop".to_string(),
            content: None,
        },
    ];
    let pruned = prune_duplicate_entries(&reg, &files);
    assert_eq!(
        pruned,
        vec![
            "/home/u/.local/share/applications/ZCode.desktop",
            "/home/u/.local/share/applications/dotted.desktop",
        ]
    );
    assert!(menu_changed(false, &pruned));
    assert!(menu_changed(true, &vec![]));
    assert!(!menu_changed(false, &vec![]));
    // Nothing is managed, nothing is pruned.
    assert!(prune_duplicate_entries(&Registry::default(), &files).is_empty());
    // Without names to keep, the canonical entry goes too.
    let all = remove_entries_pointing_at(
        &files,
        &vec!["/home/u/.local/bin/zcode.AppImage".to_string()],
        &vec![],
    );
    assert_eq!(all.len(), 3);
}

#[test]
fn lists_what_the_registry_records() {
    let mut reg = Registry::default();
    reg.upsert(zcode());
    let apps = list(&dirs(), &reg);
    assert_eq!(apps.len(), 1);
    assert_eq!(apps[0].name, "zcode");
    assert_eq!(apps[0].display_name, "ZCode");
    assert_eq!(apps[0].binary, "/home/u/.local/bin/zcode.AppImage");
    assert_eq!(
        apps[0].desktop,
        "/home/u/.local/share/applications/zcode.desktop"
    );
    assert!(apps[0].xdg_warning.is_none());
}

#[test]
fn uninstall_takes_away_what_install_put_there() {
    let meta = metadata("[Desktop Entry]\nName=My App\n");
    let plan = install_from_metadata(&dirs(), "/dl/x.AppImage", "/dl/x.AppImage", &meta);
    let mut reg = Registry::load("/r".to_string(), Ok(String::new())).unwrap();
    reg.upsert(zcode());
    let before = reg.save().content;
    reg.upsert(plan.record.clone());
    let u = uninstall(&dirs(), &mut reg, "myapp").unwrap();
    assert_eq!(u.binary, Some(plan.binary.clone()));
    assert_eq!(u.icon, Some("myapp".to_string()));
    assert_eq!(u.entry, plan.entry.path);
    assert_eq!(u.duplicates_of, plan.binary);
    assert_eq!(u.registry.path, "/r");
    assert_eq!(u.registry.content, before);
    assert!(uninstall(&dirs(), &mut reg, "myapp").is_none());
}

#[test]
fn a_binary_elsewhere_is_not_removed() {
    let mut reg = Registry::default();
    let mut e = zcode();
    e.binary = "/usr/bin/zcode".to_string();
    e.icon = String::new();
    reg.upsert(e);
    let u = uninstall(&dirs(), &mut reg, "zcode").unwrap();
    assert_eq!(u.binary, None);
    assert_eq!(u.icon, None);
    assert_eq!(u.duplicates_of, "/usr/bin/zcode");
}

#[test]
fn the_written_entry_is_recognised() {
    let meta = metadata(
        "[Desktop Entry]\nName=My App\nExec=AppRun --x %U\nTryExec=AppRun\n\n\
         [Desktop Action a]\nExec=AppRun --a\n",
    );
    let plan = install_from_metadata(&dirs(), "/dl/x.AppImage", "/dl/x.AppImage", &meta);
    let back = DesktopEntry::parse(&plan.entry.content);
    assert_eq!(back.get(MARKER_KEY), Some("true"));
    assert_eq!(
        exec_program(back.get("Exec").unwrap()),
        Some(plan.binary.clone())
    );
    assert_eq!(
        back.groups[0].keys,
        vec![(
            "Exec".to_string(),
            "/home/u/.local/bin/myapp.AppImage --a".to_string()
        )]
    );
    assert_eq!(back.to_string(), plan.entry.content);
}

#[test]
fn everything_lives_inside_local() {
    for (content, file) in [
        ("[Desktop Entry]\nName=../../etc\n", "/dl/x.AppImage"),
        ("[Desktop Entry]\n", "/dl/weird name.AppImage"),
        ("", ""),
    ] {
        let plan = install_from_metadata(&dirs(), "/dl/x", file, &metadata(content));
        assert!(is_inside(&plan.binary, "/home/u/.local/bin"));
        assert!(is_inside(&plan.entry.path, "/home/u/.local/share/applications"));
        let icon = manual_install_icon(Some("/home/u".to_string()), 48, &plan.record.icon);
        assert!(is_inside(&icon.unwrap(), "/home/u/.local/share/icons"));
    }
}

#[test]
fn the_blank_before_an_exec_value_is_no_argument() {
    let meta = metadata("[Desktop Entry]\nName=Foo\nExec= AppRun %U\n");
    assert_eq!(meta.desktop.get("Exec"), Some(" AppRun %U"));
    let plan = install_from_metadata(&dirs(), "/dl/x", "/dl/x", &meta);
    let back = DesktopEntry::parse(&plan.entry.content);
    assert_eq!(back.get("Exec"), Some("/home/u/.local/bin/foo.AppImage %U"));
}

#[test]
fn a_binary_reached_by_stepping_back_is_not_removed() {
    let mut reg = Registry::default();
    let mut e = zcode();
    e.binary = "/home/u/.local/bin/../../documents".to_string();
    reg.upsert(e);
    assert_eq!(uninstall(&dirs(), &mut reg, "zcode").unwrap().binary, None);
}
