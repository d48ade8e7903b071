use app_image_manager::desktop::DesktopEntry;
use app_image_manager::failure::IoFailure;
use app_image_manager::installer::Dirs;
use app_image_manager::mime::{appimage_mime_types, purge_file, purge_obsolete_associations,
    register_default, register_default_args, registration_warnings, rewrite_warning, setup,
    strip_obsolete_lines, user_mimeapps_files, write_handler_desktop, Registration, ToolStatus,
    HANDLER_DESKTOP};

fn dirs() -> Dirs {
    Dirs::ensure(Some("/home/u".to_string())).unwrap()
}

#[test]
fn never_claims_the_generic_binary_type() {
    assert!(
        !appimage_mime_types().contains(&"application/octet-stream".to_string()),
        "octet-stream is every unrecognised binary; claiming it hijacks unrelated files"
    );
}

#[test]
fn strips_our_obsolete_association() {
    let input = "\
[Default Applications]
application/pdf=okular.desktop
application/octet-stream=appimage-handler.desktop
application/vnd.appimage=appimage-handler.desktop
";
    let (out, removed) = strip_obsolete_lines(input);
    assert_eq!(removed, vec!["application/octet-stream".to_string()]);
    assert!(!out.contains("octet-stream"));
    assert!(out.contains("application/pdf=okular.desktop"));
    assert!(out.contains("application/vnd.appimage=appimage-handler.desktop"));
}

#[test]
fn leaves_other_apps_alone() {
    let input = "\
[Default Applications]
application/octet-stream=ark.desktop
";
    let (out, removed) = strip_obsolete_lines(input);
    assert!(removed.is_empty());
    assert_eq!(out, input);
}

#[test]
fn keeps_the_rest_of_a_multi_value_association() {
    let input = "\
[Added Associations]
application/octet-stream=appimage-handler.desktop;ark.desktop;
";
    let (out, removed) = strip_obsolete_lines(input);
    assert_eq!(removed, vec!["application/octet-stream".to_string()]);
    assert!(out.contains("application/octet-stream=ark.desktop;"));
    assert!(!out.contains("appimage-handler"));
}

#[test]
fn stripping_is_exact_and_done_once() {
    let input = " application/octet-stream = b.desktop ;; appimage-handler.desktop;a.desktop\r\n\
                 x\r\napplication/octet-stream=appimage-handler.desktop";
    let (out, removed) = strip_obsolete_lines(input);
    assert_eq!(out, "application/octet-stream=b.desktop;a.desktop;\nx\n");
    assert_eq!(removed.len(), 2);
    let (again, removed) = strip_obsolete_lines(&out);
    assert_eq!(again, out);
    assert!(removed.is_empty());
    assert!(purge_file(&out).is_none());
    assert_eq!(purge_file(input).unwrap().0, out);
}

#[test]
fn purged_types_are_named_once() {
    let t = |s: &str| s.to_string();
    assert_eq!(
        purge_obsolete_associations(&vec![vec![t("a"), t("a")], vec![], vec![t("b"), t("a")]]),
        vec!["a", "b"]
    );
    assert!(purge_obsolete_associations(&vec![]).is_empty());
}

#[test]
fn mimeapps_files_follow_the_environment() {
    let some = |s: &str| Some(s.to_string());
    assert_eq!(
        user_mimeapps_files(None, None, some("/h")),
        vec![
            "/h/.config/mimeapps.list",
            "/h/.local/share/applications/mimeapps.list"
        ]
    );
    assert_eq!(
        user_mimeapps_files(some("/c"), some("/d"), None),
        vec!["/c/mimeapps.list", "/d/applications/mimeapps.list"]
    );
    assert!(user_mimeapps_files(None, None, None).is_empty());
    assert_eq!(
        user_mimeapps_files(None, some("/d"), None),
        vec!["/d/applications/mimeapps.list"]
    );
}

#[test]
fn the_handler_starts_this_tool() {
    let w = write_handler_desktop(&dirs(), "/usr/bin/app-image-manager");
    assert_eq!(
        w.path,
        "/home/u/.local/share/applications/appimage-handler.desktop"
    );
    assert_eq!(
        w.content,
        "[Desktop Entry]\n\
         Type=Application\n\
         Name=AppImage Manager\n\
         Comment=Install AppImages with a confirmation prompt\n\
         Comment[it]=Installa le AppImage con una richiesta di conferma\n\
         Comment[es]=Instala AppImages con una solicitud de confirmación\n\
         Exec=/usr/bin/app-image-manager handle %f\n\
         Icon=application-x-executable\n\
         NoDisplay=true\n\
         Terminal=false\n\
         MimeType=application/vnd.appimage;application/x-appimage;\n\
         Categories=System;Utility;\n"
    );
    let d = DesktopEntry::parse(&w.content);
    assert_eq!(d.get("Exec"), Some("/usr/bin/app-image-manager handle %f"));
}

#[test]
fn registration_outcomes() {
    assert_eq!(
        register_default_args("m", HANDLER_DESKTOP),
        vec!["default", "appimage-handler.desktop", "m"]
    );
    let status = |success: bool| {
        Ok(ToolStatus {
            success,
            text: "exit status: 2".to_string(),
        })
    };
    assert!(register_default(status(true)).is_ok());
    assert_eq!(
        register_default(status(false)).unwrap_err(),
        "xdg-mime exited exit status: 2"
    );
    let gone = IoFailure {
        not_found: true,
        message: "gone".to_string(),
    };
    assert_eq!(register_default(Err(gone)).unwrap_err(), "gone");
}

#[test]
fn setup_reports_both_sides() {
    let rs = vec![
        Registration {
            mime: "a".to_string(),
            outcome: Err("why".to_string()),
        },
        Registration {
            mime: "b".to_string(),
            outcome: Ok(()),
        },
    ];
    let report = setup(&dirs(), "/bin/x", &rs, vec!["p".to_string()]);
    assert_eq!(report.registered, vec!["b"]);
    assert_eq!(report.failed, vec!["a"]);
    assert_eq!(report.purged, vec!["p"]);
    assert_eq!(report.binary, "/bin/x");
    assert_eq!(
        report.handler_desktop,
        "/home/u/.local/share/applications/appimage-handler.desktop"
    );
    let warnings = registration_warnings(&rs);
    assert_eq!(warnings.len(), 1);
    assert_eq!(warnings[0].key, "warn_register_mime");
    assert_eq!(
        warnings[0].args,
        vec![
            ("mime".to_string(), "a".to_string()),
            ("reason".to_string(), "why".to_string())
        ]
    );
    let gone = IoFailure {
        not_found: false,
        message: "denied".to_string(),
    };
    let w = rewrite_warning("/m", &gone);
    assert_eq!(w.key, "warn_rewrite_mimeapps");
    assert_eq!(
        w.args,
        vec![
            ("path".to_string(), "/m".to_string()),
            ("err".to_string(), "denied".to_string())
        ]
    );
}
