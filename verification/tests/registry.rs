use app_image_manager::failure::IoFailure;
use app_image_manager::registry::{parse, registry_path, serialize, Entry, Registry};

fn entry(name: &str, display: &str) -> Entry {
    Entry {
        name: name.to_string(),
        display_name: display.to_string(),
        ..Entry::default()
    }
}

#[test]
fn roundtrips_entries() {
    let entries = vec![
        Entry {
            name: "zcode".into(),
            display_name: "ZCode".into(),
            binary: "/home/u/.local/bin/zcode.AppImage".into(),
            desktop: "zcode.desktop".into(),
            icon: "zcode".into(),
            source: "/home/u/dl/ZCode.AppImage".into(),
        },
        Entry {
            name: "other".into(),
            display_name: "Other App".into(),
            binary: "/home/u/.local/bin/other.AppImage".into(),
            desktop: "other.desktop".into(),
            icon: "other".into(),
            source: "/home/u/dl/Other.AppImage".into(),
        },
    ];
    let parsed = parse(&serialize(&entries));
    assert_eq!(parsed.len(), 2);
    assert_eq!(parsed[0].name, "zcode");
    assert_eq!(parsed[0].display_name, "ZCode");
    assert_eq!(parsed[0].binary, "/home/u/.local/bin/zcode.AppImage");
    assert_eq!(parsed[1].desktop, "other.desktop");
}

#[test]
fn parses_names_with_spaces_in_values() {
    let parsed = parse("[app]\ndisplay=My Cool App\nbinary=/x/My App.AppImage\n");
    assert_eq!(parsed[0].display_name, "My Cool App");
    assert_eq!(parsed[0].binary, "/x/My App.AppImage");
}

#[test]
fn ignores_comments_and_stray_lines() {
    let parsed = parse("# comment\ndisplay=orphan\n[a]\nicon=a\nunknown=x\n");
    assert_eq!(parsed.len(), 1);
    assert_eq!(parsed[0].icon, "a");
}

#[test]
fn upsert_replaces_and_remove_returns() {
    let mut reg = Registry::default();
    reg.upsert(Entry {
        name: "a".into(),
        display_name: "A".into(),
        ..Entry::default()
    });
    reg.upsert(Entry {
        name: "a".into(),
        display_name: "A2".into(),
        ..Entry::default()
    });
    assert_eq!(reg.iter().count(), 1);
    assert_eq!(reg.get("a").unwrap().display_name, "A2");
    assert!(reg.remove("a").is_some());
    assert!(reg.remove("a").is_none());
}

#[test]
fn serializes_the_exact_text() {
    let e = Entry {
        name: "z".into(),
        display_name: "Z".into(),
        binary: "/b".into(),
        desktop: "z.desktop".into(),
        icon: "z".into(),
        source: "/s".into(),
    };
    assert_eq!(
        serialize(&vec![e]),
        "# AppImage Manager — installed AppImages. Managed automatically;\n\
         # edit only if you know what you are doing.\n\
         \n[z]\ndisplay=Z\nbinary=/b\ndesktop=z.desktop\nicon=z\nsource=/s\n"
    );
}

#[test]
fn other_entries_stay_where_they_are() {
    let mut reg = Registry::default();
    reg.upsert(entry("a", "A"));
    reg.upsert(entry("b", "B"));
    reg.upsert(entry("a", "A2"));
    let names: Vec<String> = reg.iter().map(|e| e.name.clone()).collect();
    assert_eq!(names, vec!["a", "b"]);
    assert_eq!(reg.remove("a").unwrap().display_name, "A2");
    assert!(reg.get("a").is_none());
    assert_eq!(reg.get("b").unwrap().display_name, "B");
}

#[test]
fn the_path_follows_the_environment() {
    let p = registry_path(Some("/data".to_string()), Some("/home/u".to_string())).unwrap();
    assert_eq!(p, "/data/app-image-manager/installed.list");
    // A relative XDG_DATA_HOME does not count.
    let p = registry_path(Some("data".to_string()), Some("/home/u".to_string())).unwrap();
    assert_eq!(p, "/home/u/.local/share/app-image-manager/installed.list");
    let e = registry_path(None, None).unwrap_err();
    assert!(e.not_found);
    assert_eq!(e.message, "HOME is not set");
}

#[test]
fn a_missing_file_is_an_empty_registry() {
    let gone = IoFailure {
        not_found: true,
        message: "no such file".to_string(),
    };
    let reg = Registry::load("/r".to_string(), Err(gone)).unwrap();
    assert_eq!(reg.iter().count(), 0);
    let denied = IoFailure {
        not_found: false,
        message: "denied".to_string(),
    };
    assert_eq!(
        Registry::load("/r".to_string(), Err(denied)).unwrap_err().message,
        "denied"
    );
}

#[test]
fn save_and_load_give_the_entries_back() {
    let mut reg = Registry::load("/r".to_string(), Ok(String::new())).unwrap();
    reg.upsert(entry("a", "A display = with signs [x]"));
    let write = reg.save();
    assert_eq!(write.path, "/r");
    let back = Registry::load("/r".to_string(), Ok(write.content)).unwrap();
    assert_eq!(
        back.get("a").unwrap().display_name,
        "A display = with signs [x]"
    );
}
