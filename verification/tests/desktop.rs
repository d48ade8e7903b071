use app_image_manager::desktop::{split_kv, DesktopEntry, Group};
use app_image_manager::failure::IoFailure;

#[test]
fn parse_and_roundtrip() {
    let input = "\
[Desktop Entry]
Name=ZCode
Exec=AppRun --no-sandbox %U
Type=Application
Icon=zcode
# a comment
Categories=Development;
";
    let mut e = DesktopEntry::parse(input);
    assert_eq!(e.get("Name"), Some("ZCode"));
    assert_eq!(e.get("Exec"), Some("AppRun --no-sandbox %U"));
    e.set("Exec", "/home/u/.local/bin/zcode.AppImage --no-sandbox %U");
    e.set("X-AppImage-Manager", "true");
    let out = e.to_string();
    assert!(out.contains("Exec=/home/u/.local/bin/zcode.AppImage --no-sandbox %U"));
    assert!(out.contains("X-AppImage-Manager=true"));
    assert!(out.contains("[Desktop Entry]"));
}

#[test]
fn ignores_non_main_group() {
    let input = "\
[Desktop Entry]
Name=Foo
Bar=1

[Desktop Action Open]
Exec=foo --open
";
    let e = DesktopEntry::parse(input);
    assert_eq!(e.get("Name"), Some("Foo"));
    assert_eq!(e.get("Bar"), Some("1"));
    assert!(e.get("Exec").is_none(), "must not pick up actions group");
}

#[test]
fn preserves_action_groups() {
    let input = "\
[Desktop Entry]
Name=Foo
Actions=new-window;

[Desktop Action new-window]
Name=New Window
Exec=AppRun --new-window
";
    let e = DesktopEntry::parse(input);
    assert_eq!(e.groups.len(), 1);
    assert_eq!(e.groups[0].name, "Desktop Action new-window");
    let out = e.to_string();
    assert!(out.contains("[Desktop Action new-window]"));
    assert!(out.contains("Exec=AppRun --new-window"));
    // Re-parsing the output must yield the same shape.
    assert_eq!(DesktopEntry::parse(&out).groups.len(), 1);
}

#[test]
fn writes_the_exact_text() {
    let mut e = DesktopEntry::default();
    e.set("Name", "Foo");
    e.set("Exec", "foo %U");
    e.groups.push(Group {
        name: "Desktop Action a".to_string(),
        keys: vec![("Exec".to_string(), "foo --a".to_string())],
    });
    assert_eq!(
        e.to_string(),
        "[Desktop Entry]\nName=Foo\nExec=foo %U\n\n[Desktop Action a]\nExec=foo --a\n"
    );
}

#[test]
fn set_then_get_and_remove() {
    let mut e = DesktopEntry::parse("[Desktop Entry]\nA=1\nB=2\nA=3\n");
    assert_eq!(e.get("A"), Some("1"));
    e.set("A", "9");
    assert_eq!(e.get("A"), Some("9"));
    assert_eq!(e.get("B"), Some("2"));
    e.remove("A");
    assert_eq!(e.get("A"), None);
    assert_eq!(e.to_string(), "[Desktop Entry]\nB=2\n");
}

#[test]
fn as_map_is_sorted_and_the_last_value_wins() {
    let e = DesktopEntry::parse("[Desktop Entry]\nB=2\nA=1\nB=3\n");
    assert_eq!(e.as_map(), vec![("A", "1"), ("B", "3")]);
}

#[test]
fn keys_before_any_header_are_dropped() {
    let e = DesktopEntry::parse("Stray=1\n[Desktop Entry]\nName=Foo\n");
    assert_eq!(e.get("Stray"), None);
    assert_eq!(e.keys.len(), 1);
}

#[test]
fn values_keep_leading_and_lose_trailing_space() {
    let e = DesktopEntry::parse("[Desktop Entry]\r\n  Name = Foo  \r\nComment[it]=ciao\r\n");
    assert_eq!(e.get("Name"), Some(" Foo"));
    assert_eq!(e.get("Comment[it]"), Some("ciao"));
}

#[test]
fn split_kv_needs_a_key() {
    assert_eq!(
        split_kv("A=b=c"),
        Some(("A".to_string(), "b=c".to_string()))
    );
    assert_eq!(split_kv("=b"), None);
    assert_eq!(split_kv("no equals sign"), None);
}

#[test]
fn write_then_parse_gives_the_entry_back() {
    let mut e = DesktopEntry::default();
    e.set("Name", "Foo Bar");
    e.set("Comment[es]", "una solicitud de confirmación");
    e.groups.push(Group {
        name: "Desktop Action a".to_string(),
        keys: vec![("Exec".to_string(), "foo --a".to_string())],
    });
    let back = DesktopEntry::parse(&e.to_string());
    assert_eq!(back.keys, e.keys);
    assert_eq!(back.groups[0].name, e.groups[0].name);
    assert_eq!(back.groups[0].keys, e.groups[0].keys);
}

#[test]
fn read_passes_the_failure_on() {
    let ok = DesktopEntry::read(Ok("[Desktop Entry]\nName=Foo\n".to_string())).unwrap();
    assert_eq!(ok.get("Name"), Some("Foo"));
    let failure = IoFailure {
        not_found: true,
        message: "gone".to_string(),
    };
    assert_eq!(DesktopEntry::read(Err(failure)).unwrap_err().message, "gone");
}
