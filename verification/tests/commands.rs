use app_image_manager::cli::{Cli, Command};
use app_image_manager::commands::{begin, handle, handle_answer, handle_installed, handle_launched,
    install_silent, list_cmd, react, setup_cmd, uninstall_answer, uninstall_cmd, Effect, Event,
    Headers, Next, Reaction};
use app_image_manager::failure::IoFailure;
use app_image_manager::installer::{InstallError, InstalledApp};
use app_image_manager::kdialog::{Answer, KdialogError};
use app_image_manager::messages::Message;
use app_image_manager::mime::SetupReport;

const MAGIC: [u8; 11] = *b"\x7fELF\x02\x01\x01\x00AI\x02";

fn headers() -> Headers {
    Headers {
        name: "NAME".to_string(),
        display: "DISPLAY".to_string(),
        binary: "BINARY".to_string(),
    }
}

fn app(name: &str, display: &str, warning: Option<&str>) -> InstalledApp {
    InstalledApp {
        name: name.to_string(),
        display_name: display.to_string(),
        binary: format!("/b/{}", name),
        desktop: format!("/d/{}", name),
        xdg_warning: warning.map(str::to_string),
    }
}

fn io() -> IoFailure {
    IoFailure {
        not_found: false,
        message: "denied".to_string(),
    }
}

fn say(m: &Message) -> String {
    let args: Vec<String> = m.args.iter().map(|(k, v)| format!("{}={}", k, v)).collect();
    format!("{}({})", m.key, args.join(","))
}

/// The reaction in one line.
fn told(r: &Reaction) -> String {
    let effects: Vec<String> = r
        .effects
        .iter()
        .map(|e| match e {
            Effect::Print(m) => format!("print {}", say(m)),
            Effect::PrintText(s) => format!("text {}", s),
            Effect::Warn(m) => format!("warn {}", say(m)),
            Effect::WarnApart(m) => format!("apart {}", say(m)),
            Effect::ErrorBox(m) => format!("error {}", say(m)),
            Effect::MessageBox(m, hint) => format!("box {} {:?}", say(m), hint),
        })
        .collect();
    format!("{} -> {}", effects.join("; "), step(&r.next))
}

fn step(n: &Next) -> String {
    match n {
        Next::ConfirmInstall { prompt } => format!("ask install {}", say(prompt)),
        Next::ConfirmUninstall { prompt } => format!("ask uninstall {}", say(prompt)),
        Next::Launch { binary } => format!("launch {}", binary),
        Next::Exit { success } => format!("exit {}", success),
        other => format!("{:?}", other),
    }
}

#[test]
fn commands_begin_where_they_should() {
    let file = || "/x/a".to_string();
    let cli = Cli {
        command: Command::Handle { file: file() },
    };
    assert_eq!(step(&begin(&cli.command)), "Inspect");
    assert_eq!(step(&begin(&Command::Install { file: file() })), "InstallSilently");
    assert_eq!(step(&begin(&Command::List)), "List");
    assert_eq!(step(&begin(&Command::Setup)), "Setup");
    let uninstall = |yes: bool| Command::Uninstall {
        name: "z".to_string(),
        yes,
    };
    assert_eq!(step(&begin(&uninstall(true))), "Uninstall");
    assert_eq!(
        step(&begin(&uninstall(false))),
        "ask uninstall prompt_uninstall(name=z)"
    );
}

#[test]
fn handle_looks_before_it_asks() {
    assert_eq!(
        told(&handle("/x/Foo.AppImage", false, None)),
        "error err_file_not_exist(); warn err_file_not_exist() -> exit false"
    );
    assert_eq!(
        told(&handle("/x/Foo.AppImage", true, None)),
        "error err_not_appimage(); warn err_not_appimage() -> exit false"
    );
    assert_eq!(
        told(&handle("/x/Foo.AppImage", true, Some(MAGIC))),
        " -> ask install prompt_install(name=Foo)"
    );
}

#[test]
fn handle_follows_the_answer() {
    assert_eq!(told(&handle_answer(Ok(Answer::Yes))), " -> InstallConfirmed");
    assert_eq!(told(&handle_answer(Ok(Answer::No))), " -> exit true");
    assert_eq!(
        told(&handle_answer(Err(KdialogError::NotFound))),
        "warn err_kdialog(err=kdialog not found on PATH) -> exit false"
    );
}

#[test]
fn handle_tells_and_launches() {
    assert_eq!(
        told(&handle_installed(Ok(app("z", "Z", Some("hint"))))),
        "box msg_installed_ok(name=Z) Some(\"hint\") -> launch /b/z"
    );
    assert_eq!(
        told(&handle_installed(Err(InstallError::Io(io())))),
        "error err_install_failed(err=I/O error: denied); \
         warn err_install_failed(err=I/O error: denied) -> exit false"
    );
    assert_eq!(told(&handle_launched(Ok(()))), " -> exit true");
    assert_eq!(
        told(&handle_launched(Err(io()))),
        "warn warn_launch_failed(err=denied) -> exit true"
    );
}

#[test]
fn install_tells_on_the_terminal() {
    assert_eq!(
        told(&install_silent(Ok(app("z", "Z", None)))),
        "print msg_installed_cli(name=Z,bin=/b/z) -> exit true"
    );
    assert_eq!(
        told(&install_silent(Ok(app("z", "Z", Some("hint"))))),
        "print msg_installed_cli(name=Z,bin=/b/z); apart notice_prefix(warn=hint) -> exit true"
    );
    assert_eq!(
        told(&install_silent(Err(InstallError::HelperMissing("h".to_string())))),
        "warn err_prefix(err=helper not found: h) -> exit false"
    );
}

#[test]
fn list_aligns_its_columns() {
    let r = list_cmd(
        Ok(vec![app("zcode", "È", None), app("a", "A longer name", None)]),
        &headers(),
    );
    assert_eq!(
        told(&r),
        "text NAME   DISPLAY        BINARY; \
         text zcode  È              /b/zcode; \
         text a      A longer name  /b/a -> exit true"
    );
    assert_eq!(
        told(&list_cmd(Ok(vec![]), &headers())),
        "print msg_no_installs() -> exit true"
    );
    assert_eq!(
        told(&list_cmd(Err(io()), &headers())),
        "warn err_prefix(err=denied) -> exit false"
    );
}

#[test]
fn uninstall_proceeds_unless_told_not_to() {
    assert_eq!(told(&uninstall_answer(Ok(Answer::Yes))), " -> Uninstall");
    assert_eq!(told(&uninstall_answer(Ok(Answer::No))), " -> exit true");
    assert_eq!(told(&uninstall_answer(Err(KdialogError::NotFound))), " -> Uninstall");
    assert_eq!(
        told(&uninstall_cmd("z", Ok(true))),
        "box msg_removed(name=z) None; print msg_removed_cli(name=z) -> exit true"
    );
    assert_eq!(
        told(&uninstall_cmd("z", Ok(false))),
        "error err_not_found(name=z); warn err_not_found(name=z) -> exit false"
    );
    assert_eq!(
        told(&uninstall_cmd("z", Err(InstallError::Io(io())))),
        "error err_uninstall_failed(err=I/O error: denied); \
         warn err_uninstall_failed(err=I/O error: denied) -> exit false"
    );
}

#[test]
fn setup_lists_what_there_is() {
    let report = |failed: Vec<String>| SetupReport {
        handler_desktop: "/h".to_string(),
        binary: "/b".to_string(),
        registered: vec!["x".to_string(), "y".to_string()],
        failed,
        purged: vec![],
    };
    assert_eq!(
        told(&setup_cmd(Ok(report(vec![])))),
        "print setup_handler(path=/h); print setup_binary(path=/b); \
         print setup_mime_registered(list=x, y); print setup_done() -> exit true"
    );
    assert_eq!(
        told(&setup_cmd(Ok(report(vec!["z".to_string()])))),
        "print setup_handler(path=/h); print setup_binary(path=/b); \
         print setup_mime_registered(list=x, y); print setup_mime_failed(list=z); \
         print setup_done() -> exit true"
    );
    assert_eq!(
        told(&setup_cmd(Err(io()))),
        "warn err_setup_failed(err=denied) -> exit false"
    );
}

#[test]
fn a_command_runs_to_its_end() {
    let h = headers();
    let file = "/x/Foo.AppImage";
    let mut next = begin(&Command::Handle {
        file: file.to_string(),
    });
    let events = vec![
        Event::Inspected {
            exists: true,
            header: Some(MAGIC),
        },
        Event::Answered(Ok(Answer::Yes)),
        Event::Installed(Ok(app("foo", "Foo", None))),
        Event::Launched(Ok(())),
    ];
    for e in events {
        next = react(file, &h, &next, e).unwrap().next;
    }
    assert_eq!(step(&next), "exit true");
    // An event that the step does not come to.
    assert!(react(file, &h, &next, Event::Launched(Ok(()))).is_none());
    assert!(react(file, &h, &Next::List, Event::Answered(Ok(Answer::Yes))).is_none());
}
