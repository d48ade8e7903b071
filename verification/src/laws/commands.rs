//! The course of each command, and what the user is told.
use vstd::prelude::*;

use crate::cli::Command;
use crate::commands::{app_display_names, app_names, display_column, guessed_name, lemma_widest,
    looks_like_appimage, name_column, start, table, transition, widest, EffectView, Event,
    HeadersView, NextView, ReactionView};
use crate::failure::IoFailure;
use crate::installer::{install_error_text, installed_views, InstallError, InstalledApp,
    InstalledView};
use crate::kdialog::{dialog_args, kdialog_error_text, Answer, KdialogError};
use crate::laws::appimage::law_header;
use crate::laws::paths::{law_file_name, law_stem, proper_name};
use crate::messages::MessageView;
use crate::mime::SetupReport;
use crate::paths::file_name;
use crate::text::{decimal, join, lowered, opt_string, padded, texts};

verus! {

// ---------------------------------------------------------------------------
// Recognition
// ---------------------------------------------------------------------------
/// A file looks like an AppImage where it is an executable that has the magic, or
/// one whose name ends in `.appimage`, in whatever case and whatever stands
/// before that. Nothing else about the file or its path counts.
pub proof fn law_recognition(header: [u8; 11], path: Seq<char>)
    ensures
        looks_like_appimage(Some(header), path) <==> {
            &&& header@.take(4) == seq![0x7fu8, 0x45u8, 0x4cu8, 0x46u8]
            &&& header@.skip(8) == seq![0x41u8, 0x49u8, 0x02u8] || (file_name(path) matches Some(
                name,
            ) && name.len() >= 9 && lowered(name.skip(name.len() - 9)) == ".appimage"@)
        },
        !looks_like_appimage(None, path),
{
    law_header(header@);
    reveal_strlit(".appimage");
    if file_name(path) is Some {
        let name = file_name(path)->0;
        if name.len() >= 9 {
            let end = name.skip(name.len() - 9);
            assert(lowered(name).skip(name.len() - 9) =~= lowered(end));
        }
    }
}

/// The name in the prompt is that of the file without its extension.
pub proof fn law_guessed_name(dir: Seq<char>, name: Seq<char>, end: Seq<char>)
    requires
        dir.len() > 0,
        name.len() > 0,
        proper_name(name + seq!['.'] + end),
        forall|i: int| 0 <= i < end.len() ==> end[i] != '.',
    ensures
        guessed_name(dir + seq!['/'] + (name + seq!['.'] + end)) == name,
        guessed_name(name + seq!['.'] + end) == name,
        guessed_name(seq!['/']) == "AppImage"@,
{
    let file = name + seq!['.'] + end;
    law_file_name(dir, file);
    law_stem(name, end);
}

// ---------------------------------------------------------------------------
// Courses
// ---------------------------------------------------------------------------
/// Each command starts with its own work: only opening a file looks at it first,
/// and only a removal that was not confirmed yet asks.
pub proof fn law_start(command: Command)
    ensures
        command is Handle ==> start(command) == NextView::Inspect,
        command is Install ==> start(command) == NextView::InstallSilently,
        command is List ==> start(command) == NextView::List,
        command is Setup ==> start(command) == NextView::Setup,
        command matches Command::Uninstall { name, yes } ==> {
            &&& yes ==> start(command) == NextView::Uninstall
            &&& !yes ==> start(command) == (NextView::ConfirmUninstall {
                prompt: MessageView { key: "prompt_uninstall"@, args: seq![("name"@, name@)] },
            })
        },
{
}

/// The end in failure: the same message in a dialog and on the standard error.
pub open spec fn told_and_failed(m: MessageView) -> ReactionView {
    ReactionView {
        effects: seq![EffectView::ErrorBox(m), EffectView::Warn(m)],
        next: NextView::Exit { success: false },
    }
}

/// Opening a file that is an AppImage leads to the question whether to install it;
/// a yes leads to the installation, and that to the start of the binary that was
/// installed. Whatever goes wrong before is told and ends in failure; a failed
/// start is told and does not.
pub proof fn law_handle_course(
    file: Seq<char>,
    h: HeadersView,
    prompt: MessageView,
    exists: bool,
    header: Option<[u8; 11]>,
    asked: KdialogError,
    app: InstalledApp,
    failed: InstallError,
    launch: IoFailure,
    binary: Seq<char>,
)
    ensures
        ({
            let seen = transition(
                file,
                h,
                NextView::Inspect,
                Event::Inspected { exists, header },
            );
            &&& !exists ==> seen == Some(
                told_and_failed(MessageView { key: "err_file_not_exist"@, args: seq![] }),
            )
            &&& exists && !looks_like_appimage(header, file) ==> seen == Some(
                told_and_failed(MessageView { key: "err_not_appimage"@, args: seq![] }),
            )
            &&& exists && looks_like_appimage(header, file) ==> seen == Some(
                ReactionView {
                    effects: seq![],
                    next: NextView::ConfirmInstall {
                        prompt: MessageView {
                            key: "prompt_install"@,
                            args: seq![("name"@, guessed_name(file))],
                        },
                    },
                },
            )
        }),
        ({
            let ask = NextView::ConfirmInstall { prompt };
            &&& transition(file, h, ask, Event::Answered(Ok(Answer::Yes))) == Some(
                ReactionView { effects: seq![], next: NextView::InstallConfirmed },
            )
            &&& transition(file, h, ask, Event::Answered(Err(asked))) == Some(
                ReactionView {
                    effects: seq![
                        EffectView::Warn(
                            MessageView {
                                key: "err_kdialog"@,
                                args: seq![("err"@, kdialog_error_text(asked))],
                            },
                        ),
                    ],
                    next: NextView::Exit { success: false },
                },
            )
        }),
        transition(file, h, NextView::InstallConfirmed, Event::Installed(Ok(app))) == Some(
            ReactionView {
                effects: seq![
                    EffectView::MessageBox(
                        MessageView {
                            key: "msg_installed_ok"@,
                            args: seq![("name"@, app.display_name@)],
                        },
                        opt_string(app.xdg_warning),
                    ),
                ],
                next: NextView::Launch { binary: app.binary@ },
            },
        ),
        transition(file, h, NextView::InstallConfirmed, Event::Installed(Err(failed))) == Some(
            told_and_failed(
                MessageView {
                    key: "err_install_failed"@,
                    args: seq![("err"@, install_error_text(failed))],
                },
            ),
        ),
        transition(file, h, NextView::Launch { binary }, Event::Launched(Ok(()))) == Some(
            ReactionView { effects: seq![], next: NextView::Exit { success: true } },
        ),
        transition(file, h, NextView::Launch { binary }, Event::Launched(Err(launch))) == Some(
            ReactionView {
                effects: seq![
                    EffectView::Warn(
                        MessageView {
                            key: "warn_launch_failed"@,
                            args: seq![("err"@, launch.message@)],
                        },
                    ),
                ],
                next: NextView::Exit { success: true },
            },
        ),
{
}

/// An installation from the command line ends in success where it was done, with
/// the name and the binary and, where there is one, the hint; and in failure with
/// the reason where it was not.
pub proof fn law_install_course(
    file: Seq<char>,
    h: HeadersView,
    app: InstalledApp,
    failed: InstallError,
)
    ensures
        transition(file, h, NextView::InstallSilently, Event::Installed(Ok(app))) matches Some(r)
            && {
            &&& r.next == (NextView::Exit { success: true })
            &&& r.effects[0] == EffectView::Print(
                MessageView {
                    key: "msg_installed_cli"@,
                    args: seq![("name"@, app.display_name@), ("bin"@, app.binary@)],
                },
            )
            &&& app.xdg_warning is None ==> r.effects.len() == 1
            &&& app.xdg_warning matches Some(hint) ==> r.effects.len() == 2 && r.effects[1]
                == EffectView::WarnApart(
                MessageView { key: "notice_prefix"@, args: seq![("warn"@, hint@)] },
            )
        },
        transition(file, h, NextView::InstallSilently, Event::Installed(Err(failed))) == Some(
            ReactionView {
                effects: seq![
                    EffectView::Warn(
                        MessageView {
                            key: "err_prefix"@,
                            args: seq![("err"@, install_error_text(failed))],
                        },
                    ),
                ],
                next: NextView::Exit { success: false },
            },
        ),
{
}

/// A removal goes on unless the user says no, also where they could not be asked;
/// it ends in success where there was such an install, and otherwise says that
/// there was none, or why it failed.
pub proof fn law_uninstall_course(
    name: Seq<char>,
    h: HeadersView,
    prompt: MessageView,
    asked: KdialogError,
    failed: InstallError,
)
    ensures
        ({
            let ask = NextView::ConfirmUninstall { prompt };
            let go_on = Some(ReactionView { effects: seq![], next: NextView::Uninstall });
            &&& transition(name, h, ask, Event::Answered(Ok(Answer::Yes))) == go_on
            &&& transition(name, h, ask, Event::Answered(Err(asked))) == go_on
        }),
        transition(name, h, NextView::Uninstall, Event::Uninstalled(Ok(true))) == Some(
            ReactionView {
                effects: seq![
                    EffectView::MessageBox(
                        MessageView { key: "msg_removed"@, args: seq![("name"@, name)] },
                        None,
                    ),
                    EffectView::Print(
                        MessageView { key: "msg_removed_cli"@, args: seq![("name"@, name)] },
                    ),
                ],
                next: NextView::Exit { success: true },
            },
        ),
        transition(name, h, NextView::Uninstall, Event::Uninstalled(Ok(false))) == Some(
            told_and_failed(MessageView { key: "err_not_found"@, args: seq![("name"@, name)] }),
        ),
        transition(name, h, NextView::Uninstall, Event::Uninstalled(Err(failed))) == Some(
            told_and_failed(
                MessageView {
                    key: "err_uninstall_failed"@,
                    args: seq![("err"@, install_error_text(failed))],
                },
            ),
        ),
{
}

/// A listing prints one row for the headers and one for each install, or says that
/// there is none; where it failed it says why.
pub proof fn law_list_course(
    subject: Seq<char>,
    h: HeadersView,
    apps: Vec<InstalledApp>,
    failed: IoFailure,
)
    ensures
        transition(subject, h, NextView::List, Event::Listed(Ok(apps))) matches Some(r) && {
            &&& r.next == (NextView::Exit { success: true })
            &&& apps@.len() == 0 ==> r.effects == seq![
                EffectView::Print(MessageView { key: "msg_no_installs"@, args: seq![] }),
            ]
            &&& apps@.len() > 0 ==> r.effects.len() == apps@.len() + 1
            &&& apps@.len() > 0 ==> forall|i: int|
                0 <= i <= apps@.len() ==> #[trigger] r.effects[i] == EffectView::PrintText(
                    table(h, installed_views(apps@))[i],
                )
        },
        transition(subject, h, NextView::List, Event::Listed(Err(failed))) == Some(
            ReactionView {
                effects: seq![
                    EffectView::Warn(
                        MessageView { key: "err_prefix"@, args: seq![("err"@, failed.message@)] },
                    ),
                ],
                next: NextView::Exit { success: false },
            },
        ),
{
}

/// Every install has its row, in the order of the list: its name and its display
/// name, filled up with blanks to the width of their columns, and its binary.
pub proof fn law_table_rows(h: HeadersView, apps: Seq<InstalledView>, i: int)
    requires
        0 <= i < apps.len(),
    ensures
        table(h, apps).len() == apps.len() + 1,
        table(h, apps)[0] == padded(h.name, name_column(h, apps)) + "  "@ + padded(
            h.display,
            display_column(h, apps),
        ) + "  "@ + h.binary,
        table(h, apps)[i + 1] == padded(apps[i].name, name_column(h, apps)) + "  "@ + padded(
            apps[i].display_name,
            display_column(h, apps),
        ) + "  "@ + apps[i].binary,
{
}

/// A column is just as wide as the longest text in it, that of its header
/// included.
pub proof fn law_column_widths(h: HeadersView, apps: Seq<InstalledView>)
    ensures
        h.name.len() <= name_column(h, apps),
        h.display.len() <= display_column(h, apps),
        forall|i: int|
            0 <= i < apps.len() ==> (#[trigger] apps[i]).name.len() <= name_column(h, apps)
                && apps[i].display_name.len() <= display_column(h, apps),
        name_column(h, apps) == h.name.len() || exists|i: int|
            0 <= i < apps.len() && (#[trigger] apps[i]).name.len() == name_column(h, apps),
        display_column(h, apps) == h.display.len() || exists|i: int|
            0 <= i < apps.len() && (#[trigger] apps[i]).display_name.len() == display_column(
                h,
                apps,
            ),
{
    let names = app_names(apps);
    let shown = app_display_names(apps);
    lemma_widest(names, h.name.len());
    lemma_widest(shown, h.display.len());
    lemma_widest_is_one(names, h.name.len());
    lemma_widest_is_one(shown, h.display.len());
    assert forall|i: int| 0 <= i < apps.len() implies (#[trigger] apps[i]).name.len()
        <= name_column(h, apps) && apps[i].display_name.len() <= display_column(h, apps) by {
        assert(names[i] == apps[i].name);
        assert(shown[i] == apps[i].display_name);
    }
    if name_column(h, apps) != h.name.len() {
        let i = choose|i: int|
            0 <= i < names.len() && (#[trigger] names[i]).len() == widest(names, h.name.len());
        assert(apps[i].name == names[i]);
    }
    if display_column(h, apps) != h.display.len() {
        let i = choose|i: int|
            0 <= i < shown.len() && (#[trigger] shown[i]).len() == widest(shown, h.display.len());
        assert(apps[i].display_name == shown[i]);
    }
}

proof fn lemma_widest_is_one(ts: Seq<Seq<char>>, least: nat)
    ensures
        widest(ts, least) == least || exists|i: int|
            0 <= i < ts.len() && (#[trigger] ts[i]).len() == widest(ts, least),
    decreases ts.len(),
{
    if ts.len() > 0 {
        let rest = ts.drop_last();
        lemma_widest_is_one(rest, least);
        if ts.last().len() > widest(rest, least) {
            assert(ts[ts.len() - 1].len() == widest(ts, least));
        } else if widest(rest, least) != least {
            let i = choose|i: int|
                0 <= i < rest.len() && (#[trigger] rest[i]).len() == widest(rest, least);
            assert(ts[i] == rest[i]);
        }
    }
}

/// A line of the report on some types; there is none where there are no types.
pub open spec fn report_line(key: Seq<char>, types: Seq<String>) -> Seq<EffectView> {
    if types.len() == 0 {
        seq![]
    } else {
        seq![
            EffectView::Print(
                MessageView { key, args: seq![("list"@, join(texts(types), ", "@))] },
            ),
        ]
    }
}

/// The report of a setup says what was written, what was registered, what was not
/// and what was purged; where the setup failed it says why.
pub proof fn law_setup_course(
    subject: Seq<char>,
    h: HeadersView,
    report: SetupReport,
    failed: IoFailure,
)
    ensures
        transition(subject, h, NextView::Setup, Event::SetUp(Ok(report))) == Some(
            ReactionView {
                effects: seq![
                    EffectView::Print(
                        MessageView {
                            key: "setup_handler"@,
                            args: seq![("path"@, report.handler_desktop@)],
                        },
                    ),
                    EffectView::Print(
                        MessageView { key: "setup_binary"@, args: seq![("path"@, report.binary@)] },
                    ),
                ] + report_line("setup_mime_registered"@, report.registered@) + report_line(
                    "setup_mime_failed"@,
                    report.failed@,
                ) + report_line("setup_purged"@, report.purged@) + seq![
                    EffectView::Print(MessageView { key: "setup_done"@, args: seq![] }),
                ],
                next: NextView::Exit { success: true },
            },
        ),
        transition(subject, h, NextView::Setup, Event::SetUp(Err(failed))) == Some(
            ReactionView {
                effects: seq![
                    EffectView::Warn(
                        MessageView {
                            key: "err_setup_failed"@,
                            args: seq![("err"@, failed.message@)],
                        },
                    ),
                ],
                next: NextView::Exit { success: false },
            },
        ),
{
}

// ---------------------------------------------------------------------------
// Dialogs
// ---------------------------------------------------------------------------
/// A dialog shows the title and the message that it is given, and an error is told
/// in the system's own words.
pub proof fn law_dialogs(kind: Seq<char>, title: Seq<char>, message: Seq<char>, e: KdialogError)
    ensures
        dialog_args(kind, title, message) == seq!["--title"@, title, kind, message],
        e matches KdialogError::Io(cause) ==> kdialog_error_text(e) == "kdialog I/O error: "@
            + cause.message@,
        e is NotFound ==> kdialog_error_text(e) == "kdialog not found on PATH"@,
        e matches KdialogError::Failed(code) ==> kdialog_error_text(e)
            == "kdialog exited with code "@ + (if code < 0 {
            "-"@ + decimal(-code as nat)
        } else {
            decimal(code as nat)
        }),
{
}

} // verus!
