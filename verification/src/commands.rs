//! The course of each command: what to ask, do and tell next, by what came of
//! the step before.
use vstd::prelude::*;

use crate::appimage::{appimage_header, elf_header, is_appimage_magic, is_elf};
use crate::cli::Command;
use crate::failure::IoFailure;
use crate::installer::{install_error_text, InstallError, InstalledApp, InstalledView,
    installed_views};
use crate::kdialog::{kdialog_error_text, Answer, KdialogError};
use crate::messages::{plain, with_arg, with_args, Message, MessageView};
use crate::mime::SetupReport;
use crate::paths::{char_vecs, file_name, name_stem, path_file_name, stem};
use crate::text::{copy, ends_with, join, joined, lowered, opt_string, padded, texts,
    to_chars, to_lowered, to_padded};

verus! {

/// Something to tell the user.
#[derive(Debug)]
pub enum Effect {
    /// A line on the standard output.
    Print(Message),
    /// A line on the standard output that is no message of the catalogs.
    PrintText(String),
    /// A line on the standard error.
    Warn(Message),
    /// The same, after a blank line.
    WarnApart(Message),
    /// An error dialog under the name of the tool.
    ErrorBox(Message),
    /// An information dialog under the name of the tool; the hint, if there is
    /// one, follows the message after a blank line.
    MessageBox(Message, Option<String>),
}

/// What an [`Effect`] says.
pub enum EffectView {
    Print(MessageView),
    PrintText(Seq<char>),
    Warn(MessageView),
    WarnApart(MessageView),
    ErrorBox(MessageView),
    MessageBox(MessageView, Option<Seq<char>>),
}

impl View for Effect {
    type V = EffectView;

    open spec fn view(&self) -> EffectView {
        match *self {
            Effect::Print(m) => EffectView::Print(m@),
            Effect::PrintText(s) => EffectView::PrintText(s@),
            Effect::Warn(m) => EffectView::Warn(m@),
            Effect::WarnApart(m) => EffectView::WarnApart(m@),
            Effect::ErrorBox(m) => EffectView::ErrorBox(m@),
            Effect::MessageBox(m, hint) => EffectView::MessageBox(m@, opt_string(hint)),
        }
    }
}

/// What a vector of effects says.
pub open spec fn effect_views(v: Seq<Effect>) -> Seq<EffectView> {
    Seq::new(v.len(), |i: int| v[i]@)
}

/// What a command does next.
#[derive(Debug)]
pub enum Next {
    /// Look at the file: is it there, and how does it begin?
    Inspect,
    /// Ask whether to install.
    ConfirmInstall { prompt: Message },
    /// Install what the user agreed to.
    InstallConfirmed,
    /// Install without having asked.
    InstallSilently,
    /// Start the installed binary.
    Launch { binary: String },
    /// List what is installed.
    List,
    /// Ask whether to uninstall.
    ConfirmUninstall { prompt: Message },
    /// Uninstall.
    Uninstall,
    /// Register the handler.
    Setup,
    /// Nothing: the command is over.
    Exit { success: bool },
}

/// What a [`Next`] says.
pub enum NextView {
    Inspect,
    ConfirmInstall { prompt: MessageView },
    InstallConfirmed,
    InstallSilently,
    Launch { binary: Seq<char> },
    List,
    ConfirmUninstall { prompt: MessageView },
    Uninstall,
    Setup,
    Exit { success: bool },
}

impl View for Next {
    type V = NextView;

    open spec fn view(&self) -> NextView {
        match *self {
            Next::Inspect => NextView::Inspect,
            Next::ConfirmInstall { prompt } => NextView::ConfirmInstall { prompt: prompt@ },
            Next::InstallConfirmed => NextView::InstallConfirmed,
            Next::InstallSilently => NextView::InstallSilently,
            Next::Launch { binary } => NextView::Launch { binary: binary@ },
            Next::List => NextView::List,
            Next::ConfirmUninstall { prompt } => NextView::ConfirmUninstall { prompt: prompt@ },
            Next::Uninstall => NextView::Uninstall,
            Next::Setup => NextView::Setup,
            Next::Exit { success } => NextView::Exit { success },
        }
    }
}

/// What a step leads to: the user is told something, and the command goes on.
#[derive(Debug)]
pub struct Reaction {
    pub effects: Vec<Effect>,
    pub next: Next,
}

/// What a [`Reaction`] says.
#[verifier::ext_equal]
pub struct ReactionView {
    pub effects: Seq<EffectView>,
    pub next: NextView,
}

impl View for Reaction {
    type V = ReactionView;

    open spec fn view(&self) -> ReactionView {
        ReactionView { effects: effect_views(self.effects@), next: self.next@ }
    }
}

/// Going on without a word.
pub open spec fn silently(next: NextView) -> ReactionView {
    ReactionView { effects: seq![], next }
}

/// The end, with one thing to tell.
pub open spec fn end(effect: EffectView, success: bool) -> ReactionView {
    ReactionView { effects: seq![effect], next: NextView::Exit { success } }
}

/// The end in failure, told in a dialog and on the standard error.
pub open spec fn failure(m: MessageView) -> ReactionView {
    ReactionView {
        effects: seq![EffectView::ErrorBox(m), EffectView::Warn(m)],
        next: NextView::Exit { success: false },
    }
}

fn to_silently(next: Next) -> (r: Reaction)
    ensures
        r@ == silently(next@),
{
    let r: Reaction = Reaction { effects: Vec::new(), next };
    assert(r@ =~= silently(next@));
    r
}

fn to_end(effect: Effect, success: bool) -> (r: Reaction)
    ensures
        r@ == end(effect@, success),
{
    let mut effects: Vec<Effect> = Vec::new();
    effects.push(effect);
    let r: Reaction = Reaction { effects, next: Next::Exit { success } };
    assert(r@ =~= end(effect@, success));
    r
}

fn to_failure(first: Message, second: Message) -> (r: Reaction)
    requires
        first@ == second@,
    ensures
        r@ == failure(first@),
{
    let mut effects: Vec<Effect> = Vec::new();
    effects.push(Effect::ErrorBox(first));
    effects.push(Effect::Warn(second));
    let r: Reaction = Reaction { effects, next: Next::Exit { success: false } };
    assert(r@ =~= failure(first@));
    r
}

// ---------------------------------------------------------------------------
// Recognition
// ---------------------------------------------------------------------------
/// Does the path end in `.appimage`, in whatever case?
pub open spec fn appimage_extension(path: Seq<char>) -> bool {
    file_name(path) is Some && ".appimage"@.is_suffix_of(lowered(file_name(path)->0))
}

/// Does a file that begins like this, at this path, look like an AppImage?
pub open spec fn looks_like_appimage(header: Option<[u8; 11]>, path: Seq<char>) -> bool {
    match header {
        Some(h) => appimage_header(h@) || (elf_header(h@) && appimage_extension(path)),
        None => false,
    }
}

/// Cheap extension check.
pub fn is_appimage_extension(path: &str) -> (r: bool)
    ensures
        r == appimage_extension(path@),
{
    match path_file_name(path) {
        Some(name) => {
            let low: Vec<char> = to_lowered(name.as_slice());
            let suffix: Vec<char> = to_chars(".appimage");
            ends_with(low.as_slice(), suffix.as_slice())
        },
        None => false,
    }
}

/// Does this file actually look like an AppImage? `header` is its first bytes,
/// or `None` if it is unreadable or shorter.
///
/// Content decides, never the name alone. The authoritative signal is the
/// type-2 AppImage magic. A few builds ship with the magic zeroed out, so an
/// ELF binary *named* `*.AppImage` is accepted too, but never a non-ELF file,
/// whatever it is called.
pub fn is_appimage(header: Option<[u8; 11]>, path: &str) -> (r: bool)
    ensures
        r == looks_like_appimage(header, path@),
{
    match header {
        Some(h) => is_appimage_magic(&h) || (is_elf(&h) && is_appimage_extension(path)),
        None => false,
    }
}

/// The magic alone is enough, and the name alone never is.
pub proof fn law_content_decides(header: Option<[u8; 11]>, path: Seq<char>)
    ensures
        header is Some && appimage_header(header->0@) ==> looks_like_appimage(header, path),
        header is Some && !elf_header(header->0@) ==> !looks_like_appimage(header, path),
        header is None ==> !looks_like_appimage(header, path),
{
}

/// The name that the prompt shows for a file at this path.
pub open spec fn guessed_name(path: Seq<char>) -> Seq<char> {
    match file_name(path) {
        Some(name) => stem(name),
        None => "AppImage"@,
    }
}

/// Best-effort display name for the confirmation prompt, derived from the file
/// stem before the desktop entry is known.
pub fn display_name_guess(path: &str) -> (r: String)
    ensures
        r@ == guessed_name(path@),
{
    match path_file_name(path) {
        Some(name) => name_stem(name.as_slice()),
        None => copy("AppImage"),
    }
}

// ---------------------------------------------------------------------------
// The start
// ---------------------------------------------------------------------------
/// How a command starts.
pub open spec fn start(command: Command) -> NextView {
    match command {
        Command::Handle { .. } => NextView::Inspect,
        Command::Install { .. } => NextView::InstallSilently,
        Command::List => NextView::List,
        Command::Uninstall { name, yes } => if yes {
            NextView::Uninstall
        } else {
            NextView::ConfirmUninstall { prompt: with_arg("prompt_uninstall"@, "name"@, name@) }
        },
        Command::Setup => NextView::Setup,
    }
}

/// How a command starts. Only `handle`, and `uninstall` without `--yes`, ask.
pub fn begin(command: &Command) -> (r: Next)
    ensures
        r@ == start(*command),
{
    match command {
        Command::Handle { file: _ } => Next::Inspect,
        Command::Install { file: _ } => Next::InstallSilently,
        Command::List => Next::List,
        Command::Uninstall { name, yes } => {
            if *yes {
                Next::Uninstall
            } else {
                Next::ConfirmUninstall {
                    prompt: Message::with_arg("prompt_uninstall", "name", name.as_str()),
                }
            }
        },
        Command::Setup => Next::Setup,
    }
}

// ---------------------------------------------------------------------------
// handle
// ---------------------------------------------------------------------------
/// How `handle` goes on with a file once it was looked at.
pub open spec fn after_inspection(
    file: Seq<char>,
    exists: bool,
    header: Option<[u8; 11]>,
) -> ReactionView {
    if !exists {
        failure(plain("err_file_not_exist"@))
    } else if !looks_like_appimage(header, file) {
        failure(plain("err_not_appimage"@))
    } else {
        silently(
            NextView::ConfirmInstall {
                prompt: with_arg("prompt_install"@, "name"@, guessed_name(file)),
            },
        )
    }
}

/// `handle <file>`, invoked by the file manager: the file must exist and look
/// like an AppImage before anything is asked.
pub fn handle(file: &str, exists: bool, header: Option<[u8; 11]>) -> (r: Reaction)
    ensures
        r@ == after_inspection(file@, exists, header),
{
    if !exists {
        return to_failure(
            Message::plain("err_file_not_exist"),
            Message::plain("err_file_not_exist"),
        );
    }
    if !is_appimage(header, file) {
        return to_failure(Message::plain("err_not_appimage"), Message::plain("err_not_appimage"));
    }
    let display: String = display_name_guess(file);
    to_silently(
        Next::ConfirmInstall {
            prompt: Message::with_arg("prompt_install", "name", display.as_str()),
        },
    )
}

/// How `handle` goes on with the user's answer.
pub open spec fn after_install_answer(answer: Result<Answer, KdialogError>) -> ReactionView {
    match answer {
        Ok(Answer::Yes) => silently(NextView::InstallConfirmed),
        Ok(Answer::No) => silently(NextView::Exit { success: true }),
        Err(e) => end(
            EffectView::Warn(with_arg("err_kdialog"@, "err"@, kdialog_error_text(e))),
            false,
        ),
    }
}

/// `handle`, once the user was asked. Without a way to ask, it fails.
pub fn handle_answer(answer: Result<Answer, KdialogError>) -> (r: Reaction)
    ensures
        r@ == after_install_answer(answer),
{
    match answer {
        Ok(Answer::Yes) => to_silently(Next::InstallConfirmed),
        Ok(Answer::No) => to_silently(Next::Exit { success: true }),
        Err(e) => to_end(
            Effect::Warn(Message::with_arg("err_kdialog", "err", e.to_string().as_str())),
            false,
        ),
    }
}

/// How `handle` goes on once the installation is over.
pub open spec fn after_confirmed_install(
    outcome: Result<InstalledApp, InstallError>,
) -> ReactionView {
    match outcome {
        Ok(app) => ReactionView {
            effects: seq![
                EffectView::MessageBox(
                    with_arg("msg_installed_ok"@, "name"@, app.display_name@),
                    opt_string(app.xdg_warning),
                ),
            ],
            next: NextView::Launch { binary: app.binary@ },
        },
        Err(e) => failure(with_arg("err_install_failed"@, "err"@, install_error_text(e))),
    }
}

/// `handle`, once the installation is over: the success message carries the
/// hint on `XDG_DATA_DIRS`, if there is one, and the application is launched.
pub fn handle_installed(outcome: Result<InstalledApp, InstallError>) -> (r: Reaction)
    ensures
        r@ == after_confirmed_install(outcome),
{
    match outcome {
        Ok(app) => {
            let m: Message = Message::with_arg(
                "msg_installed_ok",
                "name",
                app.display_name.as_str(),
            );
            let mut effects: Vec<Effect> = Vec::new();
            effects.push(Effect::MessageBox(m, app.xdg_warning));
            let r: Reaction = Reaction { effects, next: Next::Launch { binary: app.binary } };
            assert(r@ =~= after_confirmed_install(outcome));
            r
        },
        Err(e) => {
            let text: String = e.to_string();
            to_failure(
                Message::with_arg("err_install_failed", "err", text.as_str()),
                Message::with_arg("err_install_failed", "err", text.as_str()),
            )
        },
    }
}

/// How `handle` ends.
pub open spec fn after_launch(outcome: Result<(), IoFailure>) -> ReactionView {
    match outcome {
        Ok(_) => silently(NextView::Exit { success: true }),
        Err(e) => end(
            EffectView::Warn(with_arg("warn_launch_failed"@, "err"@, e.message@)),
            true,
        ),
    }
}

/// `handle`, once the application was launched: a failure to do so is told, and
/// no failure of the command.
pub fn handle_launched(outcome: Result<(), IoFailure>) -> (r: Reaction)
    ensures
        r@ == after_launch(outcome),
{
    match outcome {
        Ok(_) => to_silently(Next::Exit { success: true }),
        Err(e) => to_end(
            Effect::Warn(Message::with_arg("warn_launch_failed", "err", e.message.as_str())),
            true,
        ),
    }
}

// ---------------------------------------------------------------------------
// install
// ---------------------------------------------------------------------------
/// How `install` ends.
pub open spec fn after_silent_install(outcome: Result<InstalledApp, InstallError>) -> ReactionView {
    match outcome {
        Ok(app) => {
            let done = EffectView::Print(
                with_args("msg_installed_cli"@, "name"@, app.display_name@, "bin"@, app.binary@),
            );
            ReactionView {
                effects: match app.xdg_warning {
                    Some(hint) => seq![
                        done,
                        EffectView::WarnApart(with_arg("notice_prefix"@, "warn"@, hint@)),
                    ],
                    None => seq![done],
                },
                next: NextView::Exit { success: true },
            }
        },
        Err(e) => end(
            EffectView::Warn(with_arg("err_prefix"@, "err"@, install_error_text(e))),
            false,
        ),
    }
}

/// `install <file>`, the non-interactive install, once it is over.
pub fn install_silent(outcome: Result<InstalledApp, InstallError>) -> (r: Reaction)
    ensures
        r@ == after_silent_install(outcome),
{
    match outcome {
        Ok(app) => {
            let mut effects: Vec<Effect> = Vec::new();
            effects.push(
                Effect::Print(
                    Message::with_args(
                        "msg_installed_cli",
                        "name",
                        app.display_name.as_str(),
                        "bin",
                        app.binary.as_str(),
                    ),
                ),
            );
            match &app.xdg_warning {
                Some(hint) => {
                    effects.push(
                        Effect::WarnApart(
                            Message::with_arg("notice_prefix", "warn", hint.as_str()),
                        ),
                    );
                },
                None => {},
            }
            let r: Reaction = Reaction { effects, next: Next::Exit { success: true } };
            assert(r@ =~= after_silent_install(outcome));
            r
        },
        Err(e) => to_end(
            Effect::Warn(Message::with_arg("err_prefix", "err", e.to_string().as_str())),
            false,
        ),
    }
}

// ---------------------------------------------------------------------------
// list
// ---------------------------------------------------------------------------
/// The headers of the table.
#[derive(Debug)]
pub struct Headers {
    pub name: String,
    pub display: String,
    pub binary: String,
}

/// What [`Headers`] say.
#[verifier::ext_equal]
pub struct HeadersView {
    pub name: Seq<char>,
    pub display: Seq<char>,
    pub binary: Seq<char>,
}

impl View for Headers {
    type V = HeadersView;

    open spec fn view(&self) -> HeadersView {
        HeadersView { name: self.name@, display: self.display@, binary: self.binary@ }
    }
}

/// The length of the longest text, but no less than `least`.
pub open spec fn widest(ts: Seq<Seq<char>>, least: nat) -> nat
    decreases ts.len(),
{
    if ts.len() == 0 {
        least
    } else if ts.last().len() > widest(ts.drop_last(), least) {
        ts.last().len()
    } else {
        widest(ts.drop_last(), least)
    }
}

/// The names of the applications.
pub open spec fn app_names(apps: Seq<InstalledView>) -> Seq<Seq<char>> {
    apps.map_values(|a: InstalledView| a.name)
}

/// The display names of the applications.
pub open spec fn app_display_names(apps: Seq<InstalledView>) -> Seq<Seq<char>> {
    apps.map_values(|a: InstalledView| a.display_name)
}

/// A row of the table whose first two columns have these widths, in characters.
pub open spec fn table_row(
    name: Seq<char>,
    display: Seq<char>,
    binary: Seq<char>,
    name_width: nat,
    display_width: nat,
) -> Seq<char> {
    padded(name, name_width) + "  "@ + padded(display, display_width) + "  "@ + binary
}

/// The width of the first column.
pub open spec fn name_column(h: HeadersView, apps: Seq<InstalledView>) -> nat {
    widest(app_names(apps), h.name.len())
}

/// The width of the second column.
pub open spec fn display_column(h: HeadersView, apps: Seq<InstalledView>) -> nat {
    widest(app_display_names(apps), h.display.len())
}

/// The rows of the applications.
pub open spec fn app_rows(h: HeadersView, apps: Seq<InstalledView>) -> Seq<Seq<char>> {
    apps.map_values(
        |a: InstalledView|
            table_row(
                a.name,
                a.display_name,
                a.binary,
                name_column(h, apps),
                display_column(h, apps),
            ),
    )
}

/// The rows of the table, the headers first.
pub open spec fn table(h: HeadersView, apps: Seq<InstalledView>) -> Seq<Seq<char>> {
    seq![
        table_row(
            h.name,
            h.display,
            h.binary,
            name_column(h, apps),
            display_column(h, apps),
        ),
    ] + app_rows(h, apps)
}

/// How `list` ends.
pub open spec fn after_listing(
    outcome: Result<Vec<InstalledApp>, IoFailure>,
    h: HeadersView,
) -> ReactionView {
    match outcome {
        Ok(apps) => if apps@.len() == 0 {
            end(EffectView::Print(plain("msg_no_installs"@)), true)
        } else {
            ReactionView {
                effects: table(h, installed_views(apps@)).map_values(
                    |row: Seq<char>| EffectView::PrintText(row),
                ),
                next: NextView::Exit { success: true },
            }
        },
        Err(e) => end(EffectView::Warn(with_arg("err_prefix"@, "err"@, e.message@)), false),
    }
}

fn widest_text(ts: &Vec<Vec<char>>, least: usize) -> (r: usize)
    ensures
        r == widest(char_vecs(ts@), least as nat),
{
    let mut w: usize = least;
    let mut i: usize = 0;
    let ghost all = char_vecs(ts@);
    assert(all.take(0) =~= seq![]);
    while i < ts.len()
        invariant
            i <= ts.len(),
            all == char_vecs(ts@),
            w == widest(all.take(i as int), least as nat),
        decreases ts.len() - i,
    {
        proof {
            assert(all.take(i + 1).drop_last() =~= all.take(i as int));
            assert(all.take(i + 1).last() == ts@[i as int]@);
        }
        if ts[i].len() > w {
            w = ts[i].len();
        }
        i += 1;
    }
    assert(all.take(i as int) =~= all);
    w
}

fn to_table_row(
    name: &str,
    display: &str,
    binary: &str,
    name_width: usize,
    display_width: usize,
) -> (r: String)
    ensures
        r@ == table_row(name@, display@, binary@, name_width as nat, display_width as nat),
{
    let mut out: String = to_padded(name, name_width);
    out.append("  ");
    out.append(to_padded(display, display_width).as_str());
    out.append("  ");
    out.append(binary);
    out
}

/// `list`, once the installed applications are known: a table with aligned
/// columns. Column width is measured in characters.
pub fn list_cmd(outcome: Result<Vec<InstalledApp>, IoFailure>, headers: &Headers) -> (r: Reaction)
    ensures
        r@ == after_listing(outcome, headers@),
{
    let apps: Vec<InstalledApp> = match outcome {
        Ok(apps) => apps,
        Err(e) => {
            return to_end(
                Effect::Warn(Message::with_arg("err_prefix", "err", e.message.as_str())),
                false,
            );
        },
    };
    if apps.len() == 0 {
        return to_end(Effect::Print(Message::plain("msg_no_installs")), true);
    }
    let ghost gv = installed_views(apps@);
    let ghost rows = table(headers@, gv);
    let mut names: Vec<Vec<char>> = Vec::new();
    let mut displays: Vec<Vec<char>> = Vec::new();
    let mut i: usize = 0;
    while i < apps.len()
        invariant
            i <= apps.len(),
            names.len() == i,
            displays.len() == i,
            forall|j: int| 0 <= j < i ==> (#[trigger] names[j])@ == apps[j]@.name,
            forall|j: int| 0 <= j < i ==> (#[trigger] displays[j])@ == apps[j]@.display_name,
        decreases apps.len() - i,
    {
        names.push(to_chars(apps[i].name.as_str()));
        displays.push(to_chars(apps[i].display_name.as_str()));
        i += 1;
    }
    assert(char_vecs(names@) =~= app_names(gv));
    assert(char_vecs(displays@) =~= app_display_names(gv));
    let name_w: usize = widest_text(&names, to_chars(headers.name.as_str()).len());
    let disp_w: usize = widest_text(&displays, to_chars(headers.display.as_str()).len());
    let mut effects: Vec<Effect> = Vec::new();
    effects.push(
        Effect::PrintText(
            to_table_row(
                headers.name.as_str(),
                headers.display.as_str(),
                headers.binary.as_str(),
                name_w,
                disp_w,
            ),
        ),
    );
    let mut k: usize = 0;
    while k < apps.len()
        invariant
            k <= apps.len(),
            gv == installed_views(apps@),
            rows == table(headers@, gv),
            name_w == name_column(headers@, gv),
            disp_w == display_column(headers@, gv),
            effects.len() == k + 1,
            forall|j: int|
                0 <= j < effects.len() ==> (#[trigger] effects[j])@ == EffectView::PrintText(
                    rows[j],
                ),
        decreases apps.len() - k,
    {
        let row: String = to_table_row(
            apps[k].name.as_str(),
            apps[k].display_name.as_str(),
            apps[k].binary.as_str(),
            name_w,
            disp_w,
        );
        assert(row@ == app_rows(headers@, gv)[k as int]);
        assert(rows[k + 1] == app_rows(headers@, gv)[k as int]);
        effects.push(Effect::PrintText(row));
        k += 1;
    }
    let r: Reaction = Reaction { effects, next: Next::Exit { success: true } };
    assert(r@ =~= after_listing(outcome, headers@));
    r
}

pub(crate) proof fn lemma_widest(ts: Seq<Seq<char>>, least: nat)
    ensures
        least <= widest(ts, least),
        forall|i: int| 0 <= i < ts.len() ==> (#[trigger] ts[i]).len() <= widest(ts, least),
    decreases ts.len(),
{
    if ts.len() > 0 {
        let rest = ts.drop_last();
        lemma_widest(rest, least);
        assert forall|i: int| 0 <= i < ts.len() implies (#[trigger] ts[i]).len() <= widest(
            ts,
            least,
        ) by {
            if i < rest.len() {
                assert(ts[i] == rest[i]);
            }
        }
    }
}

/// The columns of the table are aligned: in every row the binary stands at the
/// same place, behind the widest name and the widest display name, and nothing
/// is cut off.
pub proof fn law_table_is_aligned(h: HeadersView, apps: Seq<InstalledView>, i: int)
    requires
        0 <= i < apps.len(),
    ensures
        ({
            let column = (name_column(h, apps) + 2 + display_column(h, apps) + 2) as int;
            let row = table(h, apps)[i + 1];
            &&& table(h, apps).len() == apps.len() + 1
            &&& row.skip(column) == apps[i].binary
            &&& apps[i].name.is_prefix_of(row)
            &&& apps[i].display_name.is_prefix_of(row.skip(name_column(h, apps) + 2int))
            &&& table(h, apps)[0].skip(column) == h.binary
        }),
{
    reveal_strlit("  ");
    let nw = name_column(h, apps);
    let dw = display_column(h, apps);
    lemma_widest(app_names(apps), h.name.len());
    lemma_widest(app_display_names(apps), h.display.len());
    let a = apps[i];
    assert(app_names(apps)[i] == a.name);
    assert(app_display_names(apps)[i] == a.display_name);
    let row = table(h, apps)[i + 1];
    assert(row == app_rows(h, apps)[i]);
    assert(padded(a.name, nw).len() == nw);
    assert(padded(a.display_name, dw).len() == dw);
    assert(row.skip((nw + 2 + dw + 2) as int) =~= a.binary);
    assert(row.take(a.name.len() as int) =~= a.name);
    assert(row.skip(nw + 2int).take(a.display_name.len() as int) =~= a.display_name);
    assert(padded(h.name, nw).len() == nw);
    assert(padded(h.display, dw).len() == dw);
    assert(table(h, apps)[0].skip((nw + 2 + dw + 2) as int) =~= h.binary);
}

// ---------------------------------------------------------------------------
// uninstall
// ---------------------------------------------------------------------------
/// How `uninstall` goes on with the user's answer.
pub open spec fn after_uninstall_answer(answer: Result<Answer, KdialogError>) -> ReactionView {
    match answer {
        Ok(Answer::No) => silently(NextView::Exit { success: true }),
        _ => silently(NextView::Uninstall),
    }
}

/// `uninstall`, once the user was asked. Without a way to ask, it proceeds.
pub fn uninstall_answer(answer: Result<Answer, KdialogError>) -> (r: Reaction)
    ensures
        r@ == after_uninstall_answer(answer),
{
    match answer {
        Ok(Answer::No) => to_silently(Next::Exit { success: true }),
        Ok(Answer::Yes) => to_silently(Next::Uninstall),
        Err(_) => to_silently(Next::Uninstall),
    }
}

/// How `uninstall` ends. The outcome tells whether there was such an install.
pub open spec fn after_uninstall(
    name: Seq<char>,
    outcome: Result<bool, InstallError>,
) -> ReactionView {
    match outcome {
        Ok(removed) => if removed {
            ReactionView {
                effects: seq![
                    EffectView::MessageBox(with_arg("msg_removed"@, "name"@, name), None),
                    EffectView::Print(with_arg("msg_removed_cli"@, "name"@, name)),
                ],
                next: NextView::Exit { success: true },
            }
        } else {
            failure(with_arg("err_not_found"@, "name"@, name))
        },
        Err(e) => failure(with_arg("err_uninstall_failed"@, "err"@, install_error_text(e))),
    }
}

/// `uninstall`, once it is over.
pub fn uninstall_cmd(name: &str, outcome: Result<bool, InstallError>) -> (r: Reaction)
    ensures
        r@ == after_uninstall(name@, outcome),
{
    match outcome {
        Ok(removed) => {
            if removed {
                let mut effects: Vec<Effect> = Vec::new();
                effects.push(
                    Effect::MessageBox(Message::with_arg("msg_removed", "name", name), None),
                );
                effects.push(Effect::Print(Message::with_arg("msg_removed_cli", "name", name)));
                let r: Reaction = Reaction { effects, next: Next::Exit { success: true } };
                assert(r@ =~= after_uninstall(name@, outcome));
                r
            } else {
                to_failure(
                    Message::with_arg("err_not_found", "name", name),
                    Message::with_arg("err_not_found", "name", name),
                )
            }
        },
        Err(e) => {
            let text: String = e.to_string();
            to_failure(
                Message::with_arg("err_uninstall_failed", "err", text.as_str()),
                Message::with_arg("err_uninstall_failed", "err", text.as_str()),
            )
        },
    }
}

// ---------------------------------------------------------------------------
// setup
// ---------------------------------------------------------------------------
/// A line that lists some texts, if there are any.
pub open spec fn listed_line(key: Seq<char>, ts: Seq<Seq<char>>) -> Seq<EffectView> {
    if ts.len() == 0 {
        seq![]
    } else {
        seq![EffectView::Print(with_arg(key, "list"@, join(ts, ", "@)))]
    }
}

/// How `setup` ends.
pub open spec fn after_setup(outcome: Result<SetupReport, IoFailure>) -> ReactionView {
    match outcome {
        Ok(report) => ReactionView {
            effects: seq![
                EffectView::Print(
                    with_arg("setup_handler"@, "path"@, report.handler_desktop@),
                ),
                EffectView::Print(with_arg("setup_binary"@, "path"@, report.binary@)),
            ] + listed_line("setup_mime_registered"@, texts(report.registered@)) + listed_line(
                "setup_mime_failed"@,
                texts(report.failed@),
            ) + listed_line("setup_purged"@, texts(report.purged@)) + seq![
                EffectView::Print(plain("setup_done"@)),
            ],
            next: NextView::Exit { success: true },
        },
        Err(e) => end(EffectView::Warn(with_arg("err_setup_failed"@, "err"@, e.message@)), false),
    }
}

fn append_listed_line(effects: &mut Vec<Effect>, key: &str, ts: &Vec<String>)
    ensures
        effect_views(final(effects)@) == effect_views(old(effects)@) + listed_line(
            key@,
            texts(ts@),
        ),
{
    assert(texts(ts@).len() == ts.len());
    let ghost before = effects@;
    if ts.len() > 0 {
        let line: Effect = Effect::Print(
            Message::with_arg(key, "list", joined(ts, ", ").as_str()),
        );
        effects.push(line);
        assert(effect_views(effects@) =~= effect_views(before) + seq![line@]);
    } else {
        assert(effect_views(effects@) =~= effect_views(before) + Seq::<EffectView>::empty());
    }
}

/// `setup`, once it is over: what was written, registered and purged.
pub fn setup_cmd(outcome: Result<SetupReport, IoFailure>) -> (r: Reaction)
    ensures
        r@ == after_setup(outcome),
{
    match outcome {
        Ok(report) => {
            let mut effects: Vec<Effect> = Vec::new();
            let handler: Effect = Effect::Print(
                Message::with_arg("setup_handler", "path", report.handler_desktop.as_str()),
            );
            let binary: Effect = Effect::Print(
                Message::with_arg("setup_binary", "path", report.binary.as_str()),
            );
            effects.push(handler);
            effects.push(binary);
            assert(effect_views(effects@) =~= seq![handler@, binary@]);
            append_listed_line(&mut effects, "setup_mime_registered", &report.registered);
            append_listed_line(&mut effects, "setup_mime_failed", &report.failed);
            append_listed_line(&mut effects, "setup_purged", &report.purged);
            let ghost before = effects@;
            let done: Effect = Effect::Print(Message::plain("setup_done"));
            effects.push(done);
            assert(effect_views(effects@) =~= effect_views(before) + seq![done@]);
            let r: Reaction = Reaction { effects, next: Next::Exit { success: true } };
            assert(r@ =~= after_setup(outcome));
            r
        },
        Err(e) => to_end(
            Effect::Warn(Message::with_arg("err_setup_failed", "err", e.message.as_str())),
            false,
        ),
    }
}

// ---------------------------------------------------------------------------
// The whole of a command
// ---------------------------------------------------------------------------
/// What a step came to.
#[derive(Debug)]
pub enum Event {
    Inspected { exists: bool, header: Option<[u8; 11]> },
    Answered(Result<Answer, KdialogError>),
    Installed(Result<InstalledApp, InstallError>),
    Launched(Result<(), IoFailure>),
    Listed(Result<Vec<InstalledApp>, IoFailure>),
    Uninstalled(Result<bool, InstallError>),
    SetUp(Result<SetupReport, IoFailure>),
}

/// How a command on `subject`, a file or a name, goes on from a step by what it
/// came to. None where the step does not come to such a thing.
pub open spec fn transition(
    subject: Seq<char>,
    h: HeadersView,
    next: NextView,
    event: Event,
) -> Option<ReactionView> {
    match (next, event) {
        (NextView::Inspect, Event::Inspected { exists, header }) => Some(
            after_inspection(subject, exists, header),
        ),
        (NextView::ConfirmInstall { .. }, Event::Answered(a)) => Some(after_install_answer(a)),
        (NextView::InstallConfirmed, Event::Installed(o)) => Some(after_confirmed_install(o)),
        (NextView::InstallSilently, Event::Installed(o)) => Some(after_silent_install(o)),
        (NextView::Launch { .. }, Event::Launched(o)) => Some(after_launch(o)),
        (NextView::List, Event::Listed(o)) => Some(after_listing(o, h)),
        (NextView::ConfirmUninstall { .. }, Event::Answered(a)) => Some(after_uninstall_answer(a)),
        (NextView::Uninstall, Event::Uninstalled(o)) => Some(after_uninstall(subject, o)),
        (NextView::Setup, Event::SetUp(o)) => Some(after_setup(o)),
        _ => None,
    }
}

/// How a command on `subject`, a file or a name, goes on from the step `next` by
/// what it came to. `None` where the step does not come to such a thing.
pub fn react(subject: &str, headers: &Headers, next: &Next, event: Event) -> (r: Option<Reaction>)
    ensures
        match r {
            Some(reaction) => transition(subject@, headers@, next@, event) == Some(reaction@),
            None => transition(subject@, headers@, next@, event) is None,
        },
{
    match event {
        Event::Inspected { exists, header } => match next {
            Next::Inspect => Some(handle(subject, exists, header)),
            _ => None,
        },
        Event::Answered(answer) => match next {
            Next::ConfirmInstall { prompt: _ } => Some(handle_answer(answer)),
            Next::ConfirmUninstall { prompt: _ } => Some(uninstall_answer(answer)),
            _ => None,
        },
        Event::Installed(outcome) => match next {
            Next::InstallConfirmed => Some(handle_installed(outcome)),
            Next::InstallSilently => Some(install_silent(outcome)),
            _ => None,
        },
        Event::Launched(outcome) => match next {
            Next::Launch { binary: _ } => Some(handle_launched(outcome)),
            _ => None,
        },
        Event::Listed(outcome) => match next {
            Next::List => Some(list_cmd(outcome, headers)),
            _ => None,
        },
        Event::Uninstalled(outcome) => match next {
            Next::Uninstall => Some(uninstall_cmd(subject, outcome)),
            _ => None,
        },
        Event::SetUp(outcome) => match next {
            Next::Setup => Some(setup_cmd(outcome)),
            _ => None,
        },
    }
}

/// A file that is opened is installed only where the user was asked and said
/// yes, which they are only for what looks like an AppImage; it is launched
/// only once it is installed. An application is removed only where `--yes` was
/// given or the user did not say no.
pub proof fn law_nothing_happens_unasked(
    subject: Seq<char>,
    h: HeadersView,
    next: NextView,
    event: Event,
)
    ensures
        transition(subject, h, next, event) matches Some(r) ==> {
            &&& r.next is InstallConfirmed ==> next is ConfirmInstall && event == Event::Answered(
                Ok(Answer::Yes),
            )
            &&& r.next is ConfirmInstall ==> next is Inspect && (event matches Event::Inspected {
                exists,
                header,
            } && exists && looks_like_appimage(header, subject))
            &&& r.next is Launch ==> next is InstallConfirmed && (event matches Event::Installed(
                Ok(app),
            ) && r.next == (NextView::Launch { binary: app.binary@ }))
            &&& r.next is Uninstall ==> next is ConfirmUninstall && event != Event::Answered(
                Ok(Answer::No),
            )
            &&& !(r.next is InstallSilently) && !(r.next is ConfirmUninstall) && !(r.next is Inspect)
        },
        forall|command: Command|
            #![trigger start(command)]
            start(command) is Uninstall ==> (command matches Command::Uninstall { name, yes }
                && yes),
        forall|command: Command|
            #![trigger start(command)]
            !(start(command) is InstallConfirmed) && !(start(command) is Launch),
{
}

/// A user who says no is taken at their word: the command ends there, in
/// success, and nothing more is said.
pub proof fn law_a_refusal_ends_the_command(subject: Seq<char>, h: HeadersView, next: NextView)
    requires
        next is ConfirmInstall || next is ConfirmUninstall,
    ensures
        transition(subject, h, next, Event::Answered(Ok(Answer::No))) == Some(
            silently(NextView::Exit { success: true }),
        ),
{
}

/// How many steps a command can still take.
pub open spec fn steps_left(next: NextView) -> nat {
    match next {
        NextView::Inspect => 4,
        NextView::ConfirmInstall { .. } => 3,
        NextView::InstallConfirmed => 2,
        NextView::ConfirmUninstall { .. } => 2,
        NextView::Exit { .. } => 0,
        _ => 1,
    }
}

/// Every command comes to an end.
pub proof fn law_commands_end(subject: Seq<char>, h: HeadersView, next: NextView, event: Event)
    ensures
        transition(subject, h, next, event) matches Some(r) ==> steps_left(r.next) < steps_left(
            next,
        ),
        steps_left(next) == 0 <==> next is Exit,
{
}

} // verus!
