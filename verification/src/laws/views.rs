//! What the values of the library say is what they hold.
use vstd::prelude::*;
use vstd::std_specs::convert::FromSpec;

use crate::appimage::AppImageError;
use crate::commands::{effect_views, Effect, EffectView, Headers, Next, NextView, Reaction};
use crate::desktop::{opt_text, pairs, DesktopEntry};
use crate::failure::IoFailure;
use crate::i18n::str_texts;
use crate::installer::{dir_views, failure_texts, installed_views, DirFile, Dirs, InstallError,
    InstalledApp};
use crate::kdialog::KdialogError;
use crate::messages::{message_views, opt_message, Message};
use crate::metadata::{desktop_result, icon_views, opt_bytes, request_views, text_result,
    AppImageMetadata, Icon, IconRequest, MetadataError};
use crate::mime::error_text;
use crate::paths::{char_vecs, opt_chars};
use crate::registry::{entry_views, opt_entry, opt_entry_ref, Entry};
use crate::text::{opt_string, texts};

verus! {

/// An entry says every pair of its main group and of its other groups, in their
/// order.
pub proof fn law_desktop_view(d: DesktopEntry, i: int, j: int)
    ensures
        d@.keys.len() == d.keys@.len(),
        0 <= i < d.keys@.len() ==> d@.keys[i] == (d.keys@[i].0@, d.keys@[i].1@),
        d@.groups.len() == d.groups@.len(),
        0 <= i < d.groups@.len() ==> {
            &&& d@.groups[i].name == d.groups@[i].name@
            &&& d@.groups[i].keys.len() == d.groups@[i].keys@.len()
            &&& 0 <= j < d.groups@[i].keys@.len() ==> d@.groups[i].keys[j] == (
                d.groups@[i].keys@[j].0@,
                d.groups@[i].keys@[j].1@,
            )
        },
{
}

/// Metadata say the entry, every icon with its size and its bytes, and the
/// fallback icon.
pub proof fn law_metadata_view(m: AppImageMetadata, i: int, q: IconRequest)
    ensures
        m@.desktop == m.desktop@,
        m@.icons.len() == m.icons@.len(),
        0 <= i < m.icons@.len() ==> m@.icons[i].size == m.icons@[i].size && m@.icons[i].png
            == m.icons@[i].png@,
        m.dir_icon is None <==> m@.dir_icon is None,
        m.dir_icon matches Some(png) ==> m@.dir_icon == Some(png@),
        q@ == (q.size, q.path@),
{
}

/// A record says all its fields, and so does an installed application.
pub proof fn law_record_view(e: Entry, app: InstalledApp, dirs: Dirs, f: DirFile)
    ensures
        e@.name == e.name@,
        e@.display_name == e.display_name@,
        e@.binary == e.binary@,
        e@.desktop == e.desktop@,
        e@.icon == e.icon@,
        e@.source == e.source@,
        app@.name == app.name@,
        app@.display_name == app.display_name@,
        app@.binary == app.binary@,
        app@.desktop == app.desktop@,
        app.xdg_warning is None <==> app@.xdg_warning is None,
        app.xdg_warning matches Some(hint) ==> app@.xdg_warning == Some(hint@),
        dirs@.bin == dirs.bin@,
        dirs@.applications == dirs.applications@,
        f@.path == f.path@,
        f@.file_name == f.file_name@,
        f.content is None <==> f@.content is None,
        f.content matches Some(content) ==> f@.content == Some(content@),
{
}

/// A list says each of its items, in their order.
pub proof fn law_list_views(
    strings: Seq<String>,
    strs: Seq<&str>,
    chars: Seq<Vec<char>>,
    entries: Seq<Entry>,
    apps: Seq<InstalledApp>,
    files: Seq<DirFile>,
    icons: Seq<Icon>,
    requests: Seq<IconRequest>,
    messages: Seq<Message>,
    i: int,
)
    ensures
        texts(strings).len() == strings.len(),
        0 <= i < strings.len() ==> texts(strings)[i] == strings[i]@,
        str_texts(strs).len() == strs.len(),
        0 <= i < strs.len() ==> str_texts(strs)[i] == strs[i]@,
        char_vecs(chars).len() == chars.len(),
        0 <= i < chars.len() ==> char_vecs(chars)[i] == chars[i]@,
        entry_views(entries).len() == entries.len(),
        0 <= i < entries.len() ==> entry_views(entries)[i] == entries[i]@,
        installed_views(apps).len() == apps.len(),
        0 <= i < apps.len() ==> installed_views(apps)[i] == apps[i]@,
        dir_views(files).len() == files.len(),
        0 <= i < files.len() ==> dir_views(files)[i] == files[i]@,
        icon_views(icons).len() == icons.len(),
        0 <= i < icons.len() ==> icon_views(icons)[i] == icons[i]@,
        request_views(requests).len() == requests.len(),
        0 <= i < requests.len() ==> request_views(requests)[i] == requests[i]@,
        message_views(messages).len() == messages.len(),
        0 <= i < messages.len() ==> message_views(messages)[i] == messages[i]@,
{
}

/// What may be there says what it is where it is there, and nothing where it is
/// not; a result says its value or its error.
pub proof fn law_optional_views(
    string: String,
    str: &str,
    chars: Vec<char>,
    bytes: Vec<u8>,
    entry: Entry,
    message: Message,
    desktop: DesktopEntry,
    error: MetadataError,
    failure: (String, String),
)
    ensures
        opt_string(Some(string)) == Some(string@),
        opt_string(None) is None,
        opt_text(Some(str)) == Some(str@),
        opt_text(None) is None,
        opt_chars(Some(chars)) == Some(chars@),
        opt_chars(None) is None,
        opt_bytes(Some(bytes)) == Some(bytes@),
        opt_bytes(None) is None,
        opt_entry(Some(entry)) == Some(entry@),
        opt_entry(None) is None,
        opt_entry_ref(Some(&entry)) == Some(entry@),
        opt_entry_ref(None) is None,
        opt_message(Some(message)) == Some(message@),
        opt_message(None) is None,
        text_result(Ok(string)) == Ok::<Seq<char>, crate::metadata::MetadataErrorView>(string@),
        text_result(Err(error)) == Err::<Seq<char>, crate::metadata::MetadataErrorView>(error@),
        desktop_result(Ok(desktop)) is Ok && desktop_result(Ok(desktop))->Ok_0 == desktop@,
        desktop_result(Err(error)) is Err && desktop_result(Err(error))->Err_0 == error@,
        failure_texts(Ok(())) is None,
        failure_texts(Err(failure)) == Some((failure.0@, failure.1@)),
        error_text(Ok(())) is None,
        error_text(Err(string)) == Some(string@),
{
}

/// A message says its key and the values of its placeholders; an effect says its
/// message, and a reaction its effects and what comes next.
pub proof fn law_message_view(
    m: Message,
    headers: Headers,
    r: Reaction,
    i: int,
    hint: Option<String>,
    text: String,
)
    ensures
        m@.key == m.key@,
        m@.args == pairs(m.args@),
        headers@.name == headers.name@,
        headers@.display == headers.display@,
        headers@.binary == headers.binary@,
        r@.next == r.next@,
        r@.effects == effect_views(r.effects@),
        effect_views(r.effects@).len() == r.effects@.len(),
        0 <= i < r.effects@.len() ==> r@.effects[i] == r.effects@[i]@,
        Effect::Print(m)@ == EffectView::Print(m@),
        Effect::PrintText(text)@ == EffectView::PrintText(text@),
        Effect::Warn(m)@ == EffectView::Warn(m@),
        Effect::WarnApart(m)@ == EffectView::WarnApart(m@),
        Effect::ErrorBox(m)@ == EffectView::ErrorBox(m@),
        Effect::MessageBox(m, hint)@ == EffectView::MessageBox(m@, opt_string(hint)),
        (Next::Launch { binary: text })@ == (NextView::Launch { binary: text@ }),
        (Next::ConfirmInstall { prompt: m })@ == (NextView::ConfirmInstall { prompt: m@ }),
        (Next::ConfirmUninstall { prompt: m })@ == (NextView::ConfirmUninstall { prompt: m@ }),
{
}

/// A failure of the system becomes the error of whatever met it: a thing that is
/// not there is told apart, and any other failure is kept with its words.
pub proof fn law_failures(e: IoFailure, a: AppImageError, m: MetadataError)
    ensures
        <AppImageError as FromSpec<IoFailure>>::from_spec(e) == (if e.not_found {
            AppImageError::NotFound
        } else {
            AppImageError::Io(e)
        }),
        <MetadataError as FromSpec<IoFailure>>::from_spec(e) == (if e.not_found {
            MetadataError::UnsquashfsNotFound
        } else {
            MetadataError::Io(e)
        }),
        <KdialogError as FromSpec<IoFailure>>::from_spec(e) == (if e.not_found {
            KdialogError::NotFound
        } else {
            KdialogError::Io(e)
        }),
        <InstallError as FromSpec<IoFailure>>::from_spec(e) == InstallError::Io(e),
        <InstallError as FromSpec<AppImageError>>::from_spec(a) == InstallError::AppImage(a),
        <InstallError as FromSpec<MetadataError>>::from_spec(m) == InstallError::Metadata(m),
{
}

} // verus!
