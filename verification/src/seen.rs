//! The plain values that contracts speak of hold what the fields of the same name hold.

use vstd::prelude::*;

use crate::cleanup_window::{Prompt, PromptView};
use crate::clip::{ClipContext, ClipPayload, ClipRecord, PayloadView};
use crate::dib::{DecodedImage, PngImage};
use crate::item::{ClipItem, ClipSummary};
use crate::ranking;
use crate::session::{HotkeyStep, HotkeyStepView};
use crate::settings::Settings;
use crate::settings_window::SettingsForm;
use crate::store;
use crate::store::{MachineTab, PayloadSource, SourceView, StepView, WriteStep};
use crate::text;

verus! {

/// A clip and the row it shows as.
pub proof fn law_clip_is_seen_field_by_field(clip: ClipItem, row: ClipSummary)
    ensures
        clip@.stem == clip.stem@,
        clip@.at == clip.at,
        clip@.machine == clip.machine@,
        clip@.kind == clip.kind,
        clip@.hash == clip.hash@,
        clip@.db_path == clip.db_path@,
        clip@.text == clip.text@,
        clip@.has_blob == clip.has_blob,
        clip@.blob_path == clip.blob_path@,
        clip@.pinned == clip.pinned,
        clip@.preview == clip.preview@,
        clip@.meta == clip.meta@,
        clip@.app == clip.app@,
        clip@.title == clip.title@,
        clip@.time == clip.time@,
        clip@.who == clip.who@,
        row@.stem == row.stem@,
        row@.preview == row.preview@,
        row@.meta == row.meta@,
        row@.pinned == row.pinned,
{
}

/// A record, and the window a copy came out of.
pub proof fn law_record_is_seen_field_by_field(record: ClipRecord, context: ClipContext)
    ensures
        record@.id == record.id@,
        record@.at == record.at,
        record@.machine == record.machine@,
        record@.kind == record.kind@,
        record@.hash == record.hash@,
        record.text matches Some(s) ==> record@.text == Some(s@),
        record.text is None ==> record@.text is None,
        record@.length == record.length,
        record.blob matches Some(s) ==> record@.blob == Some(s@),
        record.blob is None ==> record@.blob is None,
        record@.app == record.app@,
        record@.title == record.title@,
        store::context_view(context).app == context.app@,
        store::context_view(context).title == context.title@,
{
}

/// The settings.
pub proof fn law_settings_are_seen_field_by_field(s: Settings)
    ensures
        s@.hotkey == s.hotkey@,
        s@.max_blob_bytes == s.max_blob_bytes,
        s@.inline_text_limit == s.inline_text_limit,
        s@.rescan_seconds == s.rescan_seconds,
        s@.settings_scale == s.settings_scale,
        s@.popup_position == s.popup_position,
        s@.popup_size == s.popup_size,
        s@.capture_text == s.capture_text,
        s@.capture_images == s.capture_images,
        s@.capture_files == s.capture_files,
        s@.write_blobs == s.write_blobs,
        s@.retention_days == s.retention_days,
        s.sync_root_override matches Some(path) ==> s@.sync_root_override == Some(path@),
        s.sync_root_override is None ==> s@.sync_root_override is None,
        s@.app_dir == s.app_dir@,
        s@.sync_root == s.sync_root@,
        s@.machine_id == s.machine_id@,
{
}

/// The form of the settings window.
pub proof fn law_form_is_seen_field_by_field(form: SettingsForm)
    ensures
        form@.hotkey == form.hotkey@,
        form@.sync_root == form.sync_root@,
        form@.retention == form.retention@,
        form@.max_blob_mb == form.max_blob_mb@,
        form@.inline_limit == form.inline_limit@,
        form@.rescan == form.rescan@,
        form@.scale == form.scale@,
        form@.capture_text == form.capture_text,
        form@.capture_images == form.capture_images,
        form@.capture_files == form.capture_files,
        form@.write_blobs == form.write_blobs,
{
}

/// Images, decoded and as files hold them.
pub proof fn law_image_is_seen_field_by_field(image: DecodedImage, file: PngImage)
    ensures
        image@.width == image.width,
        image@.height == image.height,
        image@.rgba == image.rgba@,
        file@.width == file.width,
        file@.height == file.height,
        file@.color == file.color,
        file@.pixels == file.pixels@,
{
}

/// What was copied.
pub proof fn law_payload_is_seen_as_it_is(payload: ClipPayload)
    ensures
        match payload {
            ClipPayload::Text(s) => payload@ == PayloadView::Text(s@),
            ClipPayload::Files(paths) => payload@ matches PayloadView::Files(list) && list.len()
                == paths@.len() && forall|i: int|
                0 <= i < list.len() ==> #[trigger] list[i] == paths@[i]@,
            ClipPayload::Image(file) => payload@ == PayloadView::Image(file@),
        },
{
}

/// What is to be done, asked or registered, and a tab of the strip.
pub proof fn law_steps_are_seen_as_they_are(
    step: WriteStep,
    source: PayloadSource,
    hotkey: HotkeyStep,
    prompt: Prompt,
    tab: MachineTab,
)
    ensures
        match step {
            WriteStep::CreateFolder(folder) => step@ == StepView::CreateFolder(folder@),
            WriteStep::WriteBlob(path, body) => step@ == StepView::WriteBlob(path@, body@),
            WriteStep::InsertRow(path, record) => step@ == StepView::InsertRow(path@, record@),
        },
        match source {
            PayloadSource::Missing => source@ is Missing,
            PayloadSource::Ready(payload) => source@ == SourceView::Ready(payload@),
            PayloadSource::ImageBlob(path) => source@ == SourceView::ImageBlob(path@),
            PayloadSource::TextBlob(path) => source@ == SourceView::TextBlob(path@),
        },
        match hotkey {
            HotkeyStep::Nothing => hotkey@ is Nothing,
            HotkeyStep::Unusable(message) => hotkey@ == HotkeyStepView::Unusable(message@),
            HotkeyStep::Register { window, modifiers, vk } => hotkey@
                == (HotkeyStepView::Register { window, modifiers, vk }),
        },
        match prompt {
            Prompt::Nothing(said) => prompt@ == PromptView::Nothing(said@),
            Prompt::Ask { summary, question } => prompt@ == (PromptView::Ask {
                summary: summary@,
                question: question@,
            }),
        },
        tab@.label == tab.label@,
        tab.id matches Some(id) ==> tab@.id == Some(id@),
        tab.id is None ==> tab@.id is None,
{
}

/// A list is seen item by item, in its order.
pub proof fn law_lists_are_seen_in_order(clips: Seq<ClipItem>, strings: Seq<String>, i: int)
    ensures
        ranking::item_views(clips).len() == clips.len(),
        text::views(strings).len() == strings.len(),
        0 <= i < clips.len() ==> ranking::item_views(clips)[i] == clips[i]@,
        0 <= i < strings.len() ==> text::views(strings)[i] == strings[i]@,
{
}

} // verus!
