//! Every machine keeps to its own folder: what makes a sync conflict impossible
//! without a lock, a protocol or a server.

use vstd::prelude::*;

use crate::clip::PayloadView;
use crate::paths;
use crate::readback;
use crate::settings::SettingsView;
use crate::store;
use crate::store::{ContextView, StepView};
use crate::text;

verus! {

/// The file or folder a step writes.
pub open spec fn step_path(step: StepView) -> Seq<char> {
    match step {
        StepView::CreateFolder(folder) => folder,
        StepView::WriteBlob(path, _) => path,
        StepView::InsertRow(path, _) => path,
    }
}

/// A machine's own folder.
pub open spec fn home(config: SettingsView) -> Seq<char> {
    paths::joined(config.sync_root, config.machine_id)
}

/// What stands before a name that is put into a folder.
spec fn base(folder: Seq<char>) -> Seq<char> {
    if folder.len() == 0 || paths::is_sep(folder.last()) || (paths::has_drive(folder)
        && folder.len() == 2) {
        folder
    } else {
        folder.push('\\')
    }
}

proof fn lemma_joined(folder: Seq<char>, name: Seq<char>)
    requires
        readback::plain_name(name),
    ensures
        paths::joined(folder, name) == base(folder) + name,
        paths::joined(folder, name).len() > 0,
        paths::joined(folder, name).last() == name.last(),
        base(paths::joined(folder, name)) == paths::joined(folder, name).push('\\'),
{
    let s = paths::joined(folder, name);
    assert(!paths::is_sep(name[0]));
    if name.len() >= 2 {
        assert(name[1] != ':');
    }
    assert(s =~= base(folder) + name);
    let last = name[name.len() - 1];
    assert(!paths::is_sep(last) && last != ':');
    assert(s.last() == last);
    if s.len() == 2 {
        assert(s[1] == last);
    }
}

/// Everything a capture writes lies in this machine's own folder.
pub proof fn law_writes_stay_home(
    payload: PayloadView,
    context: ContextView,
    now: i64,
    month: Seq<char>,
    stem: Seq<char>,
    config: SettingsView,
    i: int,
)
    requires
        readback::plain_name(config.machine_id),
        readback::plain_name(month),
        readback::plain_name(stem),
        0 <= i < store::write_steps(payload, context, now, month, stem, config).len(),
    ensures
        text::starts_with(
            step_path(store::write_steps(payload, context, now, month, stem, config)[i]),
            home(config).push('\\'),
        ),
{
    let own = home(config);
    let folder = store::month_folder(config, month);
    lemma_joined(config.sync_root, config.machine_id);
    lemma_joined(own, month);
    assert(folder =~= own.push('\\') + month);
    assert(folder.take(own.len() as int + 1) =~= own.push('\\'));
    reveal_strlit("clips.db");
    reveal_strlit(".bin");
    let blob = stem + store::BIN_SUFFIX@;
    assert(readback::plain_name(blob)) by {
        assert forall|k: int| 0 <= k < blob.len() implies !paths::is_sep(#[trigger] blob[k])
            && blob[k] != ':' by {
            if k < stem.len() {
                assert(blob[k] == stem[k]);
            } else {
                assert(blob[k] == ".bin"@[k - stem.len()]);
            }
        }
    }
    lemma_joined(folder, store::DB_NAME@);
    lemma_joined(folder, blob);
    let db = paths::joined(folder, store::DB_NAME@);
    let beside = paths::joined(folder, blob);
    assert(db.take(own.len() as int + 1) =~= own.push('\\'));
    assert(beside.take(own.len() as int + 1) =~= own.push('\\'));
}

/// Two machines that share a folder never write the same file, whatever they
/// capture and whenever they do.
pub proof fn law_machines_write_apart(
    payload: PayloadView,
    context: ContextView,
    now: i64,
    month: Seq<char>,
    stem: Seq<char>,
    ours: SettingsView,
    i: int,
    their_payload: PayloadView,
    their_context: ContextView,
    their_now: i64,
    their_month: Seq<char>,
    their_stem: Seq<char>,
    theirs: SettingsView,
    j: int,
)
    requires
        ours.sync_root == theirs.sync_root,
        ours.machine_id != theirs.machine_id,
        readback::plain_name(ours.machine_id),
        readback::plain_name(theirs.machine_id),
        readback::plain_name(month),
        readback::plain_name(their_month),
        readback::plain_name(stem),
        readback::plain_name(their_stem),
        0 <= i < store::write_steps(payload, context, now, month, stem, ours).len(),
        0 <= j < store::write_steps(
            their_payload,
            their_context,
            their_now,
            their_month,
            their_stem,
            theirs,
        ).len(),
    ensures
        step_path(store::write_steps(payload, context, now, month, stem, ours)[i]) != step_path(
            store::write_steps(
                their_payload,
                their_context,
                their_now,
                their_month,
                their_stem,
                theirs,
            )[j],
        ),
{
    law_writes_stay_home(payload, context, now, month, stem, ours, i);
    law_writes_stay_home(
        their_payload,
        their_context,
        their_now,
        their_month,
        their_stem,
        theirs,
        j,
    );
    lemma_homes_apart(
        ours,
        theirs,
        step_path(store::write_steps(payload, context, now, month, stem, ours)[i]),
        step_path(
            store::write_steps(
                their_payload,
                their_context,
                their_now,
                their_month,
                their_stem,
                theirs,
            )[j],
        ),
    );
}

/// No path lies in the folders of two machines.
proof fn lemma_homes_apart(
    ours: SettingsView,
    theirs: SettingsView,
    path: Seq<char>,
    other: Seq<char>,
)
    requires
        ours.sync_root == theirs.sync_root,
        readback::plain_name(ours.machine_id),
        readback::plain_name(theirs.machine_id),
        ours.machine_id != theirs.machine_id,
        text::starts_with(path, home(ours).push('\\')),
        text::starts_with(other, home(theirs).push('\\')),
    ensures
        path != other,
{
    let a = ours.machine_id;
    let b = theirs.machine_id;
    let n = base(ours.sync_root).len() as int;
    lemma_joined(ours.sync_root, a);
    lemma_joined(theirs.sync_root, b);
    let one = home(ours).push('\\');
    let two = home(theirs).push('\\');
    if path == other {
        assert forall|i: int| 0 <= i < one.len() implies path[i] == one[i] by {
            assert(path.take(one.len() as int)[i] == one[i]);
        }
        assert forall|i: int| 0 <= i < two.len() implies path[i] == two[i] by {
            assert(path.take(two.len() as int)[i] == two[i]);
        }
        if a.len() < b.len() {
            assert(path[n + a.len()] == '\\');
            assert(path[n + a.len()] == b[a.len() as int]);
        } else if b.len() < a.len() {
            assert(path[n + b.len()] == '\\');
            assert(path[n + b.len()] == a[b.len() as int]);
        } else {
            assert forall|i: int| 0 <= i < a.len() implies a[i] == b[i] by {
                assert(path[n + i] == a[i] && path[n + i] == b[i]);
            }
            assert(a =~= b);
        }
    }
}

} // verus!
