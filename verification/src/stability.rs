//! What holds of a secret file while it is published.
//!
//! Between any two steps of publishing other processes may change the disk, within what each law
//! says.

use crate::disk::{
    created, is_alone, is_kept, is_only_name, is_same, is_whole, overwritten, publish_performed,
    publish_succeeds, write_fails, write_succeeds, Disk, Moment, StoredFile,
};
use crate::file_provider::is_owner_only;
use crate::hexadecimal::hex_text;
use crate::paths::{
    a_plain_path_has_a_clear_extension, directory_of, has_clear_extension, is_plain_path,
    last_place, last_place_is_last, last_separator_is_last, names_a_file, without_extension,
};
use crate::publish::{
    begins_to_publish, is_directory_of, is_temporary_of, publish_start,
    publishing_begins_with_the_directory, temporary_extension, temporary_names_differ,
    the_temporary_file_is_beside_its_file, the_temporary_file_of_a_plain_path_is_plain,
    ClaimOutcomeView, LinkOutcomeView, PublicationView, PublishView, SecretFileView,
    WriteSecretView, SECRET_FILE_MODE,
};
use vstd::prelude::*;

verus! {

/// What is published where, and by which process.
pub struct Task {
    pub path: Seq<char>,
    pub process: u32,
    pub contents: Seq<char>,
}

impl Task {
    /// Whether `publication` publishes that.
    pub open spec fn is_for(self, publication: PublicationView) -> bool {
        &&& publication.path == self.path
        &&& publication.process == self.process
        &&& is_temporary_of(
            self.path,
            self.process as nat,
            publication.attempt as nat,
            publication.temporary,
        )
    }

    /// The temporary file and what it is to hold.
    pub open spec fn file(self, publication: PublicationView) -> SecretFileView {
        SecretFileView { path: publication.temporary, contents: self.contents }
    }
}

/// The name of the temporary file that publishing has created and not yet linked before `step`.
pub open spec fn claimed_name(step: PublishView) -> Option<Seq<char>> {
    match step {
        PublishView::Write(publication, _) | PublishView::Link(publication) => Some(
            publication.temporary,
        ),
        _ => None,
    }
}

/// Whether `step` and the disk before it are as they have to be for publishing: the temporary file
/// is another one than the file to publish and has no other name, the secret is whole before it is
/// linked, nobody but the owner has access to it, and the name is there before success is
/// reported.
pub open spec fn is_on_course(task: Task, step: PublishView, open: nat, disk: Disk) -> bool {
    &&& disk.is_sound()
    &&& claimed_name(step) matches Some(temporary) ==> {
        &&& temporary != task.path
        &&& is_only_name(temporary, disk)
        &&& is_owner_only(disk.file_at(temporary).mode)
    }
    &&& match step {
        PublishView::CreateDirectory(_, publication, write) => {
            &&& task.is_for(publication)
            &&& write == WriteSecretView::Open(task.file(publication))
        },
        PublishView::Probe(publication) => task.is_for(publication),
        PublishView::Claim(publication, write) => {
            &&& task.is_for(publication)
            &&& write == WriteSecretView::Open(task.file(publication))
            &&& publication.temporary != task.path
        },
        PublishView::Write(publication, write) => {
            let file = disk.file_at(publication.temporary);
            let is_open = open == disk.names[publication.temporary];
            &&& task.is_for(publication)
            &&& match write {
                WriteSecretView::Open(about) => about == task.file(publication),
                WriteSecretView::Write(about) => about == task.file(publication) && is_open
                    && file.contents.len() == 0,
                WriteSecretView::Sync(about) => about == task.file(publication) && is_open
                    && file.contents == task.contents,
                WriteSecretView::Finished(_) => false,
            }
        },
        PublishView::Link(publication) => task.is_for(publication) && is_whole(
            disk.file_at(publication.temporary),
            task.contents,
        ),
        PublishView::Remove(publication, result) => {
            &&& task.is_for(publication)
            &&& publication.temporary != task.path
            &&& result is Ok ==> disk.holds(task.path)
        },
        PublishView::Finished(result) => result is Ok ==> disk.holds(task.path),
    }
}

/// What other processes may do to the disk before a step of publishing is taken: anything that
/// leaves the published file, if it is there, and a temporary file that publishing has created as
/// they are, without giving the latter another name.
pub open spec fn is_left_alone(task: Task, step: PublishView, pre: Disk, post: Disk) -> bool {
    &&& post.is_sound()
    &&& is_kept(task.path, pre, post)
    &&& claimed_name(step) matches Some(temporary) ==> {
        &&& is_only_name(temporary, post)
        &&& post.names[temporary] == pre.names[temporary]
        &&& post.file_at(temporary) == pre.file_at(temporary)
    }
}

/// Publishing begins on course, for every path and whatever is on the disk.
pub proof fn publishing_begins_on_course(
    path: Seq<char>,
    process: u32,
    secret: Seq<u8>,
    step: PublishView,
    open: nat,
    disk: Disk,
)
    requires
        begins_to_publish(path, process, secret, step),
        disk.is_sound(),
    ensures
        is_on_course(Task { path, process, contents: hex_text(secret) }, step, open, disk),
{
}

/// Whether `name` is the temporary name before `step`.
pub open spec fn is_temporary_before(step: PublishView, name: Seq<char>) -> bool {
    match step {
        PublishView::Claim(publication, _)
        | PublishView::Write(publication, _)
        | PublishView::Link(publication)
        | PublishView::Remove(publication, _) => publication.temporary == name,
        _ => false,
    }
}

proof fn lemma_modes()
    ensures
        forall|mode: u32| mode & !SECRET_FILE_MODE == 0 ==> #[trigger] is_owner_only(mode),
{
    assert(forall|mode: u32| mode & !0o600u32 == 0 ==> #[trigger] (mode & 0o077u32) == 0)
        by (bit_vector);
}

pub(crate) proof fn lemma_write_on_course(
    task: Task,
    publication: PublicationView,
    write: WriteSecretView,
    open: nat,
    pre: Disk,
    written: WriteSecretView,
    opened: nat,
    post: Disk,
)
    requires
        is_on_course(task, PublishView::Write(publication, write), open, pre),
        write_succeeds(write, open, pre, written, opened, post) || write_fails(
            write,
            open,
            pre,
            written,
            opened,
            post,
        ),
    ensures
        is_on_course(task, publication.after_write(written), opened, post),
        post.names == pre.names,
        post.files.dom() == pre.files.dom(),
        forall|id: nat|
            id != pre.names[publication.temporary] && #[trigger] pre.files.contains_key(id)
                ==> post.files[id] == pre.files[id],
{
    lemma_modes();
    let temporary = publication.temporary;
    let id = pre.names[temporary];
    assert(pre.names.contains_key(temporary));
    assert(pre.files.contains_key(id));
    assert(post.names =~= pre.names);
    assert(post.files.dom() =~= pre.files.dom());
    assert(is_only_name(temporary, post));
    assert(post.is_sound());
}

/// A step of publishing, whichever of the operations fail, stays on course and leaves the files of
/// all names but the temporary one as they are; the one name that it can add besides that is the
/// name to publish under. This name appears only where a link succeeds, with the whole secret
/// behind it, on the disk and with no access for group and others.
pub proof fn publishing_stays_on_course(
    task: Task,
    step: PublishView,
    open: nat,
    before: Disk,
    pre: Disk,
    next: PublishView,
    opened: nat,
    post: Disk,
)
    requires
        is_on_course(task, step, open, before),
        is_left_alone(task, step, before, pre),
        publish_performed(step, open, pre, next, opened, post),
    ensures
        is_on_course(task, step, open, pre),
        is_on_course(task, next, opened, post),
        is_kept(task.path, pre, post),
        pre.holds(task.path) ==> post.names[task.path] == pre.names[task.path],
        !pre.holds(task.path) && post.holds(task.path) ==> step is Link && (next matches
            PublishView::Remove(_, Ok(_))) && is_whole(post.file_at(task.path), task.contents),
        forall|name: Seq<char>|
            name != task.path && !is_temporary_before(step, name) ==> #[trigger] is_same(
                name,
                pre,
                post,
            ),
{
    lemma_modes();
    assert(is_on_course(task, step, open, pre));
    match step {
        PublishView::Claim(publication, write) => {
            if created(pre, publication.temporary, opened, post) {
                assert(post.names.contains_key(publication.temporary));
                assert(is_only_name(publication.temporary, post)) by {
                    assert forall|other: Seq<char>|
                        other != publication.temporary && #[trigger] post.names.contains_key(
                            other,
                        ) implies post.names[other] != post.names[publication.temporary] by {
                        assert(pre.names.contains_key(other));
                    }
                }
            }
            assert forall|name: Seq<char>|
                name != task.path && !is_temporary_before(step, name) implies #[trigger] is_same(
                name,
                pre,
                post,
            ) by {
                if pre.names.contains_key(name) {
                    assert(pre.files.contains_key(pre.names[name]));
                }
            }
            if pre.names.contains_key(task.path) {
                assert(pre.files.contains_key(pre.names[task.path]));
            }
            assert(post.is_sound());
        },
        PublishView::Write(publication, write) => {
            let written = if publish_succeeds(step, open, pre, next, opened, post) {
                choose|written: WriteSecretView| #[trigger]
                    write_succeeds(write, open, pre, written, opened, post) && next
                        == publication.after_write(written)
            } else {
                choose|written: WriteSecretView| #[trigger]
                    write_fails(write, open, pre, written, opened, post) && next
                        == publication.after_write(written)
            };
            lemma_write_on_course(task, publication, write, open, pre, written, opened, post);
            assert forall|name: Seq<char>|
                !is_temporary_before(step, name) implies #[trigger] is_same(name, pre, post) by {
                if pre.names.contains_key(name) {
                    assert(pre.files.contains_key(pre.names[name]));
                }
            }
            assert(!is_temporary_before(step, task.path));
            assert(is_same(task.path, pre, post));
        },
        PublishView::Link(publication) => {
            assert(pre.names.contains_key(publication.temporary));
            assert(post.is_sound()) by {
                assert forall|name: Seq<char>| #[trigger]
                    post.names.contains_key(name) implies post.files.contains_key(
                    post.names[name],
                ) by {
                    if name != task.path {
                        assert(pre.names.contains_key(name));
                    }
                }
            }
        },
        PublishView::Remove(publication, _) => {
            assert forall|name: Seq<char>| #[trigger]
                post.names.contains_key(name) implies post.files.contains_key(
                post.names[name],
            ) by {
                assert(pre.names.contains_key(name));
            }
        },
        _ => {},
    }
}

/// Whether `moments` are a run of publishing `secret` in the file at `path`, or the beginning of
/// one.
pub open spec fn is_publishing(
    moments: Seq<Moment<PublishView>>,
    path: Seq<char>,
    process: u32,
    secret: Seq<u8>,
) -> bool {
    &&& moments.len() > 0
    &&& begins_to_publish(path, process, secret, moments[0].step)
    &&& moments[0].disk.is_sound()
    &&& forall|i: int|
        0 < i < moments.len() ==> {
            let now = moments[i - 1];
            let next = #[trigger] moments[i];
            publish_performed(now.step, now.open, next.seen, next.step, next.open, next.disk)
        }
}

/// Whether other processes left a run of publishing alone.
pub open spec fn is_undisturbed(task: Task, moments: Seq<Moment<PublishView>>) -> bool {
    forall|i: int|
        0 < i < moments.len() ==> is_left_alone(
            task,
            moments[i - 1].step,
            moments[i - 1].disk,
            (#[trigger] moments[i]).seen,
        )
}

/// Whether no operation failed in a run of publishing.
pub open spec fn is_faultless(moments: Seq<Moment<PublishView>>) -> bool {
    forall|i: int|
        0 < i < moments.len() ==> {
            let now = moments[i - 1];
            let next = #[trigger] moments[i];
            publish_succeeds(now.step, now.open, next.seen, next.step, next.open, next.disk)
        }
}

/// A run of publishing that is left alone never replaces the file to publish once it is there,
/// whether the run put it there or not and whatever fails, and it never leaves its course.
pub proof fn publishing_keeps_the_published_file(
    moments: Seq<Moment<PublishView>>,
    path: Seq<char>,
    process: u32,
    secret: Seq<u8>,
    i: int,
    j: int,
)
    requires
        is_publishing(moments, path, process, secret),
        is_undisturbed(Task { path, process, contents: hex_text(secret) }, moments),
        0 <= i <= j < moments.len(),
    ensures
        is_kept(path, moments[i].disk, moments[j].disk),
        is_on_course(
            Task { path, process, contents: hex_text(secret) },
            moments[j].step,
            moments[j].open,
            moments[j].disk,
        ),
    decreases j,
{
    let task = Task { path, process, contents: hex_text(secret) };
    if j == 0 {
        publishing_begins_on_course(
            path,
            process,
            secret,
            moments[0].step,
            moments[0].open,
            moments[0].disk,
        );
    } else {
        let k = if i < j { i } else { j - 1 };
        publishing_keeps_the_published_file(moments, path, process, secret, k, j - 1);
        let now = moments[j - 1];
        let next = moments[j];
        publishing_stays_on_course(
            task,
            now.step,
            now.open,
            now.disk,
            next.seen,
            next.step,
            next.open,
            next.disk,
        );
    }
}

proof fn lemma_alone_is_undisturbed(
    moments: Seq<Moment<PublishView>>,
    path: Seq<char>,
    process: u32,
    secret: Seq<u8>,
)
    requires
        is_publishing(moments, path, process, secret),
        is_alone(moments),
    ensures
        is_undisturbed(Task { path, process, contents: hex_text(secret) }, moments),
    decreases moments.len(),
{
    let task = Task { path, process, contents: hex_text(secret) };
    if moments.len() > 1 {
        let earlier = moments.drop_last();
        let last = moments.len() - 1;
        assert forall|i: int| 0 < i < earlier.len() implies {
            let now = earlier[i - 1];
            let next = #[trigger] earlier[i];
            &&& publish_performed(
                now.step,
                now.open,
                next.seen,
                next.step,
                next.open,
                next.disk,
            )
            &&& next.seen == now.disk
        } by {
            assert(earlier[i] == moments[i]);
        }
        lemma_alone_is_undisturbed(earlier, path, process, secret);
        publishing_keeps_the_published_file(earlier, path, process, secret, last - 1, last - 1);
        assert forall|i: int| 0 < i < moments.len() implies is_left_alone(
            task,
            moments[i - 1].step,
            moments[i - 1].disk,
            (#[trigger] moments[i]).seen,
        ) by {
            if i < last {
                assert(earlier[i] == moments[i]);
            } else {
                assert(earlier[last - 1] == moments[last - 1]);
            }
        }
    }
}

/// Publishing reports what it did: it ends with success only where the file to publish is there,
/// and where it ends with an error, and no other process put that file there or took it away, the
/// file is there exactly if it was there at first.
pub proof fn publishing_reports_what_it_did(
    moments: Seq<Moment<PublishView>>,
    path: Seq<char>,
    process: u32,
    secret: Seq<u8>,
)
    requires
        is_publishing(moments, path, process, secret),
        is_undisturbed(Task { path, process, contents: hex_text(secret) }, moments),
    ensures
        moments.last().step matches PublishView::Finished(Ok(_)) ==> moments.last().disk.holds(
            path,
        ),
        (moments.last().step matches PublishView::Finished(Err(_))) && (forall|i: int|
            0 < i < moments.len() ==> is_same(
                path,
                moments[i - 1].disk,
                (#[trigger] moments[i]).seen,
            )) ==> is_same(path, moments[0].disk, moments.last().disk),
{
    let last = moments.len() - 1;
    publishing_keeps_the_published_file(moments, path, process, secret, last, last);
    if forall|i: int|
        0 < i < moments.len() ==> is_same(path, moments[i - 1].disk, (#[trigger] moments[i]).seen) {
        lemma_no_success_no_name(moments, path, process, secret, last);
    }
}

/// Whether publishing has come to its end with success before `step`, but for the removal.
spec fn has_succeeded(step: PublishView) -> bool {
    (step matches PublishView::Remove(_, Ok(_))) || (step matches PublishView::Finished(Ok(_)))
}

proof fn lemma_no_success_no_name(
    moments: Seq<Moment<PublishView>>,
    path: Seq<char>,
    process: u32,
    secret: Seq<u8>,
    j: int,
)
    requires
        is_publishing(moments, path, process, secret),
        is_undisturbed(Task { path, process, contents: hex_text(secret) }, moments),
        forall|i: int|
            0 < i < moments.len() ==> is_same(
                path,
                moments[i - 1].disk,
                (#[trigger] moments[i]).seen,
            ),
        0 <= j < moments.len(),
    ensures
        !has_succeeded(moments[j].step) ==> is_same(path, moments[0].disk, moments[j].disk),
    decreases j,
{
    if j > 0 {
        lemma_no_success_no_name(moments, path, process, secret, j - 1);
        publishing_keeps_the_published_file(moments, path, process, secret, j - 1, j - 1);
        let task = Task { path, process, contents: hex_text(secret) };
        let now = moments[j - 1];
        let next = moments[j];
        publishing_stays_on_course(
            task,
            now.step,
            now.open,
            now.disk,
            next.seen,
            next.step,
            next.open,
            next.disk,
        );
    }
}

/// Where the file to publish is missing at first and no other process puts it there, a run of
/// publishing that is left alone has it missing or whole at every moment, whatever fails.
pub proof fn a_published_secret_is_whole(
    moments: Seq<Moment<PublishView>>,
    path: Seq<char>,
    process: u32,
    secret: Seq<u8>,
    i: int,
)
    requires
        is_publishing(moments, path, process, secret),
        is_undisturbed(Task { path, process, contents: hex_text(secret) }, moments),
        forall|j: int|
            0 < j < moments.len() ==> is_same(
                path,
                moments[j - 1].disk,
                (#[trigger] moments[j]).seen,
            ),
        !moments[0].disk.holds(path),
        0 <= i < moments.len(),
    ensures
        moments[i].disk.holds(path) ==> is_whole(moments[i].disk.file_at(path), hex_text(secret)),
    decreases i,
{
    if i > 0 {
        a_published_secret_is_whole(moments, path, process, secret, i - 1);
        publishing_keeps_the_published_file(moments, path, process, secret, i - 1, i - 1);
        let now = moments[i - 1];
        let next = moments[i];
        assert(is_same(path, now.disk, next.seen));
        publishing_stays_on_course(
            Task { path, process, contents: hex_text(secret) },
            now.step,
            now.open,
            now.disk,
            next.seen,
            next.step,
            next.open,
            next.disk,
        );
    }
}

/// Success is reported only after the attempt to remove the temporary file, which follows the
/// attempt to link it; and where the removal worked there is no file of that name any more.
pub proof fn publishing_ends_with_removal(
    step: PublishView,
    open: nat,
    pre: Disk,
    next: PublishView,
    opened: nat,
    post: Disk,
)
    requires
        publish_performed(step, open, pre, next, opened, post),
    ensures
        step is Link ==> next is Remove,
        next matches PublishView::Finished(Ok(_)) ==> step is Remove,
        step matches PublishView::Remove(publication, result) ==> {
            &&& next == PublishView::Finished(result)
            &&& publish_succeeds(step, open, pre, next, opened, post) ==> !post.holds(
                publication.temporary,
            )
        },
{
}

/// Whether the directory of a file at a plain path is there before any file is created, and is
/// what publishing creates before.
pub open spec fn is_in_place(task: Task, step: PublishView, disk: Disk) -> bool {
    is_plain_path(task.path) ==> match step {
        PublishView::CreateDirectory(directory, _, _) => directory == directory_of(task.path),
        PublishView::Claim(_, _) => disk.directories.contains(directory_of(task.path)),
        _ => true,
    }
}

/// Publishing begins in place, whether the directory is there or not, and stays so with every step
/// that does not fail, as long as nobody takes directories away.
pub proof fn publishing_stays_in_place(
    path: Seq<char>,
    process: u32,
    secret: Seq<u8>,
    start: PublishView,
    disk: Disk,
    now: Moment<PublishView>,
    next: Moment<PublishView>,
)
    requires
        begins_to_publish(path, process, secret, start),
    ensures
        ({
            let task = Task { path, process, contents: hex_text(secret) };
            &&& is_in_place(task, start, disk)
            &&& {
                &&& is_in_place(task, now.step, now.disk)
                &&& now.disk.directories.subset_of(next.seen.directories)
                &&& publish_succeeds(
                    now.step,
                    now.open,
                    next.seen,
                    next.step,
                    next.open,
                    next.disk,
                )
            } ==> is_in_place(task, next.step, next.disk)
        }),
{
    if is_plain_path(path) {
        publishing_begins_with_the_directory(path, process, secret, start);
    }
}

/// The temporary file of a plain path cannot be created as long as the directory of that path is
/// not there.
pub proof fn no_file_is_created_without_its_directory(
    task: Task,
    publication: PublicationView,
    id: nat,
    pre: Disk,
    post: Disk,
)
    requires
        is_plain_path(task.path),
        task.is_for(publication),
        !pre.directories.contains(directory_of(task.path)),
    ensures
        !created(pre, publication.temporary, id, post),
{
    a_plain_path_has_a_clear_extension(task.path);
    the_temporary_file_is_beside_its_file(
        task.path,
        task.process as nat,
        publication.attempt as nat,
    );
    the_temporary_file_of_a_plain_path_is_plain(
        task.path,
        task.process as nat,
        publication.attempt as nat,
    );
}

/// A name for the temporary file that publishing may try.
proof fn lemma_some_temporary(path: Seq<char>, process: nat, attempt: nat) -> (temporary: Seq<char>)
    ensures
        is_temporary_of(path, process, attempt, temporary),
{
    reveal_strlit(".");
    let stem = if has_clear_extension(path) {
        without_extension(path)
    } else {
        path
    };
    last_place_is_last(path, '.');
    last_separator_is_last(path);
    the_temporary_file_is_beside_its_file(path, process, attempt);
    assert(stem.is_prefix_of(path));
    stem + "."@ + temporary_extension(process, attempt)
}

/// Publishing never gets stuck: before it has come to its end, an operation that does what it is
/// named after, or finds a name taken, always leads on. `fresh` is a number that no file has.
pub proof fn publishing_is_never_stuck(
    task: Task,
    now: Moment<PublishView>,
    fresh: nat,
) -> (next: Moment<PublishView>)
    requires
        is_on_course(task, now.step, now.open, now.disk),
        is_in_place(task, now.step, now.disk),
        !(now.step is Finished),
        now.step matches PublishView::Remove(publication, _) ==> now.disk.holds(
            publication.temporary,
        ),
        now.step matches PublishView::Claim(publication, _) ==> !now.disk.files.contains_key(fresh)
            && (is_plain_path(task.path) || now.disk.has_place_for(publication.temporary)),
    ensures
        next.seen == now.disk,
        publish_succeeds(now.step, now.open, now.disk, next.step, next.open, next.disk),
{
    let seen = now.disk;
    let open = now.open;
    match now.step {
        PublishView::CreateDirectory(directory, publication, write) => {
            let step = publication.after_directory(directory, write, Ok(()));
            let disk = Disk { directories: seen.directories.insert(directory), ..seen };
            Moment { seen, step, open, disk }
        },
        PublishView::Probe(publication) => {
            Moment { seen, step: publication.after_probe(Ok(())), open, disk: seen }
        },
        PublishView::Claim(publication, write) => {
            if seen.holds(publication.temporary) {
                let error = Seq::<char>::empty();
                let temporary = lemma_some_temporary(
                    task.path,
                    task.process as nat,
                    publication.attempt as nat + 1,
                );
                let step = if publication.attempt == u32::MAX {
                    publication.not_created(error)
                } else {
                    publication.after_retry(temporary, write, error)
                };
                assert(publication.may_follow_claim(
                    write,
                    ClaimOutcomeView::AlreadyExists(error),
                    step,
                ));
                Moment { seen, step, open, disk: seen }
            } else {
                assert(0o600u32 & !0o600u32 == 0) by (bit_vector);
                if is_plain_path(task.path) {
                    a_plain_path_has_a_clear_extension(task.path);
                    the_temporary_file_is_beside_its_file(
                        task.path,
                        task.process as nat,
                        publication.attempt as nat,
                    );
                }
                let file = StoredFile {
                    contents: Seq::empty(),
                    mode: SECRET_FILE_MODE,
                    synced: false,
                };
                let disk = seen.with_name(publication.temporary, fresh).with_file(fresh, file);
                let step = PublishView::Write(publication, write);
                assert(created(seen, publication.temporary, fresh, disk));
                Moment { seen, step, open: fresh, disk }
            }
        },
        PublishView::Write(publication, write) => {
            let (written, opened, disk) = match write {
                WriteSecretView::Open(file) => {
                    let opened = seen.names[file.path];
                    let emptied = StoredFile {
                        contents: Seq::empty(),
                        synced: false,
                        ..seen.files[opened]
                    };
                    (file.after_open(Ok(())), opened, seen.with_file(opened, emptied))
                },
                WriteSecretView::Write(file) => {
                    let old = seen.files[open];
                    let contents = overwritten(old.contents, file.contents);
                    let filled = StoredFile { contents, synced: false, ..old };
                    (file.after_write(Ok(())), open, seen.with_file(open, filled))
                },
                WriteSecretView::Sync(file) => {
                    let durable = StoredFile { synced: true, ..seen.files[open] };
                    (file.after_sync(Ok(())), open, seen.with_file(open, durable))
                },
                WriteSecretView::Finished(_) => arbitrary(),
            };
            assert(write_succeeds(write, open, seen, written, opened, disk));
            Moment { seen, step: publication.after_write(written), open: opened, disk }
        },
        PublishView::Link(publication) => {
            if seen.holds(publication.path) {
                let step = publication.after_link(LinkOutcomeView::AlreadyExists);
                Moment { seen, step, open, disk: seen }
            } else {
                let step = publication.after_link(LinkOutcomeView::Linked);
                let id = seen.names[publication.temporary];
                Moment { seen, step, open, disk: seen.with_name(publication.path, id) }
            }
        },
        PublishView::Remove(publication, result) => {
            let step = publication.after_remove(result, Ok(()));
            Moment { seen, step, open, disk: seen.without_name(publication.temporary) }
        },
        PublishView::Finished(_) => arbitrary(),
    }
}

/// Whether the first name for the temporary file is free.
pub open spec fn is_free(path: Seq<char>, process: u32, disk: Disk) -> bool {
    forall|temporary: Seq<char>| #[trigger]
        is_temporary_of(path, process as nat, 0, temporary) ==> !disk.holds(temporary)
}

/// Whether no name for the temporary file was found taken in a run of publishing.
pub open spec fn is_unobstructed(moments: Seq<Moment<PublishView>>) -> bool {
    forall|i: int|
        0 < i < moments.len() ==> {
            let next = #[trigger] moments[i];
            moments[i - 1].step matches PublishView::Claim(publication, _) ==> !next.seen.holds(
                publication.temporary,
            )
        }
}

/// Whether a run of publishing does not run out of names for its temporary file: the extension of
/// the path is clear, so that there is always another name to try as long as the attempts can be
/// counted, or the path names a file and no name was found taken.
pub open spec fn finds_a_name(path: Seq<char>, moments: Seq<Moment<PublishView>>) -> bool {
    ||| has_clear_extension(path) && moments.len() <= u32::MAX
    ||| names_a_file(path) && is_unobstructed(moments)
}

/// The number of names for the temporary file that were found taken before `step`, as far as it
/// still counts.
pub open spec fn attempts_before(step: PublishView) -> nat {
    match step {
        PublishView::Claim(publication, _) => publication.attempt as nat,
        PublishView::CreateDirectory(_, publication, _) => publication.attempt as nat,
        _ => 0,
    }
}

/// Where no other process interferes and the first name for the temporary file is free, no name is
/// found taken.
pub proof fn a_free_name_is_unobstructed(
    moments: Seq<Moment<PublishView>>,
    path: Seq<char>,
    process: u32,
    secret: Seq<u8>,
)
    requires
        is_publishing(moments, path, process, secret),
        is_alone(moments),
        is_free(path, process, moments[0].disk),
    ensures
        is_unobstructed(moments),
{
    let task = Task { path, process, contents: hex_text(secret) };
    lemma_alone_is_undisturbed(moments, path, process, secret);
    assert forall|i: int| 0 < i < moments.len() implies {
        let next = #[trigger] moments[i];
        moments[i - 1].step matches PublishView::Claim(publication, _) ==> !next.seen.holds(
            publication.temporary,
        )
    } by {
        lemma_first_claim(moments, path, process, secret, i - 1);
        publishing_keeps_the_published_file(moments, path, process, secret, i - 1, i - 1);
    }
}

proof fn lemma_first_claim(
    moments: Seq<Moment<PublishView>>,
    path: Seq<char>,
    process: u32,
    secret: Seq<u8>,
    i: int,
)
    requires
        is_publishing(moments, path, process, secret),
        is_alone(moments),
        is_undisturbed(Task { path, process, contents: hex_text(secret) }, moments),
        is_free(path, process, moments[0].disk),
        0 <= i < moments.len(),
    ensures
        moments[i].step is Claim || moments[i].step is CreateDirectory ==> moments[i].disk.names
            == moments[0].disk.names && attempts_before(moments[i].step) == 0,
    decreases i,
{
    if i > 0 {
        lemma_first_claim(moments, path, process, secret, i - 1);
        publishing_keeps_the_published_file(moments, path, process, secret, i - 1, i - 1);
        let now = moments[i - 1];
        let next = moments[i];
        assert(next.seen == now.disk);
        if let PublishView::Claim(publication, _) = now.step {
            assert(is_temporary_of(path, process as nat, 0, publication.temporary));
        }
    }
}

/// Whether publishing has not failed before `step`.
pub open spec fn is_well(step: PublishView) -> bool {
    match step {
        PublishView::Probe(_) => false,
        PublishView::Remove(_, result) => result is Ok,
        PublishView::Finished(result) => result is Ok,
        _ => true,
    }
}

/// A step of publishing that does not fail leads on, as long as there is another name to try where
/// the one for the temporary file is taken.
pub proof fn publishing_stays_well(
    task: Task,
    now: Moment<PublishView>,
    next: Moment<PublishView>,
)
    requires
        names_a_file(task.path),
        is_on_course(task, now.step, now.open, next.seen),
        is_well(now.step),
        publish_succeeds(now.step, now.open, next.seen, next.step, next.open, next.disk),
        now.step matches PublishView::Claim(publication, _) ==> !next.seen.holds(
            publication.temporary,
        ) || has_clear_extension(task.path) && publication.attempt < u32::MAX,
    ensures
        is_well(next.step),
        attempts_before(next.step) <= attempts_before(now.step) + 1,
{
    if let PublishView::Claim(publication, write) = now.step {
        if next.seen.holds(publication.temporary) {
            let attempt = publication.attempt as nat;
            temporary_names_differ(
                task.path,
                task.process as nat,
                attempt,
                task.process as nat,
                attempt + 1,
            );
        }
    }
}

proof fn lemma_stays_well(
    moments: Seq<Moment<PublishView>>,
    path: Seq<char>,
    process: u32,
    secret: Seq<u8>,
    i: int,
)
    requires
        is_publishing(moments, path, process, secret),
        is_undisturbed(Task { path, process, contents: hex_text(secret) }, moments),
        is_faultless(moments),
        finds_a_name(path, moments),
        0 <= i < moments.len(),
    ensures
        is_well(moments[i].step),
        attempts_before(moments[i].step) <= i,
    decreases i,
{
    let task = Task { path, process, contents: hex_text(secret) };
    if i > 0 {
        lemma_stays_well(moments, path, process, secret, i - 1);
        publishing_keeps_the_published_file(moments, path, process, secret, i - 1, i - 1);
        let now = moments[i - 1];
        let next = moments[i];
        publishing_stays_on_course(
            task,
            now.step,
            now.open,
            now.disk,
            next.seen,
            next.step,
            next.open,
            next.disk,
        );
        publishing_stays_well(task, now, next);
    }
}

/// Whether publishing `contents` in the file at `path` has turned `first` into `disk`: the file is
/// there as it was, or whole where it was missing, and all other names are as they were.
pub open spec fn is_published(
    path: Seq<char>,
    contents: Seq<char>,
    first: Disk,
    disk: Disk,
) -> bool {
    &&& disk.is_sound()
    &&& disk.holds(path)
    &&& if first.holds(path) {
        is_kept(path, first, disk)
    } else {
        is_whole(disk.file_at(path), contents)
    }
    &&& forall|name: Seq<char>| name != path ==> #[trigger] is_same(name, first, disk)
}

/// Whether `moment` is one of a run of publishing that began with the disk `first` and in which
/// nothing has failed so far and no other process did anything.
pub open spec fn is_under_way(task: Task, first: Disk, moment: Moment<PublishView>) -> bool {
    let disk = moment.disk;
    &&& is_well(moment.step)
    &&& is_on_course(task, moment.step, moment.open, disk)
    &&& is_in_place(task, moment.step, disk)
    &&& forall|n: nat| #[trigger]
        first.files.contains_key(n) ==> disk.files.contains_key(n) && disk.files[n]
            == first.files[n]
    &&& match moment.step {
        PublishView::Write(publication, _) | PublishView::Link(publication) => {
            let id = disk.names[publication.temporary];
            &&& !first.holds(publication.temporary)
            &&& !first.files.contains_key(id)
            &&& disk.names == first.names.insert(publication.temporary, id)
        },
        PublishView::Remove(publication, _) => {
            let id = disk.names[publication.temporary];
            let claimed = first.names.insert(publication.temporary, id);
            &&& !first.holds(publication.temporary)
            &&& if first.holds(task.path) {
                disk.names == claimed
            } else {
                disk.names == claimed.insert(task.path, id) && is_whole(
                    disk.file_at(task.path),
                    task.contents,
                )
            }
        },
        PublishView::Finished(_) => if first.holds(task.path) {
            disk.names == first.names
        } else {
            disk.names == first.names.insert(task.path, disk.names[task.path]) && is_whole(
                disk.file_at(task.path),
                task.contents,
            )
        },
        _ => first.gains_directories(disk),
    }
}

/// A run of publishing that is under way stays so with every step that does not fail, as long as
/// there is another name to try where the one for the temporary file is taken.
pub proof fn publishing_stays_under_way(
    task: Task,
    first: Disk,
    now: Moment<PublishView>,
    next: Moment<PublishView>,
)
    requires
        first.is_sound(),
        is_under_way(task, first, now),
        publish_succeeds(now.step, now.open, now.disk, next.step, next.open, next.disk),
        is_well(next.step),
    ensures
        is_under_way(task, first, next),
{
    publishing_stays_on_course(
        task,
        now.step,
        now.open,
        now.disk,
        now.disk,
        next.step,
        next.open,
        next.disk,
    );
    match now.step {
        PublishView::Claim(publication, _) => {
            if created(now.disk, publication.temporary, next.open, next.disk) {
                assert(next.disk.names[publication.temporary] == next.open);
            }
        },
        PublishView::Write(publication, write) => {
            let written = choose|written: WriteSecretView| #[trigger]
                write_succeeds(write, now.open, now.disk, written, next.open, next.disk)
                    && next.step == publication.after_write(written);
            lemma_write_on_course(
                task,
                publication,
                write,
                now.open,
                now.disk,
                written,
                next.open,
                next.disk,
            );
        },
        PublishView::Link(publication) => {
            assert(now.disk.holds(task.path) == first.holds(task.path));
        },
        PublishView::Remove(publication, _) => {
            let id = now.disk.names[publication.temporary];
            if first.holds(task.path) {
                assert(next.disk.names =~= first.names);
            } else {
                assert(next.disk.names =~= first.names.insert(task.path, id));
            }
        },
        _ => {},
    }
}

/// A run of publishing that was under way to its end has published.
pub proof fn the_end_of_the_way_is_published(
    task: Task,
    first: Disk,
    moment: Moment<PublishView>,
)
    requires
        first.is_sound(),
        is_under_way(task, first, moment),
        moment.step is Finished,
    ensures
        is_published(task.path, task.contents, first, moment.disk),
{
    assert forall|name: Seq<char>| name != task.path implies #[trigger] is_same(
        name,
        first,
        moment.disk,
    ) by {
        if first.names.contains_key(name) {
            assert(first.files.contains_key(first.names[name]));
        }
    }
    if first.names.contains_key(task.path) {
        assert(first.files.contains_key(first.names[task.path]));
    }
}

/// Publishing begins under way, if the path names a file.
pub proof fn publishing_begins_under_way(
    path: Seq<char>,
    process: u32,
    secret: Seq<u8>,
    moment: Moment<PublishView>,
)
    requires
        begins_to_publish(path, process, secret, moment.step),
        names_a_file(path),
        moment.disk.is_sound(),
    ensures
        is_under_way(
            Task { path, process, contents: hex_text(secret) },
            moment.disk,
            moment,
        ),
        attempts_before(moment.step) == 0,
{
    publishing_begins_on_course(path, process, secret, moment.step, moment.open, moment.disk);
    if is_plain_path(path) {
        publishing_begins_with_the_directory(path, process, secret, moment.step);
    }
}

/// Where nothing fails, publishing succeeds, whatever other processes do within
/// [`is_left_alone`] and whatever is left over from earlier attempts. A file that was there is then
/// as it was; one that was missing, and that no other process put there, holds the whole secret.
/// Where other processes do nothing at all, nothing else has changed.
pub proof fn publishing_without_faults_succeeds(
    moments: Seq<Moment<PublishView>>,
    path: Seq<char>,
    process: u32,
    secret: Seq<u8>,
)
    requires
        is_publishing(moments, path, process, secret),
        is_undisturbed(Task { path, process, contents: hex_text(secret) }, moments)
            || is_alone(moments),
        is_faultless(moments),
        finds_a_name(path, moments),
        moments.last().step is Finished,
    ensures
        moments.last().step == PublishView::Finished(Ok(())),
        moments.last().disk.holds(path),
        is_kept(path, moments[0].disk, moments.last().disk),
        !moments[0].disk.holds(path) && (forall|i: int|
            0 < i < moments.len() ==> is_same(
                path,
                moments[i - 1].disk,
                (#[trigger] moments[i]).seen,
            )) ==> is_whole(moments.last().disk.file_at(path), hex_text(secret)),
        is_alone(moments) ==> is_published(
            path,
            hex_text(secret),
            moments[0].disk,
            moments.last().disk,
        ),
{
    let task = Task { path, process, contents: hex_text(secret) };
    let last = moments.len() - 1;
    if is_alone(moments) {
        lemma_alone_is_undisturbed(moments, path, process, secret);
    }
    publishing_keeps_the_published_file(moments, path, process, secret, 0, last);
    assert forall|i: int| 0 <= i < moments.len() implies is_well((#[trigger] moments[i]).step) by {
        lemma_stays_well(moments, path, process, secret, i);
    }
    assert(is_well(moments[last].step));
    if !moments[0].disk.holds(path) && (forall|i: int|
        0 < i < moments.len() ==> is_same(
            path,
            moments[i - 1].disk,
            (#[trigger] moments[i]).seen,
        )) {
        a_published_secret_is_whole(moments, path, process, secret, last);
    }
    if is_alone(moments) {
        lemma_well_is_under_way(moments, path, process, secret, last);
        the_end_of_the_way_is_published(task, moments[0].disk, moments[last]);
    }
}

proof fn lemma_success_was_well(
    moments: Seq<Moment<PublishView>>,
    path: Seq<char>,
    process: u32,
    secret: Seq<u8>,
    i: int,
)
    requires
        is_publishing(moments, path, process, secret),
        0 <= i < moments.len(),
        moments.last().step matches PublishView::Finished(Ok(_)),
    ensures
        is_well(moments[i].step),
        0 < i < moments.len() - 1 ==> publish_succeeds(
            moments[i - 1].step,
            moments[i - 1].open,
            moments[i].seen,
            moments[i].step,
            moments[i].open,
            moments[i].disk,
        ),
    decreases moments.len() - i,
{
    if i < moments.len() - 1 {
        lemma_success_was_well(moments, path, process, secret, i + 1);
        let now = moments[i];
        let next = moments[i + 1];
        assert(publish_performed(
            now.step,
            now.open,
            next.seen,
            next.step,
            next.open,
            next.disk,
        ));
        if i > 0 {
            let before = moments[i - 1];
            assert(publish_performed(
                before.step,
                before.open,
                now.seen,
                now.step,
                now.open,
                now.disk,
            ));
        }
    }
}

/// A run of publishing that ends with success, and whose removal of the temporary file worked,
/// leaves no new name but the one published under: where no other process did anything, the file
/// to publish is there as it was, or with the whole secret where it was missing, and every other
/// name is as it was.
pub proof fn success_leaves_only_the_published_file(
    moments: Seq<Moment<PublishView>>,
    path: Seq<char>,
    process: u32,
    secret: Seq<u8>,
)
    requires
        is_publishing(moments, path, process, secret),
        is_alone(moments),
        moments.len() > 1,
        moments.last().step matches PublishView::Finished(Ok(_)),
        publish_succeeds(
            moments[moments.len() - 2].step,
            moments[moments.len() - 2].open,
            moments.last().seen,
            moments.last().step,
            moments.last().open,
            moments.last().disk,
        ),
    ensures
        is_published(path, hex_text(secret), moments[0].disk, moments.last().disk),
{
    let task = Task { path, process, contents: hex_text(secret) };
    let last = moments.len() - 1;
    lemma_alone_is_undisturbed(moments, path, process, secret);
    assert forall|i: int| 0 <= i < moments.len() implies {
        let moment = #[trigger] moments[i];
        &&& is_well(moment.step)
        &&& i > 0 ==> publish_succeeds(
            moments[i - 1].step,
            moments[i - 1].open,
            moment.seen,
            moment.step,
            moment.open,
            moment.disk,
        )
    } by {
        lemma_success_was_well(moments, path, process, secret, i);
    }
    publishing_begins_on_course(
        path,
        process,
        secret,
        moments[0].step,
        moments[0].open,
        moments[0].disk,
    );
    assert(is_well(moments[0].step));
    lemma_well_is_under_way(moments, path, process, secret, last);
    the_end_of_the_way_is_published(task, moments[0].disk, moments[last]);
}

proof fn lemma_well_is_under_way(
    moments: Seq<Moment<PublishView>>,
    path: Seq<char>,
    process: u32,
    secret: Seq<u8>,
    i: int,
)
    requires
        is_publishing(moments, path, process, secret),
        is_alone(moments),
        0 <= i < moments.len(),
        forall|j: int|
            0 <= j <= i ==> {
                let moment = #[trigger] moments[j];
                &&& is_well(moment.step)
                &&& j > 0 ==> publish_succeeds(
                    moments[j - 1].step,
                    moments[j - 1].open,
                    moment.seen,
                    moment.step,
                    moment.open,
                    moment.disk,
                )
            },
    ensures
        is_under_way(
            Task { path, process, contents: hex_text(secret) },
            moments[0].disk,
            moments[i],
        ),
    decreases i,
{
    let task = Task { path, process, contents: hex_text(secret) };
    if i == 0 {
        assert(is_well(moments[0].step));
        publishing_begins_on_course(
            path,
            process,
            secret,
            moments[0].step,
            moments[0].open,
            moments[0].disk,
        );
        if is_plain_path(path) {
            publishing_begins_with_the_directory(path, process, secret, moments[0].step);
        }
    } else {
        lemma_well_is_under_way(moments, path, process, secret, i - 1);
        assert(moments[i].seen == moments[i - 1].disk);
        publishing_stays_under_way(task, moments[0].disk, moments[i - 1], moments[i]);
    }
}

/// However many secrets are published in turn in the file at a path, the first one stays. All of
/// them succeed, if nothing fails.
pub proof fn the_first_secret_stays(
    path: Seq<char>,
    runs: Seq<Seq<Moment<PublishView>>>,
    processes: Seq<u32>,
    secrets: Seq<Seq<u8>>,
    k: int,
)
    requires
        processes.len() == runs.len(),
        secrets.len() == runs.len(),
        forall|i: int|
            0 <= i < runs.len() ==> {
                &&& is_publishing(#[trigger] runs[i], path, processes[i], secrets[i])
                &&& is_alone(runs[i])
                &&& is_faultless(runs[i])
                &&& finds_a_name(path, runs[i])
                &&& runs[i].last().step is Finished
            },
        forall|i: int|
            0 < i < runs.len() ==> (#[trigger] runs[i])[0].disk == runs[i - 1].last().disk,
        0 <= k < runs.len(),
        !runs[0][0].disk.holds(path),
    ensures
        runs[k].last().step == PublishView::Finished(Ok(())),
        is_published(path, hex_text(secrets[0]), runs[0][0].disk, runs[k].last().disk),
    decreases k,
{
    let first = runs[0][0].disk;
    if k == 0 {
        publishing_without_faults_succeeds(runs[0], path, processes[0], secrets[0]);
    } else {
        the_first_secret_stays(path, runs, processes, secrets, k - 1);
        let start = runs[k][0].disk;
        assert(start == runs[k - 1].last().disk);
        publishing_without_faults_succeeds(runs[k], path, processes[k], secrets[k]);
        let end = runs[k].last().disk;
        assert forall|name: Seq<char>| name != path implies #[trigger] is_same(
            name,
            first,
            end,
        ) by {
            assert(is_same(name, first, start));
            assert(is_same(name, start, end));
        }
    }
}

/// How much of publishing is still to be done from `step` on.
pub open spec fn steps_left(step: PublishView) -> nat {
    match step {
        PublishView::CreateDirectory(_, _, _) => 7,
        PublishView::Claim(_, _) => 6,
        PublishView::Write(_, WriteSecretView::Open(_)) => 5,
        PublishView::Write(_, WriteSecretView::Write(_)) => 4,
        PublishView::Write(_, WriteSecretView::Sync(_)) => 3,
        PublishView::Link(_) => 2,
        PublishView::Remove(_, _) | PublishView::Probe(_) => 1,
        _ => 0,
    }
}

/// Publishing comes to an end: every step leaves less to be done, whatever fails, but for one that
/// finds the name for the temporary file taken, after which the next name is tried.
pub proof fn publishing_comes_to_an_end(
    task: Task,
    now: Moment<PublishView>,
    next: Moment<PublishView>,
)
    requires
        is_on_course(task, now.step, now.open, next.seen),
        publish_performed(now.step, now.open, next.seen, next.step, next.open, next.disk),
    ensures
        ({
            ||| steps_left(next.step) < steps_left(now.step)
            ||| {
                &&& now.step is Claim
                &&& next.step is Claim
                &&& attempts_before(next.step) == attempts_before(now.step) + 1
            }
        }),
        steps_left(now.step) == 0 <==> now.step is Finished,
{
    if let PublishView::Write(publication, write) = now.step {
        if publish_succeeds(now.step, now.open, next.seen, next.step, next.open, next.disk) {
            let written = choose|written: WriteSecretView| #[trigger]
                write_succeeds(write, now.open, next.seen, written, next.open, next.disk)
                    && next.step == publication.after_write(written);
            assert(next.step == publication.after_write(written));
        } else {
            let written = choose|written: WriteSecretView| #[trigger]
                write_fails(write, now.open, next.seen, written, next.open, next.disk)
                    && next.step == publication.after_write(written);
            assert(next.step == publication.after_write(written));
        }
    }
}

/// Whether there is room on the disk for the temporary file: its first name is free, its directory
/// is there where it is not the one that publishing creates, and `fresh` is a number that no file
/// has.
pub open spec fn has_room(path: Seq<char>, process: u32, disk: Disk, fresh: nat) -> bool {
    &&& is_free(path, process, disk)
    &&& !disk.files.contains_key(fresh)
    &&& !is_plain_path(path) ==> forall|temporary: Seq<char>| #[trigger]
        is_temporary_of(path, process as nat, 0, temporary) ==> disk.has_place_for(temporary)
}

proof fn lemma_run_to_the_end(
    moments: Seq<Moment<PublishView>>,
    path: Seq<char>,
    process: u32,
    secret: Seq<u8>,
    fresh: nat,
) -> (run: Seq<Moment<PublishView>>)
    requires
        is_publishing(moments, path, process, secret),
        is_alone(moments),
        is_faultless(moments),
        names_a_file(path),
        has_room(path, process, moments[0].disk, fresh),
        is_under_way(
            Task { path, process, contents: hex_text(secret) },
            moments[0].disk,
            moments.last(),
        ),
        attempts_before(moments.last().step) == 0,
    ensures
        is_publishing(run, path, process, secret),
        is_alone(run),
        is_faultless(run),
        run[0] == moments[0],
        run.last().step == PublishView::Finished(Ok(())),
        is_published(path, hex_text(secret), moments[0].disk, run.last().disk),
    decreases steps_left(moments.last().step),
{
    let task = Task { path, process, contents: hex_text(secret) };
    let first = moments[0].disk;
    let now = moments.last();
    if now.step is Finished {
        the_end_of_the_way_is_published(task, first, now);
        moments
    } else {
        if let PublishView::Claim(publication, _) = now.step {
            assert(is_temporary_of(path, process as nat, 0, publication.temporary));
        }
        let next = publishing_is_never_stuck(task, now, fresh);
        publishing_stays_well(task, now, next);
        publishing_stays_under_way(task, first, now, next);
        publishing_comes_to_an_end(task, now, next);
        assert(attempts_before(next.step) == 0);
        let longer = moments.push(next);
        assert forall|i: int| 0 < i < longer.len() implies {
            let a = longer[i - 1];
            let b = #[trigger] longer[i];
            &&& b.seen == a.disk
            &&& publish_succeeds(a.step, a.open, b.seen, b.step, b.open, b.disk)
            &&& publish_performed(a.step, a.open, b.seen, b.step, b.open, b.disk)
        } by {
            if i < moments.len() {
                assert(longer[i] == moments[i] && longer[i - 1] == moments[i - 1]);
            } else {
                assert(longer[i - 1] == now && longer[i] == next);
            }
        }
        assert(longer[0] == moments[0]);
        lemma_run_to_the_end(longer, path, process, secret, fresh)
    }
}

/// A run of publishing to the end exists: from every first step of publishing a secret in the file
/// at a path that names one, on every disk with room for the temporary file and whether or not the
/// directory is there yet, steps that all do what they are named after lead to success, with the
/// file published and nothing else changed.
pub proof fn publishing_can_succeed(
    path: Seq<char>,
    process: u32,
    secret: Seq<u8>,
    start: Moment<PublishView>,
    fresh: nat,
) -> (run: Seq<Moment<PublishView>>)
    requires
        begins_to_publish(path, process, secret, start.step),
        names_a_file(path),
        start.disk.is_sound(),
        has_room(path, process, start.disk, fresh),
    ensures
        is_publishing(run, path, process, secret),
        is_alone(run),
        is_faultless(run),
        run[0] == start,
        run.last().step == PublishView::Finished(Ok(())),
        is_published(path, hex_text(secret), start.disk, run.last().disk),
{
    publishing_begins_under_way(path, process, secret, start);
    lemma_run_to_the_end(seq![start], path, process, secret, fresh)
}

/// There is a first step of publishing for every secret and every path that names a file.
pub proof fn publishing_can_begin(path: Seq<char>, process: u32, secret: Seq<u8>) -> (step:
    PublishView)
    requires
        names_a_file(path),
    ensures
        begins_to_publish(path, process, secret, step),
{
    let temporary = lemma_some_temporary(path, process as nat, 0);
    last_place_is_last(path, '/');
    last_separator_is_last(path);
    reveal_strlit("/");
    reveal_strlit(".");
    let slash = last_place(path, '/');
    let directory = if is_plain_path(path) {
        directory_of(path)
    } else {
        path.take(slash + 1)
    };
    assert(directory.is_prefix_of(path));
    if is_plain_path(path) && slash == 0 {
        assert(directory =~= "/"@);
    }
    assert(is_directory_of(path, Some(directory)));
    publish_start(path, process, Some(directory), temporary, hex_text(secret))
}

} // verus!
