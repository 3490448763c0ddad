//! What holds of the guardian's identity through everything that loading a secret does.
//!
//! Between any two steps of loading other processes may change the disk. In all that follows they
//! leave the file of the secret as it is once it is there; whatever else a law needs of them, it
//! says.

use crate::ack_key::{decoded_key, stored_secret_is_read_back, AckSecret};
use crate::disk::{
    is_alone, is_kept, is_same, is_whole, load_performed, load_succeeds, publish_fails,
    publish_succeeds, Disk, Moment,
};
use crate::file_provider::{
    is_owner_only, load_start, loading_goes_on_in_order,
    loading_looks_for_the_file_exactly_with_autogen, LoadView, LoadingView,
};
use crate::hexadecimal::hex_text;
use crate::paths::{has_clear_extension, is_plain_path, names_a_file};
use crate::publish::{is_temporary_of, publishing_begins_with_the_directory, PublishView};
use crate::stability::{
    attempts_before, has_room, is_free, is_in_place, is_left_alone, is_on_course, is_published,
    is_temporary_before, is_under_way, is_well, publishing_begins_on_course,
    publishing_begins_under_way, publishing_can_begin, publishing_comes_to_an_end,
    publishing_is_never_stuck, publishing_stays_on_course, publishing_stays_under_way,
    publishing_stays_well, steps_left, the_end_of_the_way_is_published, Task,
};
use vstd::prelude::*;

verus! {

/// Whether the step of `now` may lead to `next`.
pub open spec fn goes_on<T: AckSecret>(
    now: Moment<LoadView<T>>,
    next: Moment<LoadView<T>>,
) -> bool {
    load_performed(now.step, now.open, next.seen, next.step, next.open, next.disk)
}

/// Whether `moments` are a run of loading the secret in the file at `path`, or the beginning of
/// one.
pub open spec fn is_run<T: AckSecret>(
    moments: Seq<Moment<LoadView<T>>>,
    path: Seq<char>,
    autogen: bool,
    process: u32,
) -> bool {
    &&& moments.len() > 0
    &&& moments[0].step == load_start::<T>(path, autogen, process)
    &&& moments[0].disk.is_sound()
    &&& forall|i: int|
        0 < i < moments.len() ==> is_kept(
            path,
            moments[i - 1].disk,
            (#[trigger] moments[i]).seen,
        ) && goes_on(moments[i - 1], moments[i])
}

/// Whether `step` is one that only looks at files.
pub open spec fn only_reads<T>(step: LoadView<T>) -> bool {
    step is Inspect || step is Read || step is Finished
}

/// Where generating secrets is off, loading begins with a step that only looks at files, and so
/// does every step that follows: nothing is ever created.
pub proof fn loading_without_autogen_only_reads<T: AckSecret>(
    path: Seq<char>,
    process: u32,
    now: Moment<LoadView<T>>,
    next: Moment<LoadView<T>>,
)
    ensures
        only_reads(load_start::<T>(path, false, process)),
        only_reads(now.step) && goes_on(now, next) ==> only_reads(next.step) && next.disk
            == next.seen,
{
}

/// The text of a file is read only after its permission bits were found to give group and others
/// no access.
pub proof fn only_private_files_are_read<T: AckSecret>(
    now: Moment<LoadView<T>>,
    next: Moment<LoadView<T>>,
)
    requires
        goes_on(now, next),
        next.step is Read,
    ensures
        now.step matches LoadView::Inspect(loading) && next.seen.holds(loading.path)
            && is_owner_only(next.seen.file_at(loading.path).mode),
{
}

/// Whether `step` is a step of loading the file at `path` in the process with the id `process`.
pub open spec fn is_loading<T>(step: LoadView<T>, path: Seq<char>, process: u32) -> bool {
    match step {
        LoadView::Check(loading)
        | LoadView::Publish(loading, _)
        | LoadView::Inspect(loading)
        | LoadView::Read(loading) => loading == (LoadingView { path, process }),
        LoadView::Finished(_) => true,
    }
}

/// Whether a key that loading ended with is the one in the file at `path`.
pub open spec fn holds_result<T: AckSecret>(
    path: Seq<char>,
    moment: Moment<LoadView<T>>,
) -> bool {
    moment.step matches LoadView::Finished(Ok(key)) ==> moment.disk.holds(path) && decoded_key::<T>(
        "Ack secret file "@ + path,
        moment.disk.file_at(path).contents,
    ) == Ok::<T, Seq<char>>(key)
}

/// Whether the file at `path` is there with no access for group and others once it was inspected.
pub open spec fn is_private<T>(path: Seq<char>, moment: Moment<LoadView<T>>) -> bool {
    moment.step is Read || (moment.step matches LoadView::Finished(Ok(_))) ==> moment.disk.holds(
        path,
    ) && is_owner_only(moment.disk.file_at(path).mode)
}

/// A run of loading stays with its file, and where it ends with a key, that key is the one in the
/// file, to which group and others have no access.
pub proof fn a_run_gives_the_key_in_the_file<T: AckSecret>(
    moments: Seq<Moment<LoadView<T>>>,
    path: Seq<char>,
    autogen: bool,
    process: u32,
    i: int,
)
    requires
        is_run(moments, path, autogen, process),
        0 <= i < moments.len(),
    ensures
        is_loading(moments[i].step, path, process),
        holds_result(path, moments[i]),
        is_private(path, moments[i]),
    decreases i,
{
    if i > 0 {
        a_run_gives_the_key_in_the_file(moments, path, autogen, process, i - 1);
        assert(goes_on(moments[i - 1], moments[i]));
        assert(is_kept(path, moments[i - 1].disk, moments[i].seen));
    }
}

/// A run that begins with the file there never changes anything: after the first step, which may
/// look for the file, it only looks at it.
pub proof fn an_existing_file_is_only_read<T: AckSecret>(
    moments: Seq<Moment<LoadView<T>>>,
    path: Seq<char>,
    autogen: bool,
    process: u32,
    i: int,
)
    requires
        is_run(moments, path, autogen, process),
        moments[0].disk.holds(path),
        0 <= i < moments.len(),
    ensures
        i > 0 ==> only_reads(moments[i].step) && moments[i].disk == moments[i].seen,
        is_kept(path, moments[0].disk, moments[i].disk),
    decreases i,
{
    if i > 0 {
        an_existing_file_is_only_read(moments, path, autogen, process, i - 1);
        a_run_gives_the_key_in_the_file(moments, path, autogen, process, i - 1);
        assert(goes_on(moments[i - 1], moments[i]));
        assert(is_kept(path, moments[i - 1].disk, moments[i].seen));
    }
}

/// Runs that load the same file agree on the key, in whatever way they overlap: if both end with
/// a key, and the file of the one that ends first is still there unchanged when the other ends, it
/// is the same key. It makes no difference which of them may generate a missing secret, nor
/// whether one did.
pub proof fn runs_agree_on_the_key<T: AckSecret>(
    path: Seq<char>,
    earlier: Seq<Moment<LoadView<T>>>,
    earlier_autogen: bool,
    earlier_process: u32,
    earlier_key: T,
    later: Seq<Moment<LoadView<T>>>,
    later_autogen: bool,
    later_process: u32,
    later_key: T,
)
    requires
        is_run(earlier, path, earlier_autogen, earlier_process),
        earlier.last().step == LoadView::Finished(Ok(earlier_key)),
        is_run(later, path, later_autogen, later_process),
        later.last().step == LoadView::Finished(Ok(later_key)),
        is_kept(path, earlier.last().disk, later.last().disk),
    ensures
        later_key == earlier_key,
{
    a_run_gives_the_key_in_the_file(
        earlier,
        path,
        earlier_autogen,
        earlier_process,
        earlier.len() - 1,
    );
    a_run_gives_the_key_in_the_file(later, path, later_autogen, later_process, later.len() - 1);
}

/// Whether no operation failed in a run of loading.
pub open spec fn is_faultless<T: AckSecret>(moments: Seq<Moment<LoadView<T>>>) -> bool {
    forall|i: int|
        0 < i < moments.len() ==> {
            let now = moments[i - 1];
            let next = #[trigger] moments[i];
            load_succeeds(now.step, now.open, next.seen, next.step, next.open, next.disk)
        }
}

/// A restart keeps the identity: where a run ended with a key, a run that begins with the file of
/// the secret as the first one left it gives no other key, and it does give this key if nothing
/// fails.
pub proof fn identity_survives_a_restart<T: AckSecret>(
    path: Seq<char>,
    first: Seq<Moment<LoadView<T>>>,
    first_autogen: bool,
    first_process: u32,
    key: T,
    second: Seq<Moment<LoadView<T>>>,
    second_autogen: bool,
    second_process: u32,
)
    requires
        is_run(first, path, first_autogen, first_process),
        first.last().step == LoadView::Finished(Ok(key)),
        is_run(second, path, second_autogen, second_process),
        is_kept(path, first.last().disk, second[0].disk),
    ensures
        second.last().step matches LoadView::Finished(Ok(second_key)) ==> second_key == key,
        is_faultless(second) && second.last().step is Finished ==> second.last().step
            == LoadView::<T>::Finished(Ok(key)),
{
    let last = second.len() - 1;
    a_run_gives_the_key_in_the_file(first, path, first_autogen, first_process, first.len() - 1);
    an_existing_file_is_only_read(second, path, second_autogen, second_process, last);
    if let LoadView::Finished(Ok(second_key)) = second.last().step {
        runs_agree_on_the_key(
            path,
            first,
            first_autogen,
            first_process,
            key,
            second,
            second_autogen,
            second_process,
            second_key,
        );
    }
    if is_faultless(second) && second.last().step is Finished {
        lemma_existing_file_loads(second, path, second_autogen, second_process, key);
    }
}

proof fn lemma_existing_file_loads<T: AckSecret>(
    moments: Seq<Moment<LoadView<T>>>,
    path: Seq<char>,
    autogen: bool,
    process: u32,
    key: T,
)
    requires
        is_run(moments, path, autogen, process),
        is_faultless(moments),
        moments[0].disk.holds(path),
        is_owner_only(moments[0].disk.file_at(path).mode),
        decoded_key::<T>("Ack secret file "@ + path, moments[0].disk.file_at(path).contents)
            == Ok::<T, Seq<char>>(key),
        moments.last().step is Finished,
    ensures
        moments.last().step == LoadView::<T>::Finished(Ok(key)),
{
    let last = moments.len() - 1;
    let now = moments[last - 1];
    let next = moments[last];
    an_existing_file_is_only_read(moments, path, autogen, process, last - 1);
    a_run_gives_the_key_in_the_file(moments, path, autogen, process, last - 1);
    assert(is_kept(path, now.disk, next.seen));
    assert(load_succeeds(now.step, now.open, next.seen, next.step, next.open, next.disk));
}

/// Whether other processes left the temporary file of a run of loading alone, if it has one.
pub open spec fn is_undisturbed<T: AckSecret>(
    path: Seq<char>,
    moments: Seq<Moment<LoadView<T>>>,
) -> bool {
    forall|i: int|
        0 < i < moments.len() ==> is_respected(
            path,
            moments[i - 1],
            (#[trigger] moments[i]).seen,
        )
}

/// Whether the disk `seen` is one that other processes may have made of that at the moment `now`
/// without touching the temporary file.
pub open spec fn is_respected<T>(
    path: Seq<char>,
    now: Moment<LoadView<T>>,
    seen: Disk,
) -> bool {
    &&& seen.is_sound()
    &&& now.step matches LoadView::Publish(loading, publish) ==> is_left_alone(
        Task { path, process: loading.process, contents: Seq::empty() },
        publish,
        now.disk,
        seen,
    )
}

/// Whether publishing, if it is what `moment` is at, is on course with a secret that can be read.
pub open spec fn is_loading_on_course<T: AckSecret>(
    path: Seq<char>,
    process: u32,
    moment: Moment<LoadView<T>>,
) -> bool {
    &&& moment.disk.is_sound()
    &&& is_loading(moment.step, path, process)
    &&& moment.step matches LoadView::Publish(_, publish) ==> exists|secret: Seq<u8>|
        T::parsed(secret) is Ok && is_on_course(
            Task { path, process, contents: #[trigger] hex_text(secret) },
            publish,
            moment.open,
            moment.disk,
        )
}

proof fn lemma_one_step<T: AckSecret>(
    path: Seq<char>,
    process: u32,
    now: Moment<LoadView<T>>,
    next: Moment<LoadView<T>>,
)
    requires
        is_loading_on_course(path, process, now),
        is_kept(path, now.disk, next.seen),
        is_respected(path, now, next.seen),
        goes_on(now, next),
    ensures
        is_loading_on_course(path, process, next),
        is_kept(path, next.seen, next.disk),
        forall|name: Seq<char>|
            name != path && (forall|attempt: nat|
                !#[trigger] is_temporary_of(path, process as nat, attempt, name))
                ==> #[trigger] is_same(name, next.seen, next.disk),
{
    match now.step {
        LoadView::Check(loading) => {
            if next.step is Publish {
                let secret = choose|secret: Seq<u8>|
                    T::parsed(secret) is Ok && #[trigger] loading.publishes(secret, next.step);
                publishing_begins_on_course(
                    path,
                    process,
                    secret,
                    next.step->Publish_1,
                    next.open,
                    next.disk,
                );
            }
        },
        LoadView::Publish(loading, publish) => {
            let secret = choose|secret: Seq<u8>|
                T::parsed(secret) is Ok && is_on_course(
                    Task { path, process, contents: #[trigger] hex_text(secret) },
                    publish,
                    now.open,
                    now.disk,
                );
            let task = Task { path, process, contents: hex_text(secret) };
            let published = if load_succeeds(
                now.step,
                now.open,
                next.seen,
                next.step,
                next.open,
                next.disk,
            ) {
                choose|published: PublishView| #[trigger]
                    publish_succeeds(
                        publish,
                        now.open,
                        next.seen,
                        published,
                        next.open,
                        next.disk,
                    ) && next.step == loading.after_publish::<T>(published)
            } else {
                choose|published: PublishView| #[trigger]
                    publish_fails(publish, now.open, next.seen, published, next.open, next.disk)
                        && next.step == loading.after_publish::<T>(published)
            };
            publishing_stays_on_course(
                task,
                publish,
                now.open,
                now.disk,
                next.seen,
                published,
                next.open,
                next.disk,
            );
            assert forall|name: Seq<char>|
                name != path && (forall|attempt: nat|
                    !#[trigger] is_temporary_of(path, process as nat, attempt, name))
                implies #[trigger] is_same(name, next.seen, next.disk) by {
                if is_temporary_before(publish, name) {
                    let publication = match publish {
                        PublishView::Claim(publication, _)
                        | PublishView::Write(publication, _)
                        | PublishView::Link(publication)
                        | PublishView::Remove(publication, _) => publication,
                        _ => arbitrary(),
                    };
                    assert(is_temporary_of(
                        path,
                        process as nat,
                        publication.attempt as nat,
                        name,
                    ));
                }
            }
        },
        _ => {},
    }
}

/// In a run of loading whose temporary file is left alone, the file of the secret is never
/// replaced once it is there, not even where the run generated a secret for it.
pub proof fn a_run_keeps_the_secret<T: AckSecret>(
    moments: Seq<Moment<LoadView<T>>>,
    path: Seq<char>,
    autogen: bool,
    process: u32,
    i: int,
    j: int,
)
    requires
        is_run(moments, path, autogen, process),
        is_undisturbed(path, moments),
        0 <= i <= j < moments.len(),
    ensures
        is_loading_on_course(path, process, moments[j]),
        is_kept(path, moments[i].disk, moments[j].disk),
    decreases j,
{
    if j > 0 {
        let k = if i < j { i } else { j - 1 };
        a_run_keeps_the_secret(moments, path, autogen, process, k, j - 1);
        assert(goes_on(moments[j - 1], moments[j]));
        lemma_one_step(path, process, moments[j - 1], moments[j]);
    }
}

/// A run of loading whose temporary file is left alone adopts the secret of another process that
/// was first: where the file holds a secret at some moment, and the run ends with a key, that is
/// the key of this secret, and the file still holds it.
pub proof fn the_winners_key_is_adopted<T: AckSecret>(
    moments: Seq<Moment<LoadView<T>>>,
    path: Seq<char>,
    autogen: bool,
    process: u32,
    i: int,
    secret: Seq<u8>,
    key: T,
)
    requires
        is_run(moments, path, autogen, process),
        is_undisturbed(path, moments),
        0 <= i < moments.len(),
        moments[i].disk.holds(path),
        moments[i].disk.file_at(path).contents == hex_text(secret),
        T::parsed(secret) is Ok,
        moments.last().step == LoadView::Finished(Ok(key)),
    ensures
        T::parsed(secret) == Ok::<T, Seq<char>>(key),
        moments.last().disk.file_at(path) == moments[i].disk.file_at(path),
{
    let last = moments.len() - 1;
    a_run_keeps_the_secret(moments, path, autogen, process, i, last);
    a_run_gives_the_key_in_the_file(moments, path, autogen, process, last);
    lemma_read_back::<T>(path, secret);
}

/// Whether no name for a temporary file was found taken in a run of loading.
pub open spec fn is_unobstructed<T: AckSecret>(moments: Seq<Moment<LoadView<T>>>) -> bool {
    forall|i: int|
        0 < i < moments.len() ==> {
            let next = #[trigger] moments[i];
            moments[i - 1].step matches LoadView::Publish(_, PublishView::Claim(publication, _))
                ==> !next.seen.holds(publication.temporary)
        }
}

/// Whether a run of loading does not run out of names for a temporary file: the extension of the
/// path is clear, so that there is always another name to try as long as the attempts can be
/// counted, or the path names a file and no name was found taken.
pub open spec fn finds_a_name<T: AckSecret>(
    path: Seq<char>,
    moments: Seq<Moment<LoadView<T>>>,
) -> bool {
    ||| has_clear_extension(path) && moments.len() <= u32::MAX
    ||| names_a_file(path) && is_unobstructed(moments)
}

/// Whether publishing, if it is what `step` is at, has not failed, with at most `i` names found
/// taken.
pub open spec fn is_well_after<T>(i: int, step: LoadView<T>) -> bool {
    step matches LoadView::Publish(_, publish) ==> is_well(publish) && attempts_before(publish) <= i
}

/// Where no other process interferes and the first name for the temporary file is free, no name is
/// found taken.
pub proof fn a_free_name_is_unobstructed<T: AckSecret>(
    moments: Seq<Moment<LoadView<T>>>,
    path: Seq<char>,
    autogen: bool,
    process: u32,
)
    requires
        is_run(moments, path, autogen, process),
        is_alone(moments),
        is_free(path, process, moments[0].disk),
    ensures
        is_unobstructed(moments),
{
    assert forall|i: int| 0 < i < moments.len() implies {
        let next = #[trigger] moments[i];
        moments[i - 1].step matches LoadView::Publish(_, PublishView::Claim(publication, _))
            ==> !next.seen.holds(publication.temporary)
    } by {
        lemma_first_claim(moments, path, autogen, process, i - 1);
        lemma_alone_is_undisturbed(moments, path, autogen, process, i - 1);
        if let LoadView::Publish(_, PublishView::Claim(publication, _)) = moments[i - 1].step {
            assert(is_temporary_of(path, process as nat, 0, publication.temporary));
        }
    }
}

proof fn lemma_first_claim<T: AckSecret>(
    moments: Seq<Moment<LoadView<T>>>,
    path: Seq<char>,
    autogen: bool,
    process: u32,
    i: int,
)
    requires
        is_run(moments, path, autogen, process),
        is_alone(moments),
        is_free(path, process, moments[0].disk),
        0 <= i < moments.len(),
    ensures
        moments[i].step is Check ==> moments[i].disk == moments[0].disk,
        moments[i].step matches LoadView::Publish(_, publish) ==> publish is Claim || publish
            is CreateDirectory ==> moments[i].disk.names == moments[0].disk.names
            && attempts_before(publish) == 0,
    decreases i,
{
    if i > 0 {
        lemma_first_claim(moments, path, autogen, process, i - 1);
        lemma_alone_is_undisturbed(moments, path, autogen, process, i - 1);
        let now = moments[i - 1];
        let next = moments[i];
        assert(goes_on(now, next));
        assert(next.seen == now.disk);
        if let LoadView::Publish(_, PublishView::Claim(publication, _)) = now.step {
            assert(is_temporary_of(path, process as nat, 0, publication.temporary));
        }
    }
}

/// A step of loading that does not fail keeps publishing well.
proof fn lemma_well_step<T: AckSecret>(
    path: Seq<char>,
    process: u32,
    i: int,
    now: Moment<LoadView<T>>,
    next: Moment<LoadView<T>>,
)
    requires
        names_a_file(path),
        i >= 0,
        is_loading_on_course(path, process, now),
        is_kept(path, now.disk, next.seen),
        is_respected(path, now, next.seen),
        load_succeeds(now.step, now.open, next.seen, next.step, next.open, next.disk),
        is_well_after(i, now.step),
        now.step matches LoadView::Publish(_, PublishView::Claim(publication, _))
            ==> !next.seen.holds(publication.temporary) || has_clear_extension(path) && i
            < u32::MAX,
    ensures
        is_well_after(i + 1, next.step),
        now.step is Publish ==> !(next.step is Finished),
{
    match now.step {
        LoadView::Check(loading) => {
            if next.step is Publish {
                let secret = choose|secret: Seq<u8>|
                    T::parsed(secret) is Ok && #[trigger] loading.publishes(secret, next.step);
                let moment = Moment {
                    seen: next.seen,
                    step: next.step->Publish_1,
                    open: next.open,
                    disk: next.disk,
                };
                publishing_begins_under_way(path, process, secret, moment);
            }
        },
        LoadView::Publish(loading, publish) => {
            let secret = choose|secret: Seq<u8>|
                T::parsed(secret) is Ok && is_on_course(
                    Task { path, process, contents: #[trigger] hex_text(secret) },
                    publish,
                    now.open,
                    now.disk,
                );
            let task = Task { path, process, contents: hex_text(secret) };
            let published = choose|published: PublishView| #[trigger]
                publish_succeeds(publish, now.open, next.seen, published, next.open, next.disk)
                    && next.step == loading.after_publish::<T>(published);
            publishing_stays_on_course(
                task,
                publish,
                now.open,
                now.disk,
                next.seen,
                published,
                next.open,
                next.disk,
            );
            publishing_stays_well(
                task,
                Moment { seen: now.seen, step: publish, open: now.open, disk: now.disk },
                Moment { seen: next.seen, step: published, open: next.open, disk: next.disk },
            );
        },
        _ => {},
    }
}

proof fn lemma_no_error<T: AckSecret>(
    moments: Seq<Moment<LoadView<T>>>,
    path: Seq<char>,
    autogen: bool,
    process: u32,
    i: int,
    secret: Seq<u8>,
    j: int,
)
    requires
        is_run(moments, path, autogen, process),
        is_undisturbed(path, moments),
        is_faultless(moments),
        finds_a_name(path, moments),
        0 <= i < moments.len(),
        moments[i].disk.holds(path),
        moments[i].disk.file_at(path).contents == hex_text(secret),
        is_owner_only(moments[i].disk.file_at(path).mode),
        T::parsed(secret) is Ok,
        0 <= j < moments.len(),
    ensures
        is_well_after(j, moments[j].step),
        moments[j].step is Finished ==> moments[j].step == LoadView::<T>::Finished(
            T::parsed(secret),
        ),
    decreases j,
{
    if j > 0 {
        lemma_no_error(moments, path, autogen, process, i, secret, j - 1);
        a_run_keeps_the_secret(moments, path, autogen, process, j - 1, j - 1);
        a_run_gives_the_key_in_the_file(moments, path, autogen, process, j - 1);
        if i <= j - 1 {
            a_run_keeps_the_secret(moments, path, autogen, process, i, j - 1);
        } else {
            a_run_keeps_the_secret(moments, path, autogen, process, j, i);
        }
        let now = moments[j - 1];
        let next = moments[j];
        assert(goes_on(now, next));
        assert(is_kept(path, now.disk, next.seen));
        assert(load_succeeds(now.step, now.open, next.seen, next.step, next.open, next.disk));
        lemma_well_step(path, process, j - 1, now, next);
        match now.step {
            LoadView::Inspect(_) => {
                assert(next.seen.file_at(path) == moments[i].disk.file_at(path));
            },
            LoadView::Read(_) => {
                assert(next.seen.file_at(path) == moments[i].disk.file_at(path));
                lemma_read_back::<T>(path, secret);
            },
            _ => {},
        }
    }
}

/// Every run of loading whose temporary file is left alone and in which nothing fails ends with the
/// key of the secret that the file holds at some moment, whoever put it there, where nobody but
/// the owner has access to the file.
pub proof fn the_winners_key_is_loaded<T: AckSecret>(
    moments: Seq<Moment<LoadView<T>>>,
    path: Seq<char>,
    autogen: bool,
    process: u32,
    i: int,
    secret: Seq<u8>,
)
    requires
        is_run(moments, path, autogen, process),
        is_undisturbed(path, moments),
        is_faultless(moments),
        finds_a_name(path, moments),
        0 <= i < moments.len(),
        moments[i].disk.holds(path),
        moments[i].disk.file_at(path).contents == hex_text(secret),
        is_owner_only(moments[i].disk.file_at(path).mode),
        T::parsed(secret) is Ok,
    ensures
        moments.last().step is Finished ==> moments.last().step == LoadView::<T>::Finished(
            T::parsed(secret),
        ),
        moments.last().disk.file_at(path) == moments[i].disk.file_at(path),
{
    let last = moments.len() - 1;
    lemma_no_error(moments, path, autogen, process, i, secret, last);
    a_run_keeps_the_secret(moments, path, autogen, process, i, last);
}

proof fn lemma_read_back<T: AckSecret>(path: Seq<char>, secret: Seq<u8>)
    requires
        T::parsed(secret) is Ok,
    ensures
        decoded_key::<T>("Ack secret file "@ + path, hex_text(secret)) == T::parsed(secret),
{
    let none = Seq::<char>::empty();
    stored_secret_is_read_back::<T>("Ack secret file "@ + path, none, secret, none);
    assert(none + hex_text(secret) + none =~= hex_text(secret));
}

proof fn lemma_alone_is_undisturbed<T: AckSecret>(
    moments: Seq<Moment<LoadView<T>>>,
    path: Seq<char>,
    autogen: bool,
    process: u32,
    j: int,
)
    requires
        is_run(moments, path, autogen, process),
        is_alone(moments),
        0 <= j < moments.len(),
    ensures
        is_loading_on_course(path, process, moments[j]),
        forall|i: int|
            0 < i <= j ==> is_respected(path, moments[i - 1], (#[trigger] moments[i]).seen),
    decreases j,
{
    if j > 0 {
        lemma_alone_is_undisturbed(moments, path, autogen, process, j - 1);
        assert(goes_on(moments[j - 1], moments[j]));
        assert(moments[j].seen == moments[j - 1].disk);
        lemma_one_step(path, process, moments[j - 1], moments[j]);
    }
}

/// A run of loading that no other process interferes with leaves every file as it was, and creates
/// none, but for the file of the secret and its temporary file: whatever fails, the file of
/// another secret that was missing is still missing.
pub proof fn a_run_leaves_other_files_alone<T: AckSecret>(
    moments: Seq<Moment<LoadView<T>>>,
    path: Seq<char>,
    autogen: bool,
    process: u32,
    j: int,
    name: Seq<char>,
)
    requires
        is_run(moments, path, autogen, process),
        is_alone(moments),
        0 <= j < moments.len(),
        name != path,
        forall|attempt: nat| !#[trigger] is_temporary_of(path, process as nat, attempt, name),
    ensures
        is_same(name, moments[0].disk, moments[j].disk),
    decreases j,
{
    if j > 0 {
        a_run_leaves_other_files_alone(moments, path, autogen, process, j - 1, name);
        lemma_alone_is_undisturbed(moments, path, autogen, process, j);
        lemma_alone_is_undisturbed(moments, path, autogen, process, j - 1);
        assert(goes_on(moments[j - 1], moments[j]));
        assert(moments[j].seen == moments[j - 1].disk);
        lemma_one_step(path, process, moments[j - 1], moments[j]);
        assert(is_same(name, moments[j].seen, moments[j].disk));
    }
}

/// Whether `moment` is one of a run of loading in which the file was missing at first, when the
/// disk was `first`, `secret` was generated for it, nothing failed and no other process did
/// anything.
pub open spec fn is_minting<T: AckSecret>(
    loading: LoadingView,
    secret: Seq<u8>,
    first: Disk,
    moment: Moment<LoadView<T>>,
) -> bool {
    let task = Task { path: loading.path, process: loading.process, contents: hex_text(secret) };
    match moment.step {
        LoadView::Check(_) => false,
        LoadView::Publish(about, publish) => about == loading && !(publish is Finished)
            && is_under_way(
            task,
            first,
            Moment { seen: moment.seen, step: publish, open: moment.open, disk: moment.disk },
        ),
        LoadView::Inspect(about) => about == loading && is_published(
            loading.path,
            task.contents,
            first,
            moment.disk,
        ),
        LoadView::Read(about) => about == loading && is_published(
            loading.path,
            task.contents,
            first,
            moment.disk,
        ),
        LoadView::Finished(result) => result == T::parsed(secret) && is_published(
            loading.path,
            task.contents,
            first,
            moment.disk,
        ),
    }
}

proof fn lemma_minting<T: AckSecret>(
    loading: LoadingView,
    secret: Seq<u8>,
    first: Disk,
    now: Moment<LoadView<T>>,
    next: Moment<LoadView<T>>,
)
    requires
        T::parsed(secret) is Ok,
        first.is_sound(),
        !first.holds(loading.path),
        is_minting(loading, secret, first, now),
        load_succeeds(now.step, now.open, now.disk, next.step, next.open, next.disk),
        next.step matches LoadView::Publish(_, publish) ==> is_well(publish),
        now.step is Publish ==> !(next.step is Finished),
    ensures
        is_minting(loading, secret, first, next),
{
    let path = loading.path;
    let task = Task { path, process: loading.process, contents: hex_text(secret) };
    match now.step {
        LoadView::Publish(_, publish) => {
            let published = choose|published: PublishView| #[trigger]
                publish_succeeds(publish, now.open, now.disk, published, next.open, next.disk)
                    && next.step == loading.after_publish::<T>(published);
            let from = Moment { seen: now.seen, step: publish, open: now.open, disk: now.disk };
            let to = Moment { seen: next.seen, step: published, open: next.open, disk: next.disk };
            publishing_stays_under_way(task, first, from, to);
            if published is Finished {
                the_end_of_the_way_is_published(task, first, to);
            }
        },
        _ => {
            lemma_read_back::<T>(path, secret);
        },
    }
}

proof fn lemma_minting_run<T: AckSecret>(
    moments: Seq<Moment<LoadView<T>>>,
    path: Seq<char>,
    process: u32,
    secret: Seq<u8>,
    i: int,
)
    requires
        is_run(moments, path, true, process),
        is_alone(moments),
        is_faultless(moments),
        finds_a_name(path, moments),
        T::parsed(secret) is Ok,
        !moments[0].disk.holds(path),
        1 <= i < moments.len(),
        (LoadingView { path, process }).publishes(secret, moments[1].step),
    ensures
        is_minting(LoadingView { path, process }, secret, moments[0].disk, moments[i]),
        is_well_after(i, moments[i].step),
    decreases i,
{
    let loading = LoadingView { path, process };
    let first = moments[0].disk;
    let now = moments[i - 1];
    let next = moments[i];
    assert(next.seen == now.disk);
    assert(load_succeeds(now.step, now.open, next.seen, next.step, next.open, next.disk));
    if i == 1 {
        let moment = Moment {
            seen: next.seen,
            step: next.step->Publish_1,
            open: next.open,
            disk: next.disk,
        };
        publishing_begins_under_way(path, process, secret, moment);
    } else {
        lemma_minting_run(moments, path, process, secret, i - 1);
        lemma_alone_is_undisturbed(moments, path, true, process, i - 1);
        lemma_alone_is_undisturbed(moments, path, true, process, i);
        assert(goes_on(now, next));
        assert(is_kept(path, now.disk, next.seen));
        lemma_well_step(path, process, i - 1, now, next);
        lemma_minting(loading, secret, first, now, next);
    }
}

/// Whether a run of loading has ended with a secret that was generated: the run ends with its key,
/// the file of the secret holds it, and nothing else has changed.
pub open spec fn has_minted<T: AckSecret>(
    path: Seq<char>,
    secret: Seq<u8>,
    first: Disk,
    last: Moment<LoadView<T>>,
) -> bool {
    &&& T::parsed(secret) is Ok
    &&& last.step == LoadView::<T>::Finished(T::parsed(secret))
    &&& is_published(path, hex_text(secret), first, last.disk)
    &&& is_whole(last.disk.file_at(path), hex_text(secret))
}

/// Where generating secrets is on and the file of one is missing, every run of loading in which
/// nothing fails and no other process interferes ends with the key of a secret that was generated
/// and is now in the file, whatever is left over from earlier attempts.
pub proof fn a_missing_secret_is_minted<T: AckSecret>(
    moments: Seq<Moment<LoadView<T>>>,
    path: Seq<char>,
    process: u32,
)
    requires
        is_run(moments, path, true, process),
        is_alone(moments),
        is_faultless(moments),
        finds_a_name(path, moments),
        !moments[0].disk.holds(path),
        moments.last().step is Finished,
    ensures
        exists|secret: Seq<u8>| #[trigger]
            has_minted(path, secret, moments[0].disk, moments.last()),
{
    let first = moments[0].disk;
    let loading = LoadingView { path, process };
    assert(moments[1].seen == first);
    assert(load_succeeds(
        moments[0].step,
        moments[0].open,
        moments[1].seen,
        moments[1].step,
        moments[1].open,
        moments[1].disk,
    ));
    let secret = choose|secret: Seq<u8>|
        T::parsed(secret) is Ok && #[trigger] loading.publishes(secret, moments[1].step);
    lemma_minting_run(moments, path, process, secret, moments.len() - 1);
    assert(has_minted(path, secret, first, moments.last()));
}

/// Loading a file that holds a secret in hexadecimal form, and to which only the owner has access,
/// ends with the key of that secret, if nothing fails.
pub proof fn a_stored_secret_loads<T: AckSecret>(
    moments: Seq<Moment<LoadView<T>>>,
    path: Seq<char>,
    autogen: bool,
    process: u32,
    secret: Seq<u8>,
)
    requires
        is_run(moments, path, autogen, process),
        is_faultless(moments),
        T::parsed(secret) is Ok,
        moments[0].disk.holds(path),
        moments[0].disk.file_at(path).contents == hex_text(secret),
        is_owner_only(moments[0].disk.file_at(path).mode),
    ensures
        moments.last().step is Finished ==> moments.last().step == LoadView::<T>::Finished(
            T::parsed(secret),
        ),
{
    lemma_read_back::<T>(path, secret);
    if moments.last().step is Finished {
        lemma_existing_file_loads(moments, path, autogen, process, T::parsed(secret)->Ok_0);
    }
}

/// How much of loading is still to be done from `step` on.
pub open spec fn loading_left<T>(step: LoadView<T>) -> nat {
    match step {
        LoadView::Check(_) => 11,
        LoadView::Publish(_, publish) => 3 + steps_left(publish),
        LoadView::Inspect(_) => 2,
        LoadView::Read(_) => 1,
        LoadView::Finished(_) => 0,
    }
}

/// Loading never gets stuck: before it has come to its end, an operation that does what it is named
/// after always leads on. `secret` is what may be generated for a missing file, and `fresh` a
/// number that no file has.
pub proof fn loading_is_never_stuck<T: AckSecret>(
    path: Seq<char>,
    process: u32,
    now: Moment<LoadView<T>>,
    secret: Seq<u8>,
    fresh: nat,
) -> (next: Moment<LoadView<T>>)
    requires
        names_a_file(path),
        T::parsed(secret) is Ok,
        is_loading_on_course(path, process, now),
        !(now.step is Finished),
        now.step is Inspect || now.step is Read ==> now.disk.holds(path),
        now.step matches LoadView::Publish(_, publish) ==> {
            let task = Task { path, process, contents: Seq::empty() };
            &&& !(publish is Finished)
            &&& is_in_place(task, publish, now.disk)
            &&& publish matches PublishView::Remove(publication, _) ==> now.disk.holds(
                publication.temporary,
            )
            &&& publish matches PublishView::Claim(publication, _)
                ==> !now.disk.files.contains_key(fresh) && (is_plain_path(path)
                || now.disk.has_place_for(publication.temporary))
        },
    ensures
        next.seen == now.disk,
        load_succeeds(now.step, now.open, now.disk, next.step, next.open, next.disk),
{
    let seen = now.disk;
    let open = now.open;
    match now.step {
        LoadView::Check(loading) => {
            if seen.holds(path) {
                Moment { seen, step: LoadView::Inspect(loading), open, disk: seen }
            } else {
                let publish = publishing_can_begin(path, process, secret);
                let step = LoadView::<T>::Publish(loading, publish);
                assert(loading.publishes(secret, step));
                Moment { seen, step, open, disk: seen }
            }
        },
        LoadView::Publish(loading, publish) => {
            let written = choose|written: Seq<u8>|
                T::parsed(written) is Ok && is_on_course(
                    Task { path, process, contents: #[trigger] hex_text(written) },
                    publish,
                    open,
                    seen,
                );
            let task = Task { path, process, contents: hex_text(written) };
            let moment = Moment { seen: now.seen, step: publish, open, disk: seen };
            let to = publishing_is_never_stuck(task, moment, fresh);
            let step = loading.after_publish::<T>(to.step);
            assert(publish_succeeds(publish, open, seen, to.step, to.open, to.disk));
            Moment { seen, step, open: to.open, disk: to.disk }
        },
        LoadView::Inspect(loading) => {
            let step = loading.after_inspect::<T>(Ok(Some(seen.file_at(path).mode)));
            Moment { seen, step, open, disk: seen }
        },
        LoadView::Read(loading) => {
            let step = loading.after_read::<T>(Ok(seen.file_at(path).contents));
            Moment { seen, step, open, disk: seen }
        },
        LoadView::Finished(_) => arbitrary(),
    }
}

/// Loading comes to an end: every step leaves less to be done, whatever fails, but for one that
/// finds the name for a temporary file taken, after which the next name is tried.
pub proof fn loading_comes_to_an_end<T: AckSecret>(
    path: Seq<char>,
    process: u32,
    now: Moment<LoadView<T>>,
    next: Moment<LoadView<T>>,
)
    requires
        is_loading_on_course(path, process, now),
        is_respected(path, now, next.seen),
        is_kept(path, now.disk, next.seen),
        goes_on(now, next),
    ensures
        ({
            ||| loading_left(next.step) < loading_left(now.step)
            ||| {
                &&& now.step matches LoadView::Publish(_, PublishView::Claim(_, _))
                &&& next.step matches LoadView::Publish(_, PublishView::Claim(_, _))
                &&& attempts_before(next.step->Publish_1) == attempts_before(now.step->Publish_1)
                    + 1
            }
        }),
        loading_left(now.step) == 0 <==> now.step is Finished,
{
    if let LoadView::Publish(loading, publish) = now.step {
        let secret = choose|secret: Seq<u8>|
            T::parsed(secret) is Ok && is_on_course(
                Task { path, process, contents: #[trigger] hex_text(secret) },
                publish,
                now.open,
                now.disk,
            );
        let task = Task { path, process, contents: hex_text(secret) };
        let published = if load_succeeds(
            now.step,
            now.open,
            next.seen,
            next.step,
            next.open,
            next.disk,
        ) {
            choose|published: PublishView| #[trigger]
                publish_succeeds(publish, now.open, next.seen, published, next.open, next.disk)
                    && next.step == loading.after_publish::<T>(published)
        } else {
            choose|published: PublishView| #[trigger]
                publish_fails(publish, now.open, next.seen, published, next.open, next.disk)
                    && next.step == loading.after_publish::<T>(published)
        };
        publishing_stays_on_course(
            task,
            publish,
            now.open,
            now.disk,
            next.seen,
            published,
            next.open,
            next.disk,
        );
        publishing_comes_to_an_end(
            task,
            Moment { seen: now.seen, step: publish, open: now.open, disk: now.disk },
            Moment { seen: next.seen, step: published, open: next.open, disk: next.disk },
        );
    }
}

proof fn lemma_longer<T: AckSecret>(
    moments: Seq<Moment<LoadView<T>>>,
    path: Seq<char>,
    autogen: bool,
    process: u32,
    next: Moment<LoadView<T>>,
)
    requires
        is_run(moments, path, autogen, process),
        is_alone(moments),
        is_faultless(moments),
        next.seen == moments.last().disk,
        load_succeeds(
            moments.last().step,
            moments.last().open,
            next.seen,
            next.step,
            next.open,
            next.disk,
        ),
    ensures
        is_run(moments.push(next), path, autogen, process),
        is_alone(moments.push(next)),
        is_faultless(moments.push(next)),
        moments.push(next)[0] == moments[0],
{
    let longer = moments.push(next);
    assert forall|i: int| 0 < i < longer.len() implies {
        let a = longer[i - 1];
        let b = #[trigger] longer[i];
        &&& b.seen == a.disk
        &&& is_kept(path, a.disk, b.seen)
        &&& load_succeeds(a.step, a.open, b.seen, b.step, b.open, b.disk)
        &&& goes_on(a, b)
    } by {
        if i < moments.len() {
            assert(longer[i] == moments[i] && longer[i - 1] == moments[i - 1]);
        } else {
            assert(longer[i - 1] == moments.last() && longer[i] == next);
        }
    }
}

proof fn lemma_mint_to_the_end<T: AckSecret>(
    moments: Seq<Moment<LoadView<T>>>,
    path: Seq<char>,
    process: u32,
    secret: Seq<u8>,
    fresh: nat,
) -> (run: Seq<Moment<LoadView<T>>>)
    requires
        names_a_file(path),
        T::parsed(secret) is Ok,
        is_run(moments, path, true, process),
        is_alone(moments),
        is_faultless(moments),
        !moments[0].disk.holds(path),
        has_room(path, process, moments[0].disk, fresh),
        is_minting(LoadingView { path, process }, secret, moments[0].disk, moments.last()),
        is_well_after(0, moments.last().step),
    ensures
        is_run(run, path, true, process),
        is_alone(run),
        is_faultless(run),
        run[0] == moments[0],
        has_minted(path, secret, moments[0].disk, run.last()),
    decreases loading_left(moments.last().step),
{
    let loading = LoadingView { path, process };
    let task = Task { path, process, contents: hex_text(secret) };
    let first = moments[0].disk;
    let now = moments.last();
    if now.step is Finished {
        moments
    } else {
        lemma_alone_is_undisturbed(moments, path, true, process, moments.len() - 1);
        if let LoadView::Publish(_, publish) = now.step {
            if let PublishView::Claim(publication, _) = publish {
                assert(is_temporary_of(path, process as nat, 0, publication.temporary));
            }
        }
        let next = loading_is_never_stuck(path, process, now, secret, fresh);
        assert(goes_on(now, next));
        lemma_well_step(path, process, 0, now, next);
        loading_comes_to_an_end(path, process, now, next);
        lemma_minting(loading, secret, first, now, next);
        if let LoadView::Publish(_, publish) = next.step {
            assert(attempts_before(publish) == 0) by {
                if let LoadView::Publish(_, from) = now.step {
                    let published = choose|published: PublishView| #[trigger]
                        publish_succeeds(from, now.open, now.disk, published, next.open, next.disk)
                            && next.step == loading.after_publish::<T>(published);
                    assert(published == publish);
                }
            }
        }
        lemma_longer(moments, path, true, process, next);
        lemma_mint_to_the_end(moments.push(next), path, process, secret, fresh)
    }
}

/// A run of loading that mints a missing secret exists: for every path that names a file, on every
/// disk without that file but with room for the temporary one, whether or not the directory is
/// there yet, and for every secret that may be generated, steps that all do what they are named
/// after lead from the first step of loading to the key of that secret, with the secret in the
/// file and nothing else changed.
pub proof fn a_missing_secret_can_be_minted<T: AckSecret>(
    path: Seq<char>,
    process: u32,
    secret: Seq<u8>,
    disk: Disk,
    fresh: nat,
) -> (run: Seq<Moment<LoadView<T>>>)
    requires
        names_a_file(path),
        T::parsed(secret) is Ok,
        disk.is_sound(),
        !disk.holds(path),
        has_room(path, process, disk, fresh),
    ensures
        is_run(run, path, true, process),
        is_alone(run),
        is_faultless(run),
        run[0].disk == disk,
        has_minted(path, secret, disk, run.last()),
{
    let loading = LoadingView { path, process };
    let start = Moment {
        seen: disk,
        step: load_start::<T>(path, true, process),
        open: fresh,
        disk,
    };
    let publish = publishing_can_begin(path, process, secret);
    let step = LoadView::<T>::Publish(loading, publish);
    assert(loading.publishes(secret, step));
    let next = Moment { seen: disk, step, open: fresh, disk };
    let moment = Moment { seen: disk, step: publish, open: fresh, disk };
    publishing_begins_under_way(path, process, secret, moment);
    publishing_begins_with_the_directory(path, process, secret, publish);
    loading_looks_for_the_file_exactly_with_autogen::<T>(path, true, process);
    lemma_longer(seq![start], path, true, process, next);
    lemma_mint_to_the_end(seq![start].push(next), path, process, secret, fresh)
}

/// A run of loading a file that is there exists, whether or not missing secrets are generated: it
/// changes nothing and ends with what the text of the file gives, if nobody but the owner has
/// access to the file, and with an error otherwise.
pub proof fn a_present_file_can_be_loaded<T: AckSecret>(
    path: Seq<char>,
    autogen: bool,
    process: u32,
    disk: Disk,
) -> (run: Seq<Moment<LoadView<T>>>)
    requires
        disk.is_sound(),
        disk.holds(path),
    ensures
        is_run(run, path, autogen, process),
        is_alone(run),
        is_faultless(run),
        run[0].disk == disk,
        run.last().disk == disk,
        disk.file_at(path).mode % 64 == 0 ==> run.last().step == LoadView::<T>::Finished(
            decoded_key::<T>("Ack secret file "@ + path, disk.file_at(path).contents),
        ),
        disk.file_at(path).mode % 64 != 0 ==> (run.last().step matches LoadView::Finished(Err(_))),
{
    let loading = LoadingView { path, process };
    let file = disk.file_at(path);
    loading_looks_for_the_file_exactly_with_autogen::<T>(path, autogen, process);
    loading_goes_on_in_order::<T>(
        loading,
        PublishView::Finished(Ok(())),
        file.mode,
        file.contents,
        Seq::empty(),
    );
    let start = Moment {
        seen: disk,
        step: load_start::<T>(path, autogen, process),
        open: 0,
        disk,
    };
    let inspect = Moment { seen: disk, step: LoadView::<T>::Inspect(loading), open: 0, disk };
    let begun = if autogen {
        lemma_longer(seq![start], path, autogen, process, inspect);
        seq![start].push(inspect)
    } else {
        seq![start]
    };
    let step = loading.after_inspect::<T>(Ok(Some(file.mode)));
    let inspected = Moment { seen: disk, step, open: 0, disk };
    lemma_longer(begun, path, autogen, process, inspected);
    let so_far = begun.push(inspected);
    if file.mode % 64 == 0 {
        let step = loading.after_read::<T>(Ok(file.contents));
        let last = Moment { seen: disk, step, open: 0, disk };
        lemma_longer(so_far, path, autogen, process, last);
        so_far.push(last)
    } else {
        so_far
    }
}

} // verus!
