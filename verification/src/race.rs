//! What holds of a secret file while any number of processes publish in it at once.
//!
//! Their steps follow each other in any order, and any of their operations may fail. A process may
//! stop for good before any of its steps. No two of them need to have different ids.

use crate::disk::{
    created, is_kept, is_only_name, is_same, is_whole, publish_performed, publish_succeeds,
    write_fails, write_succeeds, Disk,
};
use crate::hexadecimal::hex_text;
use crate::publish::{begins_to_publish, PublishView, WriteSecretView};
use crate::stability::{
    claimed_name, is_left_alone, is_on_course, lemma_write_on_course,
    publishing_begins_on_course, publishing_stays_on_course, Task,
};
use vstd::prelude::*;

verus! {

/// What a process is about to do, and the file that it has open.
pub struct Publisher {
    pub step: PublishView,
    pub open: nat,
}

/// A moment in which several processes publish. `mover` is the one that took the step that led
/// here, or any other number where the disk was changed by none of them.
pub struct Race {
    pub publishers: Seq<Publisher>,
    pub disk: Disk,
    pub mover: int,
}

/// The name of the temporary file that publishing has created before `step`, and not yet tried to
/// remove.
pub open spec fn held_name(step: PublishView) -> Option<Seq<char>> {
    match step {
        PublishView::Remove(publication, _) => Some(publication.temporary),
        _ => claimed_name(step),
    }
}

/// What the process with the number `k` is to publish.
pub open spec fn task_of(
    path: Seq<char>,
    processes: Seq<u32>,
    secrets: Seq<Seq<u8>>,
    k: int,
) -> Task {
    Task { path, process: processes[k], contents: hex_text(secrets[k]) }
}

/// Whether a step of one of the processes leads from `now` to `next`.
pub open spec fn is_move(now: Race, next: Race) -> bool {
    let k = next.mover;
    &&& 0 <= k < now.publishers.len()
    &&& publish_performed(
        now.publishers[k].step,
        now.publishers[k].open,
        now.disk,
        next.publishers[k].step,
        next.publishers[k].open,
        next.disk,
    )
    &&& next.publishers == now.publishers.update(k, next.publishers[k])
}

/// Whether `next` differs from `now` by something that has nothing to do with the processes: the
/// name to publish under and the temporary names that they hold stay as they are.
pub open spec fn is_elsewhere(
    path: Seq<char>,
    processes: Seq<u32>,
    secrets: Seq<Seq<u8>>,
    now: Race,
    next: Race,
) -> bool {
    &&& !(0 <= next.mover < now.publishers.len())
    &&& next.publishers == now.publishers
    &&& next.disk.is_sound()
    &&& is_same(path, now.disk, next.disk)
    &&& forall|k: int|
        0 <= k < now.publishers.len() ==> {
            let step = (#[trigger] now.publishers[k]).step;
            &&& is_left_alone(task_of(path, processes, secrets, k), step, now.disk, next.disk)
            &&& held_name(step) matches Some(name) ==> next.disk.holds(name)
        }
}

/// Whether `moments` are what happens when processes with the ids `processes` publish `secrets` in
/// the file at `path`.
pub open spec fn is_race(
    path: Seq<char>,
    processes: Seq<u32>,
    secrets: Seq<Seq<u8>>,
    moments: Seq<Race>,
) -> bool {
    &&& moments.len() > 0
    &&& secrets.len() == processes.len()
    &&& moments[0].publishers.len() == processes.len()
    &&& moments[0].disk.is_sound()
    &&& forall|k: int|
        0 <= k < processes.len() ==> begins_to_publish(
            path,
            processes[k],
            secrets[k],
            (#[trigger] moments[0].publishers[k]).step,
        )
    &&& forall|i: int|
        0 < i < moments.len() ==> is_move(moments[i - 1], #[trigger] moments[i]) || is_elsewhere(
            path,
            processes,
            secrets,
            moments[i - 1],
            moments[i],
        )
}

/// Whether every process is on its course, and each holds a temporary file of its own.
pub open spec fn is_fair(
    path: Seq<char>,
    processes: Seq<u32>,
    secrets: Seq<Seq<u8>>,
    now: Race,
) -> bool {
    &&& now.disk.is_sound()
    &&& secrets.len() == processes.len()
    &&& now.publishers.len() == processes.len()
    &&& forall|k: int|
        0 <= k < processes.len() ==> {
            let publisher = #[trigger] now.publishers[k];
            &&& is_on_course(
                task_of(path, processes, secrets, k),
                publisher.step,
                publisher.open,
                now.disk,
            )
            &&& held_name(publisher.step) matches Some(name) ==> name != path && now.disk.holds(
                name,
            )
        }
    &&& forall|k: int, l: int|
        0 <= k < l < processes.len() && held_name((#[trigger] now.publishers[k]).step) is Some
            && held_name((#[trigger] now.publishers[l]).step) is Some ==> held_name(
            now.publishers[k].step,
        ) != held_name(now.publishers[l].step)
}

/// A step of one process leaves the temporary file of another as it is, with no other name.
pub proof fn a_step_leaves_the_temporary_files_of_others_alone(
    task: Task,
    step: PublishView,
    open: nat,
    pre: Disk,
    next: PublishView,
    opened: nat,
    post: Disk,
    name: Seq<char>,
)
    requires
        is_on_course(task, step, open, pre),
        publish_performed(step, open, pre, next, opened, post),
        is_only_name(name, pre),
        name != task.path,
        held_name(step) != Some(name),
    ensures
        is_only_name(name, post),
        post.names[name] == pre.names[name],
        post.file_at(name) == pre.file_at(name),
{
    assert(pre.names.contains_key(name));
    assert(pre.files.contains_key(pre.names[name]));
    match step {
        PublishView::Claim(publication, write) => {
            if created(pre, publication.temporary, opened, post) {
                assert forall|other: Seq<char>|
                    other != name && #[trigger] post.names.contains_key(
                        other,
                    ) implies post.names[other] != post.names[name] by {
                    if other != publication.temporary {
                        assert(pre.names.contains_key(other));
                    }
                }
            }
        },
        PublishView::Write(publication, write) => {
            let written = if publish_succeeds(step, open, pre, next, opened, post) {
                choose|written: WriteSecretView| #[trigger]
                    write_succeeds(write, open, pre, written, opened, post) && next
                        == publication.after_write(written)
            } else {
                choose|written: WriteSecretView| #[trigger]
                    write_fails(write, open, pre, written, opened, post) && next
                        == publication.after_write(written)
            };
            lemma_write_on_course(task, publication, write, open, pre, written, opened, post);
            assert(pre.names.contains_key(publication.temporary));
        },
        PublishView::Link(publication) => {
            assert(pre.names.contains_key(publication.temporary));
            assert forall|other: Seq<char>|
                other != name && #[trigger] post.names.contains_key(
                    other,
                ) implies post.names[other] != post.names[name] by {
                if other != task.path {
                    assert(pre.names.contains_key(other));
                }
            }
        },
        PublishView::Remove(publication, _) => {
            assert forall|other: Seq<char>|
                other != name && #[trigger] post.names.contains_key(
                    other,
                ) implies post.names[other] != post.names[name] by {
                assert(pre.names.contains_key(other));
            }
        },
        _ => {},
    }
}

proof fn lemma_stays_on_course(task: Task, step: PublishView, open: nat, pre: Disk, post: Disk)
    requires
        is_on_course(task, step, open, pre),
        is_left_alone(task, step, pre, post),
    ensures
        is_on_course(task, step, open, post),
{
}

proof fn lemma_move(
    path: Seq<char>,
    processes: Seq<u32>,
    secrets: Seq<Seq<u8>>,
    now: Race,
    next: Race,
)
    requires
        is_fair(path, processes, secrets, now),
        is_move(now, next),
    ensures
        is_fair(path, processes, secrets, next),
        is_kept(path, now.disk, next.disk),
        !now.disk.holds(path) && next.disk.holds(path) ==> is_whole(
            next.disk.file_at(path),
            hex_text(secrets[next.mover]),
        ),
{
    let k = next.mover;
    let task = task_of(path, processes, secrets, k);
    let step = now.publishers[k].step;
    let open = now.publishers[k].open;
    let after = next.publishers[k].step;
    let opened = next.publishers[k].open;
    publishing_stays_on_course(task, step, open, now.disk, now.disk, after, opened, next.disk);
    // What the mover holds now is what it held, or a name that was free.
    assert(held_name(after) matches Some(name) ==> name != path && next.disk.holds(name) && (
    held_name(step) == Some(name) || !now.disk.holds(name))) by {
        lemma_held(task, step, open, now.disk, after, opened, next.disk);
    }
    assert forall|l: int| 0 <= l < processes.len() implies {
        let publisher = #[trigger] next.publishers[l];
        &&& is_on_course(
            task_of(path, processes, secrets, l),
            publisher.step,
            publisher.open,
            next.disk,
        )
        &&& held_name(publisher.step) matches Some(name) ==> name != path && next.disk.holds(name)
    } by {
        if l != k {
            let other = now.publishers[l];
            assert(next.publishers[l] == other);
            if let Some(name) = held_name(other.step) {
                assert(held_name(step) != Some(name)) by {
                    if l < k {
                        assert(now.publishers[l] == other && now.publishers[k].step == step);
                    }
                }
                lemma_name_stays(task, step, open, now.disk, after, opened, next.disk, name);
            }
            if let Some(name) = claimed_name(other.step) {
                a_step_leaves_the_temporary_files_of_others_alone(
                    task,
                    step,
                    open,
                    now.disk,
                    after,
                    opened,
                    next.disk,
                    name,
                );
            }
            lemma_stays_on_course(
                task_of(path, processes, secrets, l),
                other.step,
                other.open,
                now.disk,
                next.disk,
            );
        }
    }
    assert forall|a: int, b: int|
        0 <= a < b < processes.len() && held_name((#[trigger] next.publishers[a]).step) is Some
            && held_name((#[trigger] next.publishers[b]).step) is Some implies held_name(
        next.publishers[a].step,
    ) != held_name(next.publishers[b].step) by {
        if a == k {
            assert(next.publishers[b] == now.publishers[b]);
            assert(now.publishers[a].step == step);
        } else if b == k {
            assert(next.publishers[a] == now.publishers[a]);
            assert(now.publishers[b].step == step);
        } else {
            assert(next.publishers[a] == now.publishers[a]);
            assert(next.publishers[b] == now.publishers[b]);
        }
    }
}

proof fn lemma_held(
    task: Task,
    step: PublishView,
    open: nat,
    pre: Disk,
    next: PublishView,
    opened: nat,
    post: Disk,
)
    requires
        is_on_course(task, step, open, pre),
        held_name(step) matches Some(name) ==> name != task.path && pre.holds(name),
        publish_performed(step, open, pre, next, opened, post),
    ensures
        held_name(next) matches Some(name) ==> name != task.path && post.holds(name) && (held_name(
            step,
        ) == Some(name) || !pre.holds(name)),
{
}

proof fn lemma_name_stays(
    task: Task,
    step: PublishView,
    open: nat,
    pre: Disk,
    next: PublishView,
    opened: nat,
    post: Disk,
    name: Seq<char>,
)
    requires
        is_on_course(task, step, open, pre),
        publish_performed(step, open, pre, next, opened, post),
        pre.holds(name),
        held_name(step) != Some(name),
    ensures
        post.holds(name),
{
}

proof fn lemma_race(
    path: Seq<char>,
    processes: Seq<u32>,
    secrets: Seq<Seq<u8>>,
    moments: Seq<Race>,
    i: int,
)
    requires
        is_race(path, processes, secrets, moments),
        0 <= i < moments.len(),
    ensures
        is_fair(path, processes, secrets, moments[i]),
        i > 0 ==> is_kept(path, moments[i - 1].disk, moments[i].disk),
        i > 0 && !moments[i - 1].disk.holds(path) && moments[i].disk.holds(path) ==> {
            &&& 0 <= moments[i].mover < secrets.len()
            &&& is_whole(moments[i].disk.file_at(path), hex_text(secrets[moments[i].mover]))
        },
    decreases i,
{
    if i == 0 {
        assert forall|k: int| 0 <= k < processes.len() implies {
            let publisher = #[trigger] moments[0].publishers[k];
            &&& held_name(publisher.step) is None
            &&& is_on_course(
                task_of(path, processes, secrets, k),
                publisher.step,
                publisher.open,
                moments[0].disk,
            )
        } by {
            let publisher = moments[0].publishers[k];
            publishing_begins_on_course(
                path,
                processes[k],
                secrets[k],
                publisher.step,
                publisher.open,
                moments[0].disk,
            );
        }
    } else {
        lemma_race(path, processes, secrets, moments, i - 1);
        let now = moments[i - 1];
        let next = moments[i];
        if is_move(now, next) {
            lemma_move(path, processes, secrets, now, next);
        } else {
            assert forall|k: int| 0 <= k < processes.len() implies is_on_course(
                task_of(path, processes, secrets, k),
                (#[trigger] next.publishers[k]).step,
                next.publishers[k].open,
                next.disk,
            ) by {
                let publisher = now.publishers[k];
                lemma_stays_on_course(
                    task_of(path, processes, secrets, k),
                    publisher.step,
                    publisher.open,
                    now.disk,
                    next.disk,
                );
            }
        }
    }
}

/// Once a secret file is there, no process ever changes it, however many publish in it at once.
pub proof fn a_race_keeps_the_published_file(
    path: Seq<char>,
    processes: Seq<u32>,
    secrets: Seq<Seq<u8>>,
    moments: Seq<Race>,
    i: int,
    j: int,
)
    requires
        is_race(path, processes, secrets, moments),
        0 <= i <= j < moments.len(),
    ensures
        is_kept(path, moments[i].disk, moments[j].disk),
    decreases j,
{
    if i < j {
        a_race_keeps_the_published_file(path, processes, secrets, moments, i, j - 1);
        lemma_race(path, processes, secrets, moments, j);
    }
}

/// Whether the file at `path` holds the whole of one of `secrets`, on the disk and with no access
/// for group and others.
pub open spec fn holds_one_of(path: Seq<char>, secrets: Seq<Seq<u8>>, disk: Disk) -> bool {
    exists|k: int|
        0 <= k < secrets.len() && is_whole(
            disk.file_at(path),
            hex_text(#[trigger] secrets[k]),
        )
}

/// A secret file that is missing at first is, at every moment, missing or holds the whole of one
/// of the secrets that are published.
pub proof fn a_race_publishes_one_secret(
    path: Seq<char>,
    processes: Seq<u32>,
    secrets: Seq<Seq<u8>>,
    moments: Seq<Race>,
    i: int,
)
    requires
        is_race(path, processes, secrets, moments),
        !moments[0].disk.holds(path),
        0 <= i < moments.len(),
    ensures
        moments[i].disk.holds(path) ==> holds_one_of(path, secrets, moments[i].disk),
    decreases i,
{
    if i > 0 {
        a_race_publishes_one_secret(path, processes, secrets, moments, i - 1);
        lemma_race(path, processes, secrets, moments, i);
        if moments[i].disk.holds(path) {
            if moments[i - 1].disk.holds(path) {
                let k = choose|k: int|
                    0 <= k < secrets.len() && is_whole(
                        moments[i - 1].disk.file_at(path),
                        hex_text(#[trigger] secrets[k]),
                    );
                assert(is_whole(moments[i].disk.file_at(path), hex_text(secrets[k])));
            } else {
                let k = moments[i].mover;
                assert(is_whole(moments[i].disk.file_at(path), hex_text(secrets[k])));
            }
        }
    }
}

/// No process reports success before the secret file is there.
pub proof fn success_in_a_race_means_published(
    path: Seq<char>,
    processes: Seq<u32>,
    secrets: Seq<Seq<u8>>,
    moments: Seq<Race>,
    i: int,
    k: int,
)
    requires
        is_race(path, processes, secrets, moments),
        0 <= i < moments.len(),
        0 <= k < processes.len(),
        moments[i].publishers[k].step == PublishView::Finished(Ok(())),
    ensures
        moments[i].disk.holds(path),
{
    lemma_race(path, processes, secrets, moments, i);
    assert(is_on_course(
        task_of(path, processes, secrets, k),
        moments[i].publishers[k].step,
        moments[i].publishers[k].open,
        moments[i].disk,
    ));
}

} // verus!
