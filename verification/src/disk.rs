//! A model of the file system: what the operations that loading and publishing ask for do to it.
//!
//! A name refers to a file, and two names can refer to the same file: a hard link gives a file
//! another name, and removing a name leaves the file to its other names. A file can be created only
//! where its directory is there. An operation does what it is named after, or it fails.

use crate::ack_key::AckSecret;
use crate::file_provider::{is_owner_only, LoadView};
use crate::paths::{directory_of, is_plain_path};
use crate::publish::{
    ClaimOutcomeView, LinkOutcomeView, PublishView, WriteSecretView, SECRET_FILE_MODE,
};
use vstd::prelude::*;

verus! {

/// A file.
pub struct StoredFile {
    /// The text it holds.
    pub contents: Seq<char>,
    /// Its permission bits.
    pub mode: u32,
    /// Whether the text has reached the disk.
    pub synced: bool,
}

/// The names of a file system and the files that they refer to, each known by a number.
#[verifier::ext_equal]
pub struct Disk {
    pub names: Map<Seq<char>, nat>,
    pub files: Map<nat, StoredFile>,
    /// The directories that are there.
    pub directories: Set<Seq<char>>,
}

impl Disk {
    /// Whether every name refers to a file.
    pub open spec fn is_sound(self) -> bool {
        forall|name: Seq<char>| #[trigger]
            self.names.contains_key(name) ==> self.files.contains_key(self.names[name])
    }

    /// Whether there is a file of this name.
    pub open spec fn holds(self, name: Seq<char>) -> bool {
        self.names.contains_key(name)
    }

    /// The file of this name.
    pub open spec fn file_at(self, name: Seq<char>) -> StoredFile {
        self.files[self.names[name]]
    }

    /// Whether the directory of a file of this name is there. Which directory that is depends on
    /// the platform where the name is not plain, and is then left open.
    pub open spec fn has_place_for(self, name: Seq<char>) -> bool {
        is_plain_path(name) ==> self.directories.contains(directory_of(name))
    }

    /// Whether `other` differs from this disk by more directories at most.
    pub open spec fn gains_directories(self, other: Disk) -> bool {
        &&& other.names == self.names
        &&& other.files == self.files
        &&& self.directories.subset_of(other.directories)
    }

    /// The disk with `name` referring to the file `id`.
    pub open spec fn with_name(self, name: Seq<char>, id: nat) -> Disk {
        Disk { names: self.names.insert(name, id), ..self }
    }

    /// The disk without `name`.
    pub open spec fn without_name(self, name: Seq<char>) -> Disk {
        Disk { names: self.names.remove(name), ..self }
    }

    /// The disk with `file` as the file `id`.
    pub open spec fn with_file(self, id: nat, file: StoredFile) -> Disk {
        Disk { files: self.files.insert(id, file), ..self }
    }
}

/// Whether `file` is as a secret file is when it was just created.
pub open spec fn is_new(file: StoredFile) -> bool {
    file.contents.len() == 0 && !file.synced && file.mode & !SECRET_FILE_MODE == 0
}

/// Whether creating a file anew under `name` turns `pre` into `post`, with `id` as its number.
pub open spec fn created(pre: Disk, name: Seq<char>, id: nat, post: Disk) -> bool {
    &&& !pre.holds(name)
    &&& pre.has_place_for(name)
    &&& !pre.files.contains_key(id)
    &&& is_new(post.files[id])
    &&& post == pre.with_name(name, id).with_file(id, post.files[id])
}

/// What a file that held `old` holds after `new` was written to its beginning.
pub open spec fn overwritten(old: Seq<char>, new: Seq<char>) -> Seq<char> {
    if new.len() >= old.len() {
        new
    } else {
        new + old.skip(new.len() as int)
    }
}

/// Whether taking the step `step` of writing turns `pre` into `post` with `next` as the step that
/// follows, if nothing fails. `open` is the file that is open before, and `opened` after the step.
pub open spec fn write_succeeds(
    step: WriteSecretView,
    open: nat,
    pre: Disk,
    next: WriteSecretView,
    opened: nat,
    post: Disk,
) -> bool {
    match step {
        WriteSecretView::Open(file) => {
            &&& next == file.after_open(Ok(()))
            &&& {
                ||| created(pre, file.path, opened, post)
                ||| {
                    &&& pre.holds(file.path)
                    &&& opened == pre.names[file.path]
                    &&& post == pre.with_file(
                        opened,
                        StoredFile { contents: Seq::empty(), synced: false, ..pre.files[opened] },
                    )
                }
            }
        },
        WriteSecretView::Write(file) => {
            let old = pre.files[open];
            &&& next == file.after_write(Ok(()))
            &&& opened == open
            &&& post == pre.with_file(
                open,
                StoredFile {
                    contents: overwritten(old.contents, file.contents),
                    synced: false,
                    ..old
                },
            )
        },
        WriteSecretView::Sync(file) => {
            &&& next == file.after_sync(Ok(()))
            &&& opened == open
            &&& post == pre.with_file(open, StoredFile { synced: true, ..pre.files[open] })
        },
        WriteSecretView::Finished(_) => false,
    }
}

/// The same if the operation fails. A failed attempt to write may have written a part.
pub open spec fn write_fails(
    step: WriteSecretView,
    open: nat,
    pre: Disk,
    next: WriteSecretView,
    opened: nat,
    post: Disk,
) -> bool {
    &&& opened == open
    &&& match step {
        WriteSecretView::Open(file) => post == pre && exists|error: Seq<char>|
            next == #[trigger] file.after_open(Err(error)),
        WriteSecretView::Write(file) => {
            &&& exists|error: Seq<char>| next == #[trigger] file.after_write(Err(error))
            &&& exists|part: Seq<char>| #[trigger]
                part.is_prefix_of(file.contents) && post == pre.with_file(
                    open,
                    StoredFile {
                        contents: overwritten(pre.files[open].contents, part),
                        synced: false,
                        ..pre.files[open]
                    },
                )
        },
        WriteSecretView::Sync(file) => post == pre && exists|error: Seq<char>|
            next == #[trigger] file.after_sync(Err(error)),
        WriteSecretView::Finished(_) => false,
    }
}

/// Whether taking the step `step` of publishing turns `pre` into `post` with `next` as the step
/// that follows, if nothing fails. That a name is taken is no failure.
pub open spec fn publish_succeeds(
    step: PublishView,
    open: nat,
    pre: Disk,
    next: PublishView,
    opened: nat,
    post: Disk,
) -> bool {
    match step {
        PublishView::CreateDirectory(directory, publication, write) => {
            &&& next == publication.after_directory(directory, write, Ok(()))
            &&& opened == open
            &&& pre.gains_directories(post)
            &&& post.directories.contains(directory)
        },
        PublishView::Probe(publication) => {
            &&& next == publication.after_probe(Ok(()))
            &&& opened == open
            &&& post == pre
        },
        PublishView::Claim(publication, write) => {
            ||| {
                &&& publication.may_follow_claim(write, ClaimOutcomeView::Created, next)
                &&& created(pre, publication.temporary, opened, post)
            }
            ||| {
                &&& exists|error: Seq<char>| #[trigger]
                    publication.may_follow_claim(
                        write,
                        ClaimOutcomeView::AlreadyExists(error),
                        next,
                    )
                &&& pre.holds(publication.temporary)
                &&& opened == open
                &&& post == pre
            }
        },
        PublishView::Write(publication, write) => exists|written: WriteSecretView| #[trigger]
            write_succeeds(write, open, pre, written, opened, post) && next
                == publication.after_write(written),
        PublishView::Link(publication) => {
            &&& opened == open
            &&& {
                ||| {
                    &&& next == publication.after_link(LinkOutcomeView::Linked)
                    &&& pre.holds(publication.temporary)
                    &&& !pre.holds(publication.path)
                    &&& post == pre.with_name(
                        publication.path,
                        pre.names[publication.temporary],
                    )
                }
                ||| {
                    &&& next == publication.after_link(LinkOutcomeView::AlreadyExists)
                    &&& pre.holds(publication.path)
                    &&& post == pre
                }
            }
        },
        PublishView::Remove(publication, result) => {
            &&& next == publication.after_remove(result, Ok(()))
            &&& opened == open
            &&& pre.holds(publication.temporary)
            &&& post == pre.without_name(publication.temporary)
        },
        PublishView::Finished(_) => false,
    }
}

/// The same if the operation fails. A failed attempt to create a directory may have created some of
/// its ancestors.
pub open spec fn publish_fails(
    step: PublishView,
    open: nat,
    pre: Disk,
    next: PublishView,
    opened: nat,
    post: Disk,
) -> bool {
    match step {
        PublishView::CreateDirectory(directory, publication, write) => {
            &&& exists|error: Seq<char>|
                next == #[trigger] publication.after_directory(directory, write, Err(error))
            &&& opened == open
            &&& pre.gains_directories(post)
        },
        PublishView::Probe(publication) => {
            &&& exists|error: Seq<char>|
                next == #[trigger] publication.after_probe(Err(error))
            &&& opened == open
            &&& post == pre
        },
        PublishView::Claim(publication, write) => {
            &&& exists|error: Seq<char>| #[trigger]
                publication.may_follow_claim(write, ClaimOutcomeView::Failed(error), next)
            &&& opened == open
            &&& post == pre
        },
        PublishView::Write(publication, write) => exists|written: WriteSecretView| #[trigger]
            write_fails(write, open, pre, written, opened, post) && next
                == publication.after_write(written),
        PublishView::Link(publication) => {
            &&& exists|error: Seq<char>|
                next == #[trigger] publication.after_link(LinkOutcomeView::Failed(error))
            &&& opened == open
            &&& post == pre
        },
        PublishView::Remove(publication, result) => {
            &&& exists|error: Seq<char>|
                next == #[trigger] publication.after_remove(result, Err(error))
            &&& opened == open
            &&& post == pre
        },
        PublishView::Finished(_) => false,
    }
}

/// Whether taking the step `step` of publishing may turn `pre` into `post` with `next` as the step
/// that follows.
pub open spec fn publish_performed(
    step: PublishView,
    open: nat,
    pre: Disk,
    next: PublishView,
    opened: nat,
    post: Disk,
) -> bool {
    ||| publish_succeeds(step, open, pre, next, opened, post)
    ||| publish_fails(step, open, pre, next, opened, post)
}

/// Whether taking the step `step` of loading turns `pre` into `post` with `next` as the step that
/// follows, if nothing fails. That there is no file to be loaded is no failure of looking for it,
/// but one of inspecting or reading it.
pub open spec fn load_succeeds<T: AckSecret>(
    step: LoadView<T>,
    open: nat,
    pre: Disk,
    next: LoadView<T>,
    opened: nat,
    post: Disk,
) -> bool {
    match step {
        LoadView::Check(loading) => {
            &&& opened == open
            &&& post == pre
            &&& loading.may_follow_check(Ok(pre.holds(loading.path)), next)
        },
        LoadView::Publish(loading, publish) => exists|published: PublishView| #[trigger]
            publish_succeeds(publish, open, pre, published, opened, post) && next
                == loading.after_publish::<T>(published),
        LoadView::Inspect(loading) => {
            &&& next == loading.after_inspect::<T>(Ok(Some(pre.file_at(loading.path).mode)))
            &&& pre.holds(loading.path)
            &&& opened == open
            &&& post == pre
        },
        LoadView::Read(loading) => {
            &&& next == loading.after_read::<T>(Ok(pre.file_at(loading.path).contents))
            &&& pre.holds(loading.path)
            &&& opened == open
            &&& post == pre
        },
        LoadView::Finished(_) => false,
    }
}

/// The same if the operation fails.
pub open spec fn load_fails<T: AckSecret>(
    step: LoadView<T>,
    open: nat,
    pre: Disk,
    next: LoadView<T>,
    opened: nat,
    post: Disk,
) -> bool {
    match step {
        LoadView::Check(loading) => {
            &&& opened == open
            &&& post == pre
            &&& exists|error: Seq<char>| #[trigger] loading.may_follow_check(Err(error), next)
        },
        LoadView::Publish(loading, publish) => exists|published: PublishView| #[trigger]
            publish_fails(publish, open, pre, published, opened, post) && next
                == loading.after_publish::<T>(published),
        LoadView::Inspect(loading) => {
            &&& exists|error: Seq<char>|
                next == #[trigger] loading.after_inspect::<T>(Err(error))
            &&& opened == open
            &&& post == pre
        },
        LoadView::Read(loading) => {
            &&& exists|error: Seq<char>| next == #[trigger] loading.after_read::<T>(Err(error))
            &&& opened == open
            &&& post == pre
        },
        LoadView::Finished(_) => false,
    }
}

/// Whether taking the step `step` of loading may turn `pre` into `post` with `next` as the step
/// that follows.
pub open spec fn load_performed<T: AckSecret>(
    step: LoadView<T>,
    open: nat,
    pre: Disk,
    next: LoadView<T>,
    opened: nat,
    post: Disk,
) -> bool {
    ||| load_succeeds(step, open, pre, next, opened, post)
    ||| load_fails(step, open, pre, next, opened, post)
}

/// A moment of a run: the step that comes next, the file that is open, and the disk as it is. Of
/// the step that led here, `seen` is the disk as it was just before, when other processes had done
/// to it what they did since the moment before.
pub struct Moment<S> {
    pub seen: Disk,
    pub step: S,
    pub open: nat,
    pub disk: Disk,
}

/// Whether no other process did anything in a run.
pub open spec fn is_alone<S>(moments: Seq<Moment<S>>) -> bool {
    forall|i: int| 0 < i < moments.len() ==> (#[trigger] moments[i]).seen == moments[i - 1].disk
}

/// Whether a file that has the name `path` in `pre` still has it in `post`, unchanged.
pub open spec fn is_kept(path: Seq<char>, pre: Disk, post: Disk) -> bool {
    pre.holds(path) ==> post.holds(path) && post.file_at(path) == pre.file_at(path)
}

/// Whether the name `path` is taken in both or neither of `pre` and `post`, with the same file.
pub open spec fn is_same(path: Seq<char>, pre: Disk, post: Disk) -> bool {
    post.holds(path) == pre.holds(path) && is_kept(path, pre, post)
}

/// Whether `file` holds all of `contents`, on the disk, with no access for group and others.
pub open spec fn is_whole(file: StoredFile, contents: Seq<char>) -> bool {
    file.contents == contents && file.synced && is_owner_only(file.mode)
}

/// Whether `name` refers to a file that has no other name.
pub open spec fn is_only_name(name: Seq<char>, disk: Disk) -> bool {
    &&& disk.holds(name)
    &&& forall|other: Seq<char>|
        other != name && #[trigger] disk.names.contains_key(other) ==> disk.names[other]
            != disk.names[name]
}

} // verus!
