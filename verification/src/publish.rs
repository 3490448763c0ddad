//! Publishing a freshly generated secret under its file name.
//!
//! The secret goes to a temporary file first, which is synced and then hard-linked into place: a
//! link reports that the name is taken rather than overwriting it, and the name appears only once
//! the bytes are durable. The temporary file is created anew, under the first of its possible
//! names that is free: it is never one that another process writes, whatever their ids, and never
//! a second name of a key that is published already. So of two processes that start at once
//! neither can clobber the key of the other nor read one that is half written.
//!
//! Nothing here touches the file system. A step says what to do next; its method takes what came
//! of that and gives the step that follows.

use crate::error::{failed, failure, reported, told, GuardianError};
use crate::hexadecimal::{encode, hex_text};
use crate::paths::{
    a_new_extension_keeps_the_directory, a_plain_path_has_a_clear_extension, directory_of,
    ends_before_the_name, ends_with_a_name, file_name, has_clear_extension, has_new_extension,
    has_slashes_only, is_plain_path, keeps_the_name, last_place, last_place_is_last,
    last_separator_is_last, names_a_file, parent, with_extension, without_extension,
};
use crate::secret::{SecretBytes, SecretString};
use crate::text::{decimal, decimal_is_digits, decimal_text, decimals_differ, join};
use vstd::prelude::*;

verus! {

/// The permission bits with which a secret file is created: its owner reads and writes it, and
/// nobody else has any access.
pub const SECRET_FILE_MODE: u32 = 0o600;

/// A file and the text to write to it.
pub struct SecretFile {
    /// Where the file is.
    pub path: String,
    /// All that the file is to hold.
    pub contents: SecretString,
}

/// The view of a [`SecretFile`].
pub struct SecretFileView {
    pub path: Seq<char>,
    pub contents: Seq<char>,
}

impl View for SecretFile {
    type V = SecretFileView;

    open spec fn view(&self) -> SecretFileView {
        SecretFileView { path: self.path@, contents: self.contents@ }
    }
}

/// A step of writing a secret file.
pub enum WriteSecret {
    /// Open the file for writing: create it with [`SECRET_FILE_MODE`], or empty it.
    Open(SecretFile),
    /// Write the contents to the open file.
    Write(SecretFile),
    /// Sync the open file.
    Sync(SecretFile),
    /// Nothing is left to do.
    Finished(Result<(), GuardianError>),
}

/// The view of a [`WriteSecret`].
pub enum WriteSecretView {
    Open(SecretFileView),
    Write(SecretFileView),
    Sync(SecretFileView),
    Finished(Result<(), Seq<char>>),
}

impl View for WriteSecret {
    type V = WriteSecretView;

    open spec fn view(&self) -> WriteSecretView {
        match self {
            WriteSecret::Open(file) => WriteSecretView::Open(file@),
            WriteSecret::Write(file) => WriteSecretView::Write(file@),
            WriteSecret::Sync(file) => WriteSecretView::Sync(file@),
            WriteSecret::Finished(result) => WriteSecretView::Finished(told(*result)),
        }
    }
}

impl WriteSecretView {
    /// The same step on the file at `path`.
    pub open spec fn redirected(self, path: Seq<char>) -> WriteSecretView {
        match self {
            WriteSecretView::Open(file) => WriteSecretView::Open(SecretFileView { path, ..file }),
            WriteSecretView::Write(file) => WriteSecretView::Write(
                SecretFileView { path, ..file },
            ),
            WriteSecretView::Sync(file) => WriteSecretView::Sync(SecretFileView { path, ..file }),
            WriteSecretView::Finished(result) => WriteSecretView::Finished(result),
        }
    }
}

impl WriteSecret {
    /// The same step on the file at `path`.
    fn redirected(self, path: String) -> (step: WriteSecret)
        ensures
            step@ == self@.redirected(path@),
    {
        match self {
            WriteSecret::Open(file) => WriteSecret::Open(
                SecretFile { path, contents: file.contents },
            ),
            WriteSecret::Write(file) => WriteSecret::Write(
                SecretFile { path, contents: file.contents },
            ),
            WriteSecret::Sync(file) => WriteSecret::Sync(
                SecretFile { path, contents: file.contents },
            ),
            WriteSecret::Finished(result) => WriteSecret::Finished(result),
        }
    }
}

/// Begins to write `secret` to the file at `path`, as hexadecimal text.
pub fn write_secret_bytes(path: &str, secret: SecretBytes) -> (step: WriteSecret)
    requires
        2 * secret@.len() <= isize::MAX,
    ensures
        step@ == WriteSecretView::Open(
            (SecretFileView { path: path@, contents: hex_text(secret@) }),
        ),
{
    WriteSecret::Open(
        SecretFile {
            path: path.to_owned(),
            contents: SecretString::new(encode(secret.expose_secret())),
        },
    )
}

impl SecretFileView {
    /// What follows the attempt to open the file.
    pub open spec fn after_open(self, outcome: Result<(), Seq<char>>) -> WriteSecretView {
        match outcome {
            Ok(()) => WriteSecretView::Write(self),
            Err(error) => WriteSecretView::Finished(
                Err(failure("Failed to create ack secret file "@, self.path, error)),
            ),
        }
    }

    /// What follows the attempt to write the contents.
    pub open spec fn after_write(self, outcome: Result<(), Seq<char>>) -> WriteSecretView {
        match outcome {
            Ok(()) => WriteSecretView::Sync(self),
            Err(error) => WriteSecretView::Finished(
                Err(failure("Failed to write ack secret file "@, self.path, error)),
            ),
        }
    }

    /// What follows the attempt to sync the file.
    pub open spec fn after_sync(self, outcome: Result<(), Seq<char>>) -> WriteSecretView {
        match outcome {
            Ok(()) => WriteSecretView::Finished(Ok(())),
            Err(error) => WriteSecretView::Finished(
                Err(failure("Failed to write ack secret file "@, self.path, error)),
            ),
        }
    }
}

impl SecretFile {
    /// Goes on after the attempt to open the file.
    pub fn opened(self, outcome: Result<(), String>) -> (step: WriteSecret)
        ensures
            step@ == self@.after_open(reported(outcome)),
    {
        match outcome {
            Ok(()) => WriteSecret::Write(self),
            Err(error) => WriteSecret::Finished(
                Err(
                    failed(
                        "Failed to create ack secret file ",
                        self.path.as_str(),
                        error.as_str(),
                    ),
                ),
            ),
        }
    }

    /// Goes on after the attempt to write all of the contents.
    pub fn written(self, outcome: Result<(), String>) -> (step: WriteSecret)
        ensures
            step@ == self@.after_write(reported(outcome)),
    {
        match outcome {
            Ok(()) => WriteSecret::Sync(self),
            Err(error) => WriteSecret::Finished(
                Err(failed("Failed to write ack secret file ", self.path.as_str(), error.as_str())),
            ),
        }
    }

    /// Goes on after the attempt to sync the file.
    pub fn synced(self, outcome: Result<(), String>) -> (step: WriteSecret)
        ensures
            step@ == self@.after_sync(reported(outcome)),
    {
        match outcome {
            Ok(()) => WriteSecret::Finished(Ok(())),
            Err(error) => WriteSecret::Finished(
                Err(failed("Failed to write ack secret file ", self.path.as_str(), error.as_str())),
            ),
        }
    }
}

/// What publishing a secret is about.
pub struct Publication {
    /// The name under which the secret is published.
    pub path: String,
    /// The id of the publishing process, which the name of the temporary file holds.
    pub process: u32,
    /// How many names for the temporary file were tried before and found taken.
    pub attempt: u32,
    /// The temporary file that the secret is first written to.
    pub temporary: String,
}

/// The view of a [`Publication`].
pub struct PublicationView {
    pub path: Seq<char>,
    pub process: u32,
    pub attempt: u32,
    pub temporary: Seq<char>,
}

impl View for Publication {
    type V = PublicationView;

    open spec fn view(&self) -> PublicationView {
        PublicationView {
            path: self.path@,
            process: self.process,
            attempt: self.attempt,
            temporary: self.temporary@,
        }
    }
}

/// What came of the attempt to create the temporary file anew.
pub enum ClaimOutcome {
    /// The file was not there, and now it is.
    Created,
    /// There is something of that name already. This is the text of the error.
    AlreadyExists(String),
    /// Any other failure.
    Failed(String),
}

/// The view of a [`ClaimOutcome`].
pub enum ClaimOutcomeView {
    Created,
    AlreadyExists(Seq<char>),
    Failed(Seq<char>),
}

impl View for ClaimOutcome {
    type V = ClaimOutcomeView;

    open spec fn view(&self) -> ClaimOutcomeView {
        match self {
            ClaimOutcome::Created => ClaimOutcomeView::Created,
            ClaimOutcome::AlreadyExists(error) => ClaimOutcomeView::AlreadyExists(error@),
            ClaimOutcome::Failed(error) => ClaimOutcomeView::Failed(error@),
        }
    }
}

/// What came of the attempt to hard-link the temporary file into place.
pub enum LinkOutcome {
    /// The name now refers to the temporary file.
    Linked,
    /// The name was taken, and still refers to what it did.
    AlreadyExists,
    /// Any other failure.
    Failed(String),
}

/// The view of a [`LinkOutcome`].
pub enum LinkOutcomeView {
    Linked,
    AlreadyExists,
    Failed(Seq<char>),
}

impl View for LinkOutcome {
    type V = LinkOutcomeView;

    open spec fn view(&self) -> LinkOutcomeView {
        match self {
            LinkOutcome::Linked => LinkOutcomeView::Linked,
            LinkOutcome::AlreadyExists => LinkOutcomeView::AlreadyExists,
            LinkOutcome::Failed(error) => LinkOutcomeView::Failed(error@),
        }
    }
}

/// A step of publishing a secret.
pub enum Publish {
    /// Create this directory and its ancestors, as far as they are missing.
    CreateDirectory(String, Publication, WriteSecret),
    /// Open the file at the path for writing, as it is: neither create nor empty it. The path has
    /// no file name and cannot be published under; what the attempt says is what to report.
    Probe(Publication),
    /// Create the temporary file anew, with [`SECRET_FILE_MODE`]: what is there already is to be
    /// reported and left alone.
    Claim(Publication, WriteSecret),
    /// Take this step of writing the temporary file.
    Write(Publication, WriteSecret),
    /// Hard-link the temporary file to the name.
    Link(Publication),
    /// Remove the temporary file. Publishing then ends with this result, whatever comes of it.
    Remove(Publication, Result<(), GuardianError>),
    /// Nothing is left to do.
    Finished(Result<(), GuardianError>),
}

/// The view of a [`Publish`].
pub enum PublishView {
    CreateDirectory(Seq<char>, PublicationView, WriteSecretView),
    Probe(PublicationView),
    Claim(PublicationView, WriteSecretView),
    Write(PublicationView, WriteSecretView),
    Link(PublicationView),
    Remove(PublicationView, Result<(), Seq<char>>),
    Finished(Result<(), Seq<char>>),
}

impl View for Publish {
    type V = PublishView;

    open spec fn view(&self) -> PublishView {
        match self {
            Publish::CreateDirectory(directory, publication, write) =>
                PublishView::CreateDirectory(directory@, publication@, write@),
            Publish::Probe(publication) => PublishView::Probe(publication@),
            Publish::Claim(publication, write) => PublishView::Claim(publication@, write@),
            Publish::Write(publication, write) => PublishView::Write(publication@, write@),
            Publish::Link(publication) => PublishView::Link(publication@),
            Publish::Remove(publication, result) => PublishView::Remove(
                publication@,
                told(*result),
            ),
            Publish::Finished(result) => PublishView::Finished(told(*result)),
        }
    }
}

/// The extension of the temporary file of the process with the id `process`, where `attempt` names
/// for it were found taken.
pub open spec fn temporary_extension(process: nat, attempt: nat) -> Seq<char> {
    if attempt == 0 {
        "tmp."@ + decimal(process)
    } else {
        "tmp."@ + decimal(process) + "."@ + decimal(attempt)
    }
}

/// The name of the temporary file for `path`, if the extension of that is clear.
pub open spec fn temporary_name(path: Seq<char>, process: nat, attempt: nat) -> Seq<char> {
    without_extension(path) + "."@ + temporary_extension(process, attempt)
}

/// Whether publishing in the file at `path` may create `directory` first. For a plain path there
/// is one choice; for any other it depends on the platform where its components end.
pub open spec fn is_directory_of(path: Seq<char>, directory: Option<Seq<char>>) -> bool {
    &&& is_plain_path(path) ==> directory == Some(directory_of(path))
    &&& names_a_file(path) ==> directory is Some
    &&& directory matches Some(directory) ==> {
        &&& directory.is_prefix_of(path)
        &&& directory.len() < path.len()
        &&& has_slashes_only(path) ==> ends_before_the_name(path, directory)
    }
}

/// Whether publishing in the file at `path` may go by way of `temporary`. For a path with a clear
/// extension there is one choice; for any other it depends on the platform what its extension is.
pub open spec fn is_temporary_of(
    path: Seq<char>,
    process: nat,
    attempt: nat,
    temporary: Seq<char>,
) -> bool {
    &&& has_clear_extension(path) ==> temporary == temporary_name(path, process, attempt)
    &&& names_a_file(path) ==> temporary != path
    &&& ends_with_a_name(path) ==> keeps_the_name(
        path,
        temporary_extension(process, attempt),
        temporary,
    )
    &&& has_new_extension(path, temporary_extension(process, attempt), temporary)
}

proof fn lemma_temporary_extension(process: nat, attempt: nat)
    ensures
        ({
            let extension = temporary_extension(process, attempt);
            let rest = extension.skip(4);
            &&& extension.len() >= 4 + decimal(process).len()
            &&& extension[3] == '.'
            &&& extension.contains('.')
            &&& forall|i: int|
                0 <= i < extension.len() ==> #[trigger] extension[i] != '/' && extension[i] != '\\'
                    && extension[i] != ':'
            &&& rest.take(decimal(process).len() as int) == decimal(process)
            &&& forall|i: int| 0 <= i < decimal(process).len() ==> #[trigger] rest[i] != '.'
            &&& attempt == 0 ==> rest.len() == decimal(process).len()
            &&& attempt > 0 ==> {
                &&& rest.len() > decimal(process).len()
                &&& rest[decimal(process).len() as int] == '.'
                &&& rest.skip(decimal(process).len() as int + 1) == decimal(attempt)
            }
        }),
{
    reveal_strlit("tmp.");
    reveal_strlit(".");
    decimal_is_digits(process);
    decimal_is_digits(attempt);
    let extension = temporary_extension(process, attempt);
    let rest = extension.skip(4);
    let n = decimal(process).len() as int;
    assert(extension[3] == '.');
    assert forall|i: int| 0 <= i < extension.len() implies #[trigger] extension[i] != '/'
        && extension[i] != '\\' && extension[i] != ':' by {
        if 4 <= i < 4 + n {
            assert(extension[i] == decimal(process)[i - 4]);
        } else if i > 4 + n {
            assert(extension[i] == decimal(attempt)[i - 5 - n]);
        }
    }
    assert(rest.take(n) =~= decimal(process));
    assert forall|i: int| 0 <= i < n implies #[trigger] rest[i] != '.' by {
        assert(rest[i] == decimal(process)[i]);
    }
    if attempt > 0 {
        assert(rest.skip(n + 1) =~= decimal(attempt));
    }
}

/// The temporary file is another file than the one to publish, in the same directory.
pub proof fn the_temporary_file_is_beside_its_file(path: Seq<char>, process: nat, attempt: nat)
    ensures
        temporary_name(path, process, attempt) != path,
        directory_of(temporary_name(path, process, attempt)) == directory_of(path),
{
    reveal_strlit(".");
    lemma_temporary_extension(process, attempt);
    a_new_extension_keeps_the_directory(path, temporary_extension(process, attempt));
    let temporary = temporary_name(path, process, attempt);
    let stem = without_extension(path);
    last_place_is_last(path, '.');
    last_separator_is_last(path);
    if temporary == path {
        let dot = stem.len() as int + 4;
        assert(path[dot] == temporary_extension(process, attempt)[3]);
        assert(last_place(path, '.') >= dot);
    }
}

/// The temporary file of a plain path has a plain path too.
pub proof fn the_temporary_file_of_a_plain_path_is_plain(
    path: Seq<char>,
    process: nat,
    attempt: nat,
)
    requires
        is_plain_path(path),
    ensures
        is_plain_path(temporary_name(path, process, attempt)),
{
    reveal_strlit(".");
    lemma_temporary_extension(process, attempt);
    let extension = temporary_extension(process, attempt);
    let result = temporary_name(path, process, attempt);
    let stem = without_extension(path);
    let slash = last_place(path, '/');
    last_place_is_last(path, '/');
    last_place_is_last(path, '.');
    last_separator_is_last(path);
    last_place_is_last(result, '/');
    let n = stem.len() as int;
    assert(slash < n);
    assert forall|i: int| 0 <= i < result.len() implies {
        &&& #[trigger] result[i] != '\\' && result[i] != ':'
        &&& i > slash ==> result[i] != '/'
        &&& i < n ==> result[i] == path[i]
    } by {
        if i < n {
            assert(stem[i] == path[i]);
        } else if i > n {
            assert(result[i] == extension[i - n - 1]);
        }
    }
    if slash >= 0 {
        assert(result[slash] == path[slash]);
    }
    assert(last_place(result, '/') == slash);
    let name = file_name(result);
    assert(name.len() == result.len() - slash - 1);
    assert(extension[3] == '.');
    assert(result[n + 4] == extension[3]);
    assert(name[n + 4 - slash - 1] == '.');
    last_place_is_last(name, '.');
}

/// Neither two processes nor two attempts of one process use the same name for a temporary file.
pub proof fn temporary_names_differ(path: Seq<char>, p: nat, a: nat, q: nat, b: nat)
    requires
        p != q || a != b,
    ensures
        temporary_name(path, p, a) != temporary_name(path, q, b),
{
    reveal_strlit(".");
    lemma_temporary_extension(p, a);
    lemma_temporary_extension(q, b);
    let start = without_extension(path).len() as int + 1;
    if temporary_name(path, p, a) == temporary_name(path, q, b) {
        assert(temporary_name(path, p, a).skip(start) =~= temporary_extension(p, a));
        assert(temporary_name(path, q, b).skip(start) =~= temporary_extension(q, b));
        let rest = temporary_extension(p, a).skip(4);
        let m = decimal(p).len() as int;
        let n = decimal(q).len() as int;
        if m < n {
            assert(rest[m] != '.');
        } else if n < m {
            assert(rest[n] != '.');
        }
        assert(m == n);
        if p != q {
            decimals_differ(p, q);
        } else {
            decimals_differ(a, b);
        }
    }
}

/// The name of the temporary file for `path` in the process with the id `process`, where `attempt`
/// names for it were found taken.
fn temporary_path(path: &str, process: u32, attempt: u32) -> (result: String)
    ensures
        is_temporary_of(path@, process as nat, attempt as nat, result@),
{
    proof {
        lemma_temporary_extension(process as nat, attempt as nat);
        the_temporary_file_is_beside_its_file(path@, process as nat, attempt as nat);
    }
    let mut extension = join("tmp.", decimal_text(process).as_str());
    if attempt > 0 {
        extension = join(join(extension.as_str(), ".").as_str(), decimal_text(attempt).as_str());
    }
    with_extension(path, extension.as_str())
}

/// The first step of publishing the secret with the text `contents`.
pub open spec fn publish_start(
    path: Seq<char>,
    process: u32,
    directory: Option<Seq<char>>,
    temporary: Seq<char>,
    contents: Seq<char>,
) -> PublishView {
    let publication = PublicationView { path, process, attempt: 0, temporary };
    let write = WriteSecretView::Open(SecretFileView { path: temporary, contents });
    match directory {
        Some(directory) => PublishView::CreateDirectory(directory, publication, write),
        None => publication.claim(write),
    }
}

/// Whether `step` is the first one of publishing `secret` in the file at `path`.
pub open spec fn begins_to_publish(
    path: Seq<char>,
    process: u32,
    secret: Seq<u8>,
    step: PublishView,
) -> bool {
    exists|directory: Option<Seq<char>>, temporary: Seq<char>|
        {
            &&& is_directory_of(path, directory)
            &&& is_temporary_of(path, process as nat, 0, temporary)
            &&& step == #[trigger] publish_start(
                path,
                process,
                directory,
                temporary,
                hex_text(secret),
            )
        }
}

/// Begins to publish `secret` as the file at `path`, which is in `directory`, by way of the file
/// `temporary`.
pub fn publish_by_way_of(
    path: &str,
    process: u32,
    directory: Option<String>,
    temporary: String,
    secret: SecretBytes,
) -> (step: Publish)
    requires
        2 * secret@.len() <= isize::MAX,
    ensures
        step@ == publish_start(
            path@,
            process,
            directory.deep_view(),
            temporary@,
            hex_text(secret@),
        ),
{
    let write = write_secret_bytes(temporary.as_str(), secret);
    let publication = Publication { path: path.to_owned(), process, attempt: 0, temporary };
    match directory {
        Some(directory) => Publish::CreateDirectory(directory, publication, write),
        None => publication.claim(write),
    }
}

/// Begins to publish `secret` as the file at `path`, by way of a temporary file that the process
/// with the id `process` keeps beside it.
pub fn write_new_secret_file(path: &str, secret: SecretBytes, process: u32) -> (step: Publish)
    requires
        2 * secret@.len() <= isize::MAX,
    ensures
        begins_to_publish(path@, process, secret@, step@),
{
    let directory = parent(path);
    let temporary = temporary_path(path, process, 0);
    publish_by_way_of(path, process, directory, temporary, secret)
}

impl PublicationView {
    /// The end of publishing where the temporary file could not be created because of `error`.
    pub open spec fn not_created(self, error: Seq<char>) -> PublishView {
        PublishView::Finished(
            Err(failure("Failed to create ack secret file "@, self.temporary, error)),
        )
    }

    /// The step of creating the temporary file, after which writing is to begin with `write`. A
    /// path that has no file name has no temporary file beside it either.
    pub open spec fn claim(self, write: WriteSecretView) -> PublishView {
        if self.temporary == self.path {
            PublishView::Probe(self)
        } else {
            PublishView::Claim(self, write)
        }
    }

    /// What follows the attempt to open a path that has no file name.
    pub open spec fn after_probe(self, outcome: Result<(), Seq<char>>) -> PublishView {
        match outcome {
            Ok(()) => self.not_created("the path has no file name"@),
            Err(error) => self.not_created(error),
        }
    }

    /// What follows where the name of the temporary file is taken, as `error` says, and
    /// `temporary` is the next one to try.
    pub open spec fn after_retry(
        self,
        temporary: Seq<char>,
        write: WriteSecretView,
        error: Seq<char>,
    ) -> PublishView {
        if self.attempt == u32::MAX || temporary == self.temporary {
            self.not_created(error)
        } else {
            PublicationView { attempt: (self.attempt + 1) as u32, temporary, ..self }.claim(
                write.redirected(temporary),
            )
        }
    }

    /// Whether `step` may follow the attempt to create the temporary file.
    pub open spec fn may_follow_claim(
        self,
        write: WriteSecretView,
        outcome: ClaimOutcomeView,
        step: PublishView,
    ) -> bool {
        match outcome {
            ClaimOutcomeView::Created => step == PublishView::Write(self, write),
            ClaimOutcomeView::AlreadyExists(error) => if self.attempt == u32::MAX {
                step == self.not_created(error)
            } else {
                exists|temporary: Seq<char>|
                    is_temporary_of(
                        self.path,
                        self.process as nat,
                        self.attempt as nat + 1,
                        temporary,
                    ) && step == #[trigger] self.after_retry(temporary, write, error)
            },
            ClaimOutcomeView::Failed(error) => step == self.not_created(error),
        }
    }

    /// What follows the attempt to create `directory`, where writing is to begin with `write`.
    pub open spec fn after_directory(
        self,
        directory: Seq<char>,
        write: WriteSecretView,
        outcome: Result<(), Seq<char>>,
    ) -> PublishView {
        match outcome {
            Ok(()) => self.claim(write),
            Err(error) => PublishView::Finished(
                Err(failure("Failed to create ack secret directory "@, directory, error)),
            ),
        }
    }

    /// What follows a step of writing after which `write` is the next one.
    pub open spec fn after_write(self, write: WriteSecretView) -> PublishView {
        match write {
            WriteSecretView::Finished(Ok(())) => PublishView::Link(self),
            WriteSecretView::Finished(Err(error)) => PublishView::Finished(Err(error)),
            _ => PublishView::Write(self, write),
        }
    }

    /// What follows the attempt to link the temporary file to the name.
    pub open spec fn after_link(self, outcome: LinkOutcomeView) -> PublishView {
        match outcome {
            LinkOutcomeView::Linked | LinkOutcomeView::AlreadyExists => PublishView::Remove(
                self,
                Ok(()),
            ),
            LinkOutcomeView::Failed(error) => PublishView::Remove(
                self,
                Err(failure("Failed to publish ack secret file "@, self.path, error)),
            ),
        }
    }

    /// What follows the attempt to remove the temporary file, where publishing ends with `result`:
    /// what came of the attempt makes no difference.
    pub open spec fn after_remove(
        self,
        result: Result<(), Seq<char>>,
        outcome: Result<(), Seq<char>>,
    ) -> PublishView {
        PublishView::Finished(result)
    }
}

impl Publication {
    /// The end of publishing where the temporary file could not be created because of `error`.
    fn not_created(self, error: &str) -> (step: Publish)
        ensures
            step@ == self@.not_created(error@),
    {
        Publish::Finished(
            Err(failed("Failed to create ack secret file ", self.temporary.as_str(), error)),
        )
    }

    /// Goes on to create the temporary file, unless it would be the file to publish itself.
    fn claim(self, write: WriteSecret) -> (step: Publish)
        ensures
            step@ == self@.claim(write@),
    {
        if self.temporary == self.path {
            Publish::Probe(self)
        } else {
            Publish::Claim(self, write)
        }
    }

    /// Goes on after the attempt to open a path that has no file name.
    pub fn probed(self, outcome: Result<(), String>) -> (step: Publish)
        ensures
            step@ == self@.after_probe(reported(outcome)),
    {
        match outcome {
            Ok(()) => self.not_created("the path has no file name"),
            Err(error) => self.not_created(error.as_str()),
        }
    }

    /// Goes on after the attempt to create the temporary file. Where its name is taken, the next
    /// one is tried.
    pub fn claimed(self, write: WriteSecret, outcome: ClaimOutcome) -> (step: Publish)
        ensures
            self@.may_follow_claim(write@, outcome@, step@),
    {
        match outcome {
            ClaimOutcome::Created => Publish::Write(self, write),
            ClaimOutcome::AlreadyExists(error) => {
                if self.attempt == u32::MAX {
                    return self.not_created(error.as_str());
                }
                let temporary = temporary_path(self.path.as_str(), self.process, self.attempt + 1);
                self.retried(temporary, write, error.as_str())
            },
            ClaimOutcome::Failed(error) => self.not_created(error.as_str()),
        }
    }

    /// Goes on where the name of the temporary file is taken and `temporary` is the next one to
    /// try. With no other name to try, `error` is what publishing ends with.
    pub fn retried(self, temporary: String, write: WriteSecret, error: &str) -> (step: Publish)
        ensures
            step@ == self@.after_retry(temporary@, write@, error@),
    {
        if self.attempt == u32::MAX || temporary == self.temporary {
            return self.not_created(error);
        }
        let write = write.redirected(temporary.clone());
        let next = Publication {
            path: self.path,
            process: self.process,
            attempt: self.attempt + 1,
            temporary,
        };
        next.claim(write)
    }

    /// Goes on after the attempt to create `directory`.
    pub fn directory_created(
        self,
        directory: &str,
        write: WriteSecret,
        outcome: Result<(), String>,
    ) -> (step: Publish)
        ensures
            step@ == self@.after_directory(directory@, write@, reported(outcome)),
    {
        match outcome {
            Ok(()) => self.claim(write),
            Err(error) => Publish::Finished(
                Err(failed("Failed to create ack secret directory ", directory, error.as_str())),
            ),
        }
    }

    /// Goes on after a step of writing, of which `write` is the next one.
    pub fn wrote(self, write: WriteSecret) -> (step: Publish)
        ensures
            step@ == self@.after_write(write@),
    {
        match write {
            WriteSecret::Finished(Ok(())) => Publish::Link(self),
            WriteSecret::Finished(Err(error)) => Publish::Finished(Err(error)),
            write => Publish::Write(self, write),
        }
    }

    /// Goes on after the attempt to link the temporary file to the name. That the name is taken
    /// is no failure: another process was first, and its secret stays.
    pub fn linked(self, outcome: LinkOutcome) -> (step: Publish)
        ensures
            step@ == self@.after_link(outcome@),
    {
        match outcome {
            LinkOutcome::Linked | LinkOutcome::AlreadyExists => Publish::Remove(self, Ok(())),
            LinkOutcome::Failed(error) => {
                let error = failed(
                    "Failed to publish ack secret file ",
                    self.path.as_str(),
                    error.as_str(),
                );
                Publish::Remove(self, Err(error))
            },
        }
    }

    /// Goes on after the attempt to remove the temporary file. A failure to do so is passed over.
    pub fn removed(
        self,
        result: Result<(), GuardianError>,
        outcome: Result<(), String>,
    ) -> (step: Publish)
        ensures
            step@ == self@.after_remove(told(result), reported(outcome)),
    {
        Publish::Finished(result)
    }
}

/// The views of what publishing is about hold the very texts and numbers of its fields.
pub proof fn the_views_of_publishing_hold_the_fields(file: SecretFile, publication: Publication)
    ensures
        file@.path == file.path@,
        file@.contents == file.contents@,
        publication@.path == publication.path@,
        publication@.process == publication.process,
        publication@.attempt == publication.attempt,
        publication@.temporary == publication.temporary@,
{
}

/// The views of the steps are steps of the same kind about the same things.
pub proof fn the_views_of_steps_are_the_same_steps(write: WriteSecret, publish: Publish)
    ensures
        match write {
            WriteSecret::Open(file) => write@ == WriteSecretView::Open(file@),
            WriteSecret::Write(file) => write@ == WriteSecretView::Write(file@),
            WriteSecret::Sync(file) => write@ == WriteSecretView::Sync(file@),
            WriteSecret::Finished(Ok(())) => write@ == WriteSecretView::Finished(Ok(())),
            WriteSecret::Finished(Err(GuardianError::ConfigurationError(message))) => write@
                == WriteSecretView::Finished(Err(message@)),
        },
        match publish {
            Publish::CreateDirectory(directory, publication, next) => publish@
                == PublishView::CreateDirectory(directory@, publication@, next@),
            Publish::Probe(publication) => publish@ == PublishView::Probe(publication@),
            Publish::Claim(publication, next) => publish@ == PublishView::Claim(
                publication@,
                next@,
            ),
            Publish::Write(publication, next) => publish@ == PublishView::Write(
                publication@,
                next@,
            ),
            Publish::Link(publication) => publish@ == PublishView::Link(publication@),
            Publish::Remove(publication, Ok(())) => publish@ == PublishView::Remove(
                publication@,
                Ok(()),
            ),
            Publish::Remove(publication, Err(GuardianError::ConfigurationError(message))) =>
                publish@ == PublishView::Remove(publication@, Err(message@)),
            Publish::Finished(Ok(())) => publish@ == PublishView::Finished(Ok(())),
            Publish::Finished(Err(GuardianError::ConfigurationError(message))) => publish@
                == PublishView::Finished(Err(message@)),
        },
{
}

/// The views of the outcomes are the same outcomes, with the very texts of their errors.
pub proof fn the_views_of_outcomes_are_the_same_outcomes(claim: ClaimOutcome, link: LinkOutcome)
    ensures
        match claim {
            ClaimOutcome::Created => claim@ == ClaimOutcomeView::Created,
            ClaimOutcome::AlreadyExists(error) => claim@ == ClaimOutcomeView::AlreadyExists(error@),
            ClaimOutcome::Failed(error) => claim@ == ClaimOutcomeView::Failed(error@),
        },
        match link {
            LinkOutcome::Linked => link@ == LinkOutcomeView::Linked,
            LinkOutcome::AlreadyExists => link@ == LinkOutcomeView::AlreadyExists,
            LinkOutcome::Failed(error) => link@ == LinkOutcomeView::Failed(error@),
        },
{
}

/// A secret file is opened, written and synced, in this order and with its path and contents
/// unchanged throughout; a failure ends this, and the message names the file and the failure.
pub proof fn a_secret_file_is_written_in_order(file: SecretFileView, error: Seq<char>)
    ensures
        file.after_open(Ok(())) == WriteSecretView::Write(file),
        file.after_write(Ok(())) == WriteSecretView::Sync(file),
        file.after_sync(Ok(())) == WriteSecretView::Finished(Ok(())),
        file.after_open(Err(error)) == WriteSecretView::Finished(
            Err("Failed to create ack secret file "@ + file.path + ": "@ + error),
        ),
        file.after_write(Err(error)) == WriteSecretView::Finished(
            Err("Failed to write ack secret file "@ + file.path + ": "@ + error),
        ),
        file.after_sync(Err(error)) == WriteSecretView::Finished(
            Err("Failed to write ack secret file "@ + file.path + ": "@ + error),
        ),
{
}

/// Redirecting a step of writing to another file changes its path and nothing else.
pub proof fn redirecting_changes_only_the_path(file: SecretFileView, path: Seq<char>)
    ensures
        WriteSecretView::Open(file).redirected(path) == WriteSecretView::Open(
            (SecretFileView { path, contents: file.contents }),
        ),
{
}

/// Publishing in the file at a path that names one begins with creating the directory that the
/// file is in, before any file is created: for a plain path this is the path up to its last slash.
/// What then is written, to the temporary file, is the hexadecimal form of the secret.
pub proof fn publishing_begins_with_the_directory(
    path: Seq<char>,
    process: u32,
    secret: Seq<u8>,
    step: PublishView,
)
    requires
        begins_to_publish(path, process, secret, step),
        names_a_file(path) || is_plain_path(path),
    ensures
        step matches PublishView::CreateDirectory(directory, publication, write) && {
            &&& is_plain_path(path) ==> directory == directory_of(path)
            &&& directory.is_prefix_of(path) && directory.len() < path.len()
            &&& has_slashes_only(path) ==> ends_before_the_name(path, directory)
            &&& publication.path == path
            &&& publication.process == process
            &&& publication.attempt == 0
            &&& publication.temporary != path
            &&& ends_with_a_name(path) ==> keeps_the_name(
                path,
                "tmp."@ + decimal(process as nat),
                publication.temporary,
            )
            &&& has_clear_extension(path) ==> publication.temporary == without_extension(path)
                + ".tmp."@ + decimal(process as nat)
            &&& write == WriteSecretView::Open(
                SecretFileView { path: publication.temporary, contents: hex_text(secret) },
            )
        },
{
    if is_plain_path(path) {
        a_plain_path_has_a_clear_extension(path);
    }
    reveal_strlit(".tmp.");
    reveal_strlit("tmp.");
    reveal_strlit(".");
    if has_clear_extension(path) {
        assert(temporary_name(path, process as nat, 0) =~= without_extension(path) + ".tmp."@
            + decimal(process as nat));
    }
}

/// A directory that is given is created before anything else, and without one publishing begins
/// with the temporary file.
pub proof fn a_given_directory_is_created_first(
    path: Seq<char>,
    process: u32,
    directory: Seq<char>,
    temporary: Seq<char>,
    contents: Seq<char>,
)
    ensures
        ({
            let publication = PublicationView { path, process, attempt: 0, temporary };
            let write = WriteSecretView::Open(SecretFileView { path: temporary, contents });
            &&& publish_start(path, process, Some(directory), temporary, contents)
                == PublishView::CreateDirectory(directory, publication, write)
            &&& temporary != path ==> publish_start(path, process, None, temporary, contents)
                == PublishView::Claim(publication, write)
            &&& temporary == path ==> publish_start(path, process, None, temporary, contents)
                == PublishView::Probe(publication)
        }),
{
}

/// Publishing goes on in order as long as nothing fails: the directory, the temporary file, what
/// is to be written there, the link, the removal. A name that is taken is the end of neither the
/// temporary file, for which another is tried, nor of the link, where another process was first.
pub proof fn publishing_goes_on_in_order(
    publication: PublicationView,
    directory: Seq<char>,
    write: WriteSecretView,
    next: PublishView,
    temporary: Seq<char>,
    error: Seq<char>,
    result: Result<(), Seq<char>>,
    outcome: Result<(), Seq<char>>,
)
    requires
        publication.temporary != publication.path,
    ensures
        publication.after_directory(directory, write, Ok(())) == PublishView::Claim(
            publication,
            write,
        ),
        publication.may_follow_claim(write, ClaimOutcomeView::Created, next) <==> next
            == PublishView::Write(publication, write),
        !(write is Finished) ==> publication.after_write(write) == PublishView::Write(
            publication,
            write,
        ),
        publication.after_write(WriteSecretView::Finished(Ok(()))) == PublishView::Link(
            publication,
        ),
        publication.after_link(LinkOutcomeView::Linked) == PublishView::Remove(
            publication,
            Ok(()),
        ),
        publication.after_link(LinkOutcomeView::AlreadyExists) == PublishView::Remove(
            publication,
            Ok(()),
        ),
        publication.after_remove(result, outcome) == PublishView::Finished(result),
        publication.attempt < u32::MAX && temporary != publication.temporary && temporary
            != publication.path ==> publication.after_retry(temporary, write, error)
            == PublishView::Claim(
            PublicationView {
                path: publication.path,
                process: publication.process,
                attempt: (publication.attempt + 1) as u32,
                temporary,
            },
            write.redirected(temporary),
        ),
{
}

/// A name for the temporary file that is taken leads to the next name for it, as long as there is
/// one.
pub proof fn a_taken_name_leads_to_the_next(
    publication: PublicationView,
    write: WriteSecretView,
    error: Seq<char>,
    next: PublishView,
)
    requires
        publication.may_follow_claim(write, ClaimOutcomeView::AlreadyExists(error), next),
        has_clear_extension(publication.path),
        publication.attempt < u32::MAX,
        publication.temporary == temporary_name(
            publication.path,
            publication.process as nat,
            publication.attempt as nat,
        ),
    ensures
        next matches PublishView::Claim(retry, redirected) && {
            &&& retry.path == publication.path
            &&& retry.process == publication.process
            &&& retry.attempt == publication.attempt + 1
            &&& retry.temporary == without_extension(publication.path) + ".tmp."@ + decimal(
                publication.process as nat,
            ) + "."@ + decimal(retry.attempt as nat)
            &&& redirected == write.redirected(retry.temporary)
        },
{
    let process = publication.process as nat;
    let attempt = publication.attempt as nat;
    temporary_names_differ(publication.path, process, attempt, process, attempt + 1);
    the_temporary_file_is_beside_its_file(publication.path, process, attempt + 1);
    reveal_strlit(".tmp.");
    reveal_strlit("tmp.");
    reveal_strlit(".");
    assert(temporary_name(publication.path, process, attempt + 1) =~= without_extension(
        publication.path,
    ) + ".tmp."@ + decimal(process) + "."@ + decimal(attempt + 1));
}

/// Every failure to publish ends with an error whose message says what was tried, on what, and
/// what came of it; after a failed link the temporary file is still removed.
pub proof fn failures_to_publish_are_reported(
    publication: PublicationView,
    directory: Seq<char>,
    write: WriteSecretView,
    next: PublishView,
    temporary: Seq<char>,
    error: Seq<char>,
)
    ensures
        publication.after_directory(directory, write, Err(error)) == PublishView::Finished(
            Err("Failed to create ack secret directory "@ + directory + ": "@ + error),
        ),
        publication.may_follow_claim(write, ClaimOutcomeView::Failed(error), next) <==> next
            == PublishView::Finished(
            Err(
                "Failed to create ack secret file "@ + publication.temporary + ": "@ + error,
            ),
        ),
        publication.attempt == u32::MAX || temporary == publication.temporary
            ==> publication.after_retry(temporary, write, error) == PublishView::Finished(
            Err(
                "Failed to create ack secret file "@ + publication.temporary + ": "@ + error,
            ),
        ),
        publication.attempt == u32::MAX ==> (publication.may_follow_claim(
            write,
            ClaimOutcomeView::AlreadyExists(error),
            next,
        ) <==> next == PublishView::Finished(
            Err(
                "Failed to create ack secret file "@ + publication.temporary + ": "@ + error,
            ),
        )),
        publication.after_probe(Err(error)) == PublishView::Finished(
            Err(
                "Failed to create ack secret file "@ + publication.temporary + ": "@ + error,
            ),
        ),
        publication.after_probe(Ok(())) matches PublishView::Finished(Err(_)),
        publication.after_write(WriteSecretView::Finished(Err(error))) == PublishView::Finished(
            Err(error),
        ),
        publication.after_link(LinkOutcomeView::Failed(error)) == PublishView::Remove(
            publication,
            Err("Failed to publish ack secret file "@ + publication.path + ": "@ + error),
        ),
        publication.temporary == publication.path ==> publication.after_directory(
            directory,
            write,
            Ok(()),
        ) == PublishView::Probe(publication),
{
}

} // verus!
