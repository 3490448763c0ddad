//! Acknowledgement secrets in local files: a stable identity for the guardian without a secrets
//! service.
//!
//! The secrets are hexadecimal text in files that the environment names, so that a self-hosted
//! guardian keeps its identity across restarts. A guardian that generated its keys anew whenever
//! it starts would change the commitment to them and freeze every account that pinned the old
//! one. Generating a missing secret is therefore something to opt into: a mistyped path or an
//! unmounted volume would otherwise mint a new identity.
//!
//! Nothing here touches the file system. A step says what to do next; its method takes what came
//! of that and gives the step that follows.

use crate::ack_key::{decode_secret_key, decoded_key, AckSecret};
use crate::environment::{
    autogen_from_env, autogen_outcome, optional_path, optional_path_outcome, required_path,
    required_path_outcome, EnvVar, EnvVarView, ENV_ACK_ECDSA_SECRET_PATH,
    ENV_ACK_FALCON_SECRET_PATH,
};
use crate::error::{failed, failure, reported, told, GuardianError};
use crate::publish::{
    begins_to_publish, write_new_secret_file, Publish, PublishView, SECRET_FILE_MODE,
};
use crate::secret::{SecretBytes, SecretString};
use crate::text::join;
use miden_protocol::crypto::dsa::ecdsa_k256_keccak::SecretKey as EcdsaSecretKey;
use miden_protocol::crypto::dsa::falcon512_poseidon2::SecretKey as FalconSecretKey;
use vstd::prelude::*;

verus! {

/// Whether permission bits give group and others no access at all.
pub open spec fn is_owner_only(mode: u32) -> bool {
    mode & 0o077 == 0
}

/// Permission bits give group and others no access exactly where their six lowest bits are clear.
/// Those with which secret files are created do.
pub proof fn owner_only_means_six_clear_bits(mode: u32)
    ensures
        is_owner_only(mode) <==> mode % 64 == 0,
        is_owner_only(SECRET_FILE_MODE),
{
    assert(mode & 0o077 == 0 <==> mode % 64 == 0) by (bit_vector);
    assert(0o600u32 & 0o077 == 0) by (bit_vector);
}

/// What inspecting the file at `path` says of its permissions, or the message of the error.
pub open spec fn owner_only_outcome(
    path: Seq<char>,
    inspected: Result<Option<u32>, Seq<char>>,
) -> Result<(), Seq<char>> {
    match inspected {
        Err(error) => Err(failure("Failed to inspect ack secret file "@, path, error)),
        Ok(Some(mode)) if !is_owner_only(mode) => Err(
            "Ack secret file "@ + path
                + " must not be accessible by group or others (set its permissions to 0600)"@,
        ),
        Ok(_) => Ok(()),
    }
}

/// Rejects a secret file that anyone but its owner can touch. `inspected` holds the permission
/// bits of the file at `path`, and none where the platform has no such bits.
pub fn ensure_owner_only(path: &str, inspected: Result<Option<u32>, String>) -> (result: Result<
    (),
    GuardianError,
>)
    ensures
        told(result) == owner_only_outcome(path@, reported(inspected)),
{
    match inspected {
        Err(error) => Err(failed("Failed to inspect ack secret file ", path, error.as_str())),
        Ok(None) => Ok(()),
        Ok(Some(mode)) => {
            if mode & 0o077 != 0 {
                Err(
                    GuardianError::ConfigurationError(
                        join(
                            join("Ack secret file ", path).as_str(),
                            " must not be accessible by group or others (set its permissions to 0600)",
                        ),
                    ),
                )
            } else {
                Ok(())
            }
        },
    }
}

/// What loading a secret is about.
pub struct Loading {
    /// The file that holds the secret.
    pub path: String,
    /// The id of the loading process, which keeps its temporary files apart from others'.
    pub process: u32,
}

/// The view of a [`Loading`].
pub struct LoadingView {
    pub path: Seq<char>,
    pub process: u32,
}

impl View for Loading {
    type V = LoadingView;

    open spec fn view(&self) -> LoadingView {
        LoadingView { path: self.path@, process: self.process }
    }
}

/// A step of loading a secret key.
pub enum Load<T> {
    /// Look whether the file exists.
    Check(Loading),
    /// Take this step of publishing a generated secret.
    Publish(Loading, Publish),
    /// Read the permission bits of the file.
    Inspect(Loading),
    /// Read the text of the file.
    Read(Loading),
    /// Nothing is left to do.
    Finished(Result<T, GuardianError>),
}

/// The view of a [`Load`].
pub enum LoadView<T> {
    Check(LoadingView),
    Publish(LoadingView, PublishView),
    Inspect(LoadingView),
    Read(LoadingView),
    Finished(Result<T, Seq<char>>),
}

impl<T> View for Load<T> {
    type V = LoadView<T>;

    open spec fn view(&self) -> LoadView<T> {
        match self {
            Load::Check(loading) => LoadView::Check(loading@),
            Load::Publish(loading, publish) => LoadView::Publish(loading@, publish@),
            Load::Inspect(loading) => LoadView::Inspect(loading@),
            Load::Read(loading) => LoadView::Read(loading@),
            Load::Finished(Ok(key)) => LoadView::Finished(Ok(*key)),
            Load::Finished(Err(error)) => LoadView::Finished(Err(error@)),
        }
    }
}

/// Where the secrets are, and whether those that are missing are generated.
pub struct FileSecretProvider {
    falcon_secret_path: String,
    ecdsa_secret_path: Option<String>,
    autogen: bool,
}

/// The view of a [`FileSecretProvider`].
pub struct FileSecretProviderView {
    /// The file that holds the Falcon secret.
    pub falcon_secret_path: Seq<char>,
    /// The file that holds the ECDSA secret. It is not needed where ECDSA signatures come from a
    /// key management service, and only has to be there when it is asked for.
    pub ecdsa_secret_path: Option<Seq<char>>,
    /// Whether a secret whose file is missing is generated.
    pub autogen: bool,
}

impl View for FileSecretProvider {
    type V = FileSecretProviderView;

    closed spec fn view(&self) -> FileSecretProviderView {
        FileSecretProviderView {
            falcon_secret_path: self.falcon_secret_path@,
            ecdsa_secret_path: self.ecdsa_secret_path.deep_view(),
            autogen: self.autogen,
        }
    }
}

/// The provider that the three variables describe, or the message of the error in the first of
/// them that has one.
pub open spec fn from_env_outcome(
    falcon: EnvVarView,
    ecdsa: EnvVarView,
    autogen: EnvVarView,
) -> Result<FileSecretProviderView, Seq<char>> {
    match required_path_outcome(ENV_ACK_FALCON_SECRET_PATH@, falcon) {
        Err(error) => Err(error),
        Ok(falcon_secret_path) => match optional_path_outcome(ENV_ACK_ECDSA_SECRET_PATH@, ecdsa) {
            Err(error) => Err(error),
            Ok(ecdsa_secret_path) => match autogen_outcome(autogen) {
                Err(error) => Err(error),
                Ok(autogen) => Ok(
                    FileSecretProviderView { falcon_secret_path, ecdsa_secret_path, autogen },
                ),
            },
        },
    }
}

/// The first step of loading the secret in the file at `path`.
pub open spec fn load_start<T>(path: Seq<char>, autogen: bool, process: u32) -> LoadView<T> {
    if autogen {
        LoadView::Check(LoadingView { path, process })
    } else {
        LoadView::Inspect(LoadingView { path, process })
    }
}

impl FileSecretProviderView {
    /// The first step of loading the Falcon secret.
    pub open spec fn falcon_start(self, process: u32) -> LoadView<FalconSecretKey> {
        load_start(self.falcon_secret_path, self.autogen, process)
    }

    /// The first step of loading the ECDSA secret.
    pub open spec fn ecdsa_start(self, process: u32) -> LoadView<EcdsaSecretKey> {
        match self.ecdsa_secret_path {
            Some(path) => load_start(path, self.autogen, process),
            None => LoadView::Finished(
                Err(
                    ENV_ACK_ECDSA_SECRET_PATH@
                        + " is required for the in-memory ECDSA backend; set it or use GUARDIAN_ACK_ECDSA_BACKEND=aws-kms"@,
                ),
            ),
        }
    }
}

impl FileSecretProvider {
    /// The provider that the environment describes. The arguments are what reading
    /// [`ENV_ACK_FALCON_SECRET_PATH`], [`ENV_ACK_ECDSA_SECRET_PATH`] and
    /// [`ENV_ACK_SECRET_AUTOGEN`](crate::environment::ENV_ACK_SECRET_AUTOGEN) gave.
    pub fn from_env(falcon: EnvVar, ecdsa: EnvVar, autogen: EnvVar) -> (result: Result<
        FileSecretProvider,
        GuardianError,
    >)
        ensures
            match result {
                Ok(provider) => from_env_outcome(falcon@, ecdsa@, autogen@) == Ok::<
                    FileSecretProviderView,
                    Seq<char>,
                >(provider@),
                Err(error) => from_env_outcome(falcon@, ecdsa@, autogen@) == Err::<
                    FileSecretProviderView,
                    Seq<char>,
                >(error@),
            },
    {
        let falcon_secret_path = match required_path(ENV_ACK_FALCON_SECRET_PATH, falcon) {
            Ok(path) => path,
            Err(error) => return Err(error),
        };
        let ecdsa_secret_path = match optional_path(ENV_ACK_ECDSA_SECRET_PATH, ecdsa) {
            Ok(path) => path,
            Err(error) => return Err(error),
        };
        let autogen = match autogen_from_env(autogen) {
            Ok(autogen) => autogen,
            Err(error) => return Err(error),
        };
        Ok(FileSecretProvider { falcon_secret_path, ecdsa_secret_path, autogen })
    }

    /// Begins to load the secret in the file at `path`. The file is looked for first only where a
    /// missing one is to be generated.
    pub fn parsed_secret_key<T: AckSecret>(&self, path: &str, process: u32) -> (step: Load<T>)
        ensures
            step@ == load_start::<T>(path@, self@.autogen, process),
    {
        let loading = Loading { path: path.to_owned(), process };
        if self.autogen {
            Load::Check(loading)
        } else {
            Load::Inspect(loading)
        }
    }

    /// Begins to load the Falcon secret.
    pub fn falcon_secret_key(&self, process: u32) -> (step: Load<FalconSecretKey>)
        ensures
            step@ == self@.falcon_start(process),
            step@ == load_start::<FalconSecretKey>(
                self@.falcon_secret_path,
                self@.autogen,
                process,
            ),
    {
        self.parsed_secret_key(self.falcon_secret_path.as_str(), process)
    }

    /// Begins to load the ECDSA secret. Without a path for it that is an error, also where
    /// missing secrets are generated.
    pub fn ecdsa_secret_key(&self, process: u32) -> (step: Load<EcdsaSecretKey>)
        ensures
            step@ == self@.ecdsa_start(process),
            step@ == match self@.ecdsa_secret_path {
                Some(path) => load_start::<EcdsaSecretKey>(path, self@.autogen, process),
                None => LoadView::Finished(
                    Err(
                        ENV_ACK_ECDSA_SECRET_PATH@
                            + " is required for the in-memory ECDSA backend; set it or use GUARDIAN_ACK_ECDSA_BACKEND=aws-kms"@,
                    ),
                ),
            },
    {
        match &self.ecdsa_secret_path {
            Some(path) => self.parsed_secret_key(path.as_str(), process),
            None => Load::Finished(
                Err(
                    GuardianError::ConfigurationError(
                        join(
                            ENV_ACK_ECDSA_SECRET_PATH,
                            " is required for the in-memory ECDSA backend; set it or use GUARDIAN_ACK_ECDSA_BACKEND=aws-kms",
                        ),
                    ),
                ),
            ),
        }
    }
}

impl LoadingView {
    /// Whether `step` begins to publish `secret` in the file that is loaded.
    pub open spec fn publishes<T>(self, secret: Seq<u8>, step: LoadView<T>) -> bool {
        step matches LoadView::Publish(loading, publish) && loading == self && begins_to_publish(
            self.path,
            self.process,
            secret,
            publish,
        )
    }

    /// Whether `step` may follow the attempt to look whether the file exists.
    pub open spec fn may_follow_check<T: AckSecret>(
        self,
        outcome: Result<bool, Seq<char>>,
        step: LoadView<T>,
    ) -> bool {
        match outcome {
            Err(error) => step == LoadView::<T>::Finished(
                Err(failure("Failed to check ack secret file "@, self.path, error)),
            ),
            Ok(true) => step == LoadView::<T>::Inspect(self),
            Ok(false) => exists|secret: Seq<u8>|
                T::parsed(secret) is Ok && #[trigger] self.publishes(secret, step),
        }
    }

    /// What follows a step of publishing after which `publish` is the next one.
    pub open spec fn after_publish<T>(self, publish: PublishView) -> LoadView<T> {
        match publish {
            PublishView::Finished(Ok(())) => LoadView::Inspect(self),
            PublishView::Finished(Err(error)) => LoadView::Finished(Err(error)),
            _ => LoadView::Publish(self, publish),
        }
    }

    /// What follows the attempt to read the permission bits.
    pub open spec fn after_inspect<T>(
        self,
        outcome: Result<Option<u32>, Seq<char>>,
    ) -> LoadView<T> {
        match owner_only_outcome(self.path, outcome) {
            Ok(()) => LoadView::Read(self),
            Err(error) => LoadView::Finished(Err(error)),
        }
    }

    /// What follows the attempt to read the text of the file.
    pub open spec fn after_read<T: AckSecret>(
        self,
        outcome: Result<Seq<char>, Seq<char>>,
    ) -> LoadView<T> {
        match outcome {
            Ok(stored) => LoadView::Finished(
                decoded_key::<T>("Ack secret file "@ + self.path, stored),
            ),
            Err(error) => LoadView::Finished(
                Err(failure("Failed to read ack secret file "@, self.path, error)),
            ),
        }
    }
}

impl Loading {
    /// Goes on after the file was found missing: publishes `secret` in its place.
    pub fn missing<T: AckSecret>(self, secret: SecretBytes) -> (step: Load<T>)
        requires
            2 * secret@.len() <= isize::MAX,
        ensures
            self@.publishes(secret@, step@),
    {
        let publish = write_new_secret_file(self.path.as_str(), secret, self.process);
        Load::Publish(self, publish)
    }

    /// Goes on after the attempt to look whether the file exists. If it does not, a secret is
    /// generated for it.
    pub fn checked<T: AckSecret>(self, outcome: Result<bool, String>) -> (step: Load<T>)
        ensures
            self@.may_follow_check(reported(outcome), step@),
            match reported(outcome) {
                Err(error) => step@ == LoadView::<T>::Finished(
                    Err(failure("Failed to check ack secret file "@, self@.path, error)),
                ),
                Ok(true) => step@ == LoadView::<T>::Inspect(self@),
                Ok(false) => exists|secret: Seq<u8>|
                    T::parsed(secret) is Ok && #[trigger] self@.publishes(secret, step@),
            },
    {
        match outcome {
            Err(error) => Load::Finished(
                Err(
                    failed("Failed to check ack secret file ", self.path.as_str(), error.as_str()),
                ),
            ),
            Ok(true) => Load::Inspect(self),
            Ok(false) => {
                let secret = T::generate();
                self.missing(secret)
            },
        }
    }

    /// Goes on after a step of publishing, of which `publish` is the next one.
    pub fn published<T: AckSecret>(self, publish: Publish) -> (step: Load<T>)
        ensures
            step@ == self@.after_publish::<T>(publish@),
    {
        match publish {
            Publish::Finished(Ok(())) => Load::Inspect(self),
            Publish::Finished(Err(error)) => Load::Finished(Err(error)),
            publish => Load::Publish(self, publish),
        }
    }

    /// Goes on after the attempt to read the permission bits of the file.
    pub fn inspected<T: AckSecret>(self, outcome: Result<Option<u32>, String>) -> (step: Load<T>)
        ensures
            step@ == self@.after_inspect::<T>(reported(outcome)),
    {
        match ensure_owner_only(self.path.as_str(), outcome) {
            Ok(()) => Load::Read(self),
            Err(error) => Load::Finished(Err(error)),
        }
    }

    /// Goes on after the attempt to read the text of the file.
    pub fn read<T: AckSecret>(self, outcome: Result<SecretString, String>) -> (step: Load<T>)
        ensures
            step@ == self@.after_read::<T>(
                match outcome {
                    Ok(stored) => Ok(stored@),
                    Err(error) => Err(error@),
                },
            ),
    {
        match outcome {
            Ok(stored) => Load::Finished(
                decode_secret_key(join("Ack secret file ", self.path.as_str()).as_str(), &stored),
            ),
            Err(error) => Load::Finished(
                Err(failed("Failed to read ack secret file ", self.path.as_str(), error.as_str())),
            ),
        }
    }
}

/// The view of a step of loading is the same step about the same things.
pub proof fn the_view_of_loading_is_the_same_step<T>(loading: Loading, step: Load<T>)
    ensures
        loading@.path == loading.path@,
        loading@.process == loading.process,
        match step {
            Load::Check(about) => step@ == LoadView::<T>::Check(about@),
            Load::Publish(about, publish) => step@ == LoadView::<T>::Publish(about@, publish@),
            Load::Inspect(about) => step@ == LoadView::<T>::Inspect(about@),
            Load::Read(about) => step@ == LoadView::<T>::Read(about@),
            Load::Finished(Ok(key)) => step@ == LoadView::Finished(Ok::<T, Seq<char>>(key)),
            Load::Finished(Err(GuardianError::ConfigurationError(message))) => step@
                == LoadView::Finished(Err::<T, Seq<char>>(message@)),
        },
{
}

/// Loading begins with looking for the file exactly where missing secrets are generated, for every
/// path and process, and with inspecting it otherwise.
pub proof fn loading_looks_for_the_file_exactly_with_autogen<T>(
    path: Seq<char>,
    autogen: bool,
    process: u32,
)
    ensures
        load_start::<T>(path, autogen, process) is Check <==> autogen,
        load_start::<T>(path, autogen, process) is Inspect <==> !autogen,
        match load_start::<T>(path, autogen, process) {
            LoadView::Check(loading) | LoadView::Inspect(loading) => loading.path == path
                && loading.process == process,
            _ => false,
        },
{
}

/// A file passes exactly where its six lowest permission bits are clear, or where the platform has
/// no such bits. Any other is refused, and the message names it.
pub proof fn only_private_files_pass(path: Seq<char>, mode: u32, error: Seq<char>)
    ensures
        owner_only_outcome(path, Ok(Some(mode))) is Ok <==> mode % 64 == 0,
        owner_only_outcome(path, Ok(None)) is Ok,
        mode % 64 != 0 ==> owner_only_outcome(path, Ok(Some(mode))) == Err::<(), Seq<char>>(
            "Ack secret file "@ + path
                + " must not be accessible by group or others (set its permissions to 0600)"@,
        ),
        owner_only_outcome(path, Err(error)) == Err::<(), Seq<char>>(
            "Failed to inspect ack secret file "@ + path + ": "@ + error,
        ),
{
    owner_only_means_six_clear_bits(mode);
}

/// Loading goes on in order as long as nothing fails: a secret that was published is inspected, a
/// file that passes is read, and what is read is decoded. A failure ends it with the message that
/// says what failed.
pub proof fn loading_goes_on_in_order<T: AckSecret>(
    loading: LoadingView,
    publish: PublishView,
    mode: u32,
    stored: Seq<char>,
    error: Seq<char>,
)
    ensures
        loading.after_publish::<T>(PublishView::Finished(Ok(()))) == LoadView::<T>::Inspect(
            loading,
        ),
        loading.after_publish::<T>(PublishView::Finished(Err(error))) == LoadView::Finished(
            Err::<T, Seq<char>>(error),
        ),
        !(publish is Finished) ==> loading.after_publish::<T>(publish) == LoadView::<T>::Publish(
            loading,
            publish,
        ),
        loading.after_inspect::<T>(Ok(None)) == LoadView::<T>::Read(loading),
        mode % 64 == 0 ==> loading.after_inspect::<T>(Ok(Some(mode))) == LoadView::<T>::Read(
            loading,
        ),
        mode % 64 != 0 ==> loading.after_inspect::<T>(Ok(Some(mode))) == LoadView::Finished(
            Err::<T, Seq<char>>(
                "Ack secret file "@ + loading.path
                    + " must not be accessible by group or others (set its permissions to 0600)"@,
            ),
        ),
        loading.after_inspect::<T>(Err(error)) == LoadView::Finished(
            Err::<T, Seq<char>>(
                "Failed to inspect ack secret file "@ + loading.path + ": "@ + error,
            ),
        ),
        loading.after_read::<T>(Ok(stored)) == LoadView::<T>::Finished(
            decoded_key::<T>("Ack secret file "@ + loading.path, stored),
        ),
        loading.after_read::<T>(Err(error)) == LoadView::Finished(
            Err::<T, Seq<char>>("Failed to read ack secret file "@ + loading.path + ": "@ + error),
        ),
{
    only_private_files_pass(loading.path, mode, error);
}

/// A missing secret is generated by publishing it in the very file that is loaded.
pub proof fn a_generated_secret_is_published_in_its_file<T>(
    loading: LoadingView,
    secret: Seq<u8>,
    step: LoadView<T>,
)
    ensures
        loading.publishes(secret, step) <==> (step matches LoadView::Publish(about, publish)
            && about.path == loading.path && about.process == loading.process
            && begins_to_publish(loading.path, loading.process, secret, publish)),
{
}

/// A provider is what its three variables say, each for itself; if one of them has an error, that
/// of the first is the result.
pub proof fn a_provider_is_what_its_variables_say(
    falcon: EnvVarView,
    ecdsa: EnvVarView,
    autogen: EnvVarView,
    provider: FileSecretProviderView,
)
    ensures
        ({
            let first = required_path_outcome("GUARDIAN_ACK_FALCON_SECRET_PATH"@, falcon);
            let second = optional_path_outcome("GUARDIAN_ACK_ECDSA_SECRET_PATH"@, ecdsa);
            let third = autogen_outcome(autogen);
            let outcome = from_env_outcome(falcon, ecdsa, autogen);
            &&& outcome == Ok::<FileSecretProviderView, Seq<char>>(provider) <==> {
                &&& first == Ok::<Seq<char>, Seq<char>>(provider.falcon_secret_path)
                &&& second == Ok::<Option<Seq<char>>, Seq<char>>(provider.ecdsa_secret_path)
                &&& third == Ok::<bool, Seq<char>>(provider.autogen)
            }
            &&& first matches Err(error) ==> outcome == Err::<FileSecretProviderView, Seq<char>>(
                error,
            )
            &&& first is Ok ==> (second matches Err(error) ==> outcome == Err::<
                FileSecretProviderView,
                Seq<char>,
            >(error))
            &&& first is Ok && second is Ok ==> (third matches Err(error) ==> outcome == Err::<
                FileSecretProviderView,
                Seq<char>,
            >(error))
        }),
{
}

/// What follows looking for the file depends on nothing but whether it is there: if it is, it is
/// inspected, and if it is not, a secret that can be read is generated for it. A failure to look
/// ends loading.
pub proof fn only_a_missing_file_gets_a_secret<T: AckSecret>(
    loading: LoadingView,
    error: Seq<char>,
    step: LoadView<T>,
)
    ensures
        loading.may_follow_check(Ok(true), step) <==> step == LoadView::<T>::Inspect(loading),
        loading.may_follow_check(Ok(false), step) ==> (step matches LoadView::Publish(about, publish)
            && about == loading && exists|secret: Seq<u8>|
            T::parsed(secret) is Ok && #[trigger] begins_to_publish(
                loading.path,
                loading.process,
                secret,
                publish,
            )),
        loading.may_follow_check(Err(error), step) <==> step == LoadView::Finished(
            Err::<T, Seq<char>>(
                "Failed to check ack secret file "@ + loading.path + ": "@ + error,
            ),
        ),
{
    if loading.may_follow_check(Ok(false), step) {
        let secret = choose|secret: Seq<u8>|
            T::parsed(secret) is Ok && #[trigger] loading.publishes(secret, step);
        assert(begins_to_publish(loading.path, loading.process, secret, step->Publish_1));
    }
}

/// Each secret is loaded from the file that was configured for it, and both in the same way. The
/// ECDSA secret, without a file, is an error that names the variable, also where missing secrets
/// are generated; the Falcon secret never is one at the start.
pub proof fn each_secret_is_loaded_from_its_own_file(
    provider: FileSecretProviderView,
    process: u32,
    path: Seq<char>,
)
    ensures
        match provider.falcon_start(process) {
            LoadView::Check(loading) => provider.autogen && loading.path
                == provider.falcon_secret_path && loading.process == process,
            LoadView::Inspect(loading) => !provider.autogen && loading.path
                == provider.falcon_secret_path && loading.process == process,
            _ => false,
        },
        provider.ecdsa_secret_path == Some(path) ==> match provider.ecdsa_start(process) {
            LoadView::Check(loading) => provider.autogen && loading.path == path && loading.process
                == process,
            LoadView::Inspect(loading) => !provider.autogen && loading.path == path
                && loading.process == process,
            _ => false,
        },
        provider.ecdsa_secret_path is None ==> provider.ecdsa_start(process) == LoadView::Finished(
            Err::<EcdsaSecretKey, Seq<char>>(
                "GUARDIAN_ACK_ECDSA_SECRET_PATH"@
                    + " is required for the in-memory ECDSA backend; set it or use GUARDIAN_ACK_ECDSA_BACKEND=aws-kms"@,
            ),
        ),
{
}

} // verus!
