//! Loading and publishing acknowledgement secrets, over files that are held in memory.

use guardian::ack_key::AckSecret;
use guardian::environment::{
    autogen_from_env, optional_path, parse_autogen, required_path, EnvVar,
    ENV_ACK_ECDSA_SECRET_PATH,
};
use guardian::error::GuardianError;
use guardian::file_provider::{ensure_owner_only, FileSecretProvider, Load, Loading};
use guardian::publish::{
    publish_by_way_of, write_new_secret_file, write_secret_bytes, ClaimOutcome, LinkOutcome,
    Publish, WriteSecret, SECRET_FILE_MODE,
};
use guardian::secret::{SecretBytes, SecretString};
use miden_protocol::crypto::dsa::ecdsa_k256_keccak::SecretKey as EcdsaSecretKey;
use miden_protocol::crypto::dsa::falcon512_poseidon2::SecretKey as FalconSecretKey;
use miden_protocol::utils::serde::Serializable;
use std::collections::{BTreeMap, BTreeSet};

const PROCESS: u32 = 4711;

#[derive(Clone, Debug, PartialEq)]
struct File {
    contents: String,
    mode: u32,
    synced: bool,
}

/// Files in memory, which can have several names. An operation that is listed in `broken` fails.
#[derive(Default)]
struct Disk {
    names: BTreeMap<String, usize>,
    files: Vec<File>,
    open: Option<usize>,
    directories: BTreeSet<String>,
    broken: BTreeSet<String>,
}

impl Disk {
    fn attempt(&self, operation: &str) -> Result<(), String> {
        if self.broken.contains(operation) {
            Err(format!("{} is broken", operation))
        } else {
            Ok(())
        }
    }

    fn store(&mut self, path: &str, contents: &str, mode: u32) {
        self.create(path, File { contents: contents.to_string(), mode, synced: true });
    }

    fn create(&mut self, path: &str, file: File) {
        self.files.push(file);
        self.names.insert(path.to_string(), self.files.len() - 1);
    }

    fn holds(&self, path: &str) -> bool {
        self.names.contains_key(path)
    }

    fn file(&self, path: &str) -> &File {
        &self.files[self.names[path]]
    }

    fn write(&mut self, step: WriteSecret) -> WriteSecret {
        match step {
            WriteSecret::Open(file) => {
                let outcome = self.attempt("open");
                if outcome.is_ok() {
                    if !self.holds(&file.path) {
                        self.create(&file.path, new_file());
                    }
                    let id = self.names[&file.path];
                    self.files[id].contents.clear();
                    self.files[id].synced = false;
                    self.open = Some(id);
                }
                file.opened(outcome)
            }
            WriteSecret::Write(file) => {
                let outcome = self.attempt("write");
                if outcome.is_ok() {
                    let id = self.open.unwrap();
                    self.files[id].contents.push_str(file.contents.expose_secret());
                }
                file.written(outcome)
            }
            WriteSecret::Sync(file) => {
                let outcome = self.attempt("sync");
                if outcome.is_ok() {
                    let id = self.open.unwrap();
                    self.files[id].synced = true;
                }
                file.synced(outcome)
            }
            WriteSecret::Finished(result) => WriteSecret::Finished(result),
        }
    }

    fn publish_step(&mut self, step: Publish) -> Publish {
        match step {
            Publish::CreateDirectory(directory, publication, write) => {
                let outcome = self.attempt("mkdir");
                if outcome.is_ok() {
                    self.directories.insert(directory.clone());
                }
                publication.directory_created(&directory, write, outcome)
            }
            Publish::Probe(publication) => publication.probed(self.attempt("probe")),
            Publish::Claim(publication, write) => {
                let outcome = match self.attempt("claim") {
                    Err(error) => ClaimOutcome::Failed(error),
                    Ok(()) if self.holds(&publication.temporary) => {
                        ClaimOutcome::AlreadyExists("it exists".to_string())
                    }
                    Ok(()) => {
                        self.create(&publication.temporary, new_file());
                        ClaimOutcome::Created
                    }
                };
                publication.claimed(write, outcome)
            }
            Publish::Write(publication, write) => {
                let write = self.write(write);
                publication.wrote(write)
            }
            Publish::Link(publication) => {
                let outcome = match self.attempt("link") {
                    Err(error) => LinkOutcome::Failed(error),
                    Ok(()) if self.holds(&publication.path) => LinkOutcome::AlreadyExists,
                    Ok(()) => {
                        let id = self.names[&publication.temporary];
                        assert!(self.files[id].synced, "only a synced file may be linked");
                        self.names.insert(publication.path.clone(), id);
                        LinkOutcome::Linked
                    }
                };
                publication.linked(outcome)
            }
            Publish::Remove(publication, result) => {
                let outcome = self.attempt("remove");
                if outcome.is_ok() {
                    self.names.remove(&publication.temporary);
                }
                publication.removed(result, outcome)
            }
            Publish::Finished(result) => Publish::Finished(result),
        }
    }

    fn publish(&mut self, mut step: Publish) -> Result<(), String> {
        loop {
            match step {
                Publish::Finished(result) => return result.map_err(message),
                other => step = self.publish_step(other),
            }
        }
    }

    fn load<T: AckSecret>(&mut self, mut step: Load<T>) -> Result<T, String> {
        loop {
            step = match step {
                Load::Check(loading) => {
                    let outcome = self
                        .attempt("check")
                        .map(|()| self.holds(&loading.path));
                    loading.checked(outcome)
                }
                Load::Publish(loading, publish) => {
                    let publish = self.publish_step(publish);
                    loading.published(publish)
                }
                Load::Inspect(loading) => {
                    let outcome = if self.holds(&loading.path) {
                        Ok(Some(self.file(&loading.path).mode))
                    } else {
                        Err("no such file".to_string())
                    };
                    loading.inspected(outcome)
                }
                Load::Read(loading) => {
                    let outcome = self.attempt("read").map(|()| {
                        SecretString::new(self.file(&loading.path).contents.clone())
                    });
                    loading.read(outcome)
                }
                Load::Finished(result) => return result.map_err(message),
            }
        }
    }
}

fn new_file() -> File {
    File { contents: String::new(), mode: SECRET_FILE_MODE, synced: false }
}

fn message(error: GuardianError) -> String {
    match error {
        GuardianError::ConfigurationError(message) => message,
    }
}

fn provider(falcon: &str, ecdsa: Option<&str>, autogen: bool) -> FileSecretProvider {
    let ecdsa = match ecdsa {
        Some(path) => EnvVar::Present(path.to_string()),
        None => EnvVar::NotPresent,
    };
    let autogen = EnvVar::Present(autogen.to_string());
    let falcon = EnvVar::Present(falcon.to_string());
    match FileSecretProvider::from_env(falcon, ecdsa, autogen) {
        Ok(provider) => provider,
        Err(error) => panic!("{}", message(error)),
    }
}

fn refusal<T>(result: Result<T, String>) -> String {
    match result {
        Ok(_) => panic!("this has to fail"),
        Err(message) => message,
    }
}

#[test]
fn reads_falcon_and_ecdsa_secrets_from_files() {
    let mut disk = Disk::default();
    let falcon = FalconSecretKey::new();
    let ecdsa = EcdsaSecretKey::new();
    disk.store("read/falcon", &hex::encode(falcon.to_bytes()), 0o600);
    disk.store("read/ecdsa", &hex::encode(ecdsa.to_bytes()), 0o600);
    let provider = provider("read/falcon", Some("read/ecdsa"), false);

    let loaded = disk.load(provider.falcon_secret_key(PROCESS)).unwrap();
    assert_eq!(loaded.to_bytes(), falcon.to_bytes());
    let loaded = disk.load(provider.ecdsa_secret_key(PROCESS)).unwrap();
    assert_eq!(loaded.to_bytes(), ecdsa.to_bytes());
}

#[test]
fn same_file_yields_same_identity_across_reads() {
    let mut disk = Disk::default();
    let falcon = FalconSecretKey::new();
    disk.store("stable/falcon", &hex::encode(falcon.to_bytes()), 0o600);
    let provider = provider("stable/falcon", None, false);

    let first = disk.load(provider.falcon_secret_key(PROCESS)).unwrap();
    let second = disk.load(provider.falcon_secret_key(PROCESS)).unwrap();
    assert_eq!(first.public_key().to_commitment(), second.public_key().to_commitment());
}

#[test]
fn tolerates_surrounding_whitespace_in_file() {
    let mut disk = Disk::default();
    let ecdsa = EcdsaSecretKey::new();
    let stored = format!("  {}\n", hex::encode(ecdsa.to_bytes()));
    disk.store("trim/ecdsa", &stored, 0o600);
    let provider = provider("trim/falcon", Some("trim/ecdsa"), false);

    let loaded = disk.load(provider.ecdsa_secret_key(PROCESS)).unwrap();
    assert_eq!(loaded.to_bytes(), ecdsa.to_bytes());
}

#[test]
fn missing_file_is_configuration_error() {
    let provider = provider(
        "/nonexistent/guardian/ack-falcon",
        Some("/nonexistent/guardian/ack-ecdsa"),
        false,
    );
    let error = refusal(Disk::default().load(provider.falcon_secret_key(PROCESS)));
    assert_eq!(
        error,
        "Failed to inspect ack secret file /nonexistent/guardian/ack-falcon: no such file"
    );
}

#[test]
fn invalid_hex_is_configuration_error() {
    let mut disk = Disk::default();
    disk.store("badhex/falcon", "nothex!!", 0o600);
    let provider = provider("badhex/falcon", None, false);

    let error = refusal(disk.load(provider.falcon_secret_key(PROCESS)));
    assert!(error.contains("hex"));
    assert_eq!(
        error,
        "Ack secret file badhex/falcon is not valid hex: Invalid character 'n' at position 0"
    );
}

#[test]
fn unset_ecdsa_path_loads_falcon_but_errors_only_when_ecdsa_consulted() {
    let mut disk = Disk::default();
    let falcon = FalconSecretKey::new();
    disk.store("ecdsa_opt/falcon", &hex::encode(falcon.to_bytes()), 0o600);
    let provider = provider("ecdsa_opt/falcon", None, false);

    let loaded = disk.load(provider.falcon_secret_key(PROCESS)).unwrap();
    assert_eq!(loaded.to_bytes(), falcon.to_bytes());
    let error = refusal(disk.load(provider.ecdsa_secret_key(PROCESS)));
    assert!(error.contains(ENV_ACK_ECDSA_SECRET_PATH));
}

#[test]
fn rejects_group_or_world_accessible_file() {
    let mut disk = Disk::default();
    let falcon = FalconSecretKey::new();
    disk.store("perms/falcon", &hex::encode(falcon.to_bytes()), 0o644);
    let provider = provider("perms/falcon", None, false);

    let error = refusal(disk.load(provider.falcon_secret_key(PROCESS)));
    assert!(error.contains("0600"));
}

#[test]
fn missing_file_without_autogen_is_an_error() {
    let mut disk = Disk::default();
    let provider = provider("no-autogen/falcon", None, false);

    let error = refusal(disk.load(provider.falcon_secret_key(PROCESS)));
    assert!(error.contains("Failed to inspect ack secret file"));
    assert!(disk.names.is_empty(), "nothing may be created when autogen is off");
}

#[test]
fn autogen_mints_and_persists_a_falcon_key() {
    let mut disk = Disk::default();
    let path = "autogen-falcon/nested/falcon";
    let minted = disk.load(provider(path, None, true).falcon_secret_key(PROCESS)).unwrap();
    assert!(disk.holds(path), "autogen must create the key file");
    assert!(disk.directories.contains("autogen-falcon/nested"));
    assert_eq!(disk.file(path).mode & 0o777, 0o600, "generated key file must be 0600");
    assert_eq!(disk.names.len(), 1, "the temporary file must not be left behind");
    assert_eq!(disk.file(path).contents, hex::encode(minted.to_bytes()));

    // A second provider over the same path must load the stored key, not mint a new one: the
    // commitment depends on that.
    let reopened = disk.load(provider(path, None, true).falcon_secret_key(PROCESS)).unwrap();
    assert_eq!(
        reopened.public_key().to_commitment(),
        minted.public_key().to_commitment()
    );
}

#[test]
fn autogen_mints_and_persists_an_ecdsa_key() {
    let mut disk = Disk::default();
    let path = "autogen-ecdsa/ecdsa";
    let first = provider("autogen-ecdsa/falcon", Some(path), true);
    let minted = disk.load(first.ecdsa_secret_key(PROCESS)).unwrap();
    let second = provider("autogen-ecdsa/falcon", Some(path), true);
    let reopened = disk.load(second.ecdsa_secret_key(PROCESS)).unwrap();
    assert_eq!(reopened.to_bytes(), minted.to_bytes());
}

#[test]
fn autogen_does_not_overwrite_an_existing_key() {
    let mut disk = Disk::default();
    let path = "autogen-existing/falcon";
    let existing = FalconSecretKey::new();
    disk.store(path, &hex::encode(existing.to_bytes()), 0o600);

    let loaded = disk.load(provider(path, None, true).falcon_secret_key(PROCESS)).unwrap();
    assert_eq!(loaded.to_bytes(), existing.to_bytes());
}

#[test]
fn autogen_still_requires_the_ecdsa_path() {
    let mut disk = Disk::default();
    let provider = provider("autogen-no-ecdsa-path/falcon", None, true);

    let error = refusal(disk.load(provider.ecdsa_secret_key(PROCESS)));
    assert!(
        error.contains(ENV_ACK_ECDSA_SECRET_PATH),
        "an unset ecdsa path is a configuration error, not something to mint"
    );
    assert_eq!(
        error,
        "GUARDIAN_ACK_ECDSA_SECRET_PATH is required for the in-memory ECDSA backend; \
         set it or use GUARDIAN_ACK_ECDSA_BACKEND=aws-kms"
    );
}

#[test]
fn publishing_over_an_existing_file_keeps_the_first_key() {
    let mut disk = Disk::default();
    let path = "publish-race/falcon";
    let first = FalconSecretKey::new();
    let second = FalconSecretKey::new();

    for key in [&first, &second] {
        let secret = SecretBytes::new(key.to_bytes());
        disk.publish(write_new_secret_file(path, secret, PROCESS)).unwrap();
    }

    let loaded = disk.load(provider(path, None, false).falcon_secret_key(PROCESS)).unwrap();
    assert_eq!(
        loaded.to_bytes(),
        first.to_bytes(),
        "the second write must not replace the published key"
    );
    assert!(
        disk.names.keys().all(|name| !name.contains("tmp")),
        "the temporary file must not be left behind"
    );
}

#[test]
fn autogen_flag_rejects_junk() {
    assert!(!parse_autogen(None).unwrap());
    assert!(!parse_autogen(Some("false")).unwrap());
    assert!(parse_autogen(Some("true")).unwrap());
    assert!(parse_autogen(Some(" TRUE ")).unwrap());
    assert!(parse_autogen(Some("yes")).is_err());
}

#[test]
fn autogen_flag_names_the_lower_case_word_it_rejects() {
    assert!(!parse_autogen(Some(" \t")).unwrap());
    assert!(!parse_autogen(Some("FALSE\n")).unwrap());
    assert!(parse_autogen(Some("\u{3000}tRuE\u{a0}")).unwrap());
    assert_eq!(
        parse_autogen(Some(" YES ")).map_err(message),
        Err("GUARDIAN_ACK_SECRET_AUTOGEN `yes` is not supported (expected `true` or `false`)"
            .to_string())
    );
    assert_eq!(autogen_from_env(EnvVar::NotPresent).map_err(message), Ok(false));
    assert_eq!(
        autogen_from_env(EnvVar::NotUnicode).map_err(message),
        Err("GUARDIAN_ACK_SECRET_AUTOGEN must contain valid UTF-8".to_string())
    );
    assert_eq!(autogen_from_env(EnvVar::Present("True".to_string())).map_err(message), Ok(true));
}

#[test]
fn a_required_path_is_trimmed_and_must_be_set() {
    let present = |text: &str| EnvVar::Present(text.to_string());
    assert_eq!(required_path("VAR", present(" /a b \n")).map_err(message), Ok("/a b".to_string()));
    assert_eq!(
        required_path("VAR", present(" \n")).map_err(message),
        Err("VAR must not be blank when GUARDIAN_ACK_SECRET_PROVIDER=file".to_string())
    );
    assert_eq!(
        required_path("VAR", EnvVar::NotPresent).map_err(message),
        Err("VAR is required when GUARDIAN_ACK_SECRET_PROVIDER=file".to_string())
    );
    assert_eq!(
        required_path("VAR", EnvVar::NotUnicode).map_err(message),
        Err("VAR must contain valid UTF-8".to_string())
    );
}

#[test]
fn an_optional_path_may_be_unset_but_not_blank() {
    let present = |text: &str| EnvVar::Present(text.to_string());
    assert_eq!(
        optional_path("VAR", present("\tkey ")).map_err(message),
        Ok(Some("key".to_string()))
    );
    assert_eq!(optional_path("VAR", EnvVar::NotPresent).map_err(message), Ok(None));
    assert_eq!(
        optional_path("VAR", present("")).map_err(message),
        Err("VAR must not be blank when set".to_string())
    );
    assert_eq!(
        optional_path("VAR", EnvVar::NotUnicode).map_err(message),
        Err("VAR must contain valid UTF-8".to_string())
    );
}

#[test]
fn the_first_bad_variable_is_reported() {
    let bad = || EnvVar::NotUnicode;
    let good = || EnvVar::Present("key".to_string());
    let error = |falcon, ecdsa, autogen| {
        refusal(FileSecretProvider::from_env(falcon, ecdsa, autogen).map_err(message))
    };
    assert_eq!(
        error(bad(), bad(), bad()),
        "GUARDIAN_ACK_FALCON_SECRET_PATH must contain valid UTF-8"
    );
    assert_eq!(
        error(good(), bad(), bad()),
        "GUARDIAN_ACK_ECDSA_SECRET_PATH must contain valid UTF-8"
    );
    assert_eq!(
        error(good(), good(), bad()),
        "GUARDIAN_ACK_SECRET_AUTOGEN must contain valid UTF-8"
    );
}

#[test]
fn permission_bits_of_group_and_others_are_refused() {
    for mode in [0o600u32, 0o100600, 0o400, 0o700, 0] {
        assert_eq!(ensure_owner_only("key", Ok(Some(mode))).map_err(message), Ok(()));
    }
    for mode in [0o601u32, 0o602, 0o604, 0o610, 0o620, 0o640, 0o100644] {
        assert_eq!(
            ensure_owner_only("key", Ok(Some(mode))).map_err(message),
            Err("Ack secret file key must not be accessible by group or others \
                 (set its permissions to 0600)"
                .to_string())
        );
    }
    assert_eq!(ensure_owner_only("key", Ok(None)).map_err(message), Ok(()));
    assert_eq!(
        ensure_owner_only("key", Err("gone".to_string())).map_err(message),
        Err("Failed to inspect ack secret file key: gone".to_string())
    );
}

#[test]
fn every_failing_operation_has_its_message() {
    let error = |operation: &str| {
        let mut disk = Disk::default();
        disk.broken.insert(operation.to_string());
        let provider = provider("dir/falcon", Some("dir/ecdsa"), true);
        let error = refusal(disk.load(provider.ecdsa_secret_key(PROCESS)));
        let temporary_left = disk.holds("dir/ecdsa.tmp.4711");
        (error, temporary_left)
    };
    assert_eq!(
        error("check"),
        ("Failed to check ack secret file dir/ecdsa: check is broken".to_string(), false)
    );
    assert_eq!(
        error("mkdir"),
        ("Failed to create ack secret directory dir: mkdir is broken".to_string(), false)
    );
    assert_eq!(
        error("claim"),
        (
            "Failed to create ack secret file dir/ecdsa.tmp.4711: claim is broken".to_string(),
            false
        )
    );
    assert_eq!(
        error("open"),
        (
            "Failed to create ack secret file dir/ecdsa.tmp.4711: open is broken".to_string(),
            true
        )
    );
    assert_eq!(
        error("write"),
        (
            "Failed to write ack secret file dir/ecdsa.tmp.4711: write is broken".to_string(),
            true
        )
    );
    assert_eq!(
        error("sync"),
        ("Failed to write ack secret file dir/ecdsa.tmp.4711: sync is broken".to_string(), true)
    );
    assert_eq!(
        error("link"),
        ("Failed to publish ack secret file dir/ecdsa: link is broken".to_string(), false)
    );
    assert_eq!(
        error("read"),
        ("Failed to read ack secret file dir/ecdsa: read is broken".to_string(), false)
    );
}

#[test]
fn a_failure_to_remove_the_temporary_file_is_passed_over() {
    let mut disk = Disk::default();
    disk.broken.insert("remove".to_string());
    let provider = provider("falcon", Some("ecdsa.hex"), true);
    let minted = disk.load(provider.ecdsa_secret_key(7)).unwrap();
    assert_eq!(disk.file("ecdsa.hex").contents, hex::encode(minted.to_bytes()));
    assert!(disk.holds("ecdsa.tmp.7"));
}

#[test]
fn the_loser_of_a_race_serves_the_key_of_the_winner() {
    let mut disk = Disk::default();
    let provider = provider("falcon", Some("race/ecdsa"), true);
    let winner = EcdsaSecretKey::new();
    let mut step = provider.ecdsa_secret_key(1);
    // The file is missing when this process looks, and there before it links its own secret.
    step = match step {
        Load::Check(loading) => loading.checked(Ok(false)),
        other => other,
    };
    disk.store("race/ecdsa", &hex::encode(winner.to_bytes()), 0o600);
    let loaded = disk.load(step).unwrap();
    assert_eq!(loaded.to_bytes(), winner.to_bytes());
    assert_eq!(disk.names.len(), 1);
}

#[test]
fn a_secret_is_written_as_lower_case_hex() {
    let secret = SecretBytes::new(vec![0x00, 0x9a, 0xff, 0x10]);
    match write_secret_bytes("key.tmp", secret) {
        WriteSecret::Open(file) => {
            assert_eq!(file.path, "key.tmp");
            assert_eq!(file.contents.expose_secret(), "009aff10");
        }
        _ => panic!("writing begins with opening"),
    }
    let mut disk = Disk::default();
    let secret = SecretBytes::new(vec![1, 2, 254]);
    let step = publish_by_way_of("key", 1, None, "other".to_string(), secret);
    disk.publish(step).unwrap();
    assert_eq!(disk.file("key").contents, "0102fe");
    assert_eq!(disk.names.len(), 1);
}

#[test]
fn a_plain_path_has_one_directory_and_one_temporary_file() {
    let cases = [
        ("key", "", "key.tmp.31"),
        ("key.hex", "", "key.tmp.31"),
        ("key.old.hex", "", "key.old.tmp.31"),
        ("key.", "", "key.tmp.31"),
        (".key", "", ".key.tmp.31"),
        (".key.hex", "", ".key.tmp.31"),
        ("...key", "", "...tmp.31"),
        ("..key.hex", "", "..key.tmp.31"),
        ("..a/k", "..a", "..a/k.tmp.31"),
        ("key.tmp.31", "", "key.tmp.tmp.31"),
        ("/key", "/", "/key.tmp.31"),
        ("/var/lib.d/key", "/var/lib.d", "/var/lib.d/key.tmp.31"),
        ("/var/lib.d/.key", "/var/lib.d", "/var/lib.d/.key.tmp.31"),
        ("./key", ".", "./key.tmp.31"),
        ("../key.hex", "..", "../key.tmp.31"),
        ("a/../b/key.hex", "a/../b", "a/../b/key.tmp.31"),
        ("a/b c/k y.hex", "a/b c", "a/b c/k y.tmp.31"),
        ("a.b/c\u{e9}", "a.b", "a.b/c\u{e9}.tmp.31"),
    ];
    for (path, expected_directory, expected_temporary) in cases {
        match write_new_secret_file(path, SecretBytes::new(vec![1]), 31) {
            Publish::CreateDirectory(directory, publication, write) => {
                assert_eq!(directory, expected_directory);
                assert_eq!(publication.path, path);
                assert_eq!(publication.temporary, expected_temporary);
                assert!(matches!(
                    write,
                    WriteSecret::Open(file) if file.path == expected_temporary
                ));
            }
            _ => panic!("the directory comes first"),
        }
    }
}

/// The directory of a plain path.
fn plain_directory(path: &str) -> Option<String> {
    let (before, name) = match path.rfind('/') {
        Some(slash) => path.split_at(slash + 1),
        None => ("", path),
    };
    let lone_dot = path.split('/').skip(1).any(|component| component == ".");
    let two_dots = name.starts_with("..") && name.rfind('.') == Some(1);
    let outlandish = path.contains('\\') || path.contains(':');
    if name.is_empty() || name == "." || two_dots || lone_dot || path.contains("//") || outlandish {
        return None;
    }
    Some(if before.len() > 1 { &before[..before.len() - 1] } else { before }.to_string())
}

fn is_separator(c: char) -> bool {
    c == '/' || c == '\\' || c == ':'
}

/// The temporary file of a path with a clear extension.
fn clear_temporary(path: &str, process: u32) -> Option<String> {
    let place = |found: Option<usize>| found.map_or(-1, |place| place as i64);
    let separator = place(path.rfind(is_separator));
    let slash = place(path.rfind('/'));
    let dot = place(path.rfind('.'));
    let length = path.len() as i64;
    let first = (separator + 1) as usize;
    if separator + 1 >= length
        || path.len() > 1 && path.chars().take(2).all(is_separator)
        || dot == separator + 1 && dot == length - 1
    {
        return None;
    }
    let two_dots = dot == separator + 2 && path[first..].starts_with('.');
    if dot > separator + 1 && !two_dots {
        Some(format!("{}.tmp.{}", &path[..dot as usize], process))
    } else if dot <= slash + 1 {
        Some(format!("{}.tmp.{}", path, process))
    } else {
        None
    }
}

fn ends_with_a_name(path: &str) -> bool {
    match path.chars().last() {
        Some(c) => {
            let host = path.len() > 1 && path.chars().take(2).all(is_separator);
            !is_separator(c) && c != '.' && !host
        }
        None => false,
    }
}

#[test]
fn all_short_paths_are_split_as_stated() {
    let mut paths = vec![String::new()];
    let mut plain = 0;
    let mut clear = 0;
    for _ in 0..7 {
        let mut longer = Vec::new();
        for path in &paths {
            for c in ['a', '.', '/', '\\', ':'] {
                longer.push(format!("{}{}", path, c));
            }
        }
        for path in &longer {
            let step = write_new_secret_file(path, SecretBytes::new(vec![1]), 5);
            let (directory, publication) = match step {
                Publish::CreateDirectory(directory, publication, _) => {
                    (Some(directory), publication)
                }
                Publish::Claim(publication, _) => (None, publication),
                Publish::Probe(_) => {
                    assert!(plain_directory(path).is_none() && !ends_with_a_name(path));
                    assert!(clear_temporary(path, 5).is_none());
                    continue;
                }
                _ => panic!("nothing comes before the temporary file but the directory"),
            };
            let temporary = publication.temporary;
            if let Some(expected) = plain_directory(path) {
                assert_eq!(directory, Some(expected), "{}", path);
                plain += 1;
            }
            if let Some(expected) = clear_temporary(path, 5) {
                assert_eq!(temporary, expected, "{}", path);
                clear += 1;
            }
            if ends_with_a_name(path) || clear_temporary(path, 5).is_some() {
                assert!(directory.is_some(), "{}", path);
                assert_ne!(&temporary, path);
            }
            if let Some(directory) = directory {
                assert!(path.starts_with(&directory) && directory.len() < path.len());
            }
            let stem = temporary.strip_suffix(".tmp.5").unwrap_or(&temporary);
            assert!(path.starts_with(stem), "{} by way of {}", path, temporary);
        }
        paths = longer;
    }
    assert!(plain > 500 && clear > 2000);
}

#[test]
fn a_path_without_file_name_ends_with_what_opening_it_says() {
    let refused = |path: &str, is_broken: bool| {
        let step = write_new_secret_file(path, SecretBytes::new(vec![1]), 3);
        let mut disk = Disk::default();
        if is_broken {
            disk.broken.insert("probe".to_string());
        }
        let error = refusal(disk.publish(step));
        assert!(disk.names.is_empty());
        error
    };
    for path in ["/", "", "..", "a/.."] {
        let about = format!("Failed to create ack secret file {}: ", path);
        assert_eq!(refused(path, true), format!("{}probe is broken", about));
        assert_eq!(refused(path, false), format!("{}the path has no file name", about));
    }
}

#[test]
fn the_temporary_file_takes_the_first_free_name() {
    let mut disk = Disk::default();
    disk.store("d/key.tmp.8", "left behind", 0o644);
    disk.store("d/key.tmp.8.1", "left behind too", 0o600);
    let before = disk.names.clone();
    let secret = SecretBytes::new(vec![0xab]);
    disk.publish(write_new_secret_file("d/key", secret, 8)).unwrap();
    assert_eq!(disk.file("d/key"), &File { contents: "ab".to_string(), mode: 0o600, synced: true });
    assert_eq!(disk.file("d/key.tmp.8").contents, "left behind");
    assert_eq!(disk.file("d/key.tmp.8").mode, 0o644);
    assert_eq!(disk.file("d/key.tmp.8.1").contents, "left behind too");
    assert_eq!(disk.names.len(), before.len() + 1);
}

#[test]
fn a_key_with_a_temporary_name_left_over_is_not_emptied() {
    let mut disk = Disk::default();
    disk.broken.insert("remove".to_string());
    disk.publish(write_new_secret_file("key", SecretBytes::new(vec![1]), 1)).unwrap();
    assert_eq!(disk.names["key"], disk.names["key.tmp.1"]);
    disk.publish(write_new_secret_file("key", SecretBytes::new(vec![2]), 1)).unwrap();
    assert_eq!(disk.file("key").contents, "01");
    assert_eq!(disk.file("key.tmp.1.1").contents, "02");
}

#[test]
fn names_that_are_all_taken_end_publishing() {
    let claim = |attempt: u32| match write_new_secret_file("key", SecretBytes::new(vec![1]), 6) {
        Publish::CreateDirectory(_, mut publication, write) => {
            publication.attempt = attempt;
            publication.claimed(write, ClaimOutcome::AlreadyExists("taken".to_string()))
        }
        _ => panic!("the directory comes first"),
    };
    match claim(u32::MAX - 1) {
        Publish::Claim(publication, WriteSecret::Open(file)) => {
            assert_eq!(publication.attempt, u32::MAX);
            assert_eq!(publication.temporary, "key.tmp.6.4294967295");
            assert_eq!(file.path, "key.tmp.6.4294967295");
            assert_eq!(file.contents.expose_secret(), "01");
        }
        _ => panic!("one name is left"),
    }
    match claim(u32::MAX) {
        Publish::Finished(Err(error)) => {
            assert_eq!(message(error), "Failed to create ack secret file key.tmp.6: taken");
        }
        _ => panic!("no name is left"),
    }
}

#[test]
fn a_name_that_was_tried_is_not_tried_again() {
    match write_new_secret_file("key", SecretBytes::new(vec![1]), 6) {
        Publish::CreateDirectory(_, publication, write) => {
            match publication.retried("key.tmp.6".to_string(), write, "taken") {
                Publish::Finished(Err(error)) => {
                    assert_eq!(message(error), "Failed to create ack secret file key.tmp.6: taken");
                }
                _ => panic!("the name is taken"),
            }
        }
        _ => panic!("the directory comes first"),
    }
}

/// The processes take their steps in an order that the bits of `schedule` give.
fn race(processes: [u32; 2], mut schedule: u64) -> (Disk, Vec<Option<String>>) {
    let mut disk = Disk::default();
    let mut opened = [None, None];
    let mut steps: Vec<Option<Publish>> = (0..2u8)
        .map(|k| {
            let secret = SecretBytes::new(vec![k + 1; 4]);
            Some(write_new_secret_file("d/key", secret, processes[k as usize]))
        })
        .collect();
    let mut seen = Vec::new();
    while steps.iter().any(|step| !matches!(step, Some(Publish::Finished(_)))) {
        let mut k = (schedule % 2) as usize;
        schedule /= 2;
        if matches!(steps[k], Some(Publish::Finished(_))) {
            k = 1 - k;
        }
        disk.open = opened[k];
        let step = steps[k].take().unwrap();
        steps[k] = Some(disk.publish_step(step));
        opened[k] = disk.open;
        let contents =
            if disk.holds("d/key") { Some(disk.file("d/key").contents.clone()) } else { None };
        seen.push(contents);
    }
    for step in steps {
        assert!(matches!(step, Some(Publish::Finished(Ok(())))));
    }
    (disk, seen)
}

#[test]
fn a_race_publishes_one_whole_secret() {
    for processes in [[1, 2], [1, 1]] {
        for schedule in 0..(1u64 << 14) {
            let (disk, seen) = race(processes, schedule);
            let key = disk.file("d/key");
            assert!(key.contents == "01010101" || key.contents == "02020202");
            assert_eq!((key.mode, key.synced), (0o600, true));
            assert_eq!(disk.names.len(), 1, "no temporary file is left");
            for contents in seen.into_iter().flatten() {
                assert_eq!(contents, key.contents);
            }
        }
    }
}

#[test]
fn the_first_of_many_secrets_stays() {
    let mut disk = Disk::default();
    for secret in 1..6u8 {
        let process = u32::from(secret) % 2;
        let step = write_new_secret_file("d/key", SecretBytes::new(vec![secret]), process);
        disk.publish(step).unwrap();
        assert_eq!(disk.file("d/key").contents, "01");
        assert_eq!(disk.names.len(), 1);
    }
}

#[test]
fn a_secret_is_minted_over_what_a_crash_left() {
    let mut disk = Disk::default();
    disk.store("d/ecdsa.tmp.1", "half", 0o600);
    disk.store("d/ecdsa.tmp.1.1", "", 0o600);
    let provider = provider("d/falcon", Some("d/ecdsa"), true);
    let minted = disk.load(provider.ecdsa_secret_key(1)).unwrap();
    assert_eq!(disk.file("d/ecdsa").contents, hex::encode(minted.to_bytes()));
    assert_eq!(disk.names.len(), 3);
    let again = disk.load(provider.ecdsa_secret_key(1)).unwrap();
    assert_eq!(again.to_bytes(), minted.to_bytes());
}

#[test]
fn the_loser_of_a_race_finds_its_temporary_name_taken() {
    let mut disk = Disk::default();
    let provider = provider("falcon", Some("race/ecdsa"), true);
    let winner = EcdsaSecretKey::new();
    let step = match provider.ecdsa_secret_key(1) {
        Load::Check(loading) => loading.checked(Ok(false)),
        other => other,
    };
    disk.store("race/ecdsa.tmp.1", "left behind", 0o600);
    disk.store("race/ecdsa", &hex::encode(winner.to_bytes()), 0o600);
    let loaded = disk.load(step).unwrap();
    assert_eq!(loaded.to_bytes(), winner.to_bytes());
    assert_eq!(disk.file("race/ecdsa").contents, hex::encode(winner.to_bytes()));
    assert_eq!(disk.names.len(), 2);
}

#[test]
fn minting_one_key_leaves_the_other_absent() {
    let mut disk = Disk::default();
    let provider = provider("d/falcon", Some("d/ecdsa"), true);
    disk.load(provider.ecdsa_secret_key(PROCESS)).unwrap();
    assert!(disk.holds("d/ecdsa"));
    assert!(!disk.holds("d/falcon"));
    assert_eq!(disk.names.len(), 1);
}

#[test]
fn every_process_has_its_own_temporary_file() {
    let temporary = |process: u32| match write_new_secret_file(
        "a/key",
        SecretBytes::new(vec![1]),
        process,
    ) {
        Publish::CreateDirectory(_, publication, _) => publication.temporary,
        _ => panic!("the directory comes first"),
    };
    assert_eq!(temporary(0), "a/key.tmp.0");
    assert_eq!(temporary(9), "a/key.tmp.9");
    assert_eq!(temporary(10), "a/key.tmp.10");
    assert_eq!(temporary(1203), "a/key.tmp.1203");
    assert_eq!(temporary(u32::MAX), "a/key.tmp.4294967295");
}

#[test]
fn a_stored_text_that_is_no_key_is_refused() {
    let falcon = |stored: &str| {
        let loading = Loading { path: "f".to_string(), process: 0 };
        let text = SecretString::new(stored.to_string());
        let step: Load<FalconSecretKey> = loading.read(Ok(text));
        refusal(Disk::default().load(step))
    };
    let ecdsa = |stored: &str| {
        let loading = Loading { path: "e".to_string(), process: 0 };
        let text = SecretString::new(stored.to_string());
        let step: Load<EcdsaSecretKey> = loading.read(Ok(text));
        Disk::default().load(step).map(|key| key.to_bytes())
    };
    assert_eq!(falcon("abc"), "Ack secret file f is not valid hex: Odd number of digits");
    assert_eq!(
        falcon("\u{e9}"),
        "Ack secret file f is not valid hex: Invalid character '\u{c3}' at position 0"
    );
    assert_eq!(
        falcon("5900"),
        "Ack secret file f does not hold a valid key: unexpected end of file"
    );
    assert_eq!(
        falcon(&"00".repeat(1281)),
        "Ack secret file f does not hold a valid key: invalid value: Invalid header format"
    );
    assert_eq!(
        falcon(&"50".repeat(1281)),
        "Ack secret file f does not hold a valid key: \
         invalid value: Unsupported Falcon DSA variant"
    );
    assert_eq!(
        ecdsa("00"),
        Err("Ack secret file e does not hold a valid key: unexpected end of file".to_string())
    );
    let invalid = Err("Ack secret file e does not hold a valid key: \
                       invalid value: Invalid secret key"
        .to_string());
    let order = "fffffffffffffffffffffffffffffffebaaedce6af48a03bbfd25e8cd0364141";
    let largest = "FFFFFFFFFFFFFFFFFFFFFFFFFFFFFFFEBAAEDCE6AF48A03BBFD25E8CD0364140";
    assert_eq!(ecdsa(&"00".repeat(32)), invalid);
    assert_eq!(ecdsa(order), invalid);
    assert_eq!(ecdsa(largest), Ok(hex::decode(largest).unwrap()));
    // What follows the key is not looked at.
    let padded = format!("{}{}", "07".repeat(32), "ffff");
    assert_eq!(ecdsa(&padded), Ok(vec![7u8; 32]));
}

#[test]
fn generated_secrets_differ_and_load() {
    let first = EcdsaSecretKey::generate();
    let second = EcdsaSecretKey::generate();
    assert_ne!(first.expose_secret(), second.expose_secret());
    assert_eq!(first.expose_secret().len(), 32);
    let key = EcdsaSecretKey::parse(first.expose_secret()).unwrap();
    assert_eq!(key.to_bytes().as_slice(), first.expose_secret());
    let falcon = FalconSecretKey::generate();
    assert_eq!(falcon.expose_secret().len(), 1281);
    assert_eq!(falcon.expose_secret()[0], 0x59);
    let key = FalconSecretKey::parse(falcon.expose_secret()).unwrap();
    assert_eq!(key.to_bytes().as_slice(), falcon.expose_secret());
}

#[test]
fn any_bytes_behind_the_header_give_a_falcon_key() {
    for filling in [0x00u8, 0x01, 0x82, 0x7f, 0x80, 0xff] {
        let mut bytes = vec![filling; 1281];
        bytes[0] = 0x59;
        assert!(FalconSecretKey::parse(&bytes).is_ok());
        bytes[0] = 0x58;
        assert!(FalconSecretKey::parse(&bytes).is_err());
        bytes[0] = 0x69;
        assert!(FalconSecretKey::parse(&bytes).is_err());
        bytes[0] = 0x59;
        bytes.truncate(1280);
        assert!(FalconSecretKey::parse(&bytes).is_err());
    }
}

#[test]
fn a_falcon_key_is_the_same_whatever_follows_it() {
    let secret = FalconSecretKey::generate();
    let mut longer = secret.expose_secret().to_vec();
    longer.push(0xff);
    let key = FalconSecretKey::parse(&longer).unwrap();
    assert_eq!(key.to_bytes().as_slice(), secret.expose_secret());
}

#[test]
fn paths_are_trimmed_of_exactly_the_unicode_white_space() {
    for c in '\u{0}'..=char::MAX {
        let padded = format!("{}key{}", c, c);
        let expected = if c.is_whitespace() { "key".to_string() } else { padded.clone() };
        assert_eq!(required_path("VAR", EnvVar::Present(padded)).map_err(message), Ok(expected));
    }
}
