//! The settings that the provider of acknowledgement secrets takes from the environment.

use crate::error::{told, GuardianError};
use crate::text::{
    is_bare, is_blank, is_white_space, join, lowercased, trimmed, trimming_is_complete,
    trimming_removes_padding,
};
use vstd::prelude::*;

verus! {

/// Names the file that holds the Falcon secret.
pub const ENV_ACK_FALCON_SECRET_PATH: &'static str = "GUARDIAN_ACK_FALCON_SECRET_PATH";

/// Names the file that holds the ECDSA secret.
pub const ENV_ACK_ECDSA_SECRET_PATH: &'static str = "GUARDIAN_ACK_ECDSA_SECRET_PATH";

/// Whether a secret that is missing is generated.
pub const ENV_ACK_SECRET_AUTOGEN: &'static str = "GUARDIAN_ACK_SECRET_AUTOGEN";

/// What reading an environment variable gave.
pub enum EnvVar {
    /// The variable is set to this text.
    Present(String),
    /// The variable is not set.
    NotPresent,
    /// The variable is set to something that is not Unicode.
    NotUnicode,
}

/// The view of an [`EnvVar`].
pub enum EnvVarView {
    Present(Seq<char>),
    NotPresent,
    NotUnicode,
}

impl View for EnvVar {
    type V = EnvVarView;

    open spec fn view(&self) -> EnvVarView {
        match self {
            EnvVar::Present(value) => EnvVarView::Present(value@),
            EnvVar::NotPresent => EnvVarView::NotPresent,
            EnvVar::NotUnicode => EnvVarView::NotUnicode,
        }
    }
}

/// The path that a variable which has to be set gives, or the message of the error.
pub open spec fn required_path_outcome(env_var: Seq<char>, value: EnvVarView) -> Result<
    Seq<char>,
    Seq<char>,
> {
    match value {
        EnvVarView::Present(text) => if is_blank(text) {
            Err(env_var + " must not be blank when GUARDIAN_ACK_SECRET_PROVIDER=file"@)
        } else {
            Ok(trimmed(text))
        },
        EnvVarView::NotPresent => Err(
            env_var + " is required when GUARDIAN_ACK_SECRET_PROVIDER=file"@,
        ),
        EnvVarView::NotUnicode => Err(env_var + " must contain valid UTF-8"@),
    }
}

/// The path that the required variable `env_var` gives: its value without the white space
/// around it.
pub fn required_path(env_var: &str, value: EnvVar) -> (result: Result<String, GuardianError>)
    ensures
        told(result) == required_path_outcome(env_var@, value@),
{
    match value {
        EnvVar::Present(text) => {
            proof {
                trimming_is_complete(text@);
            }
            let path = text.as_str().trim();
            if path.is_empty() {
                Err(
                    GuardianError::ConfigurationError(
                        join(
                            env_var,
                            " must not be blank when GUARDIAN_ACK_SECRET_PROVIDER=file",
                        ),
                    ),
                )
            } else {
                Ok(path.to_owned())
            }
        },
        EnvVar::NotPresent => Err(
            GuardianError::ConfigurationError(
                join(env_var, " is required when GUARDIAN_ACK_SECRET_PROVIDER=file"),
            ),
        ),
        EnvVar::NotUnicode => Err(
            GuardianError::ConfigurationError(join(env_var, " must contain valid UTF-8")),
        ),
    }
}

/// The path that a variable which may be unset gives, or the message of the error.
pub open spec fn optional_path_outcome(env_var: Seq<char>, value: EnvVarView) -> Result<
    Option<Seq<char>>,
    Seq<char>,
> {
    match value {
        EnvVarView::Present(text) => if is_blank(text) {
            Err(env_var + " must not be blank when set"@)
        } else {
            Ok(Some(trimmed(text)))
        },
        EnvVarView::NotPresent => Ok(None),
        EnvVarView::NotUnicode => Err(env_var + " must contain valid UTF-8"@),
    }
}

/// Like [`required_path`], but the variable may be unset. One that is set to a blank value is
/// still a misconfiguration.
pub fn optional_path(env_var: &str, value: EnvVar) -> (result: Result<
    Option<String>,
    GuardianError,
>)
    ensures
        told(result) == optional_path_outcome(env_var@, value@),
{
    match value {
        EnvVar::Present(text) => {
            proof {
                trimming_is_complete(text@);
            }
            let path = text.as_str().trim();
            if path.is_empty() {
                Err(
                    GuardianError::ConfigurationError(
                        join(env_var, " must not be blank when set"),
                    ),
                )
            } else {
                Ok(Some(path.to_owned()))
            }
        },
        EnvVar::NotPresent => Ok(None),
        EnvVar::NotUnicode => Err(
            GuardianError::ConfigurationError(join(env_var, " must contain valid UTF-8")),
        ),
    }
}

/// What the text of the flag says, or the message of the error.
pub open spec fn autogen_flag_outcome(raw: Option<Seq<char>>) -> Result<bool, Seq<char>> {
    match raw {
        None => Ok(false),
        Some(text) => {
            let word = lowercased(trimmed(text));
            if word == "true"@ {
                Ok(true)
            } else if word == "false"@ || word.len() == 0 {
                Ok(false)
            } else {
                Err(
                    ENV_ACK_SECRET_AUTOGEN@ + " `"@ + word
                        + "` is not supported (expected `true` or `false`)"@,
                )
            }
        },
    }
}

/// Reads the flag that turns generating secrets on: `true` or `false` in any case, with white
/// space allowed around it. An absent or blank flag is off.
pub fn parse_autogen(raw: Option<&str>) -> (result: Result<bool, GuardianError>)
    ensures
        told(result) == autogen_flag_outcome(
            match raw {
                Some(text) => Some(text@),
                None => None,
            },
        ),
{
    match raw {
        None => Ok(false),
        Some(text) => {
            let word = text.trim().to_ascii_lowercase();
            if word == "true".to_owned() {
                proof {
                    reveal_strlit("true");
                }
                Ok(true)
            } else if word == "false".to_owned() || word.as_str().is_empty() {
                Ok(false)
            } else {
                let about = join(join(ENV_ACK_SECRET_AUTOGEN, " `").as_str(), word.as_str());
                Err(
                    GuardianError::ConfigurationError(
                        join(
                            about.as_str(),
                            "` is not supported (expected `true` or `false`)",
                        ),
                    ),
                )
            }
        },
    }
}

/// What the flag in the environment says, or the message of the error.
pub open spec fn autogen_outcome(value: EnvVarView) -> Result<bool, Seq<char>> {
    match value {
        EnvVarView::Present(text) => autogen_flag_outcome(Some(text)),
        EnvVarView::NotPresent => Ok(false),
        EnvVarView::NotUnicode => Err(ENV_ACK_SECRET_AUTOGEN@ + " must contain valid UTF-8"@),
    }
}

/// Whether generating secrets is turned on in the environment.
pub fn autogen_from_env(value: EnvVar) -> (result: Result<bool, GuardianError>)
    ensures
        told(result) == autogen_outcome(value@),
{
    match value {
        EnvVar::Present(text) => parse_autogen(Some(text.as_str())),
        EnvVar::NotPresent => Ok(false),
        EnvVar::NotUnicode => Err(
            GuardianError::ConfigurationError(
                join(ENV_ACK_SECRET_AUTOGEN, " must contain valid UTF-8"),
            ),
        ),
    }
}

/// A path taken from the environment is never empty and never begins or ends with white space.
pub proof fn configured_paths_are_trimmed(env_var: Seq<char>, value: EnvVarView)
    ensures
        required_path_outcome(env_var, value) matches Ok(path) ==> path.len() > 0 && trimmed(path)
            == path,
        optional_path_outcome(env_var, value) matches Ok(Some(path)) ==> path.len() > 0 && trimmed(
            path,
        ) == path,
{
    if let EnvVarView::Present(text) = value {
        trimming_is_complete(text);
    }
}

/// The view of a variable holds the very text that was read.
pub proof fn the_view_of_a_variable_holds_its_text(value: EnvVar)
    ensures
        match value {
            EnvVar::Present(text) => value@ == EnvVarView::Present(text@),
            EnvVar::NotPresent => value@ == EnvVarView::NotPresent,
            EnvVar::NotUnicode => value@ == EnvVarView::NotUnicode,
        },
{
}

/// The path that a variable gives is the text that it was set to, less only the white space around
/// it, whether the variable is required or optional.
pub proof fn a_configured_path_is_what_was_set(
    env_var: Seq<char>,
    before: Seq<char>,
    path: Seq<char>,
    after: Seq<char>,
)
    requires
        is_blank(before),
        is_blank(after),
        is_bare(path),
        path.len() > 0,
    ensures
        required_path_outcome(env_var, EnvVarView::Present(before + path + after)) == Ok::<
            Seq<char>,
            Seq<char>,
        >(path),
        optional_path_outcome(env_var, EnvVarView::Present(before + path + after)) == Ok::<
            Option<Seq<char>>,
            Seq<char>,
        >(Some(path)),
{
    trimming_removes_padding(before, path, after);
    trimming_is_complete(before + path + after);
}

/// A variable that gives no path is reported by its name, with what is wrong with it: a blank value
/// always is an error, and a missing one is where the variable is required.
pub proof fn a_variable_without_a_path_is_reported(env_var: Seq<char>, text: Seq<char>)
    requires
        is_blank(text),
    ensures
        required_path_outcome(env_var, EnvVarView::Present(text)) == Err::<Seq<char>, Seq<char>>(
            env_var + " must not be blank when GUARDIAN_ACK_SECRET_PROVIDER=file"@,
        ),
        required_path_outcome(env_var, EnvVarView::NotPresent) == Err::<Seq<char>, Seq<char>>(
            env_var + " is required when GUARDIAN_ACK_SECRET_PROVIDER=file"@,
        ),
        required_path_outcome(env_var, EnvVarView::NotUnicode) == Err::<Seq<char>, Seq<char>>(
            env_var + " must contain valid UTF-8"@,
        ),
        optional_path_outcome(env_var, EnvVarView::Present(text)) == Err::<
            Option<Seq<char>>,
            Seq<char>,
        >(env_var + " must not be blank when set"@),
        optional_path_outcome(env_var, EnvVarView::NotPresent) == Ok::<
            Option<Seq<char>>,
            Seq<char>,
        >(None),
        optional_path_outcome(env_var, EnvVarView::NotUnicode) == Err::<
            Option<Seq<char>>,
            Seq<char>,
        >(env_var + " must contain valid UTF-8"@),
{
}

/// Whether `text` is the lower-case word `word` in any case.
pub open spec fn is_in_any_case(text: Seq<char>, word: Seq<char>) -> bool {
    &&& text.len() == word.len()
    &&& forall|i: int|
        0 <= i < text.len() ==> {
            ||| #[trigger] text[i] == word[i]
            ||| 'A' <= text[i] <= 'Z' && text[i] as int + 32 == word[i] as int
        }
}

proof fn lemma_lowercased(text: Seq<char>, word: Seq<char>)
    requires
        forall|i: int| 0 <= i < word.len() ==> 'a' <= #[trigger] word[i] <= 'z',
    ensures
        lowercased(text) == word <==> is_in_any_case(text, word),
{
    if lowercased(text) == word {
        assert forall|i: int| 0 <= i < text.len() implies {
            ||| #[trigger] text[i] == word[i]
            ||| 'A' <= text[i] <= 'Z' && text[i] as int + 32 == word[i] as int
        } by {
            assert(lowercased(text)[i] == word[i]);
        }
    } else if is_in_any_case(text, word) {
        assert forall|i: int| 0 <= i < text.len() implies lowercased(text)[i] == word[i] by {
            assert('a' <= word[i] <= 'z');
            assert(text[i] == word[i] || 'A' <= text[i] <= 'Z');
        }
        assert(lowercased(text) =~= word);
    }
}

/// The flag is on exactly where it says `true`, in any case and with white space allowed around it,
/// and off exactly where it says `false`, is blank or is not there. Anything else is an error that
/// quotes it in lower case.
pub proof fn the_autogen_flag_is_true_or_false(
    before: Seq<char>,
    word: Seq<char>,
    after: Seq<char>,
)
    requires
        is_blank(before),
        is_blank(after),
        is_bare(word),
    ensures
        ({
            let outcome = autogen_flag_outcome(Some(before + word + after));
            let on = is_in_any_case(word, "true"@);
            let off = word.len() == 0 || is_in_any_case(word, "false"@);
            &&& outcome == Ok::<bool, Seq<char>>(true) <==> on
            &&& outcome == Ok::<bool, Seq<char>>(false) <==> off
            &&& !on && !off ==> outcome == Err::<bool, Seq<char>>(
                "GUARDIAN_ACK_SECRET_AUTOGEN"@ + " `"@ + lowercased(word)
                    + "` is not supported (expected `true` or `false`)"@,
            )
            &&& autogen_outcome(EnvVarView::Present(before + word + after)) == outcome
        }),
        autogen_flag_outcome(None) == Ok::<bool, Seq<char>>(false),
        autogen_outcome(EnvVarView::NotPresent) == Ok::<bool, Seq<char>>(false),
        autogen_outcome(EnvVarView::NotUnicode) == Err::<bool, Seq<char>>(
            "GUARDIAN_ACK_SECRET_AUTOGEN"@ + " must contain valid UTF-8"@,
        ),
{
    reveal_strlit("true");
    reveal_strlit("false");
    trimming_removes_padding(before, word, after);
    lemma_lowercased(word, "true"@);
    lemma_lowercased(word, "false"@);
}

/// Neither the case of the flag nor white space around it makes a difference.
pub proof fn autogen_flag_ignores_case_and_padding(
    before: Seq<char>,
    word: Seq<char>,
    after: Seq<char>,
    other: Seq<char>,
)
    requires
        is_blank(before),
        is_blank(after),
        forall|i: int| 0 <= i < word.len() ==> !is_white_space(#[trigger] word[i]),
        forall|i: int| 0 <= i < other.len() ==> !is_white_space(#[trigger] other[i]),
        lowercased(word) == lowercased(other),
    ensures
        autogen_flag_outcome(Some(before + word + after)) == autogen_flag_outcome(Some(other)),
{
    let none = Seq::<char>::empty();
    trimming_removes_padding(before, word, after);
    trimming_removes_padding(none, other, none);
    assert(none + other + none =~= other);
}

} // verus!
