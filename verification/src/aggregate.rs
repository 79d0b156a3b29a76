//! Composing the result of one resolution from the two files.

use crate::error::{ConfigError, SourceFile};
use crate::profile::{Config, Credential, CredentialView, Profile};
use crate::records::{
    credentials_of, document_of, is_malformed, load_config, load_credentials, profiles_of,
    section_names_of,
};
use crate::table::Table;
use crate::text::has_prefix;
use vstd::prelude::*;

verus! {

/// The prefix by which the access key id of a long-term credential is known.
///
/// This is a convention of the key issuer, not a guarantee. Callers that go by
/// another convention pass their own prefix to [`assemble_config`].
pub open spec fn long_term_key_prefix() -> Seq<char> {
    seq!['A', 'K', 'I', 'A']
}

/// A credential counts as long-term when its access key id begins with `prefix`.
pub open spec fn is_long_term(credential: CredentialView, prefix: Seq<char>) -> bool {
    prefix.is_prefix_of(credential.aws_access_key_id)
}

/// The prefix of long-term access key ids, `AKIA`.
pub fn default_long_term_key_prefix() -> (prefix: &'static str)
    ensures
        prefix@ == long_term_key_prefix(),
{
    proof {
        reveal_strlit("AKIA");
    }
    let prefix = "AKIA";
    assert(prefix@ =~= long_term_key_prefix());
    prefix
}

/// The names that have a credential, in table order.
pub fn credential_names(credentials: &Table<Credential>) -> (names: Vec<String>)
    ensures
        names.deep_view() == credentials.names(),
{
    let mut names: Vec<String> = Vec::new();
    let n = credentials.len();
    let mut i: usize = 0;
    while i < n
        invariant
            i <= n == credentials.names().len(),
            names.deep_view() == credentials.names().take(i as int),
        decreases n - i,
    {
        let ghost before = names.deep_view();
        names.push(credentials.name(i).clone());
        assert(names.deep_view() =~= before.push(credentials.names()[i as int]));
        assert(credentials.names().take(i as int + 1) =~= credentials.names().take(
            i as int,
        ).push(credentials.names()[i as int]));
        i += 1;
    }
    assert(credentials.names().take(n as int) =~= credentials.names());
    names
}

/// The names whose credential is a long-term one by `prefix`, in table order.
pub fn long_term_credential_names(
    credentials: &Table<Credential>,
    prefix: &str,
) -> (names: Vec<String>)
    ensures
        names.deep_view() == credentials.names().filter(
            |name: Seq<char>| is_long_term(credentials@[name], prefix@),
        ),
{
    let ghost wanted = |name: Seq<char>| is_long_term(credentials@[name], prefix@);
    let mut names: Vec<String> = Vec::new();
    let n = credentials.len();
    let mut i: usize = 0;
    assert(credentials.names().take(0) =~= Seq::<Seq<char>>::empty());
    assert(names.deep_view() =~= Seq::<Seq<char>>::empty());
    proof {
        reveal(Seq::filter);
    }
    while i < n
        invariant
            i <= n == credentials.names().len(),
            wanted == |name: Seq<char>| is_long_term(credentials@[name], prefix@),
            names.deep_view() == credentials.names().take(i as int).filter(wanted),
        decreases n - i,
    {
        let name = credentials.name(i);
        let credential = credentials.value(i);
        let ghost before = names.deep_view();
        proof {
            credentials.names().lemma_take_succ_push(i as int);
            credentials.names().take(i as int).lemma_filter_push(name@, wanted);
        }
        if has_prefix(credential.aws_access_key_id.as_str(), prefix) {
            names.push(name.clone());
            assert(names.deep_view() =~= before.push(name@));
        }
        i += 1;
    }
    assert(credentials.names().take(n as int) =~= credentials.names());
    names
}

/// Composes the result of a resolution from the profiles and the credentials
/// that were parsed, counting as long-term the credentials whose access key
/// id begins with `prefix`.
pub fn assemble_config(
    profiles: Table<Profile>,
    credentials: &Table<Credential>,
    prefix: &str,
) -> (result: Config)
    ensures
        result.config@ == profiles@,
        result.config.names() == profiles.names(),
        result.credentials_profiles.deep_view() == credentials.names(),
        result.long_term_credentials_profiles.deep_view() == credentials.names().filter(
            |name: Seq<char>| is_long_term(credentials@[name], prefix@),
        ),
{
    let credentials_profiles = credential_names(credentials);
    let long_term_credentials_profiles = long_term_credential_names(credentials, prefix);
    Config { config: profiles, credentials_profiles, long_term_credentials_profiles }
}

/// Resolves the two files into one [`Config`].
///
/// Each argument is the content of a file, or `None` where the file could not
/// be read. The config file is looked at first. The first file that is
/// unreadable or malformed fails the whole resolution: there is no partial result.
pub fn get_aws_config(
    config_text: Option<&str>,
    credentials_text: Option<&str>,
) -> (result: Result<Config, ConfigError>)
    ensures
        match result {
            Ok(config) => {
                &&& document_of(config_text) matches Some(config_sections)
                &&& document_of(credentials_text) matches Some(credentials_sections)
                &&& config.config@ == profiles_of(config_sections)
                &&& config.config.names() == section_names_of(config_sections)
                &&& config.credentials_profiles.deep_view() == section_names_of(
                    credentials_sections,
                )
                &&& config.long_term_credentials_profiles.deep_view() == section_names_of(
                    credentials_sections,
                ).filter(
                    |name: Seq<char>|
                        is_long_term(
                            credentials_of(credentials_sections)[name],
                            long_term_key_prefix(),
                        ),
                )
            },
            Err(ConfigError::FileUnreadable { file }) => match file {
                SourceFile::Config => config_text is None,
                SourceFile::Credentials => document_of(config_text) is Some && credentials_text is None,
            },
            Err(ConfigError::MalformedSection { file, .. }) => match file {
                SourceFile::Config => is_malformed(config_text),
                SourceFile::Credentials => document_of(config_text) is Some && is_malformed(
                    credentials_text,
                ),
            },
            Err(_) => false,
        },
{
    let profiles = match load_config(config_text) {
        Ok(profiles) => profiles,
        Err(error) => {
            return Err(error);
        },
    };
    let credentials = match load_credentials(credentials_text) {
        Ok(credentials) => credentials,
        Err(error) => {
            return Err(error);
        },
    };
    Ok(assemble_config(profiles, &credentials, default_long_term_key_prefix()))
}

} // verus!
