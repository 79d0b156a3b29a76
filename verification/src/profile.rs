//! The records that the two files declare, and the aggregate built from them.

use crate::table::Table;
use vstd::prelude::*;

verus! {

/// One named entry of the config file.
#[derive(Debug)]
pub struct Profile {
    /// Position of the declaring section in the file.
    pub order: isize,
    /// The profile that this one borrows its credentials or role chain from.
    pub source_profile: Option<String>,
    /// The role to assume. A profile without one is a direct credential profile.
    pub role_arn: Option<String>,
    /// The MFA device that must be challenged before the profile is used.
    pub mfa_serial: Option<String>,
    /// Every other key of the section, with its value as written.
    pub additional_properties: Table<String>,
}

/// The mathematical value of a [`Profile`].
pub struct ProfileView {
    pub order: int,
    pub source_profile: Option<Seq<char>>,
    pub role_arn: Option<Seq<char>>,
    pub mfa_serial: Option<Seq<char>>,
    pub additional_properties: Map<Seq<char>, Seq<char>>,
}

impl View for Profile {
    type V = ProfileView;

    open spec fn view(&self) -> ProfileView {
        ProfileView {
            order: self.order as int,
            source_profile: self.source_profile.deep_view(),
            role_arn: self.role_arn.deep_view(),
            mfa_serial: self.mfa_serial.deep_view(),
            additional_properties: self.additional_properties@,
        }
    }
}

/// A copy of an optional text.
fn clone_text(text: &Option<String>) -> (copy: Option<String>)
    ensures
        copy.deep_view() == text.deep_view(),
{
    match text {
        Some(s) => Some(s.clone()),
        None => None,
    }
}

impl Profile {
    /// A profile declared at position `order` that sets no key.
    pub fn new(order: isize) -> (profile: Profile)
        ensures
            profile@ == (ProfileView {
                order: order as int,
                source_profile: None,
                role_arn: None,
                mfa_serial: None,
                additional_properties: Map::empty(),
            }),
    {
        Profile {
            order,
            source_profile: None,
            role_arn: None,
            mfa_serial: None,
            additional_properties: Table::new(),
        }
    }
}

impl Clone for Profile {
    fn clone(&self) -> (copy: Profile)
        ensures
            copy@ == self@,
    {
        Profile {
            order: self.order,
            source_profile: clone_text(&self.source_profile),
            role_arn: clone_text(&self.role_arn),
            mfa_serial: clone_text(&self.mfa_serial),
            additional_properties: self.additional_properties.clone(),
        }
    }
}

impl Clone for Table<Profile> {
    fn clone(&self) -> (copy: Table<Profile>)
        ensures
            copy@ == self@,
            copy.names() == self.names(),
    {
        let mut copy: Table<Profile> = Table::new();
        let n = self.len();
        let mut i: usize = 0;
        while i < n
            invariant
                i <= n,
                n == self.names().len(),
                self.names().no_duplicates(),
                copy.names() == self.names().take(i as int),
                forall|name: Seq<char>| #[trigger]
                    copy@.contains_key(name) ==> self@.contains_key(name) && copy@[name]
                        == self@[name],
            decreases n - i,
        {
            proof {
                copy.lemma_domain();
                assert(self.names().take(i as int + 1) =~= self.names().take(i as int).push(
                    self.names()[i as int],
                ));
            }
            let name = self.name(i).clone();
            let value = self.value(i).clone();
            copy.insert(name, value);
            i += 1;
        }
        proof {
            assert(self.names().take(n as int) =~= self.names());
            copy.lemma_domain();
            self.lemma_domain();
            assert(copy@ =~= self@);
        }
        copy
    }
}

/// One named entry of the credentials file.
#[derive(Debug)]
pub struct Credential {
    pub aws_access_key_id: String,
    pub aws_secret_access_key: String,
    /// Present on temporary credentials only.
    pub aws_session_token: Option<String>,
}

/// The mathematical value of a [`Credential`].
pub struct CredentialView {
    pub aws_access_key_id: Seq<char>,
    pub aws_secret_access_key: Seq<char>,
    pub aws_session_token: Option<Seq<char>>,
}

impl View for Credential {
    type V = CredentialView;

    open spec fn view(&self) -> CredentialView {
        CredentialView {
            aws_access_key_id: self.aws_access_key_id@,
            aws_secret_access_key: self.aws_secret_access_key@,
            aws_session_token: self.aws_session_token.deep_view(),
        }
    }
}

impl Credential {
    /// A credential with empty keys and no session token.
    pub fn new() -> (credential: Credential)
        ensures
            credential@ == (CredentialView {
                aws_access_key_id: Seq::empty(),
                aws_secret_access_key: Seq::empty(),
                aws_session_token: None,
            }),
    {
        Credential {
            aws_access_key_id: String::new(),
            aws_secret_access_key: String::new(),
            aws_session_token: None,
        }
    }
}

impl Clone for Credential {
    fn clone(&self) -> (copy: Credential)
        ensures
            copy@ == self@,
    {
        Credential {
            aws_access_key_id: self.aws_access_key_id.clone(),
            aws_secret_access_key: self.aws_secret_access_key.clone(),
            aws_session_token: clone_text(&self.aws_session_token),
        }
    }
}

/// Everything that one resolution of the two files yields.
#[derive(Debug)]
pub struct Config {
    /// The profiles of the config file, by canonical name.
    pub config: Table<Profile>,
    /// The names that have an entry in the credentials file.
    pub credentials_profiles: Vec<String>,
    /// Those of `credentials_profiles` whose access key id is a long-term one.
    pub long_term_credentials_profiles: Vec<String>,
}

/// The mathematical value of a [`Config`].
pub struct ConfigView {
    pub config: Map<Seq<char>, ProfileView>,
    pub credentials_profiles: Seq<Seq<char>>,
    pub long_term_credentials_profiles: Seq<Seq<char>>,
}

impl View for Config {
    type V = ConfigView;

    open spec fn view(&self) -> ConfigView {
        ConfigView {
            config: self.config@,
            credentials_profiles: self.credentials_profiles.deep_view(),
            long_term_credentials_profiles: self.long_term_credentials_profiles.deep_view(),
        }
    }
}

/// A copy of a list of names.
fn clone_names(names: &Vec<String>) -> (copy: Vec<String>)
    ensures
        copy.deep_view() == names.deep_view(),
{
    let mut copy: Vec<String> = Vec::new();
    let mut i: usize = 0;
    while i < names.len()
        invariant
            i <= names.len(),
            copy.len() == i,
            forall|j: int| 0 <= j < i ==> copy[j]@ == names[j]@,
        decreases names.len() - i,
    {
        copy.push(names[i].clone());
        i += 1;
    }
    assert(copy.deep_view() =~= names.deep_view());
    copy
}

impl Clone for Config {
    fn clone(&self) -> (copy: Config)
        ensures
            copy@ == self@,
    {
        Config {
            config: self.config.clone(),
            credentials_profiles: clone_names(&self.credentials_profiles),
            long_term_credentials_profiles: clone_names(&self.long_term_credentials_profiles),
        }
    }
}

} // verus!
