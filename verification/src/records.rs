//! Turning the text of the two files into typed records.

use crate::document::{error_details, ini_document, parse_document};
use crate::error::{ConfigError, SourceFile};
use crate::header::{canonical_name, profile_name};
use crate::profile::{Credential, CredentialView, Profile, ProfileView};
use crate::table::Table;
use vstd::prelude::*;
use vstd::string::StringExecFns;

verus! {

/// The value of the last pair of `properties` whose key is `key`.
pub open spec fn last_value(
    properties: Seq<(Seq<char>, Seq<char>)>,
    key: Seq<char>,
) -> Option<Seq<char>>
    decreases properties.len(),
{
    if properties.len() == 0 {
        None
    } else if properties.last().0 == key {
        Some(properties.last().1)
    } else {
        last_value(properties.drop_last(), key)
    }
}

/// The keys of a config section that have a field of their own in a profile.
pub open spec fn is_profile_key(key: Seq<char>) -> bool {
    key == "source_profile"@ || key == "role_arn"@ || key == "mfa_serial"@
}

/// The keys of a section that a profile keeps as additional properties, each
/// with the value that was written last.
pub open spec fn additional_of(
    properties: Seq<(Seq<char>, Seq<char>)>,
) -> Map<Seq<char>, Seq<char>> {
    Map::new(
        |key: Seq<char>| !is_profile_key(key) && last_value(properties, key) is Some,
        |key: Seq<char>| last_value(properties, key)->0,
    )
}

/// The profile that a section with the pairs `properties` declares at position `order`.
pub open spec fn profile_of(order: int, properties: Seq<(Seq<char>, Seq<char>)>) -> ProfileView {
    ProfileView {
        order,
        source_profile: last_value(properties, "source_profile"@),
        role_arn: last_value(properties, "role_arn"@),
        mfa_serial: last_value(properties, "mfa_serial"@),
        additional_properties: additional_of(properties),
    }
}

/// The credential that a section with the pairs `properties` declares. A key
/// that the section does not set is empty.
pub open spec fn credential_of(properties: Seq<(Seq<char>, Seq<char>)>) -> CredentialView {
    CredentialView {
        aws_access_key_id: match last_value(properties, "aws_access_key_id"@) {
            Some(value) => value,
            None => Seq::empty(),
        },
        aws_secret_access_key: match last_value(properties, "aws_secret_access_key"@) {
            Some(value) => value,
            None => Seq::empty(),
        },
        aws_session_token: last_value(properties, "aws_session_token"@),
    }
}

proof fn lemma_last_value_push(
    properties: Seq<(Seq<char>, Seq<char>)>,
    pair: (Seq<char>, Seq<char>),
    key: Seq<char>,
)
    ensures
        last_value(properties.push(pair), key) == if pair.0 == key {
            Some(pair.1)
        } else {
            last_value(properties, key)
        },
{
    assert(properties.push(pair).drop_last() =~= properties);
}

proof fn lemma_additional_push(
    properties: Seq<(Seq<char>, Seq<char>)>,
    pair: (Seq<char>, Seq<char>),
)
    ensures
        additional_of(properties.push(pair)) == if is_profile_key(pair.0) {
            additional_of(properties)
        } else {
            additional_of(properties).insert(pair.0, pair.1)
        },
{
    assert forall|key: Seq<char>|
        last_value(properties.push(pair), key) == if pair.0 == key {
            Some(pair.1)
        } else {
            last_value(properties, key)
        } by {
        lemma_last_value_push(properties, pair, key);
    }
    if is_profile_key(pair.0) {
        assert(additional_of(properties.push(pair)) =~= additional_of(properties));
    } else {
        assert(additional_of(properties.push(pair)) =~= additional_of(properties).insert(
            pair.0,
            pair.1,
        ));
    }
}

/// Builds the profile that a config section declares.
pub fn profile_from_properties(
    order: isize,
    properties: &Vec<(String, String)>,
) -> (profile: Profile)
    ensures
        profile@ == profile_of(order as int, properties.deep_view()),
{
    let source_profile_key = String::from_str("source_profile");
    let role_arn_key = String::from_str("role_arn");
    let mfa_serial_key = String::from_str("mfa_serial");
    let mut profile = Profile::new(order);
    let ghost pairs = properties.deep_view();
    let mut i: usize = 0;
    assert(pairs.take(0) =~= Seq::<(Seq<char>, Seq<char>)>::empty());
    assert(profile@.additional_properties =~= additional_of(pairs.take(0)));
    while i < properties.len()
        invariant
            i <= properties.len(),
            pairs == properties.deep_view(),
            source_profile_key@ == "source_profile"@,
            role_arn_key@ == "role_arn"@,
            mfa_serial_key@ == "mfa_serial"@,
            profile@ == profile_of(order as int, pairs.take(i as int)),
        decreases properties.len() - i,
    {
        let key = &properties[i].0;
        let value = &properties[i].1;
        proof {
            let pair = (key@, value@);
            assert(pairs[i as int] == pair);
            assert(pairs.take(i as int + 1) =~= pairs.take(i as int).push(pair));
            lemma_last_value_push(pairs.take(i as int), pair, "source_profile"@);
            lemma_last_value_push(pairs.take(i as int), pair, "role_arn"@);
            lemma_last_value_push(pairs.take(i as int), pair, "mfa_serial"@);
            lemma_additional_push(pairs.take(i as int), pair);
            reveal_strlit("source_profile");
            reveal_strlit("role_arn");
            reveal_strlit("mfa_serial");
            assert("source_profile"@ != "role_arn"@) by {
                assert("source_profile"@.len() != "role_arn"@.len());
            }
            assert("source_profile"@ != "mfa_serial"@) by {
                assert("source_profile"@.len() != "mfa_serial"@.len());
            }
            assert("role_arn"@ != "mfa_serial"@) by {
                assert("role_arn"@.len() != "mfa_serial"@.len());
            }
        }
        if *key == source_profile_key {
            profile.source_profile = Some(value.clone());
        } else if *key == role_arn_key {
            profile.role_arn = Some(value.clone());
        } else if *key == mfa_serial_key {
            profile.mfa_serial = Some(value.clone());
        } else {
            profile.additional_properties.insert(key.clone(), value.clone());
        }
        i += 1;
    }
    assert(pairs.take(properties.len() as int) =~= pairs);
    profile
}

/// Builds the credential that a credentials section declares. Keys other than
/// the three of a credential are ignored.
pub fn credential_from_properties(properties: &Vec<(String, String)>) -> (credential: Credential)
    ensures
        credential@ == credential_of(properties.deep_view()),
{
    let access_key_id_key = String::from_str("aws_access_key_id");
    let secret_access_key_key = String::from_str("aws_secret_access_key");
    let session_token_key = String::from_str("aws_session_token");
    let mut credential = Credential::new();
    let ghost pairs = properties.deep_view();
    let mut i: usize = 0;
    assert(pairs.take(0) =~= Seq::<(Seq<char>, Seq<char>)>::empty());
    while i < properties.len()
        invariant
            i <= properties.len(),
            pairs == properties.deep_view(),
            access_key_id_key@ == "aws_access_key_id"@,
            secret_access_key_key@ == "aws_secret_access_key"@,
            session_token_key@ == "aws_session_token"@,
            credential@ == credential_of(pairs.take(i as int)),
        decreases properties.len() - i,
    {
        let key = &properties[i].0;
        let value = &properties[i].1;
        proof {
            let pair = (key@, value@);
            assert(pairs[i as int] == pair);
            assert(pairs.take(i as int + 1) =~= pairs.take(i as int).push(pair));
            lemma_last_value_push(pairs.take(i as int), pair, "aws_access_key_id"@);
            lemma_last_value_push(pairs.take(i as int), pair, "aws_secret_access_key"@);
            lemma_last_value_push(pairs.take(i as int), pair, "aws_session_token"@);
            reveal_strlit("aws_access_key_id");
            reveal_strlit("aws_secret_access_key");
            reveal_strlit("aws_session_token");
            assert("aws_access_key_id"@ != "aws_secret_access_key"@) by {
                assert("aws_access_key_id"@.len() != "aws_secret_access_key"@.len());
            }
            assert("aws_access_key_id"@ != "aws_session_token"@) by {
                assert("aws_access_key_id"@[4] != "aws_session_token"@[4]);
            }
            assert("aws_secret_access_key"@ != "aws_session_token"@) by {
                assert("aws_secret_access_key"@.len() != "aws_session_token"@.len());
            }
        }
        if *key == access_key_id_key {
            credential.aws_access_key_id = value.clone();
        } else if *key == secret_access_key_key {
            credential.aws_secret_access_key = value.clone();
        } else if *key == session_token_key {
            credential.aws_session_token = Some(value.clone());
        }
        i += 1;
    }
    assert(pairs.take(properties.len() as int) =~= pairs);
    credential
}

/// The order recorded for the section at `position`: the position itself, as
/// far as an `isize` holds it.
pub open spec fn declared_order(position: int) -> int {
    if position <= isize::MAX {
        position
    } else {
        isize::MAX as int
    }
}

/// The names under which the sections of a document are filed, each once, in
/// the order in which they first occur. Properties that stand before any
/// header belong to no name.
pub open spec fn section_names_of(
    sections: Seq<(Option<Seq<char>>, Seq<(Seq<char>, Seq<char>)>)>,
) -> Seq<Seq<char>>
    decreases sections.len(),
{
    if sections.len() == 0 {
        Seq::empty()
    } else {
        let earlier = section_names_of(sections.drop_last());
        match sections.last().0 {
            Some(header) => if earlier.contains(canonical_name(header)) {
                earlier
            } else {
                earlier.push(canonical_name(header))
            },
            None => earlier,
        }
    }
}

/// The profiles that the sections of a config document declare. Where two
/// sections are filed under one name, the later one stands.
pub open spec fn profiles_of(
    sections: Seq<(Option<Seq<char>>, Seq<(Seq<char>, Seq<char>)>)>,
) -> Map<Seq<char>, ProfileView>
    decreases sections.len(),
{
    if sections.len() == 0 {
        Map::empty()
    } else {
        let earlier = profiles_of(sections.drop_last());
        match sections.last().0 {
            Some(header) => earlier.insert(
                canonical_name(header),
                profile_of(declared_order(sections.len() - 1), sections.last().1),
            ),
            None => earlier,
        }
    }
}

/// The credentials that the sections of a credentials document declare. Where
/// two sections are filed under one name, the later one stands.
pub open spec fn credentials_of(
    sections: Seq<(Option<Seq<char>>, Seq<(Seq<char>, Seq<char>)>)>,
) -> Map<Seq<char>, CredentialView>
    decreases sections.len(),
{
    if sections.len() == 0 {
        Map::empty()
    } else {
        let earlier = credentials_of(sections.drop_last());
        match sections.last().0 {
            Some(header) => earlier.insert(canonical_name(header), credential_of(sections.last().1)),
            None => earlier,
        }
    }
}

/// Whether section `i` of `sections` is filed under `name`.
pub open spec fn files_under(
    sections: Seq<(Option<Seq<char>>, Seq<(Seq<char>, Seq<char>)>)>,
    i: int,
    name: Seq<char>,
) -> bool {
    &&& 0 <= i < sections.len()
    &&& sections[i].0 matches Some(header)
    &&& canonical_name(header) == name
}

/// Exactly the names that some section is filed under have a record, and no
/// name is listed twice.
pub proof fn law_declared_names_are_filed(
    sections: Seq<(Option<Seq<char>>, Seq<(Seq<char>, Seq<char>)>)>,
    name: Seq<char>,
)
    ensures
        profiles_of(sections).contains_key(name) <==> exists|i: int|
            files_under(sections, i, name),
        credentials_of(sections).contains_key(name) <==> exists|i: int|
            files_under(sections, i, name),
        section_names_of(sections).contains(name) <==> exists|i: int|
            files_under(sections, i, name),
        section_names_of(sections).no_duplicates(),
    decreases sections.len(),
{
    if sections.len() > 0 {
        let shorter = sections.drop_last();
        let last = sections.len() - 1;
        law_declared_names_are_filed(shorter, name);
        let earlier = section_names_of(shorter);
        if exists|i: int| files_under(shorter, i, name) {
            let i = choose|i: int| files_under(shorter, i, name);
            assert(files_under(sections, i, name));
        }
        if exists|i: int| files_under(sections, i, name) {
            let i = choose|i: int| files_under(sections, i, name);
            if i < last {
                assert(files_under(shorter, i, name));
            }
        }
        match sections.last().0 {
            Some(header) => {
                let filed = canonical_name(header);
                law_declared_names_are_filed(shorter, filed);
                if filed == name {
                    assert(files_under(sections, last, name));
                }
                if !earlier.contains(filed) {
                    assert(earlier.push(filed)[earlier.len() as int] == filed);
                    if earlier.contains(name) {
                        let j = choose|j: int| 0 <= j < earlier.len() && earlier[j] == name;
                        assert(earlier.push(filed)[j] == name);
                    }
                    if earlier.push(filed).contains(name) {
                        let j = choose|j: int|
                            0 <= j < earlier.push(filed).len() && earlier.push(filed)[j] == name;
                        if j < earlier.len() {
                            assert(earlier[j] == name);
                        }
                    }
                    assert forall|a: int, b: int|
                        0 <= a < earlier.push(filed).len() && 0 <= b < earlier.push(filed).len()
                            && a != b implies earlier.push(filed)[a] != earlier.push(filed)[b] by {
                        if a < earlier.len() && b < earlier.len() {
                        } else if a < earlier.len() {
                            assert(earlier[a] == earlier.push(filed)[a]);
                        } else {
                            assert(earlier[b] == earlier.push(filed)[b]);
                        }
                    }
                }
            },
            None => {},
        }
    } else {
        assert(!section_names_of(sections).contains(name));
    }
}

/// Where several sections are filed under one name, the last of them stands:
/// the record under that name is the one that this section declares.
pub proof fn law_later_section_stands(
    sections: Seq<(Option<Seq<char>>, Seq<(Seq<char>, Seq<char>)>)>,
    name: Seq<char>,
    i: int,
)
    requires
        files_under(sections, i, name),
        forall|j: int| i < j < sections.len() ==> !files_under(sections, j, name),
    ensures
        profiles_of(sections).contains_key(name),
        profiles_of(sections)[name] == profile_of(declared_order(i), sections[i].1),
        credentials_of(sections).contains_key(name),
        credentials_of(sections)[name] == credential_of(sections[i].1),
    decreases sections.len(),
{
    let last = sections.len() - 1;
    if i < last {
        let shorter = sections.drop_last();
        assert(files_under(shorter, i, name));
        assert forall|j: int| i < j < shorter.len() implies !files_under(shorter, j, name) by {
            assert(!files_under(sections, j, name));
        }
        law_later_section_stands(shorter, name, i);
        assert(!files_under(sections, last, name));
    }
}

/// The value that a section gives a key is the one it gives last, and a key
/// that the section never sets has none.
pub proof fn law_later_value_stands(properties: Seq<(Seq<char>, Seq<char>)>, key: Seq<char>)
    ensures
        match last_value(properties, key) {
            Some(value) => exists|i: int|
                {
                    &&& 0 <= i < properties.len()
                    &&& #[trigger] properties[i] == (key, value)
                    &&& forall|j: int| i < j < properties.len() ==> (#[trigger] properties[j]).0 != key
                },
            None => forall|i: int| 0 <= i < properties.len() ==> (#[trigger] properties[i]).0 != key,
        },
    decreases properties.len(),
{
    if properties.len() > 0 {
        let shorter = properties.drop_last();
        let last = properties.len() - 1;
        if properties.last().0 == key {
            assert(properties[last] == (key, properties.last().1));
        } else {
            law_later_value_stands(shorter, key);
            match last_value(shorter, key) {
                Some(value) => {
                    let i = choose|i: int|
                        {
                            &&& 0 <= i < shorter.len()
                            &&& #[trigger] shorter[i] == (key, value)
                            &&& forall|j: int|
                                i < j < shorter.len() ==> (#[trigger] shorter[j]).0 != key
                        };
                    assert(properties[i] == (key, value));
                    assert forall|j: int| i < j < properties.len() implies (
                    #[trigger] properties[j]).0 != key by {
                        if j < last {
                            assert(shorter[j].0 != key);
                        }
                    }
                },
                None => {
                    assert forall|j: int| 0 <= j < properties.len() implies (
                    #[trigger] properties[j]).0 != key by {
                        if j < last {
                            assert(shorter[j].0 != key);
                        }
                    }
                },
            }
        }
    }
}

/// Files the profiles that the sections of a config document declare.
pub fn profiles_from_sections(
    sections: &Vec<(Option<String>, Vec<(String, String)>)>,
) -> (profiles: Table<Profile>)
    ensures
        profiles@ == profiles_of(sections.deep_view()),
        profiles.names() == section_names_of(sections.deep_view()),
{
    let ghost all = sections.deep_view();
    let mut profiles: Table<Profile> = Table::new();
    let mut i: usize = 0;
    assert(all.take(0) =~= Seq::empty());
    while i < sections.len()
        invariant
            i <= sections.len(),
            all == sections.deep_view(),
            profiles@ == profiles_of(all.take(i as int)),
            profiles.names() == section_names_of(all.take(i as int)),
        decreases sections.len() - i,
    {
        proof {
            assert(all.take(i as int + 1).drop_last() =~= all.take(i as int));
            assert(all.take(i as int + 1).last() == all[i as int]);
            assert(all[i as int].0 == sections[i as int].0.deep_view());
            assert(all[i as int].1 == sections[i as int].1.deep_view());
            profiles.lemma_domain();
        }
        match &sections[i].0 {
            Some(header) => {
                let order: isize = if i <= isize::MAX as usize {
                    i as isize
                } else {
                    isize::MAX
                };
                let profile = profile_from_properties(order, &sections[i].1);
                profiles.insert(profile_name(header.as_str()), profile);
            },
            None => {},
        }
        i += 1;
    }
    assert(all.take(sections.len() as int) =~= all);
    profiles
}

/// Files the credentials that the sections of a credentials document declare.
pub fn credentials_from_sections(
    sections: &Vec<(Option<String>, Vec<(String, String)>)>,
) -> (credentials: Table<Credential>)
    ensures
        credentials@ == credentials_of(sections.deep_view()),
        credentials.names() == section_names_of(sections.deep_view()),
{
    let ghost all = sections.deep_view();
    let mut credentials: Table<Credential> = Table::new();
    let mut i: usize = 0;
    assert(all.take(0) =~= Seq::empty());
    while i < sections.len()
        invariant
            i <= sections.len(),
            all == sections.deep_view(),
            credentials@ == credentials_of(all.take(i as int)),
            credentials.names() == section_names_of(all.take(i as int)),
        decreases sections.len() - i,
    {
        proof {
            assert(all.take(i as int + 1).drop_last() =~= all.take(i as int));
            assert(all.take(i as int + 1).last() == all[i as int]);
            assert(all[i as int].0 == sections[i as int].0.deep_view());
            assert(all[i as int].1 == sections[i as int].1.deep_view());
            credentials.lemma_domain();
        }
        match &sections[i].0 {
            Some(header) => {
                let credential = credential_from_properties(&sections[i].1);
                credentials.insert(profile_name(header.as_str()), credential);
            },
            None => {},
        }
        i += 1;
    }
    assert(all.take(sections.len() as int) =~= all);
    credentials
}

/// The sections of a file with the content `text`, where the file was read
/// (`text` is not `None`) and its text is valid INI.
pub open spec fn document_of(
    text: Option<&str>,
) -> Option<Seq<(Option<Seq<char>>, Seq<(Seq<char>, Seq<char>)>)>> {
    match text {
        Some(t) => ini_document(t@),
        None => None,
    }
}

/// Whether the file with the content `text` was read and its text is not valid INI.
pub open spec fn is_malformed(text: Option<&str>) -> bool {
    text is Some && document_of(text) is None
}

/// Reads the sections of the file `file` from its text. `text` is `None`
/// where the file could not be read.
fn read_sections(
    text: Option<&str>,
    file: SourceFile,
) -> (result: Result<Vec<(Option<String>, Vec<(String, String)>)>, ConfigError>)
    ensures
        match result {
            Ok(sections) => document_of(text) == Some(sections.deep_view()),
            Err(ConfigError::FileUnreadable { file: named }) => text is None && named == file,
            Err(ConfigError::MalformedSection { file: named, .. }) => is_malformed(text) && named
                == file,
            Err(_) => false,
        },
{
    match text {
        None => Err(ConfigError::FileUnreadable { file }),
        Some(t) => match parse_document(t) {
            Ok(sections) => Ok(sections),
            Err(error) => {
                let (line, col, message) = error_details(error);
                Err(ConfigError::MalformedSection { file, line, col, message })
            },
        },
    }
}

/// Parses the config file and files its profiles by canonical name.
///
/// `text` is the content of the file, or `None` where the file could not be
/// read. A file that is unreadable or malformed fails as a whole.
pub fn load_config(text: Option<&str>) -> (result: Result<Table<Profile>, ConfigError>)
    ensures
        match result {
            Ok(profiles) => {
                &&& document_of(text) matches Some(sections)
                &&& profiles@ == profiles_of(sections)
                &&& profiles.names() == section_names_of(sections)
            },
            Err(ConfigError::FileUnreadable { file }) => text is None && file
                == SourceFile::Config,
            Err(ConfigError::MalformedSection { file, .. }) => is_malformed(text) && file
                == SourceFile::Config,
            Err(_) => false,
        },
{
    match read_sections(text, SourceFile::Config) {
        Ok(sections) => Ok(profiles_from_sections(&sections)),
        Err(error) => Err(error),
    }
}

/// Parses the credentials file and files its credentials by canonical name.
///
/// `text` is the content of the file, or `None` where the file could not be
/// read. A file that is unreadable or malformed fails as a whole.
pub fn load_credentials(text: Option<&str>) -> (result: Result<Table<Credential>, ConfigError>)
    ensures
        match result {
            Ok(credentials) => {
                &&& document_of(text) matches Some(sections)
                &&& credentials@ == credentials_of(sections)
                &&& credentials.names() == section_names_of(sections)
            },
            Err(ConfigError::FileUnreadable { file }) => text is None && file
                == SourceFile::Credentials,
            Err(ConfigError::MalformedSection { file, .. }) => is_malformed(text) && file
                == SourceFile::Credentials,
            Err(_) => false,
        },
{
    match read_sections(text, SourceFile::Credentials) {
        Ok(sections) => Ok(credentials_from_sections(&sections)),
        Err(error) => Err(error),
    }
}

} // verus!
