//! Deciding, for each profile, how it obtains working credentials.

use crate::chain::{
    contains_name, get_profile_list, is_sound_chain, law_chain_follows_links, resolve_chain, walk_of,
    Resolution,
};
use crate::profile::{Profile, ProfileView};
use crate::table::Table;
use vstd::prelude::*;
use vstd::string::StringExecFns;

verus! {

/// The name of the profile that supplies the credentials of `profile`, which
/// is declared as `name`: its source profile if it has one, else itself.
pub open spec fn backing_name(profile: ProfileView, name: Seq<char>) -> Seq<char> {
    match profile.source_profile {
        Some(source) => source,
        None => name,
    }
}

/// A profile assumes its role in a single hop when the profile that backs it
/// has literal credentials.
pub open spec fn single_hop(
    profile: ProfileView,
    name: Seq<char>,
    credentials_profiles: Seq<Seq<char>>,
) -> bool {
    profile.role_arn is Some && credentials_profiles.contains(backing_name(profile, name))
}

/// Whether `chain`, resolved from `name`, lists its credential profile first.
///
/// Such a chain ended at a profile without a role and was turned round, so
/// `name` stands last in it. Every other chain begins with `name`.
pub open spec fn is_root_first(chain: Seq<Seq<char>>, name: Seq<char>) -> bool {
    chain.len() >= 2 && chain.first() != name
}

/// Whether entry `i` of `chain` has to assume a role.
///
/// Every entry has to, but for the credential profile at the head of a
/// root-first chain: it supplies the credentials that the others start from.
pub open spec fn role_is_due(chain: Seq<Seq<char>>, name: Seq<char>, i: int) -> bool {
    !(i == 0 && is_root_first(chain, name))
}

/// A profile assumes its role over several hops when its chain resolves, has
/// at least two entries, every entry is a profile, and every entry of which a
/// role is due has one.
pub open spec fn multi_hop(profiles: Map<Seq<char>, ProfileView>, name: Seq<char>) -> bool {
    match resolve_chain(profiles, name) {
        Resolution::Chain(chain) => {
            &&& chain.len() >= 2
            &&& forall|i: int| 0 <= i < chain.len() ==> profiles.contains_key(#[trigger] chain[i])
            &&& forall|i: int|
                0 <= i < chain.len() && role_is_due(chain, name, i) ==> (#[trigger] profiles[chain[i]]).role_arn is Some
        },
        Resolution::Cycle(_) => false,
    }
}

/// A profile can be launched when it assumes a role in one hop or in several.
pub open spec fn usable(
    profiles: Map<Seq<char>, ProfileView>,
    name: Seq<char>,
    credentials_profiles: Seq<Seq<char>>,
) -> bool {
    single_hop(profiles[name], name, credentials_profiles) || multi_hop(profiles, name)
}

/// The token that marks a long-term credential registered for a derived identity.
pub open spec fn source_profile_suffix() -> Seq<char> {
    "::source-profile"@
}

/// An MFA session can be cached for a profile that asks for MFA, assumes no
/// role, and whose backing profile has long-term credentials, registered under
/// its own name or under its name followed by `::source-profile`.
pub open spec fn cacheable(
    profile: ProfileView,
    name: Seq<char>,
    long_term_credentials_profiles: Seq<Seq<char>>,
) -> bool {
    let backing = backing_name(profile, name);
    &&& profile.mfa_serial is Some
    &&& profile.role_arn is None
    &&& (long_term_credentials_profiles.contains(backing)
        || long_term_credentials_profiles.contains(backing + source_profile_suffix()))
}

/// A profile without a role never assumes one in a single hop, whatever backs it.
pub proof fn law_single_hop_needs_role(
    profile: ProfileView,
    name: Seq<char>,
    credentials_profiles: Seq<Seq<char>>,
)
    ensures
        single_hop(profile, name, credentials_profiles) <==> profile.role_arn is Some
            && credentials_profiles.contains(backing_name(profile, name)),
        profile.role_arn is None ==> !single_hop(profile, name, credentials_profiles),
{
}

/// A profile with a role is never cacheable, whether or not it asks for MFA.
pub proof fn law_cacheable_profile_has_no_role(
    profile: ProfileView,
    name: Seq<char>,
    long_term_credentials_profiles: Seq<Seq<char>>,
)
    ensures
        profile.role_arn is Some ==> !cacheable(profile, name, long_term_credentials_profiles),
{
}

/// A profile whose chain stops at a name that is no profile does not assume
/// its role over several hops.
pub proof fn law_unresolved_chain_is_not_multi_hop(
    profiles: Map<Seq<char>, ProfileView>,
    name: Seq<char>,
)
    requires
        resolve_chain(profiles, name) matches Resolution::Chain(chain) && chain.len() > 0
            && !profiles.contains_key(chain.last()),
    ensures
        !multi_hop(profiles, name),
{
}

/// In brief, a profile assumes its role over several hops exactly when its
/// chain resolves to two names or more, the profile itself has a role, and the
/// walk ends at a profile. The names in between have a role by the way the
/// chain is built.
pub proof fn law_multi_hop_in_brief(profiles: Map<Seq<char>, ProfileView>, name: Seq<char>)
    requires
        profiles.dom().finite(),
        profiles.contains_key(name),
    ensures
        multi_hop(profiles, name) <==> match resolve_chain(profiles, name) {
            Resolution::Chain(chain) => chain.len() >= 2 && profiles[name].role_arn is Some
                && profiles.contains_key(walk_of(chain, name).last()),
            Resolution::Cycle(_) => false,
        },
{
    law_chain_follows_links(profiles, name);
    match resolve_chain(profiles, name) {
        Resolution::Chain(chain) => {
            if chain.len() >= 2 {
                let walk = walk_of(chain, name);
                let n = chain.len() as int;
                assert(is_sound_chain(profiles, name, chain));
                if chain.first() == name {
                    assert(walk == chain);
                    if multi_hop(profiles, name) {
                        assert(profiles.contains_key(chain[n - 1]));
                        assert(role_is_due(chain, name, 0));
                        assert(profiles[chain[0]].role_arn is Some);
                    }
                    if profiles[name].role_arn is Some && profiles.contains_key(walk.last()) {
                        assert forall|i: int| 0 <= i < n implies profiles.contains_key(
                            #[trigger] chain[i],
                        ) by {}
                        assert forall|i: int|
                            0 <= i < n && role_is_due(chain, name, i) implies (
                        #[trigger] profiles[chain[i]]).role_arn is Some by {
                            if 0 < i < n - 1 {
                                assert(profiles[walk[i]].role_arn is Some);
                            }
                        }
                    }
                } else {
                    assert(walk == chain.reverse());
                    assert(forall|i: int| 0 <= i < n ==> chain[i] == walk[n - 1 - i]);
                    assert(chain[n - 1] == name);
                    if multi_hop(profiles, name) {
                        assert(role_is_due(chain, name, n - 1));
                        assert(profiles[chain[n - 1]].role_arn is Some);
                    }
                    if profiles[name].role_arn is Some {
                        assert forall|i: int| 0 <= i < n implies profiles.contains_key(
                            #[trigger] chain[i],
                        ) by {
                            if i > 0 {
                                assert(profiles.contains_key(walk[n - 1 - i]));
                            }
                        }
                        assert forall|i: int|
                            0 <= i < n && role_is_due(chain, name, i) implies (
                        #[trigger] profiles[chain[i]]).role_arn is Some by {
                            if 0 < i < n - 1 {
                                assert(profiles[walk[n - 1 - i]].role_arn is Some);
                            }
                        }
                    }
                }
            }
        },
        Resolution::Cycle(_) => {},
    }
}

/// Whether `profile`, declared as `profile_name`, assumes its role in a single hop.
pub fn is_single_role_assuming_profile(
    profile: &Profile,
    profile_name: &String,
    credentials_profiles: &Vec<String>,
) -> (result: bool)
    ensures
        result == single_hop(profile@, profile_name@, credentials_profiles.deep_view()),
        profile.role_arn is None ==> !result,
{
    let credentials_profile: &String = match &profile.source_profile {
        Some(name) => name,
        None => profile_name,
    };
    match profile.role_arn {
        Some(_) => contains_name(credentials_profiles, credentials_profile),
        None => false,
    }
}

/// Whether the profile `profile_name` assumes its role over several hops.
///
/// A chain that runs into a cycle makes the profile not usable; it is no error here.
pub fn is_multi_stage_role_assuming_profile(
    config: &Table<Profile>,
    profile_name: &String,
) -> (result: bool)
    requires
        config@.contains_key(profile_name@),
    ensures
        result == multi_hop(config@, profile_name@),
{
    let chain = match get_profile_list(config, profile_name) {
        Ok(chain) => chain,
        Err(_) => {
            return false;
        },
    };
    if chain.len() < 2 {
        return false;
    }
    let root_first = chain[0] != *profile_name;
    assert(root_first == is_root_first(chain.deep_view(), profile_name@));
    let mut i: usize = 0;
    while i < chain.len()
        invariant
            i <= chain.len(),
            chain.len() >= 2,
            resolve_chain(config@, profile_name@) == Resolution::Chain(chain.deep_view()),
            root_first == is_root_first(chain.deep_view(), profile_name@),
            forall|j: int| 0 <= j < i ==> config@.contains_key(#[trigger] chain.deep_view()[j]),
            forall|j: int|
                0 <= j < i && role_is_due(chain.deep_view(), profile_name@, j) ==> (
                #[trigger] config@[chain.deep_view()[j]]).role_arn is Some,
        decreases chain.len() - i,
    {
        match config.get(&chain[i]) {
            None => {
                assert(!config@.contains_key(chain.deep_view()[i as int]));
                return false;
            },
            Some(profile) => {
                if profile.role_arn.is_none() && !(i == 0 && root_first) {
                    assert(role_is_due(chain.deep_view(), profile_name@, i as int));
                    assert(config@[chain.deep_view()[i as int]].role_arn is None);
                    return false;
                }
            },
        }
        i += 1;
    }
    true
}

/// The names of the profiles that can be launched, in table order.
pub fn get_usable_profiles(
    config: &Table<Profile>,
    credentials_profiles: &Vec<String>,
) -> (result: Vec<String>)
    ensures
        result.deep_view() == config.names().filter(
            |name: Seq<char>| usable(config@, name, credentials_profiles.deep_view()),
        ),
{
    let ghost wanted = |name: Seq<char>| usable(config@, name, credentials_profiles.deep_view());
    let mut result: Vec<String> = Vec::new();
    let n = config.len();
    let mut i: usize = 0;
    assert(config.names().take(0) =~= Seq::<Seq<char>>::empty());
    assert(result.deep_view() =~= Seq::<Seq<char>>::empty());
    proof {
        reveal(Seq::filter);
    }
    while i < n
        invariant
            i <= n,
            n == config.names().len(),
            wanted == |name: Seq<char>| usable(config@, name, credentials_profiles.deep_view()),
            result.deep_view() == config.names().take(i as int).filter(wanted),
        decreases n - i,
    {
        let name = config.name(i);
        let profile = config.value(i);
        let ghost before = result.deep_view();
        proof {
            config.names().lemma_take_succ_push(i as int);
            config.names().take(i as int).lemma_filter_push(name@, wanted);
        }
        if is_single_role_assuming_profile(profile, name, credentials_profiles)
            || is_multi_stage_role_assuming_profile(config, name) {
            result.push(name.clone());
            assert(result.deep_view() =~= before.push(name@));
        }
        i += 1;
    }
    assert(config.names().take(n as int) =~= config.names());
    result
}

/// The profiles for which an MFA session can be cached, in table order.
///
/// A profile that assumes a role is never among them, whether or not it asks for MFA.
pub fn get_cachable_profiles(
    config: &Table<Profile>,
    long_term_credentials_profiles: &Vec<String>,
) -> (result: Table<Profile>)
    ensures
        result.names() == config.names().filter(
            |name: Seq<char>|
                cacheable(config@[name], name, long_term_credentials_profiles.deep_view()),
        ),
        result@ == config@.restrict(
            Set::new(
                |name: Seq<char>|
                    cacheable(config@[name], name, long_term_credentials_profiles.deep_view()),
            ),
        ),
        forall|name: Seq<char>|
            result@.contains_key(name) ==> (#[trigger] result@[name]).role_arn is None,
{
    let ghost long_term = long_term_credentials_profiles.deep_view();
    let ghost wanted = |name: Seq<char>| cacheable(config@[name], name, long_term);
    let mut result: Table<Profile> = Table::new();
    let n = config.len();
    let mut i: usize = 0;
    assert(config.names().take(0) =~= Seq::<Seq<char>>::empty());
    proof {
        reveal(Seq::filter);
    }
    while i < n
        invariant
            i <= n,
            n == config.names().len(),
            config.names().no_duplicates(),
            long_term == long_term_credentials_profiles.deep_view(),
            wanted == |name: Seq<char>| cacheable(config@[name], name, long_term),
            result.names() == config.names().take(i as int).filter(wanted),
            forall|name: Seq<char>|
                result@.contains_key(name) <==> config.names().take(i as int).contains(name)
                    && wanted(name),
            forall|name: Seq<char>|
                result@.contains_key(name) ==> #[trigger] result@[name] == config@[name],
        decreases n - i,
    {
        let name = config.name(i);
        let profile = config.value(i);
        proof {
            config.names().lemma_take_succ_push(i as int);
            config.names().take(i as int).lemma_filter_push(name@, wanted);
        }
        let ghost earlier = config.names().take(i as int);
        let mut keep = false;
        if profile.mfa_serial.is_some() && profile.role_arn.is_none() {
            let backing: &String = match &profile.source_profile {
                Some(source) => source,
                None => name,
            };
            let mut registered = backing.clone();
            registered.append("::source-profile");
            keep = contains_name(long_term_credentials_profiles, &registered) || contains_name(
                long_term_credentials_profiles,
                backing,
            );
        }
        assert(keep == wanted(name@));
        if keep {
            assert(!result@.contains_key(name@)) by {
                if earlier.contains(name@) {
                    let j = choose|j: int| 0 <= j < earlier.len() && earlier[j] == name@;
                    assert(config.names()[j] == name@);
                }
            }
            result.insert(name.clone(), profile.clone());
        }
        proof {
            assert forall|other: Seq<char>|
                result@.contains_key(other) <==> config.names().take(i as int + 1).contains(other)
                    && wanted(other) by {
                let longer = config.names().take(i as int + 1);
                if longer.contains(other) {
                    let j = choose|j: int| 0 <= j < longer.len() && longer[j] == other;
                    if j < i {
                        assert(earlier[j] == other);
                    }
                }
                if earlier.contains(other) {
                    let j = choose|j: int| 0 <= j < earlier.len() && earlier[j] == other;
                    assert(longer[j] == other);
                }
                assert(longer[i as int] == name@);
            }
        }
        i += 1;
    }
    proof {
        assert(config.names().take(n as int) =~= config.names());
        config.lemma_domain();
        assert(result@ =~= config@.restrict(Set::new(wanted)));
    }
    result
}

} // verus!
