//! Following `source_profile` links from a profile to where its credentials come from.

use crate::error::ConfigError;
use crate::profile::{Profile, ProfileView};
use crate::table::Table;
use vstd::prelude::*;

verus! {

/// What following the links from a profile comes to.
pub enum Resolution {
    /// The dependency chain of the profile.
    Chain(Seq<Seq<char>>),
    /// The names visited, in order, followed by the one that the links lead
    /// back to.
    Cycle(Seq<Seq<char>>),
}

/// The profiles that the chain has not visited yet.
pub open spec fn unvisited(
    profiles: Map<Seq<char>, ProfileView>,
    visited: Seq<Seq<char>>,
) -> Set<Seq<char>> {
    profiles.dom().difference(visited.to_set())
}

/// Where the walk ends that has visited `visited` so far and stands at its last name.
///
/// The walk stops at the first of these:
/// - the current profile names no source: the chain is the names visited, start first;
/// - the source has been visited already: the walk fails;
/// - the source is not a profile: the chain is the names visited and the
///   source, start first;
/// - the source is a profile without a role: the chain is the names visited
///   and the source, in reverse, so that this credential profile comes first.
/// Otherwise the walk goes on from the source.
pub open spec fn extend_chain(
    profiles: Map<Seq<char>, ProfileView>,
    visited: Seq<Seq<char>>,
) -> Resolution
    recommends
        visited.len() > 0,
        profiles.contains_key(visited.last()),
    decreases unvisited(profiles, visited).len(),
    when profiles.dom().finite()
    via extend_chain_decreases
{
    match profiles[visited.last()].source_profile {
        None => Resolution::Chain(visited),
        Some(source) => {
            let longer = visited.push(source);
            if visited.contains(source) {
                Resolution::Cycle(longer)
            } else if !profiles.contains_key(source) {
                Resolution::Chain(longer)
            } else if profiles[source].role_arn is None {
                Resolution::Chain(longer.reverse())
            } else {
                extend_chain(profiles, longer)
            }
        },
    }
}

/// Visiting a profile that was not visited before leaves fewer to visit.
pub proof fn lemma_visit_shrinks(
    profiles: Map<Seq<char>, ProfileView>,
    visited: Seq<Seq<char>>,
    source: Seq<char>,
)
    requires
        profiles.dom().finite(),
        profiles.contains_key(source),
        !visited.contains(source),
    ensures
        unvisited(profiles, visited.push(source)).len() < unvisited(profiles, visited).len(),
{
    let before = unvisited(profiles, visited);
    let after = unvisited(profiles, visited.push(source));
    assert(before.contains(source));
    assert(after =~= before.remove(source)) by {
        assert forall|name: Seq<char>| after.contains(name) <==> before.remove(source).contains(
            name,
        ) by {
            if visited.push(source).contains(name) {
                let i = choose|i: int|
                    0 <= i < visited.push(source).len() && visited.push(source)[i] == name;
                if i < visited.len() {
                    assert(visited[i] == name);
                }
            }
            if visited.contains(name) {
                let i = choose|i: int| 0 <= i < visited.len() && visited[i] == name;
                assert(visited.push(source)[i] == name);
            }
            if name == source {
                assert(visited.push(source)[visited.len() as int] == source);
            }
        }
    }
}

#[via_fn]
proof fn extend_chain_decreases(profiles: Map<Seq<char>, ProfileView>, visited: Seq<Seq<char>>) {
    match profiles[visited.last()].source_profile {
        None => {},
        Some(source) => {
            if !visited.contains(source) && profiles.contains_key(source) {
                lemma_visit_shrinks(profiles, visited, source);
            }
        },
    }
}

/// The dependency chain of the profile `start`.
///
/// A chain that ends at a credential profile (one without a role) lists that
/// profile first and `start` last; every other chain lists `start` first.
pub open spec fn resolve_chain(
    profiles: Map<Seq<char>, ProfileView>,
    start: Seq<char>,
) -> Resolution {
    extend_chain(profiles, seq![start])
}

/// Whether `walk` runs along `source_profile` links: it names no profile
/// twice, each name but the last is a profile whose source is the next name,
/// and each name strictly between the first and the last has a role.
pub open spec fn follows_links(
    profiles: Map<Seq<char>, ProfileView>,
    walk: Seq<Seq<char>>,
) -> bool {
    &&& walk.len() > 0
    &&& walk.no_duplicates()
    &&& forall|i: int|
        0 <= i < walk.len() - 1 ==> {
            &&& profiles.contains_key(#[trigger] walk[i])
            &&& profiles[walk[i]].source_profile == Some(walk[i + 1])
        }
    &&& forall|i: int| 0 < i < walk.len() - 1 ==> (#[trigger] profiles[walk[i]]).role_arn is Some
}

/// The names of `chain` in the order in which the walk from `start` visited them.
pub open spec fn walk_of(chain: Seq<Seq<char>>, start: Seq<char>) -> Seq<Seq<char>> {
    if chain.first() == start {
        chain
    } else {
        chain.reverse()
    }
}

/// What holds of a chain that resolving `start` may return.
///
/// Its names, in the order visited, run along the links from `start`. A chain
/// that lists `start` first ends at a profile without a source (which has a
/// role, unless it is `start` itself) or at a name that is no profile. A
/// chain that lists `start` last begins with a profile without a role.
pub open spec fn is_sound_chain(
    profiles: Map<Seq<char>, ProfileView>,
    start: Seq<char>,
    chain: Seq<Seq<char>>,
) -> bool {
    let walk = walk_of(chain, start);
    let end = walk.last();
    &&& follows_links(profiles, walk)
    &&& walk.first() == start
    &&& if chain.first() == start {
        if profiles.contains_key(end) {
            profiles[end].source_profile is None && (walk.len() >= 2
                ==> profiles[end].role_arn is Some)
        } else {
            walk.len() >= 2
        }
    } else {
        walk.len() >= 2 && profiles.contains_key(end) && profiles[end].role_arn is None
    }
}

/// What holds of a cycle that resolving `start` may report.
///
/// All but its last name run along the links from `start`, and the profile
/// they end at names as its source the last name, which was visited before.
pub open spec fn is_sound_cycle(
    profiles: Map<Seq<char>, ProfileView>,
    start: Seq<char>,
    cycle: Seq<Seq<char>>,
) -> bool {
    let walk = cycle.drop_last();
    &&& cycle.len() >= 2
    &&& follows_links(profiles, walk)
    &&& walk.first() == start
    &&& profiles.contains_key(walk.last())
    &&& profiles[walk.last()].source_profile == Some(cycle.last())
    &&& walk.contains(cycle.last())
}

proof fn lemma_extend_chain_is_sound(
    profiles: Map<Seq<char>, ProfileView>,
    visited: Seq<Seq<char>>,
)
    requires
        profiles.dom().finite(),
        follows_links(profiles, visited),
        profiles.contains_key(visited.last()),
        visited.len() >= 2 ==> profiles[visited.last()].role_arn is Some,
    ensures
        match extend_chain(profiles, visited) {
            Resolution::Chain(chain) => is_sound_chain(profiles, visited.first(), chain),
            Resolution::Cycle(cycle) => is_sound_cycle(profiles, visited.first(), cycle),
        },
    decreases unvisited(profiles, visited).len(),
{
    match profiles[visited.last()].source_profile {
        None => {},
        Some(source) => {
            let longer = visited.push(source);
            if visited.contains(source) {
                assert(longer.drop_last() =~= visited);
            } else {
                assert(follows_links(profiles, longer)) by {
                    assert forall|i: int| 0 <= i < longer.len() - 1 implies {
                        &&& profiles.contains_key(#[trigger] longer[i])
                        &&& profiles[longer[i]].source_profile == Some(longer[i + 1])
                    } by {
                        if i < visited.len() - 1 {
                            assert(longer[i] == visited[i]);
                        }
                    }
                    assert forall|i: int| 0 < i < longer.len() - 1 implies (
                    #[trigger] profiles[longer[i]]).role_arn is Some by {
                        if i < visited.len() - 1 {
                            assert(profiles[visited[i]].role_arn is Some);
                        }
                    }
                }
                assert(longer.first() == visited.first());
                if !profiles.contains_key(source) {
                } else if profiles[source].role_arn is None {
                    assert(longer.reverse().reverse() =~= longer);
                    assert(longer.reverse().first() == source);
                    assert(visited[0] == visited.first());
                } else {
                    lemma_visit_shrinks(profiles, visited, source);
                    lemma_extend_chain_is_sound(profiles, longer);
                }
            }
        },
    }
}

/// Whatever resolving a profile returns runs along the `source_profile` links
/// from that profile and names no profile twice.
pub proof fn law_chain_follows_links(profiles: Map<Seq<char>, ProfileView>, start: Seq<char>)
    requires
        profiles.dom().finite(),
        profiles.contains_key(start),
    ensures
        match resolve_chain(profiles, start) {
            Resolution::Chain(chain) => is_sound_chain(profiles, start, chain),
            Resolution::Cycle(cycle) => is_sound_cycle(profiles, start, cycle),
        },
{
    lemma_extend_chain_is_sound(profiles, seq![start]);
}

/// A profile that names no source resolves to the chain of its own name alone.
pub proof fn law_profile_without_source_is_its_own_chain(
    profiles: Map<Seq<char>, ProfileView>,
    start: Seq<char>,
)
    requires
        profiles.dom().finite(),
        profiles.contains_key(start),
        profiles[start].source_profile is None,
    ensures
        resolve_chain(profiles, start) == Resolution::Chain(seq![start]),
{
}

/// Two profiles that name each other as source make a cycle, which resolving
/// the first reports with both names: `a`, `b`, and `a` again. A profile that
/// names itself is reported as `a`, `a`.
///
/// The second profile must have a role. Without one it ends the chain as a
/// credential profile before its own link is looked at, and no cycle is seen:
/// see [`law_credential_profile_hides_cycle`].
pub proof fn law_mutual_sources_are_a_cycle(
    profiles: Map<Seq<char>, ProfileView>,
    a: Seq<char>,
    b: Seq<char>,
)
    requires
        profiles.dom().finite(),
        profiles.contains_key(a),
        profiles.contains_key(b),
        profiles[a].source_profile == Some(b),
        profiles[b].source_profile == Some(a),
        a != b ==> profiles[b].role_arn is Some,
    ensures
        resolve_chain(profiles, a) == Resolution::Cycle(
            if a == b {
                seq![a, a]
            } else {
                seq![a, b, a]
            },
        ),
{
    let first = seq![a];
    assert(first.last() == a);
    if a == b {
        assert(first.contains(a)) by {
            assert(first[0] == a);
        }
        assert(first.push(a) =~= seq![a, a]);
    } else {
        assert(!first.contains(b)) by {
            if first.contains(b) {
                let i = choose|i: int| 0 <= i < first.len() && first[i] == b;
                assert(first[i] == a);
            }
        }
        let second = first.push(b);
        assert(second =~= seq![a, b]);
        lemma_visit_shrinks(profiles, first, b);
        assert(second.last() == b);
        assert(second.contains(a)) by {
            assert(second[0] == a);
        }
        assert(second.push(a) =~= seq![a, b, a]);
        assert(extend_chain(profiles, second) == Resolution::Cycle(second.push(a)));
    }
}

/// Where the second of two profiles that name each other has no role, resolving
/// the first ends at the second and reports no cycle.
pub proof fn law_credential_profile_hides_cycle(
    profiles: Map<Seq<char>, ProfileView>,
    a: Seq<char>,
    b: Seq<char>,
)
    requires
        profiles.dom().finite(),
        profiles.contains_key(a),
        profiles.contains_key(b),
        a != b,
        profiles[a].source_profile == Some(b),
        profiles[b].source_profile == Some(a),
        profiles[b].role_arn is None,
    ensures
        resolve_chain(profiles, a) == Resolution::Chain(seq![b, a]),
{
    let first = seq![a];
    assert(first.last() == a);
    assert(!first.contains(b)) by {
        if first.contains(b) {
            let i = choose|i: int| 0 <= i < first.len() && first[i] == b;
            assert(first[i] == a);
        }
    }
    assert(first.push(b).reverse() =~= seq![b, a]);
}

/// A source that is not a profile ends the chain where it stands: the chain
/// is the profile and the missing source, and nothing fails.
pub proof fn law_missing_source_ends_chain(
    profiles: Map<Seq<char>, ProfileView>,
    start: Seq<char>,
    source: Seq<char>,
)
    requires
        profiles.dom().finite(),
        profiles.contains_key(start),
        profiles[start].source_profile == Some(source),
        !profiles.contains_key(source),
    ensures
        resolve_chain(profiles, start) == Resolution::Chain(seq![start, source]),
{
    let first = seq![start];
    assert(first.last() == start);
    assert(!first.contains(source)) by {
        if first.contains(source) {
            let i = choose|i: int| 0 <= i < first.len() && first[i] == source;
            assert(first[i] == start);
        }
    }
    assert(first.push(source) =~= seq![start, source]);
}

/// Whether `name` is one of `names`.
pub(crate) fn contains_name(names: &Vec<String>, name: &String) -> (found: bool)
    ensures
        found == names.deep_view().contains(name@),
{
    let mut i: usize = 0;
    while i < names.len()
        invariant
            i <= names.len(),
            forall|j: int| 0 <= j < i ==> names.deep_view()[j] != name@,
        decreases names.len() - i,
    {
        if names[i] == *name {
            assert(names.deep_view()[i as int] == name@);
            return true;
        }
        i += 1;
    }
    false
}

/// The names of `names` in the opposite order.
fn reversed(names: Vec<String>) -> (result: Vec<String>)
    ensures
        result.deep_view() == names.deep_view().reverse(),
{
    let mut rest = names;
    let mut result: Vec<String> = Vec::new();
    let ghost all = rest.deep_view();
    while rest.len() > 0
        invariant
            rest.len() + result.len() == all.len(),
            forall|j: int| 0 <= j < rest.len() ==> rest.deep_view()[j] == all[j],
            forall|j: int|
                0 <= j < result.len() ==> result.deep_view()[j] == all[all.len() - 1 - j],
        decreases rest.len(),
    {
        let ghost before = rest.deep_view();
        let ghost done = result.deep_view();
        match rest.pop() {
            Some(name) => {
                assert(name@ == before[before.len() - 1]);
                result.push(name);
                assert forall|j: int| 0 <= j < result.len() implies result.deep_view()[j]
                    == all[all.len() - 1 - j] by {
                    if j < done.len() {
                        assert(result.deep_view()[j] == done[j]);
                    }
                }
                assert forall|j: int| 0 <= j < rest.len() implies rest.deep_view()[j]
                    == all[j] by {
                    assert(rest.deep_view()[j] == before[j]);
                }
            },
            None => {},
        }
    }
    assert(result.deep_view() =~= all.reverse());
    result
}

/// Resolves the dependency chain of the profile `profile_name`.
///
/// Fails with `CyclicProfileChain` where the links lead back to a profile
/// already visited. A source that is not a profile ends the chain without
/// an error.
pub fn get_profile_list(
    config: &Table<Profile>,
    profile_name: &String,
) -> (result: Result<Vec<String>, ConfigError>)
    requires
        config@.contains_key(profile_name@),
    ensures
        match result {
            Ok(chain) => resolve_chain(config@, profile_name@) == Resolution::Chain(
                chain.deep_view(),
            ),
            Err(ConfigError::CyclicProfileChain { chain }) => resolve_chain(config@, profile_name@)
                == Resolution::Cycle(chain.deep_view()),
            Err(_) => false,
        },
{
    let mut visited: Vec<String> = Vec::new();
    visited.push(profile_name.clone());
    assert(visited.deep_view() =~= seq![profile_name@]);
    let mut current: &Profile = config.get(profile_name).unwrap();
    proof {
        config.lemma_domain();
    }
    loop
        invariant
            config@.dom().finite(),
            visited.len() > 0,
            config@.contains_key(visited.deep_view().last()),
            current@ == config@[visited.deep_view().last()],
            extend_chain(config@, visited.deep_view()) == resolve_chain(config@, profile_name@),
        decreases unvisited(config@, visited.deep_view()).len(),
    {
        let ghost seen = visited.deep_view();
        match &current.source_profile {
            None => {
                return Ok(visited);
            },
            Some(source) => {
                let repeated = contains_name(&visited, source);
                visited.push(source.clone());
                assert(visited.deep_view() =~= seen.push(source@));
                if repeated {
                    return Err(ConfigError::CyclicProfileChain { chain: visited });
                }
                match config.get(source) {
                    None => {
                        return Ok(visited);
                    },
                    Some(next) => {
                        if next.role_arn.is_none() {
                            return Ok(reversed(visited));
                        }
                        proof {
                            lemma_visit_shrinks(config@, seen, source@);
                        }
                        current = next;
                    },
                }
            },
        }
    }
}

} // verus!
