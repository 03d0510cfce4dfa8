//! Sessions: their configuration, branches, turns, attempts and candidates.
use vstd::prelude::*;

use crate::egress::EgressAllowance;
use crate::identity::{ContentHash, EntityId, hash_text};
use crate::json::Json;
use crate::lore::groups::with_names;
use crate::plugin::{PluginCapability, PluginReceipt};
use crate::state::StateKey;
use crate::text::{self, lemma_with_name, less, name_rank, with_name};

verus! {

/// A plugin that a session is bound to, in a version and with capabilities.
#[derive(Clone, Debug, Eq, PartialEq)]
pub struct PluginPin {
    pub id: String,
    pub version: String,
    pub component_hash: ContentHash,
    pub capabilities: Vec<PluginCapability>,
    pub settings: Json,
    pub egress_allow_list: Vec<EgressAllowance>,
    pub enabled: bool,
}

/// The configuration of a session. `value` is the whole of it as JSON.
#[derive(Debug)]
pub struct SessionConfiguration {
    pub compatibility_profile: String,
    pub character_revision: ContentHash,
    pub lorebook_revisions: Vec<ContentHash>,
    pub prompt_preset_revision: Option<ContentHash>,
    pub plugins: Vec<PluginPin>,
    pub value: Json,
}

/// A revision of a configuration.
#[derive(Debug)]
pub struct SessionConfigurationRecord {
    pub revision_hash: ContentHash,
    pub configuration: SessionConfiguration,
}

/// Why what a session is asked for cannot be had.
#[derive(Clone, Debug)]
pub enum SessionError {
    SessionNotFound(EntityId),
    BranchNotFound(EntityId),
    ConfigurationNotFound(ContentHash),
    BranchSessionMismatch,
    InvalidPluginVersion(String),
}

/// A session.
#[derive(Clone, Debug)]
pub struct SessionProjection {
    pub session_id: EntityId,
    pub current_config_hash: ContentHash,
    pub root_branch_id: EntityId,
    pub archived: bool,
}

/// A branch of a session.
#[derive(Clone, Debug)]
pub struct BranchProjection {
    pub branch_id: EntityId,
    pub session_id: EntityId,
    pub greeting_revision_hash: ContentHash,
    pub greeting_index: usize,
}

/// A turn of a branch.
#[derive(Clone, Debug)]
pub struct TurnProjection {
    pub turn_id: EntityId,
    pub session_id: EntityId,
    pub branch_id: EntityId,
    pub user_content: String,
    pub selected_candidate_id: Option<EntityId>,
}

/// How an attempt stands.
#[derive(Clone, Copy, Debug, Eq, PartialEq, Structural)]
pub enum AttemptStatus {
    Running,
    Completed,
    Failed,
    Cancelled,
    Incomplete,
}

/// What an attempt did outside: the request to a provider, by the hash that was
/// recorded and the one that it has, and the plugins that ran.
#[derive(Debug)]
pub struct AttemptEffectReceipt {
    pub provider_request_hash: ContentHash,
    pub plugins: Vec<PluginReceipt>,
    pub value: Json,
}

/// An attempt at a turn. `prompt_value` is its prompt as JSON.
#[derive(Debug)]
pub struct AttemptProjection {
    pub attempt_id: EntityId,
    pub turn_id: EntityId,
    pub config_hash: ContentHash,
    pub status: AttemptStatus,
    pub prompt_value: Json,
    pub provider_request_hash: Option<ContentHash>,
    pub provider_receipt: Option<Json>,
    pub effect_value: Option<Json>,
    pub error_message: Option<String>,
}

/// Where a candidate comes from.
#[derive(Clone, Copy, Debug, Eq, PartialEq, Structural)]
pub enum CandidateOrigin {
    Generated,
    Continued,
    Manual,
    AcceptedPartial,
}

/// A reply that may be selected. `value` is the whole of it as JSON.
#[derive(Debug)]
pub struct CandidateProjection {
    pub candidate_id: EntityId,
    pub turn_id: EntityId,
    pub attempt_id: Option<EntityId>,
    pub origin: CandidateOrigin,
    pub content: String,
    pub value: Json,
}

/// A variable as it is kept.
#[derive(Debug)]
pub struct StoredCell {
    pub key: StateKey,
    pub value: Json,
    pub raw_value: String,
    pub owner: String,
    pub origin: String,
    pub revision: u64,
}

/// The name of a status.
pub open spec fn status_name(status: AttemptStatus) -> Seq<char> {
    match status {
        AttemptStatus::Running => "running"@,
        AttemptStatus::Completed => "completed"@,
        AttemptStatus::Failed => "failed"@,
        AttemptStatus::Cancelled => "cancelled"@,
        AttemptStatus::Incomplete => "incomplete"@,
    }
}

/// The name of a status.
pub fn attempt_status_name(status: AttemptStatus) -> (name: &'static str)
    ensures
        name@ == status_name(status),
{
    match status {
        AttemptStatus::Running => "running",
        AttemptStatus::Completed => "completed",
        AttemptStatus::Failed => "failed",
        AttemptStatus::Cancelled => "cancelled",
        AttemptStatus::Incomplete => "incomplete",
    }
}

/// The name of an origin.
pub open spec fn origin_name(origin: CandidateOrigin) -> Seq<char> {
    match origin {
        CandidateOrigin::Generated => "generated"@,
        CandidateOrigin::Continued => "continued"@,
        CandidateOrigin::Manual => "manual"@,
        CandidateOrigin::AcceptedPartial => "accepted-partial"@,
    }
}

/// The name of an origin.
pub fn candidate_origin_name(origin: CandidateOrigin) -> (name: &'static str)
    ensures
        name@ == origin_name(origin),
{
    match origin {
        CandidateOrigin::Generated => "generated",
        CandidateOrigin::Continued => "continued",
        CandidateOrigin::Manual => "manual",
        CandidateOrigin::AcceptedPartial => "accepted-partial",
    }
}

/// The written forms of some hashes.
pub open spec fn hash_texts(hashes: Seq<ContentHash>) -> Seq<Seq<char>> {
    Seq::new(hashes.len(), |i: int| hash_text(hashes[i]@))
}

/// The written forms of the artifacts that a configuration names.
pub open spec fn named_artifacts(configuration: SessionConfiguration) -> Seq<Seq<char>> {
    let first = seq![hash_text(configuration.character_revision@)] + hash_texts(
        configuration.lorebook_revisions@,
    );
    match configuration.prompt_preset_revision {
        Some(preset) => first.push(hash_text(preset@)),
        None => first,
    }
}

/// The written forms of the artifacts that a configuration names, in ascending
/// order and each once.
pub open spec fn artifacts_of(configuration: SessionConfiguration) -> Seq<Seq<char>> {
    with_names(Seq::empty(), named_artifacts(configuration))
}

fn add_hash(hashes: &mut Vec<ContentHash>, hash: &ContentHash)
    requires
        text::ascending(hash_texts(old(hashes)@)),
    ensures
        hash_texts(final(hashes)@) == with_name(hash_texts(old(hashes)@), hash_text(hash@)),
        text::ascending(hash_texts(final(hashes)@)),
{
    let name = hash.text();
    let ghost before = hash_texts(hashes@);
    proof {
        lemma_with_name(before, name@);
    }
    let mut i: usize = 0;
    while i < hashes.len()
        invariant
            i <= hashes@.len(),
            hashes@ == old(hashes)@,
            before == hash_texts(hashes@),
            name@ == hash_text(hash@),
            text::ascending(with_name(before, name@)),
            forall|j: int| 0 <= j < i ==> #[trigger] before[j] != name@,
        decreases hashes@.len() - i,
    {
        let other = hashes[i].text();
        proof {
            assert(before[i as int] == other@);
        }
        if text::same(other.as_str(), name.as_str()) {
            proof {
                assert(before.contains(name@));
            }
            return;
        }
        i = i + 1;
    }
    proof {
        assert forall|j: int| 0 <= j < before.len() implies #[trigger] before[j] != name@ by {}
        assert(!before.contains(name@));
        assert(before.take(before.len() as int) =~= before);
    }
    let mut at: usize = hashes.len();
    while at > 0
        invariant
            at <= hashes@.len(),
            before == hash_texts(hashes@),
            name_rank(before, name@) == name_rank(before.take(at as int), name@),
        ensures
            at <= hashes@.len(),
            before == hash_texts(hashes@),
            name_rank(before, name@) == at,
        decreases at,
    {
        let other = hashes[at - 1].text();
        proof {
            assert(before.take(at as int).last() == other@);
            assert(before.take(at as int).drop_last() =~= before.take(at - 1));
        }
        if less(other.as_str(), name.as_str()) {
            break ;
        }
        at = at - 1;
    }
    hashes.insert(at, *hash);
    proof {
        assert(hash_texts(hashes@) =~= before.insert(at as int, name@));
    }
}

/// The artifacts that a configuration names, by the order of their written form
/// and each once.
pub fn configuration_artifacts(configuration: &SessionConfiguration) -> (hashes: Vec<ContentHash>)
    ensures
        hash_texts(hashes@) == artifacts_of(*configuration),
        text::ascending(hash_texts(hashes@)),
{
    let ghost names = named_artifacts(*configuration);
    let mut hashes: Vec<ContentHash> = Vec::new();
    proof {
        assert(hash_texts(hashes@) =~= Seq::<Seq<char>>::empty());
        assert(names.take(1).drop_last() =~= Seq::<Seq<char>>::empty());
        assert(names.take(1).last() == hash_text(configuration.character_revision@));
        assert(with_names(Seq::empty(), names.take(1).drop_last()) == Seq::<Seq<char>>::empty());
    }
    add_hash(&mut hashes, &configuration.character_revision);
    let mut i: usize = 0;
    while i < configuration.lorebook_revisions.len()
        invariant
            i <= configuration.lorebook_revisions@.len(),
            names == named_artifacts(*configuration),
            text::ascending(hash_texts(hashes@)),
            hash_texts(hashes@) == with_names(Seq::empty(), names.take(i + 1)),
        decreases configuration.lorebook_revisions@.len() - i,
    {
        proof {
            assert(names.take(i + 2).drop_last() =~= names.take(i + 1));
            assert(names.take(i + 2).last() == hash_text(
                configuration.lorebook_revisions@[i as int]@,
            ));
        }
        add_hash(&mut hashes, &configuration.lorebook_revisions[i]);
        i = i + 1;
    }
    if let Some(preset) = &configuration.prompt_preset_revision {
        proof {
            assert(names.take(i + 2).drop_last() =~= names.take(i + 1));
            assert(names.take(i + 2).last() == hash_text(preset@));
        }
        add_hash(&mut hashes, preset);
        proof {
            assert(names.take(i + 2) =~= names);
        }
    } else {
        proof {
            assert(names.take(i + 1) =~= names);
        }
    }
    hashes
}

} // verus!
