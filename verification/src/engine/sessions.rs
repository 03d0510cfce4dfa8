//! What the engine tells of sessions, and what it decides about them.
use vstd::prelude::*;
use vstd::utf8::encode_utf8;

use crate::artifact::kind::ArtifactKind;
use crate::artifact::revision::ArtifactRecord;
use crate::assoc;
use crate::egress::EgressBroker;
use crate::engine::plugins::EngineError;
use crate::identity::{ContentHash, EntityId, hash_text};
use crate::inference::InferenceBroker;
use crate::json::{as_text, field, Json, JsonView};
use crate::lore::entry::either;
use crate::paths;
use crate::prompt::prune::last_char;
use crate::prompt::segment::optional_hash;
use crate::session::{BranchProjection, CandidateProjection, SessionProjection, TurnProjection};
use crate::text::{self, at_most, blank, from_range, is_blank, to_chars};
use crate::turn::TurnError;

verus! {

/// How long the preview of a message is, in characters.
pub const PREVIEW_CHARS: usize = 200;

/// The engine: where its database and its configuration are, and the brokers
/// that it was given.
#[derive(Clone, Debug)]
pub struct StcliEngine {
    pub database: String,
    pub config_directory: String,
    pub egress: Option<EgressBroker>,
    pub inference: Option<InferenceBroker>,
}

/// Where the slashes at the end of the first `end` characters of a path begin.
pub open spec fn before_slashes(path: Seq<char>, end: int) -> int
    decreases end,
{
    if end <= 0 || end > path.len() || path[end - 1] != '/' {
        end
    } else {
        before_slashes(path, end - 1)
    }
}

/// The directory that a path leads into: the path without its last step. A path
/// that is empty or a root leads into none.
pub open spec fn parent_of(path: Seq<char>) -> Option<Seq<char>> {
    let end = before_slashes(path, path.len() as int);
    if end <= 0 {
        None
    } else {
        match last_char(path, '/', end) {
            None => Some(Seq::empty()),
            Some(slash) => {
                let cut = before_slashes(path, slash);
                if cut <= 0 {
                    Some("/"@)
                } else {
                    Some(path.take(cut))
                }
            },
        }
    }
}

/// The directory of a file, or the current one.
pub open spec fn directory_of(path: Seq<char>) -> Seq<char> {
    match parent_of(path) {
        Some(parent) => parent,
        None => "."@,
    }
}

fn skip_slashes(chars: &Vec<char>, end: usize) -> (cut: usize)
    requires
        end <= chars@.len(),
    ensures
        cut == before_slashes(chars@, end as int),
        cut <= end,
{
    let mut cut: usize = end;
    while cut > 0 && chars[cut - 1] == '/'
        invariant
            cut <= end <= chars@.len(),
            before_slashes(chars@, end as int) == before_slashes(chars@, cut as int),
        decreases cut,
    {
        cut = cut - 1;
    }
    cut
}

fn find_slash(chars: &Vec<char>, end: usize) -> (at: Option<usize>)
    requires
        end <= chars@.len(),
    ensures
        match at {
            Some(i) => last_char(chars@, '/', end as int) == Some(i as int) && i < end,
            None => last_char(chars@, '/', end as int) is None,
        },
{
    let mut i: usize = end;
    while i > 0
        invariant
            i <= end <= chars@.len(),
            last_char(chars@, '/', end as int) == last_char(chars@, '/', i as int),
        decreases i,
    {
        if chars[i - 1] == '/' {
            return Some(i - 1);
        }
        i = i - 1;
    }
    None
}

fn find_directory(path: &str) -> (directory: String)
    ensures
        directory@ == directory_of(path@),
{
    let chars = to_chars(path);
    let end: usize = skip_slashes(&chars, chars.len());
    if end == 0 {
        return ".".to_owned();
    }
    match find_slash(&chars, end) {
        None => {
            let directory = String::new();
            proof {
                assert(directory@ =~= Seq::<char>::empty());
            }
            directory
        },
        Some(slash) => {
            let cut: usize = skip_slashes(&chars, slash);
            if cut == 0 {
                "/".to_owned()
            } else {
                proof {
                    assert(chars@.subrange(0, cut as int) =~= path@.take(cut as int));
                }
                from_range(&chars, 0, cut)
            }
        },
    }
}

/// Where it is noted that the user does without a plugin that comes with the
/// engine.
pub open spec fn opt_out_path(database: Seq<char>, id: Seq<char>) -> Seq<char> {
    paths::joined(
        paths::joined(paths::joined(directory_of(database), ".default-plugins"@), "opt-outs"@),
        id,
    )
}

impl StcliEngine {
    /// An engine on a database, configured beside it.
    pub fn new(database: String) -> (engine: Self)
        ensures
            engine.database == database,
            engine.config_directory@ == directory_of(database@),
            engine.egress is None,
            engine.inference is None,
    {
        let config_directory = find_directory(database.as_str());
        StcliEngine { database, config_directory, egress: None, inference: None }
    }

    /// An engine with a broker of egress.
    pub fn with_egress_broker(database: String, broker: EgressBroker) -> (engine: Self)
        ensures
            engine.database == database,
            engine.config_directory@ == directory_of(database@),
            engine.egress == Some(broker),
            engine.inference is None,
    {
        let mut engine = StcliEngine::new(database);
        engine.egress = Some(broker);
        engine
    }

    /// An engine with a broker of egress and one of inference.
    pub fn with_effect_brokers(database: String, egress: EgressBroker, inference: InferenceBroker) -> (engine:
        Self)
        ensures
            engine.database == database,
            engine.config_directory@ == directory_of(database@),
            engine.egress == Some(egress),
            engine.inference == Some(inference),
    {
        let mut engine = StcliEngine::new(database);
        engine.egress = Some(egress);
        engine.inference = Some(inference);
        engine
    }

    /// The engine, configured elsewhere.
    pub fn with_config_directory(self, directory: String) -> (engine: Self)
        ensures
            engine == (StcliEngine { config_directory: directory, ..self }),
    {
        StcliEngine {
            database: self.database,
            config_directory: directory,
            egress: self.egress,
            inference: self.inference,
        }
    }

    /// Where the database is.
    pub fn database(&self) -> (path: &String)
        ensures
            *path == self.database,
    {
        &self.database
    }

    /// Where the plugins are.
    pub fn plugin_root(&self) -> (path: String)
        ensures
            path@ == paths::joined(directory_of(self.database@), "plugins"@),
    {
        paths::join(find_directory(self.database.as_str()).as_str(), "plugins")
    }

    /// Where it is noted that the user does without a plugin that comes with the
    /// engine.
    pub fn default_opt_out(&self, id: &str) -> (path: String)
        ensures
            path@ == opt_out_path(self.database@, id@),
    {
        let state = paths::join(
            find_directory(self.database.as_str()).as_str(),
            ".default-plugins",
        );
        paths::join(paths::join(state.as_str(), "opt-outs").as_str(), id)
    }
}

/// A text on one line: line breaks become spaces.
pub open spec fn on_one_line(text: Seq<char>) -> Seq<char> {
    Seq::new(
        text.len(),
        |i: int|
            if text[i] == '\n' || text[i] == '\r' {
                ' '
            } else {
                text[i]
            },
    )
}

/// The preview of a text: all of it on one line where that takes no more bytes
/// than the limit, or else as many characters and an ellipsis.
pub open spec fn preview_of(text: Seq<char>, limit: int) -> Seq<char> {
    let line = on_one_line(text);
    if encode_utf8(line).len() <= limit {
        line
    } else {
        at_most(line, limit).push('…')
    }
}

/// The preview of a text.
pub fn truncate_preview(text: &str, max_chars: usize) -> (preview: String)
    ensures
        preview@ == preview_of(text@, max_chars as int),
{
    let chars = to_chars(text);
    let mut line = String::new();
    let mut i: usize = 0;
    while i < chars.len()
        invariant
            i <= chars@.len(),
            chars@ == text@,
            line@ == on_one_line(text@).take(i as int),
        decreases chars@.len() - i,
    {
        let c: char = chars[i];
        line.push(
            if c == '\n' || c == '\r' {
                ' '
            } else {
                c
            },
        );
        i = i + 1;
        proof {
            assert(line@ =~= on_one_line(text@).take(i as int));
        }
    }
    proof {
        assert(line@ =~= on_one_line(text@));
    }
    if line.as_str().as_bytes().len() <= max_chars {
        return line;
    }
    let mut preview = text::take_chars(line.as_str(), max_chars);
    preview.push('…');
    preview
}

/// A turn as it is counted: the tokens of what the user said and of the reply
/// that was selected.
#[derive(Clone, Copy, Debug)]
pub struct CountedTurn {
    pub turn_id: EntityId,
    pub user_tokens: usize,
    pub reply_tokens: usize,
}

/// The tokens of a turn.
pub open spec fn turn_tokens(turn: CountedTurn) -> nat {
    (turn.user_tokens + turn.reply_tokens) as nat
}

/// The turns that were counted, and their tokens.
pub struct Tally {
    pub seen: Set<EntityId>,
    pub tokens: nat,
}

/// The tally once some turns from place `i` on are counted. Those that were seen
/// are left out, unless `again` says so.
pub open spec fn tallied(tally: Tally, turns: Seq<CountedTurn>, i: int, again: bool) -> Tally
    decreases turns.len() - i,
{
    if i < 0 || i >= turns.len() {
        tally
    } else {
        let turn = turns[i];
        let counts = again || !tally.seen.contains(turn.turn_id);
        tallied(
            Tally {
                seen: tally.seen.insert(turn.turn_id),
                tokens: tally.tokens + if counts {
                    turn_tokens(turn)
                } else {
                    0
                },
            },
            turns,
            i + 1,
            again,
        )
    }
}

/// The tally once the turns of the branches from place `k` on are counted.
pub open spec fn tallied_branches(tally: Tally, branches: Seq<Vec<CountedTurn>>, k: int) -> Tally
    decreases branches.len() - k,
{
    if k < 0 || k >= branches.len() {
        tally
    } else {
        tallied_branches(tallied(tally, branches[k]@, 0, false), branches, k + 1)
    }
}

/// The tally of a session: the turns of its root branch, and those of the other
/// branches that were not seen before.
pub open spec fn session_tally(root: Seq<CountedTurn>, others: Seq<Vec<CountedTurn>>) -> Tally {
    tallied_branches(
        tallied(Tally { seen: Set::empty(), tokens: 0 }, root, 0, true),
        others,
        0,
    )
}

/// The abstract value of a list of identities.
pub open spec fn ids_seen(ids: Seq<EntityId>) -> Set<EntityId> {
    ids.to_set()
}

fn contains_id(ids: &Vec<EntityId>, id: EntityId) -> (r: bool)
    ensures
        r == ids@.contains(id),
{
    let mut i: usize = 0;
    while i < ids.len()
        invariant
            i <= ids@.len(),
            forall|j: int| 0 <= j < i ==> ids@[j] != id,
        decreases ids@.len() - i,
    {
        if ids[i] == id {
            return true;
        }
        i = i + 1;
    }
    false
}

proof fn lemma_tally_grows(tally: Tally, turns: Seq<CountedTurn>, i: int, again: bool)
    ensures
        tallied(tally, turns, i, again).tokens >= tally.tokens,
    decreases turns.len() - i,
{
    if 0 <= i < turns.len() {
        let turn = turns[i];
        let counts = again || !tally.seen.contains(turn.turn_id);
        lemma_tally_grows(
            Tally {
                seen: tally.seen.insert(turn.turn_id),
                tokens: tally.tokens + if counts {
                    turn_tokens(turn)
                } else {
                    0
                },
            },
            turns,
            i + 1,
            again,
        );
    }
}

proof fn lemma_branches_grow(tally: Tally, branches: Seq<Vec<CountedTurn>>, k: int)
    ensures
        tallied_branches(tally, branches, k).tokens >= tally.tokens,
    decreases branches.len() - k,
{
    if 0 <= k < branches.len() {
        let next = tallied(tally, branches[k]@, 0, false);
        lemma_tally_grows(tally, branches[k]@, 0, false);
        lemma_branches_grow(next, branches, k + 1);
    }
}

/// No identity stands twice in a list.
spec fn once_each(ids: Seq<EntityId>) -> bool {
    ids.no_duplicates()
}

fn tally_turns(seen: &mut Vec<EntityId>, tokens: &mut usize, turns: &Vec<CountedTurn>, again: bool)
    requires
        once_each(old(seen)@),
        tallied(
            (Tally { seen: ids_seen(old(seen)@), tokens: *old(tokens) as nat }),
            turns@,
            0,
            again,
        ).tokens <= usize::MAX,
    ensures
        once_each(final(seen)@),
        (Tally { seen: ids_seen(final(seen)@), tokens: *final(tokens) as nat }) == tallied(
            (Tally { seen: ids_seen(old(seen)@), tokens: *old(tokens) as nat }),
            turns@,
            0,
            again,
        ),
{
    let ghost start = Tally { seen: ids_seen(seen@), tokens: *tokens as nat };
    let mut i: usize = 0;
    while i < turns.len()
        invariant
            i <= turns@.len(),
            once_each(seen@),
            tallied(start, turns@, 0, again).tokens <= usize::MAX,
            tallied(start, turns@, 0, again) == tallied(
                (Tally { seen: ids_seen(seen@), tokens: *tokens as nat }),
                turns@,
                i as int,
                again,
            ),
        decreases turns@.len() - i,
    {
        let turn: CountedTurn = turns[i];
        let known = contains_id(seen, turn.turn_id);
        let ghost before = seen@;
        proof {
            let next = Tally {
                seen: ids_seen(seen@).insert(turn.turn_id),
                tokens: *tokens as nat + if again || !known {
                    turn_tokens(turn)
                } else {
                    0
                },
            };
            lemma_tally_grows(next, turns@, i + 1, again);
            assert(ids_seen(seen@).contains(turn.turn_id) == known);
        }
        if again || !known {
            *tokens = *tokens + turn.user_tokens + turn.reply_tokens;
        }
        if !known {
            seen.push(turn.turn_id);
        }
        proof {
            assert(ids_seen(seen@) =~= ids_seen(before).insert(turn.turn_id)) by {
                assert forall|id: EntityId| #[trigger] ids_seen(seen@).contains(id) <==> ids_seen(
                    before,
                ).insert(turn.turn_id).contains(id) by {
                    if !known {
                        if before.contains(id) {
                            let k = choose|k: int| 0 <= k < before.len() && before[k] == id;
                            assert(seen@[k] == id);
                        }
                        assert(seen@[before.len() as int] == turn.turn_id);
                        if seen@.contains(id) {
                            let k = choose|k: int| 0 <= k < seen@.len() && seen@[k] == id;
                            if k < before.len() {
                                assert(before[k] == id);
                            }
                        }
                    }
                }
            }
        }
        i = i + 1;
    }
}

/// Counts the turns of a session and their tokens.
pub fn count_session(root: &Vec<CountedTurn>, others: &Vec<Vec<CountedTurn>>) -> (r: (usize, usize))
    requires
        session_tally(root@, others@).tokens <= usize::MAX,
    ensures
        r.0 == session_tally(root@, others@).seen.len(),
        r.1 == session_tally(root@, others@).tokens,
{
    let mut seen: Vec<EntityId> = Vec::new();
    let mut tokens: usize = 0;
    proof {
        assert(ids_seen(seen@) =~= Set::<EntityId>::empty());
        let start = Tally { seen: Set::<EntityId>::empty(), tokens: 0 };
        lemma_branches_grow(tallied(start, root@, 0, true), others@, 0);
    }
    tally_turns(&mut seen, &mut tokens, root, true);
    let ghost counted = Tally { seen: ids_seen(seen@), tokens: tokens as nat };
    let mut k: usize = 0;
    while k < others.len()
        invariant
            k <= others@.len(),
            once_each(seen@),
            session_tally(root@, others@).tokens <= usize::MAX,
            session_tally(root@, others@) == tallied_branches(
                (Tally { seen: ids_seen(seen@), tokens: tokens as nat }),
                others@,
                k as int,
            ),
        decreases others@.len() - k,
    {
        proof {
            let now = Tally { seen: ids_seen(seen@), tokens: tokens as nat };
            lemma_branches_grow(tallied(now, others@[k as int]@, 0, false), others@, k + 1);
        }
        tally_turns(&mut seen, &mut tokens, &others[k], false);
        k = k + 1;
    }
    proof {
        seen@.unique_seq_to_set();
    }
    (seen.len(), tokens)
}

/// The name that a card states, in its data or else at its root.
pub open spec fn stated_name(semantic: JsonView) -> Option<JsonView> {
    either(
        match field(semantic, "data"@) {
            Some(data) => field(data, "name"@),
            None => None,
        },
        field(semantic, "name"@),
    )
}

fn find_name(semantic: &Json) -> (name: Option<&String>)
    ensures
        match name {
            Some(n) => as_text(stated_name(semantic@)) == Some(n@),
            None => as_text(stated_name(semantic@)) is None,
        },
{
    let own = match semantic.get("data") {
        Some(data) => data.get("name"),
        None => None,
    };
    let stated = if own.is_some() {
        own
    } else {
        semantic.get("name")
    };
    match stated {
        Some(value) => value.text(),
        None => None,
    }
}

/// How a session's character is called.
pub fn character_label(semantic: &Json) -> (label: String)
    ensures
        label@ == match as_text(stated_name(semantic@)) {
            Some(name) => name,
            None => "Character"@,
        },
{
    match find_name(semantic) {
        Some(name) => name.clone(),
        None => "Character".to_owned(),
    }
}

/// How a character is called among others: by its name where that is not blank,
/// or else by its revision.
pub open spec fn label_of(semantic: JsonView, revision: Seq<u8>) -> Seq<char> {
    match as_text(stated_name(semantic)) {
        Some(name) => if blank(name) {
            hash_text(revision)
        } else {
            name
        },
        None => hash_text(revision),
    }
}

/// How a character is called among others.
pub fn choice_label(semantic: &Json, revision: &ContentHash) -> (label: String)
    ensures
        label@ == label_of(semantic@, revision@),
{
    if let Some(name) = find_name(semantic) {
        if !is_blank(name.as_str()) {
            return name.clone();
        }
    }
    revision.text()
}

/// What is told of a session.
#[derive(Clone, Debug)]
pub struct SessionSummary {
    pub session_id: EntityId,
    pub display_name: String,
    pub archived: bool,
    pub created_at_ms: u64,
    pub modified_at_ms: u64,
    pub turn_count: usize,
    pub character_label: String,
    pub persona_label: String,
    pub token_count: usize,
    pub last_message_preview: String,
}

/// What a summary of a session goes by.
#[derive(Debug)]
pub struct SummarySource {
    pub session_id: EntityId,
    pub custom_name: Option<String>,
    pub archived: bool,
    pub character: Json,
    pub persona_name: String,
    pub greeting: String,
    pub root_turns: Vec<CountedTurn>,
    pub other_branches: Vec<Vec<CountedTurn>>,
    /// What the last turn of the root branch shows: the reply that was selected,
    /// or else what the user said.
    pub last_message: Option<String>,
    pub last_event: Option<EntityId>,
}

/// The milliseconds at which an identity was made.
pub open spec fn made_at(id: EntityId) -> int {
    id@ as int / 0x100000000000000000000
}

/// The summary of a session.
pub fn summarize(source: &SummarySource) -> (summary: SessionSummary)
    requires
        session_tally(source.root_turns@, source.other_branches@).tokens <= usize::MAX,
    ensures
        ({
            let tally = session_tally(source.root_turns@, source.other_branches@);
            let label = match as_text(stated_name(source.character@)) {
                Some(name) => name,
                None => "Character"@,
            };
            &&& summary.session_id == source.session_id
            &&& summary.display_name@ == match source.custom_name {
                Some(name) => name@,
                None => label,
            }
            &&& summary.archived == source.archived
            &&& summary.created_at_ms == made_at(source.session_id)
            &&& summary.modified_at_ms == made_at(
                match source.last_event {
                    Some(event) => event,
                    None => source.session_id,
                },
            )
            &&& summary.turn_count == tally.seen.len()
            &&& summary.character_label@ == label
            &&& summary.persona_label@ == source.persona_name@
            &&& summary.token_count == tally.tokens
            &&& summary.last_message_preview@ == preview_of(
                match source.last_message {
                    Some(message) => message@,
                    None => source.greeting@,
                },
                PREVIEW_CHARS as int,
            )
        }),
{
    let (turn_count, token_count) = count_session(&source.root_turns, &source.other_branches);
    let label = character_label(&source.character);
    let display_name = match &source.custom_name {
        Some(name) => name.clone(),
        None => label.clone(),
    };
    let modified: EntityId = match source.last_event {
        Some(event) => event,
        None => source.session_id,
    };
    let shown: &str = match &source.last_message {
        Some(message) => message.as_str(),
        None => source.greeting.as_str(),
    };
    SessionSummary {
        session_id: source.session_id,
        display_name,
        archived: source.archived,
        created_at_ms: source.session_id.timestamp_ms(),
        modified_at_ms: modified.timestamp_ms(),
        turn_count,
        character_label: label,
        persona_label: source.persona_name.clone(),
        token_count,
        last_message_preview: truncate_preview(shown, PREVIEW_CHARS),
    }
}

/// The greeting that a branch starts with.
#[derive(Clone, Debug)]
pub struct GreetingProjection {
    pub revision_hash: ContentHash,
    pub index: usize,
    pub total: usize,
    pub content: String,
}

/// The greeting that a branch starts with, if its character has that many.
pub open spec fn is_greeting(
    greeting: Option<GreetingProjection>,
    branch: BranchProjection,
    greetings: Seq<String>,
) -> bool {
    match greeting {
        Some(g) => {
            &&& branch.greeting_index < greetings.len()
            &&& g.revision_hash == branch.greeting_revision_hash
            &&& g.index == branch.greeting_index
            &&& g.total == greetings.len()
            &&& g.content == greetings[branch.greeting_index as int]
        },
        None => branch.greeting_index >= greetings.len(),
    }
}

/// The greeting that a branch starts with, if its character has that many.
pub fn greeting_of(branch: &BranchProjection, greetings: &Vec<String>) -> (greeting: Option<
    GreetingProjection,
>)
    ensures
        is_greeting(greeting, *branch, greetings@),
{
    let total: usize = greetings.len();
    if branch.greeting_index >= total {
        return None;
    }
    Some(
        GreetingProjection {
            revision_hash: branch.greeting_revision_hash,
            index: branch.greeting_index,
            total,
            content: greetings[branch.greeting_index].clone(),
        },
    )
}

/// Checks that a branch is one of a session.
pub fn check_branch_session(branch: &BranchProjection, session_id: EntityId) -> (r: Result<
    (),
    EngineError,
>)
    ensures
        r == if branch.session_id == session_id {
            Ok::<(), EngineError>(())
        } else {
            Err(EngineError::BranchSessionMismatch)
        },
{
    if branch.session_id == session_id {
        Ok(())
    } else {
        Err(EngineError::BranchSessionMismatch)
    }
}

/// Checks that an attempt, by its turn, is one of a session.
pub fn ensure_attempt_session(turn: &TurnProjection, session_id: EntityId) -> (r: Result<
    (),
    EngineError,
>)
    ensures
        r == if turn.session_id == session_id {
            Ok::<(), EngineError>(())
        } else {
            Err(EngineError::AttemptSessionMismatch)
        },
{
    if turn.session_id == session_id {
        Ok(())
    } else {
        Err(EngineError::AttemptSessionMismatch)
    }
}

/// A turn of a branch: the reply that was selected, and whether an attempt at it
/// came to its end.
#[derive(Clone, Copy, Debug)]
pub struct TurnOutline {
    pub turn_id: EntityId,
    pub selected_candidate_id: Option<EntityId>,
    pub completed: bool,
}

/// The reply that was selected last among the first `count` turns with an
/// attempt that came to its end.
pub open spec fn last_selected(turns: Seq<TurnOutline>, count: int) -> Option<EntityId>
    decreases count,
{
    if count <= 0 {
        None
    } else if turns[count - 1].selected_candidate_id is Some && turns[count - 1].completed {
        turns[count - 1].selected_candidate_id
    } else {
        last_selected(turns, count - 1)
    }
}

/// The reply that was selected last among the turns of a branch with an attempt
/// that came to its end.
pub fn selected_content_candidate(turns: &Vec<TurnOutline>) -> (candidate: Option<EntityId>)
    ensures
        candidate == last_selected(turns@, turns@.len() as int),
{
    let mut i: usize = turns.len();
    while i > 0
        invariant
            i <= turns@.len(),
            last_selected(turns@, turns@.len() as int) == last_selected(turns@, i as int),
        decreases i,
    {
        let turn: TurnOutline = turns[i - 1];
        if turn.completed {
            if let Some(candidate_id) = turn.selected_candidate_id {
                return Some(candidate_id);
            }
        }
        i = i - 1;
    }
    None
}

/// Where a turn stands among others from place `i` on, or `turns.len()`.
pub open spec fn turn_index(turns: Seq<TurnOutline>, turn_id: EntityId, i: int) -> int
    decreases turns.len() - i,
{
    if i < 0 || i >= turns.len() {
        turns.len() as int
    } else if turns[i].turn_id == turn_id {
        i
    } else {
        turn_index(turns, turn_id, i + 1)
    }
}

/// The reply that was selected in the turn before that of an attempt, or why
/// there is none.
pub open spec fn previous_selection(
    turns: Seq<TurnOutline>,
    turn_id: EntityId,
    attempt_id: EntityId,
) -> Result<(EntityId, EntityId), TurnError> {
    let at = turn_index(turns, turn_id, 0);
    if at >= turns.len() {
        Err(TurnError::TurnNotFound(turn_id))
    } else if at == 0 {
        Err(TurnError::NoPreviousTurnForAttempt(attempt_id))
    } else {
        match turns[at - 1].selected_candidate_id {
            Some(candidate_id) => Ok((turns[at - 1].turn_id, candidate_id)),
            None => Err(TurnError::TurnHasNoSelection(turns[at - 1].turn_id)),
        }
    }
}

/// The turn before that of an attempt, and the reply that was selected in it.
pub fn previous_selected_candidate(
    turns: &Vec<TurnOutline>,
    turn_id: EntityId,
    attempt_id: EntityId,
) -> (r: Result<(EntityId, EntityId), TurnError>)
    ensures
        r == previous_selection(turns@, turn_id, attempt_id),
{
    let mut i: usize = 0;
    while i < turns.len()
        invariant
            i <= turns@.len(),
            turn_index(turns@, turn_id, 0) == turn_index(turns@, turn_id, i as int),
        decreases turns@.len() - i,
    {
        if turns[i].turn_id == turn_id {
            if i == 0 {
                return Err(TurnError::NoPreviousTurnForAttempt(attempt_id));
            }
            let previous: TurnOutline = turns[i - 1];
            return match previous.selected_candidate_id {
                Some(candidate_id) => Ok((previous.turn_id, candidate_id)),
                None => Err(TurnError::TurnHasNoSelection(previous.turn_id)),
            };
        }
        i = i + 1;
    }
    Err(TurnError::TurnNotFound(turn_id))
}

/// The attempt that made the reply selected in the turn before, or why there is
/// none.
pub fn previous_attempt(
    candidate_id: EntityId,
    candidate: Option<&CandidateProjection>,
    attempt_id: EntityId,
    previous_turn_id: EntityId,
) -> (r: Result<EntityId, TurnError>)
    ensures
        r == match candidate {
            None => Err::<EntityId, TurnError>(TurnError::CandidateNotFound(candidate_id)),
            Some(c) => match c.attempt_id {
                Some(id) => Ok(id),
                None => Err(
                    TurnError::PreviousTurnSelectionHasNoGenerationAttempt {
                        attempt_id,
                        previous_turn_id,
                    },
                ),
            },
        },
{
    match candidate {
        None => Err(TurnError::CandidateNotFound(candidate_id)),
        Some(c) => match c.attempt_id {
            Some(id) => Ok(id),
            None => Err(
                TurnError::PreviousTurnSelectionHasNoGenerationAttempt {
                    attempt_id,
                    previous_turn_id,
                },
            ),
        },
    }
}

/// The branch that a new one starts from: the one named, or else the root.
pub fn source_branch(session: &SessionProjection, named: Option<EntityId>) -> (branch_id: EntityId)
    ensures
        branch_id == match named {
            Some(id) => id,
            None => session.root_branch_id,
        },
{
    match named {
        Some(id) => id,
        None => session.root_branch_id,
    }
}

/// Checks that a session is bound to the preset whose prompt order is changed.
pub fn check_preset_pinned(
    session_id: EntityId,
    pinned: &Option<ContentHash>,
    revision_hash: &ContentHash,
) -> (r: Result<(), EngineError>)
    ensures
        r == if optional_hash(*pinned) == Some(revision_hash@) {
            Ok::<(), EngineError>(())
        } else {
            Err(EngineError::PromptPresetNotPinned(session_id))
        },
{
    let same = match pinned {
        Some(hash) => hash.same(revision_hash),
        None => false,
    };
    if same {
        Ok(())
    } else {
        Err(EngineError::PromptPresetNotPinned(session_id))
    }
}

/// The preset that a session is bound to after a change of its prompt order,
/// where that made another one.
pub fn preset_to_pin(previous: &ContentHash, patched: &ContentHash) -> (pin: Option<ContentHash>)
    ensures
        pin == if patched@ == previous@ {
            None::<ContentHash>
        } else {
            Some(*patched)
        },
{
    if patched.same(previous) {
        None
    } else {
        Some(*patched)
    }
}

/// Switches a prompt of a session on or off, or leaves it to the preset again.
pub fn override_prompt_order(
    overrides: &mut Vec<(String, bool)>,
    identifier: String,
    enabled: Option<bool>,
)
    requires
        assoc::ascending(old(overrides)@),
    ensures
        final(overrides)@ == match enabled {
            Some(value) => assoc::with_entry(old(overrides)@, identifier, value),
            None => assoc::without_entry(old(overrides)@, identifier@),
        },
        assoc::ascending(final(overrides)@),
        assoc::lookup(final(overrides)@, identifier@) == enabled,
        forall|other: Seq<char>|
            other != identifier@ ==> #[trigger] assoc::lookup(final(overrides)@, other)
                == assoc::lookup(old(overrides)@, other),
{
    proof {
        match enabled {
            Some(value) => {
                assoc::lemma_with_entry_ascending(overrides@, identifier, value);
                assert forall|other: Seq<char>| #[trigger]
                    assoc::lookup(assoc::with_entry(overrides@, identifier, value), other) == if other
                        == identifier@ {
                        Some(value)
                    } else {
                        assoc::lookup(overrides@, other)
                    } by {
                    assoc::lemma_with_entry_found(overrides@, identifier, value, other);
                }
            },
            None => {
                assoc::lemma_without_entry_ascending(overrides@, identifier@);
                assert forall|other: Seq<char>| #[trigger]
                    assoc::lookup(assoc::without_entry(overrides@, identifier@), other) == if other
                        == identifier@ {
                        None
                    } else {
                        assoc::lookup(overrides@, other)
                    } by {
                    assoc::lemma_without_entry_found(overrides@, identifier@, other);
                }
            },
        }
    }
    match enabled {
        Some(value) => assoc::set(overrides, identifier, value),
        None => {
            let _ = assoc::remove(overrides, identifier.as_str());
        },
    }
}

/// The artifacts of a kind, or all of them, from the first `count`.
pub open spec fn of_kind(records: Seq<ArtifactRecord>, kind: Option<ArtifactKind>, count: int) -> Seq<
    ArtifactRecord,
>
    decreases count,
{
    if count <= 0 {
        Seq::empty()
    } else if kind is None || records[count - 1].kind == kind->0 {
        of_kind(records, kind, count - 1).push(records[count - 1])
    } else {
        of_kind(records, kind, count - 1)
    }
}

/// The artifacts of a kind, or all of them.
pub fn artifacts_of_kind(records: Vec<ArtifactRecord>, kind: Option<ArtifactKind>) -> (kept: Vec<
    ArtifactRecord,
>)
    ensures
        kept@ == of_kind(records@, kind, records@.len() as int),
{
    let ghost all = records@;
    let count: usize = records.len();
    let mut rest = records;
    let mut kept: Vec<ArtifactRecord> = Vec::new();
    let mut i: usize = 0;
    proof {
        assert(all.skip(0) =~= all);
        assert(kept@ =~= of_kind(all, kind, 0));
    }
    while i < count
        invariant
            i <= count,
            count == all.len(),
            rest@ == all.skip(i as int),
            kept@ == of_kind(all, kind, i as int),
        decreases count - i,
    {
        let record = rest.remove(0);
        proof {
            assert(rest@ =~= all.skip(i + 1));
            assert(record == all[i as int]);
        }
        let wanted = match kind {
            Some(expected) => record.kind == expected,
            None => true,
        };
        if wanted {
            kept.push(record);
        }
        i = i + 1;
    }
    kept
}

} // verus!
