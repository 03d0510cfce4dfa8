//! Fixtures: cases that show whether an engine keeps to its profile.
use vstd::prelude::*;
use vstd::utf8::{decode_utf8, encode_utf8};

use crate::assoc;
use crate::ecma_regex::{EcmaRegexError, EcmaRegexWorker};
use crate::identity::{
    artifact_revision_hash, canonical_json, canonical_json_hash, canonical_of, ContentHash,
    hash_of, hash_text, hex_of, revision_hash_of, sha256, sha256_of,
};
use crate::json::Json;
use crate::lore::activation::{evaluated, is_evaluation, LoreEngine, LoreReplies, scene_of};
use crate::lore::decision::{
    activated_views, ActivatedLore, ActivatedView, decision_views, DecisionView, LoreDecision,
    LoreDecisionOutcome, LoreResult, LoreSettings,
};
use crate::lore::entry::{is_entry_list, LoreEntry, LoreError, parse_lore_entries};
use crate::macros::evaluate::{fault_text, fault_view, MacroContext, MacroError};
use crate::macros::render::{is_outcome, MacroEngine, MacroRender, rendered, run_of, surroundings};
use crate::macros::replies::Replies;
use crate::paths;
use crate::profile::{
    check_hex_name, CompatibilityOutcome, CompatibilityProfile, CompatibilitySubject,
    CompatibilitySubjectKind, is_hex_name, outcome_of, ProfileError,
};
use crate::prompt::prune::{find_last_char, last_char, PromptPruning};
use crate::state::{StateCell, StateTransaction, Variables, VariableScope};
use crate::text::{
    self, add_name, blank, copy_option, copy_texts, decimal, decimal_text, from_range, holds,
    is_blank, lemma_views_push, lowercase_of, option_view, text_from_utf8, to_chars, views,
    with_name,
};
use crate::tokenizer::TokenizerId;

verus! {

pub const FIXTURE_SCHEMA_V1: &'static str = "stcli.fixture-suite/v1";

pub const FIXTURE_SCHEMA_V2: &'static str = "stcli.fixture-suite/v2";

/// A suite of cases.
#[derive(Debug)]
pub struct FixtureSuite {
    pub schema: String,
    pub profile: String,
    pub external_sources: Vec<ExternalFixtureSource>,
    pub cases: Vec<FixtureCase>,
    pub macro_groups: Vec<MacroGroup>,
}

/// Cases of macros that share their surroundings.
#[derive(Clone, Debug)]
pub struct MacroGroup {
    pub defaults: MacroGroupDefaults,
    pub cases: Vec<MacroGroupCase>,
}

/// The surroundings that cases of macros share.
#[derive(Clone, Debug)]
pub struct MacroGroupDefaults {
    pub context: Vec<(String, String)>,
    pub initial_local: Vec<(String, String)>,
    pub initial_global: Vec<(String, String)>,
    pub plugins: Vec<String>,
    pub outlets: Vec<(String, String)>,
    pub expected_warnings: Option<usize>,
}

/// A case of a group.
#[derive(Clone, Debug)]
pub struct MacroGroupCase {
    pub id: String,
    pub input: String,
    pub expected_text: String,
    pub expected_local: Option<Vec<(String, String)>>,
    pub expected_global: Option<Vec<(String, String)>>,
    pub expected_warnings: Option<usize>,
}

/// A file that does not come with the suite.
#[derive(Clone, Debug)]
pub struct ExternalFixtureSource {
    pub name: String,
    pub provenance: String,
    pub revision: Option<String>,
    pub sha256: String,
    pub path_environment: String,
    pub repository_path: Option<String>,
}

/// A turn that a case starts behind.
#[derive(Clone, Debug)]
pub struct FixtureHistoryTurn {
    pub user: String,
    pub assistant: String,
}

/// A case of a request to a provider.
#[derive(Debug)]
pub struct ProviderRequestParityCase {
    pub id: Option<String>,
    pub name: String,
    pub preset_source: String,
    pub oracle_source: String,
    pub oracle_key: String,
    pub generation_type: String,
    pub character: String,
    pub persona_name: String,
    pub history: Vec<FixtureHistoryTurn>,
    pub user_content: String,
    pub tokenizer: TokenizerId,
    pub provider_model: String,
    pub provider_stream: bool,
    pub expected_message_count: usize,
    pub expected_settings: Json,
    pub expected_warning_codes: Vec<String>,
    pub expected_effective_settings_hash: ContentHash,
    pub expected_warnings_hash: ContentHash,
    pub expected_pruning: PromptPruning,
    pub expected_setvar_evaluations: usize,
    pub expected_state_mutations: usize,
}

/// A case of canonical JSON.
#[derive(Debug)]
pub struct CanonicalJsonCase {
    pub id: Option<String>,
    pub name: String,
    pub domain: String,
    pub input: Json,
    pub expected_canonical: String,
    pub expected_hash: ContentHash,
}

/// A case of the hash of a revision.
#[derive(Clone, Debug)]
pub struct ArtifactRevisionCase {
    pub id: Option<String>,
    pub name: String,
    pub artifact_kind: String,
    pub source_format: String,
    pub source: String,
    pub expected_hash: ContentHash,
}

/// A case of what a profile makes of something.
#[derive(Clone, Debug)]
pub struct CompatibilityOutcomeCase {
    pub id: Option<String>,
    pub name: String,
    pub subject_kind: CompatibilitySubjectKind,
    pub subject: String,
    pub expected_outcome: CompatibilityOutcome,
}

/// A case of rendered macros.
#[derive(Clone, Debug)]
pub struct MacroRenderCase {
    pub id: Option<String>,
    pub name: String,
    pub input: String,
    pub context: Vec<(String, String)>,
    pub initial_local: Vec<(String, String)>,
    pub initial_global: Vec<(String, String)>,
    pub plugins: Vec<String>,
    pub outlets: Vec<(String, String)>,
    pub expected_text: String,
    pub expected_local: Vec<(String, String)>,
    pub expected_global: Vec<(String, String)>,
    pub expected_warnings: usize,
    pub expected_error: Option<String>,
}

/// A case of evaluated lore.
#[derive(Debug)]
pub struct LoreEvaluateCase {
    pub id: Option<String>,
    pub name: String,
    pub source_revision: ContentHash,
    pub entries: Json,
    pub messages: Vec<String>,
    pub tokenizer: TokenizerId,
    pub settings: LoreSettings,
    pub expected_activated: Vec<String>,
    pub expected_outcomes: Vec<(String, LoreDecisionOutcome)>,
}

/// A case of a script of regular expressions.
#[derive(Debug)]
pub struct RegexScriptApplyCase {
    pub id: Option<String>,
    pub name: String,
    pub scripts: Vec<Json>,
    pub placement: u64,
    pub depth: i64,
    pub input: String,
    pub expected_text: String,
}

/// A case.
#[derive(Debug)]
pub enum FixtureCase {
    CanonicalJson(CanonicalJsonCase),
    ArtifactRevision(ArtifactRevisionCase),
    CompatibilityOutcome(CompatibilityOutcomeCase),
    MacroRender(MacroRenderCase),
    LoreEvaluate(LoreEvaluateCase),
    RegexScriptApply(RegexScriptApplyCase),
    ProviderRequestParity(ProviderRequestParityCase),
}

/// What came of some suites.
#[derive(Clone, Debug)]
pub struct FixtureReport {
    pub profile: String,
    pub files: usize,
    pub total: usize,
    pub passed: usize,
    pub not_run: usize,
    pub cases: Vec<FixtureCaseReport>,
}

/// What came of a case.
#[derive(Clone, Debug)]
pub struct FixtureCaseReport {
    pub file: String,
    pub name: String,
    pub passed: bool,
    pub not_run: bool,
    pub message: String,
}

/// What a script of regular expressions made of a text.
#[derive(Debug)]
pub enum ScriptOutcome {
    /// One of the scripts has nothing to look for.
    Invalid,
    Failed(EcmaRegexError),
    Applied(String),
}

/// Why a case or a suite cannot be tried.
#[derive(Debug)]
pub enum FixtureError {
    Profile(ProfileError),
    ReadDirectory { path: String, source: String },
    NoFixtures(String),
    Read { path: String, source: String },
    Decode { path: String, source: String },
    UnsupportedSchema { path: String, schema: String },
    ProfileMismatch { path: String, expected: String, actual: String },
    InvalidExternalSource { path: String, name: String },
    ReadExternal { name: String, path: String, source: String },
    ExternalDigestMismatch { name: String, expected: String, actual: String },
    Macro(MacroError),
    Lore(LoreError),
    Regex(EcmaRegexError),
    InvalidRegexScript { case: String },
    Canonicalize,
}

/// The abstract value of a [`FixtureCaseReport`].
pub struct CaseView {
    pub file: Seq<char>,
    pub name: Seq<char>,
    pub passed: bool,
    pub not_run: bool,
    pub message: Seq<char>,
}

impl View for FixtureCaseReport {
    type V = CaseView;

    open spec fn view(&self) -> CaseView {
        CaseView {
            file: self.file@,
            name: self.name@,
            passed: self.passed,
            not_run: self.not_run,
            message: self.message@,
        }
    }
}

/// The report of a case that was tried.
pub open spec fn tried_case(
    file: Seq<char>,
    name: Seq<char>,
    passed: bool,
    message: Seq<char>,
) -> CaseView {
    CaseView { file, name, passed, not_run: false, message }
}

fn report_case(file: &str, name: &str, passed: bool, message: String) -> (report: FixtureCaseReport)
    ensures
        report@ == tried_case(file@, name@, passed, message@),
{
    FixtureCaseReport {
        file: file.to_owned(),
        name: name.to_owned(),
        passed,
        not_run: false,
        message,
    }
}

impl FixtureReport {
    /// Every case is counted.
    pub open spec fn wf(&self) -> bool {
        self.total == self.cases@.len() && self.passed + self.not_run <= self.total
    }

    /// The report before any case was tried.
    pub fn new(profile: String, files: usize) -> (report: Self)
        ensures
            report.wf(),
            report.profile == profile,
            report.files == files,
            report.total == 0,
            report.cases@.len() == 0,
    {
        FixtureReport { profile, files, total: 0, passed: 0, not_run: 0, cases: Vec::new() }
    }

    /// Takes a case into account.
    pub fn record(&mut self, case: FixtureCaseReport)
        requires
            old(self).wf(),
            old(self).total < usize::MAX,
        ensures
            final(self).wf(),
            final(self).profile == old(self).profile,
            final(self).files == old(self).files,
            final(self).total == old(self).total + 1,
            final(self).passed == old(self).passed + if case.passed {
                1int
            } else {
                0
            },
            final(self).not_run == old(self).not_run + if !case.passed && case.not_run {
                1int
            } else {
                0
            },
            final(self).cases@ == old(self).cases@.push(case),
    {
        self.total = self.total + 1;
        if case.passed {
            self.passed = self.passed + 1;
        } else if case.not_run {
            self.not_run = self.not_run + 1;
        }
        self.cases.push(case);
    }

    /// Whether every case was run and passed.
    pub fn is_success(&self) -> (r: bool)
        ensures
            r == (self.total == self.passed && self.not_run == 0),
    {
        self.total == self.passed && self.not_run == 0
    }
}

/// A suite that can be tried with a profile, or why it cannot.
pub fn check_suite(profile_id: &str, path: &str, suite: &FixtureSuite) -> (r: Result<
    (),
    FixtureError,
>)
    ensures
        match r {
            Ok(()) => (suite.schema@ == FIXTURE_SCHEMA_V1@ || suite.schema@ == FIXTURE_SCHEMA_V2@)
                && suite.profile@ == profile_id@,
            Err(FixtureError::UnsupportedSchema { path: p, schema }) => p@ == path@ && schema
                == suite.schema && suite.schema@ != FIXTURE_SCHEMA_V1@ && suite.schema@
                != FIXTURE_SCHEMA_V2@,
            Err(FixtureError::ProfileMismatch { path: p, expected, actual }) => p@ == path@
                && expected@ == profile_id@ && actual == suite.profile && suite.profile@
                != profile_id@ && (suite.schema@ == FIXTURE_SCHEMA_V1@ || suite.schema@
                == FIXTURE_SCHEMA_V2@),
            Err(_) => false,
        },
{
    if !text::same(suite.schema.as_str(), FIXTURE_SCHEMA_V1) && !text::same(
        suite.schema.as_str(),
        FIXTURE_SCHEMA_V2,
    ) {
        return Err(
            FixtureError::UnsupportedSchema {
                path: path.to_owned(),
                schema: suite.schema.clone(),
            },
        );
    }
    if !text::same(suite.profile.as_str(), profile_id) {
        return Err(
            FixtureError::ProfileMismatch {
                path: path.to_owned(),
                expected: profile_id.to_owned(),
                actual: suite.profile.clone(),
            },
        );
    }
    Ok(())
}

/// The identity that a case states.
pub open spec fn stated_id(case: FixtureCase) -> Option<String> {
    match case {
        FixtureCase::CanonicalJson(c) => c.id,
        FixtureCase::ArtifactRevision(c) => c.id,
        FixtureCase::CompatibilityOutcome(c) => c.id,
        FixtureCase::MacroRender(c) => c.id,
        FixtureCase::LoreEvaluate(c) => c.id,
        FixtureCase::RegexScriptApply(c) => c.id,
        FixtureCase::ProviderRequestParity(c) => c.id,
    }
}

/// The identity that a case states.
pub fn case_id(case: &FixtureCase) -> (id: Option<String>)
    ensures
        id == stated_id(*case),
{
    match case {
        FixtureCase::CanonicalJson(c) => copy_option(&c.id),
        FixtureCase::ArtifactRevision(c) => copy_option(&c.id),
        FixtureCase::CompatibilityOutcome(c) => copy_option(&c.id),
        FixtureCase::MacroRender(c) => copy_option(&c.id),
        FixtureCase::LoreEvaluate(c) => copy_option(&c.id),
        FixtureCase::RegexScriptApply(c) => copy_option(&c.id),
        FixtureCase::ProviderRequestParity(c) => copy_option(&c.id),
    }
}

/// The identity that a case without one is credited with: that of a field of a
/// preset, where the case shows what a profile makes of it.
pub open spec fn credited_id(case: FixtureCase) -> Option<Seq<char>> {
    match case {
        FixtureCase::CompatibilityOutcome(c) => if c.id is None && c.subject_kind
            == CompatibilitySubjectKind::PresetField {
            Some("preset."@ + c.subject@ + ".outcome"@)
        } else {
            None
        },
        _ => None,
    }
}

/// The identity that a case without one is credited with.
pub fn synthetic_coverage_id(case: &FixtureCase) -> (id: Option<String>)
    ensures
        option_view(id) == credited_id(*case),
{
    match case {
        FixtureCase::CompatibilityOutcome(c) => {
            if c.id.is_none() && c.subject_kind == CompatibilitySubjectKind::PresetField {
                let mut id = "preset.".to_owned();
                id.push_str(c.subject.as_str());
                id.push_str(".outcome");
                Some(id)
            } else {
                None
            }
        },
        _ => None,
    }
}

/// Names with the identities of a case among them.
pub open spec fn with_case_ids(names: Seq<Seq<char>>, case: FixtureCase) -> Seq<Seq<char>> {
    let stated = match stated_id(case) {
        Some(id) => with_name(names, id@),
        None => names,
    };
    match credited_id(case) {
        Some(id) => with_name(stated, id),
        None => stated,
    }
}

/// Names with the identities of the first `count` cases among them.
pub open spec fn with_cases(names: Seq<Seq<char>>, cases: Seq<FixtureCase>, count: int) -> Seq<
    Seq<char>,
>
    decreases count,
{
    if count <= 0 {
        names
    } else {
        with_case_ids(with_cases(names, cases, count - 1), cases[count - 1])
    }
}

/// Names with the identities of the first `count` cases of a group among them.
pub open spec fn with_group_cases(
    names: Seq<Seq<char>>,
    cases: Seq<MacroGroupCase>,
    count: int,
) -> Seq<Seq<char>>
    decreases count,
{
    if count <= 0 {
        names
    } else {
        with_name(with_group_cases(names, cases, count - 1), cases[count - 1].id@)
    }
}

/// Names with the identities of the cases of the first `count` groups among
/// them.
pub open spec fn with_groups(names: Seq<Seq<char>>, groups: Seq<MacroGroup>, count: int) -> Seq<
    Seq<char>,
>
    decreases count,
{
    if count <= 0 {
        names
    } else {
        with_group_cases(
            with_groups(names, groups, count - 1),
            groups[count - 1].cases@,
            groups[count - 1].cases@.len() as int,
        )
    }
}

/// Adds the identities of the cases of a suite to names in ascending order.
pub fn collect_case_ids(ids: &mut Vec<String>, suite: &FixtureSuite)
    requires
        text::ascending(views(old(ids)@)),
    ensures
        text::ascending(views(final(ids)@)),
        views(final(ids)@) == with_groups(
            with_cases(views(old(ids)@), suite.cases@, suite.cases@.len() as int),
            suite.macro_groups@,
            suite.macro_groups@.len() as int,
        ),
{
    let ghost start = views(ids@);
    let mut i: usize = 0;
    while i < suite.cases.len()
        invariant
            i <= suite.cases@.len(),
            text::ascending(views(ids@)),
            views(ids@) == with_cases(start, suite.cases@, i as int),
        decreases suite.cases@.len() - i,
    {
        if let Some(id) = case_id(&suite.cases[i]) {
            add_name(ids, id.as_str());
        }
        if let Some(id) = synthetic_coverage_id(&suite.cases[i]) {
            add_name(ids, id.as_str());
        }
        i = i + 1;
    }
    let ghost of_cases = views(ids@);
    let mut k: usize = 0;
    while k < suite.macro_groups.len()
        invariant
            k <= suite.macro_groups@.len(),
            text::ascending(views(ids@)),
            views(ids@) == with_groups(of_cases, suite.macro_groups@, k as int),
        decreases suite.macro_groups@.len() - k,
    {
        let group = &suite.macro_groups[k];
        let ghost before = views(ids@);
        let mut m: usize = 0;
        while m < group.cases.len()
            invariant
                m <= group.cases@.len(),
                text::ascending(views(ids@)),
                views(ids@) == with_group_cases(before, group.cases@, m as int),
            decreases group.cases@.len() - m,
        {
            add_name(ids, group.cases[m].id.as_str());
            m = m + 1;
        }
        k = k + 1;
    }
}

/// An external file that is described well.
pub open spec fn is_external_source(source: ExternalFixtureSource) -> bool {
    &&& !blank(source.name@)
    &&& !blank(source.provenance@)
    &&& !blank(source.path_environment@)
    &&& is_hex_name(source.sha256@, 64)
}

/// Checks the description of an external file.
pub fn validate_external_source(manifest_path: &str, source: &ExternalFixtureSource) -> (r: Result<
    (),
    FixtureError,
>)
    ensures
        match r {
            Ok(()) => is_external_source(*source),
            Err(FixtureError::InvalidExternalSource { path, name }) => !is_external_source(*source)
                && path@ == manifest_path@ && name == source.name,
            Err(_) => false,
        },
{
    if is_blank(source.name.as_str()) || is_blank(source.provenance.as_str()) || is_blank(
        source.path_environment.as_str(),
    ) || !check_hex_name(source.sha256.as_str(), 64) {
        return Err(
            FixtureError::InvalidExternalSource {
                path: manifest_path.to_owned(),
                name: source.name.clone(),
            },
        );
    }
    Ok(())
}

impl ExternalFixtureSource {
    /// Where the file is: at the place that the environment names, or else at
    /// the one within the repository that starts at `root`.
    pub open spec fn location(&self, environment: Option<String>, root: Seq<char>) -> Option<Seq<char>> {
        match environment {
            Some(path) => Some(path@),
            None => match self.repository_path {
                Some(path) => Some(paths::joined(root, path@)),
                None => None,
            },
        }
    }

    /// Where the file is.
    pub fn resolve_path(&self, environment: &Option<String>, root: &str) -> (path: Option<String>)
        ensures
            option_view(path) == self.location(*environment, root@),
    {
        match environment {
            Some(path) => Some(path.clone()),
            None => match &self.repository_path {
                Some(path) => Some(paths::join(root, path.as_str())),
                None => None,
            },
        }
    }
}

/// What came of an external file that is not there.
pub fn external_not_run(file: &str, source: &ExternalFixtureSource) -> (report: FixtureCaseReport)
    ensures
        report@ == (CaseView {
            file: file@,
            name: source.name@,
            passed: false,
            not_run: true,
            message: "not run: set "@ + source.path_environment@
                + " to matching external fixture bytes"@,
        }),
{
    let mut message = "not run: set ".to_owned();
    message.push_str(source.path_environment.as_str());
    message.push_str(" to matching external fixture bytes");
    FixtureCaseReport {
        file: file.to_owned(),
        name: source.name.clone(),
        passed: false,
        not_run: true,
        message,
    }
}

/// Checks the bytes of an external file.
pub fn verify_external_source(file: &str, source: &ExternalFixtureSource, bytes: &Vec<u8>) -> (r:
    Result<FixtureCaseReport, FixtureError>)
    ensures
        match r {
            Ok(report) => {
                &&& hex_of(sha256_of(bytes@)) == source.sha256@
                &&& report@ == tried_case(
                    file@,
                    source.name@,
                    true,
                    "external fixture digest verified"@,
                )
            },
            Err(FixtureError::ExternalDigestMismatch { name, expected, actual }) => {
                &&& hex_of(sha256_of(bytes@)) != source.sha256@
                &&& name == source.name
                &&& expected == source.sha256
                &&& actual@ == hex_of(sha256_of(bytes@))
            },
            Err(_) => false,
        },
{
    let actual = ContentHash::new(sha256(bytes)).hex();
    if !text::same(actual.as_str(), source.sha256.as_str()) {
        return Err(
            FixtureError::ExternalDigestMismatch {
                name: source.name.clone(),
                expected: source.sha256.clone(),
                actual,
            },
        );
    }
    Ok(
        report_case(
            file,
            source.name.as_str(),
            true,
            "external fixture digest verified".to_owned(),
        ),
    )
}

/// A text in quotes, with what cannot be shown escaped.
pub uninterp spec fn quoted_of(text: Seq<char>) -> Seq<char>;

/// The `Debug` form of `str`: it depends on the characters alone.
#[verifier::external_body]
fn quoted(text: &str) -> (r: String)
    ensures
        r@ == quoted_of(text@),
{
    format!("{:?}", text)
}

/// What is said of a case of canonical JSON.
pub open spec fn canonical_message(
    case: CanonicalJsonCase,
    canonical: Seq<char>,
    hash: Seq<u8>,
    passed: bool,
) -> Seq<char> {
    if passed {
        "canonical bytes and hash match"@
    } else {
        "expected canonical '"@ + case.expected_canonical@ + "' and hash "@ + hash_text(
            case.expected_hash@,
        ) + ", found '"@ + canonical + "' and "@ + hash_text(hash)
    }
}

/// Tries a case of canonical JSON.
pub fn verify_canonical_json(file: &str, case: &CanonicalJsonCase) -> (r: Result<
    FixtureCaseReport,
    FixtureError,
>)
    ensures
        match canonical_of(case.input@) {
            Some(bytes) => {
                let canonical = decode_utf8(bytes);
                let hash = hash_of(case.domain@, seq![bytes]);
                let passed = canonical == case.expected_canonical@ && hash == case.expected_hash@;
                r matches Ok(report) && report@ == tried_case(
                    file@,
                    case.name@,
                    passed,
                    canonical_message(*case, canonical, hash, passed),
                )
            },
            None => r == Err::<FixtureCaseReport, FixtureError>(FixtureError::Canonicalize),
        },
{
    let bytes = match canonical_json(&case.input) {
        Ok(bytes) => bytes,
        Err(_) => return Err(FixtureError::Canonicalize),
    };
    let canonical = match text_from_utf8(bytes) {
        Some(canonical) => canonical,
        None => return Err(FixtureError::Canonicalize),
    };
    let hash = match canonical_json_hash(case.domain.as_str(), &case.input) {
        Ok(hash) => hash,
        Err(_) => return Err(FixtureError::Canonicalize),
    };
    let passed = text::same(canonical.as_str(), case.expected_canonical.as_str()) && hash.same(
        &case.expected_hash,
    );
    let message = if passed {
        "canonical bytes and hash match".to_owned()
    } else {
        let mut message = "expected canonical '".to_owned();
        message.push_str(case.expected_canonical.as_str());
        message.push_str("' and hash ");
        message.push_str(case.expected_hash.text().as_str());
        message.push_str(", found '");
        message.push_str(canonical.as_str());
        message.push_str("' and ");
        message.push_str(hash.text().as_str());
        message
    };
    Ok(report_case(file, case.name.as_str(), passed, message))
}

/// What is said of a case of the hash of a revision.
pub open spec fn revision_verdict(file: Seq<char>, case: ArtifactRevisionCase) -> CaseView {
    let hash = revision_hash_of(
        case.artifact_kind@,
        case.source_format@,
        encode_utf8(case.source@),
    );
    if hash == case.expected_hash@ {
        tried_case(file, case.name@, true, "artifact revision hash matches"@)
    } else {
        tried_case(
            file,
            case.name@,
            false,
            "expected "@ + hash_text(case.expected_hash@) + ", found "@ + hash_text(hash),
        )
    }
}

/// Tries a case of the hash of a revision.
pub fn verify_artifact_revision(file: &str, case: &ArtifactRevisionCase) -> (report:
    FixtureCaseReport)
    ensures
        report@ == revision_verdict(file@, *case),
{
    let hash = artifact_revision_hash(
        case.artifact_kind.as_str(),
        case.source_format.as_str(),
        case.source.as_str().as_bytes(),
    );
    if hash.same(&case.expected_hash) {
        return report_case(
            file,
            case.name.as_str(),
            true,
            "artifact revision hash matches".to_owned(),
        );
    }
    let mut message = "expected ".to_owned();
    message.push_str(case.expected_hash.text().as_str());
    message.push_str(", found ");
    message.push_str(hash.text().as_str());
    report_case(file, case.name.as_str(), false, message)
}

/// The name of an outcome.
pub open spec fn outcome_text(outcome: CompatibilityOutcome) -> Seq<char> {
    match outcome {
        CompatibilityOutcome::ProviderBehavior => "ProviderBehavior"@,
        CompatibilityOutcome::AssemblyBehavior => "AssemblyBehavior"@,
        CompatibilityOutcome::Exact => "Exact"@,
        CompatibilityOutcome::PreservedMetadata => "PreservedMetadata"@,
        CompatibilityOutcome::DocumentedFallback => "DocumentedFallback"@,
        CompatibilityOutcome::HardUnsupported => "HardUnsupported"@,
    }
}

fn outcome_name(outcome: CompatibilityOutcome) -> (name: &'static str)
    ensures
        name@ == outcome_text(outcome),
{
    match outcome {
        CompatibilityOutcome::ProviderBehavior => "ProviderBehavior",
        CompatibilityOutcome::AssemblyBehavior => "AssemblyBehavior",
        CompatibilityOutcome::Exact => "Exact",
        CompatibilityOutcome::PreservedMetadata => "PreservedMetadata",
        CompatibilityOutcome::DocumentedFallback => "DocumentedFallback",
        CompatibilityOutcome::HardUnsupported => "HardUnsupported",
    }
}

/// What is said of a case of what a profile makes of something.
pub open spec fn outcome_verdict(
    profile: CompatibilityProfile,
    file: Seq<char>,
    case: CompatibilityOutcomeCase,
) -> CaseView {
    let outcome = outcome_of(profile, case.subject_kind, case.subject@);
    if outcome == case.expected_outcome {
        tried_case(
            file,
            case.name@,
            true,
            "compatibility outcome is "@ + outcome_text(outcome),
        )
    } else {
        tried_case(
            file,
            case.name@,
            false,
            "expected "@ + outcome_text(case.expected_outcome) + ", found "@ + outcome_text(
                outcome,
            ),
        )
    }
}

/// Tries a case of what a profile makes of something.
pub fn verify_compatibility_outcome(
    profile: &CompatibilityProfile,
    file: &str,
    case: &CompatibilityOutcomeCase,
) -> (report: FixtureCaseReport)
    ensures
        report@ == outcome_verdict(*profile, file@, *case),
{
    let subject = CompatibilitySubject { kind: case.subject_kind, name: case.subject.clone() };
    let outcome = profile.classify(&subject);
    if outcome == case.expected_outcome {
        let mut message = "compatibility outcome is ".to_owned();
        message.push_str(outcome_name(outcome));
        return report_case(file, case.name.as_str(), true, message);
    }
    let mut message = "expected ".to_owned();
    message.push_str(outcome_name(case.expected_outcome));
    message.push_str(", found ");
    message.push_str(outcome_name(outcome));
    report_case(file, case.name.as_str(), false, message)
}

/// The abstract values of named texts.
pub open spec fn text_pairs(pairs: Seq<(String, String)>) -> Seq<(Seq<char>, Seq<char>)> {
    Seq::new(pairs.len(), |i: int| (pairs[i].0@, pairs[i].1@))
}

/// Named texts as they are shown: in braces, the names and the texts quoted.
pub open spec fn shown_upto(pairs: Seq<(Seq<char>, Seq<char>)>, count: int) -> Seq<char>
    decreases count,
{
    if count <= 0 {
        Seq::empty()
    } else {
        let head = shown_upto(pairs, count - 1);
        let between = if count == 1 {
            ""@
        } else {
            ", "@
        };
        head + between + quoted_of(pairs[count - 1].0) + ": "@ + quoted_of(pairs[count - 1].1)
    }
}

/// Named texts as they are shown.
pub open spec fn shown_pairs(pairs: Seq<(Seq<char>, Seq<char>)>) -> Seq<char> {
    "{"@ + shown_upto(pairs, pairs.len() as int) + "}"@
}

fn show_pairs(pairs: &Vec<(String, String)>) -> (shown: String)
    ensures
        shown@ == shown_pairs(text_pairs(pairs@)),
{
    let ghost all = text_pairs(pairs@);
    let mut inner = String::new();
    let mut i: usize = 0;
    proof {
        assert(inner@ =~= Seq::<char>::empty());
    }
    while i < pairs.len()
        invariant
            i <= pairs@.len(),
            all == text_pairs(pairs@),
            inner@ == shown_upto(all, i as int),
        decreases pairs@.len() - i,
    {
        inner.push_str(
            if i == 0 {
                ""
            } else {
                ", "
            },
        );
        inner.push_str(quoted(pairs[i].0.as_str()).as_str());
        inner.push_str(": ");
        inner.push_str(quoted(pairs[i].1.as_str()).as_str());
        i = i + 1;
    }
    let mut shown = "{".to_owned();
    shown.push_str(inner.as_str());
    shown.push_str("}");
    shown
}

/// What the variables of a scope hold, in ascending order of their names.
pub open spec fn cell_pairs(cells: Seq<(String, StateCell)>) -> Seq<(Seq<char>, Seq<char>)> {
    Seq::new(cells.len(), |i: int| (cells[i].0@, cells[i].1.raw_value@))
}

fn state_map(cells: &Vec<(String, StateCell)>) -> (pairs: Vec<(String, String)>)
    ensures
        text_pairs(pairs@) == cell_pairs(cells@),
{
    let mut pairs: Vec<(String, String)> = Vec::new();
    let mut i: usize = 0;
    while i < cells.len()
        invariant
            i <= cells@.len(),
            pairs@.len() == i,
            forall|j: int|
                0 <= j < i ==> (#[trigger] pairs@[j]).0@ == cells@[j].0@ && pairs@[j].1@
                    == cells@[j].1.raw_value@,
        decreases cells@.len() - i,
    {
        pairs.push((cells[i].0.clone(), cells[i].1.raw_value.clone()));
        i = i + 1;
    }
    proof {
        assert(text_pairs(pairs@) =~= cell_pairs(cells@));
    }
    pairs
}

fn same_pairs(left: &Vec<(String, String)>, right: &Vec<(String, String)>) -> (r: bool)
    ensures
        r == (text_pairs(left@) == text_pairs(right@)),
{
    proof {
        assert(text_pairs(left@).len() == left@.len());
        assert(text_pairs(right@).len() == right@.len());
    }
    if left.len() != right.len() {
        return false;
    }
    let mut i: usize = 0;
    while i < left.len()
        invariant
            i <= left@.len(),
            left@.len() == right@.len(),
            forall|j: int|
                0 <= j < i ==> (#[trigger] left@[j]).0@ == right@[j].0@ && left@[j].1@
                    == right@[j].1@,
        decreases left@.len() - i,
    {
        if !text::same(left[i].0.as_str(), right[i].0.as_str()) || !text::same(
            left[i].1.as_str(),
            right[i].1.as_str(),
        ) {
            proof {
                assert(text_pairs(left@)[i as int] != text_pairs(right@)[i as int]);
            }
            return false;
        }
        i = i + 1;
    }
    proof {
        assert(text_pairs(left@) =~= text_pairs(right@));
    }
    true
}

/// What is said of a case of macros that was to fail.
pub open spec fn failure_verdict(
    file: Seq<char>,
    case: MacroRenderCase,
    code: Seq<char>,
    result: Result<MacroRender, MacroError>,
) -> CaseView {
    match result {
        Err(error) => {
            let display = fault_text(fault_view(error));
            if text::contains(display, code) {
                tried_case(file, case.name@, true, "expected error matched: "@ + display)
            } else {
                tried_case(
                    file,
                    case.name@,
                    false,
                    "expected error containing '"@ + code + "', found '"@ + display + "'"@,
                )
            }
        },
        Ok(rendered) => tried_case(
            file,
            case.name@,
            false,
            "expected error containing '"@ + code + "', but render succeeded with text "@
                + quoted_of(rendered.text@),
        ),
    }
}

/// What is said of a case of macros that rendered.
pub open spec fn macro_verdict_of(
    file: Seq<char>,
    case: MacroRenderCase,
    rendered: MacroRender,
    state: StateTransaction,
) -> CaseView {
    let local = cell_pairs(state.local@);
    let global = cell_pairs(state.global@);
    let passed = rendered.text@ == case.expected_text@ && local == text_pairs(
        case.expected_local@,
    ) && global == text_pairs(case.expected_global@) && rendered.warnings@.len()
        == case.expected_warnings;
    let message = if passed {
        "macro text, state, and warnings match"@
    } else {
        "expected text "@ + quoted_of(case.expected_text@) + ", local "@ + shown_pairs(
            text_pairs(case.expected_local@),
        ) + ", global "@ + shown_pairs(text_pairs(case.expected_global@)) + ", warnings "@
            + decimal(case.expected_warnings as nat) + "; found text "@ + quoted_of(rendered.text@)
            + ", local "@ + shown_pairs(local) + ", global "@ + shown_pairs(global)
            + ", warnings "@ + decimal(rendered.warnings@.len())
    };
    tried_case(file, case.name@, passed, message)
}

fn judge_failure(file: &str, case: &MacroRenderCase, code: &str, result: &Result<MacroRender, MacroError>) -> (report:
    FixtureCaseReport)
    ensures
        report@ == failure_verdict(file@, *case, code@, *result),
{
    match result {
        Err(error) => {
            let display = error.message();
            if holds(&to_chars(display.as_str()), &to_chars(code)) {
                let mut message = "expected error matched: ".to_owned();
                message.push_str(display.as_str());
                return report_case(file, case.name.as_str(), true, message);
            }
            let mut message = "expected error containing '".to_owned();
            message.push_str(code);
            message.push_str("', found '");
            message.push_str(display.as_str());
            message.push_str("'");
            report_case(file, case.name.as_str(), false, message)
        },
        Ok(rendered) => {
            let mut message = "expected error containing '".to_owned();
            message.push_str(code);
            message.push_str("', but render succeeded with text ");
            message.push_str(quoted(rendered.text.as_str()).as_str());
            report_case(file, case.name.as_str(), false, message)
        },
    }
}

fn judge_render(
    file: &str,
    case: &MacroRenderCase,
    rendered: &MacroRender,
    state: &StateTransaction,
) -> (report: FixtureCaseReport)
    ensures
        report@ == macro_verdict_of(file@, *case, *rendered, *state),
{
    let local = state_map(&state.local);
    let global = state_map(&state.global);
    let passed = text::same(rendered.text.as_str(), case.expected_text.as_str()) && same_pairs(
        &local,
        &case.expected_local,
    ) && same_pairs(&global, &case.expected_global) && rendered.warnings.len()
        == case.expected_warnings;
    if passed {
        return report_case(
            file,
            case.name.as_str(),
            true,
            "macro text, state, and warnings match".to_owned(),
        );
    }
    let mut message = "expected text ".to_owned();
    message.push_str(quoted(case.expected_text.as_str()).as_str());
    message.push_str(", local ");
    message.push_str(show_pairs(&case.expected_local).as_str());
    message.push_str(", global ");
    message.push_str(show_pairs(&case.expected_global).as_str());
    message.push_str(", warnings ");
    message.push_str(decimal_text(case.expected_warnings as u64).as_str());
    message.push_str("; found text ");
    message.push_str(quoted(rendered.text.as_str()).as_str());
    message.push_str(", local ");
    message.push_str(show_pairs(&local).as_str());
    message.push_str(", global ");
    message.push_str(show_pairs(&global).as_str());
    message.push_str(", warnings ");
    message.push_str(decimal_text(rendered.warnings.len() as u64).as_str());
    report_case(file, case.name.as_str(), false, message)
}

/// What rendering the macros of a case came to: a report, or an error where the
/// rendering failed and was not to, or needs a reply.
pub open spec fn macro_case_outcome(
    file: Seq<char>,
    case: MacroRenderCase,
    result: Result<MacroRender, MacroError>,
    state: StateTransaction,
) -> Result<CaseView, MacroError> {
    match (result, case.expected_error) {
        (Err(MacroError::Unresolved(question)), _) => Err(MacroError::Unresolved(question)),
        (_, Some(code)) => Ok(failure_verdict(file, case, code@, result)),
        (Ok(rendered), None) => Ok(macro_verdict_of(file, case, rendered, state)),
        (Err(error), None) => Err(error),
    }
}

/// Judges what rendering the macros of a case came to.
pub fn judge_macro_case(
    file: &str,
    case: &MacroRenderCase,
    result: Result<MacroRender, MacroError>,
    state: &StateTransaction,
) -> (r: Result<FixtureCaseReport, FixtureError>)
    ensures
        match (r, macro_case_outcome(file@, *case, result, *state)) {
            (Ok(report), Ok(view)) => report@ == view,
            (Err(e), Err(error)) => e == FixtureError::Macro(error),
            _ => false,
        },
{
    if let Err(MacroError::Unresolved(question)) = result {
        return Err(FixtureError::Macro(MacroError::Unresolved(question)));
    }
    if let Some(code) = &case.expected_error {
        return Ok(judge_failure(file, case, code.as_str(), &result));
    }
    match result {
        Ok(rendered) => Ok(judge_render(file, case, &rendered, state)),
        Err(error) => Err(FixtureError::Macro(error)),
    }
}

/// The values of a context once named texts are put in, one after the other.
pub open spec fn is_filled(
    values: Seq<(String, String)>,
    pairs: Seq<(String, String)>,
    count: int,
) -> bool
    decreases count,
{
    if count <= 0 {
        values.len() == 0
    } else {
        exists|before: Seq<(String, String)>, key: String|
            key@ == lowercase_of(pairs[count - 1].0@) && is_filled(
                before,
                pairs,
                count - 1,
            ) && values == #[trigger] assoc::with_entry(before, key, pairs[count - 1].1)
    }
}

/// Variables once named texts are put in, one after the other.
pub open spec fn filled_state(
    variables: Variables,
    scope: VariableScope,
    pairs: Seq<(String, String)>,
    count: int,
) -> Variables
    decreases count,
{
    if count <= 0 {
        variables
    } else {
        filled_state(variables, scope, pairs, count - 1).with(
            scope,
            pairs[count - 1].0@,
            pairs[count - 1].1@,
            "fixture"@,
            "initial"@,
        )
    }
}

/// The surroundings of a case of macros.
pub open spec fn is_case_context(context: MacroContext, case: MacroRenderCase) -> bool {
    &&& is_filled(context.values@, case.context@, case.context@.len() as int)
    &&& text_pairs(context.outlets@) == text_pairs(case.outlets@)
    &&& context.registered_macros@.len() == 0
    &&& context.plugins@ == case.plugins@
    &&& context.random_seed == 0
}

/// The variables that a case of macros starts with.
pub open spec fn is_case_state(state: StateTransaction, case: MacroRenderCase) -> bool {
    let none = Variables { local: Map::empty(), global: Map::empty() };
    state.wf() && state@ == filled_state(
        filled_state(
            none,
            VariableScope::Local,
            case.initial_local@,
            case.initial_local@.len() as int,
        ),
        VariableScope::Global,
        case.initial_global@,
        case.initial_global@.len() as int,
    )
}

fn copy_pairs(pairs: &Vec<(String, String)>) -> (copies: Vec<(String, String)>)
    ensures
        copies@ == pairs@,
{
    let mut copies: Vec<(String, String)> = Vec::new();
    let mut i: usize = 0;
    while i < pairs.len()
        invariant
            i <= pairs@.len(),
            copies@ == pairs@.take(i as int),
        decreases pairs@.len() - i,
    {
        copies.push((pairs[i].0.clone(), pairs[i].1.clone()));
        i = i + 1;
        proof {
            assert(copies@ =~= pairs@.take(i as int));
        }
    }
    proof {
        assert(pairs@.take(pairs@.len() as int) =~= pairs@);
    }
    copies
}

fn make_context(case: &MacroRenderCase) -> (context: MacroContext)
    ensures
        is_case_context(context, *case),
{
    let mut context = MacroContext::empty();
    let mut i: usize = 0;
    while i < case.context.len()
        invariant
            i <= case.context@.len(),
            is_filled(context.values@, case.context@, i as int),
            context.registered_macros@.len() == 0,
            context.random_seed == 0,
        decreases case.context@.len() - i,
    {
        let ghost before = context.values@;
        context.insert(case.context[i].0.as_str(), case.context[i].1.clone());
        proof {
            let key = choose|key: String|
                key@ == lowercase_of(case.context@[i as int].0@) && context.values@
                    == #[trigger] assoc::with_entry(before, key, case.context@[i as int].1);
            let count = i + 1;
            assert(is_filled(before, case.context@, count - 1));
            assert(context.values@ == assoc::with_entry(before, key, case.context@[count - 1].1));
            assert(is_filled(context.values@, case.context@, count));
        }
        i = i + 1;
    }
    context.plugins = copy_texts(&case.plugins);
    context.outlets = copy_pairs(&case.outlets);
    context
}

fn fill_state(state: &mut StateTransaction, scope: VariableScope, pairs: &Vec<(String, String)>)
    requires
        old(state).wf(),
    ensures
        final(state).wf(),
        final(state)@ == filled_state(old(state)@, scope, pairs@, pairs@.len() as int),
{
    let ghost start = state@;
    let mut i: usize = 0;
    while i < pairs.len()
        invariant
            i <= pairs@.len(),
            state.wf(),
            state@ == filled_state(start, scope, pairs@, i as int),
        decreases pairs@.len() - i,
    {
        state.set_raw(scope, pairs[i].0.as_str(), pairs[i].1.as_str(), "fixture", "initial");
        i = i + 1;
    }
}

/// Rendering the macros of a case comes to a result and a state, with replies to
/// what it needs to be told.
pub open spec fn is_case_render(
    case: MacroRenderCase,
    replies: Replies,
    result: Result<MacroRender, MacroError>,
    state: StateTransaction,
) -> bool {
    exists|context: MacroContext, start: StateTransaction, random: u64|
        #[trigger] is_case_context(context, case) && #[trigger] is_case_state(start, case)
            && #[trigger] is_outcome(
            rendered(
                case.input@,
                surroundings(context, replies),
                run_of(1, start, Seq::empty(), Seq::empty()),
            ),
            case.input@,
            result,
            random,
            state,
        )
}

/// Tries a case of macros.
pub fn verify_macro_render(file: &str, case: &MacroRenderCase, replies: &Replies) -> (r: Result<
    FixtureCaseReport,
    FixtureError,
>)
    requires
        replies.transforms is None,
    ensures
        exists|result: Result<MacroRender, MacroError>, state: StateTransaction|
            #[trigger] is_case_render(*case, *replies, result, state) && match (
                r,
                macro_case_outcome(file@, *case, result, state),
            ) {
                (Ok(report), Ok(view)) => report@ == view,
                (Err(e), Err(error)) => e == FixtureError::Macro(error),
                _ => false,
            },
{
    let context = make_context(case);
    let mut state = StateTransaction::empty();
    proof {
        let none = Variables { local: Map::empty(), global: Map::empty() };
        assert(state@ == none);
    }
    fill_state(&mut state, VariableScope::Local, &case.initial_local);
    fill_state(&mut state, VariableScope::Global, &case.initial_global);
    let ghost start = state;
    let mut engine = MacroEngine::new(1);
    let result = engine.render(case.input.as_str(), &context, replies, &mut state);
    proof {
        assert(is_case_context(context, *case));
        assert(is_case_state(start, *case));
        assert(is_case_render(*case, *replies, result, state));
    }
    judge_macro_case(file, case, result, &state)
}

/// The case that a case of a group stands for.
pub open spec fn is_expanded(case: MacroRenderCase, group: MacroGroup, short: MacroGroupCase) -> bool {
    let defaults = group.defaults;
    &&& case.id == Some(short.id)
    &&& case.name == short.id
    &&& case.input == short.input
    &&& case.context@ == defaults.context@
    &&& case.initial_local@ == defaults.initial_local@
    &&& case.initial_global@ == defaults.initial_global@
    &&& case.plugins@ == defaults.plugins@
    &&& case.outlets@ == defaults.outlets@
    &&& case.expected_text == short.expected_text
    &&& case.expected_local@ == match short.expected_local {
        Some(local) => local@,
        None => defaults.initial_local@,
    }
    &&& case.expected_global@ == match short.expected_global {
        Some(global) => global@,
        None => defaults.initial_global@,
    }
    &&& case.expected_warnings == match (short.expected_warnings, defaults.expected_warnings) {
        (Some(count), _) => count,
        (None, Some(count)) => count,
        (None, None) => 0,
    }
    &&& case.expected_error is None
}

/// The case that a case of a group stands for.
pub fn expand_macro_group_case(group: &MacroGroup, short: &MacroGroupCase) -> (case: MacroRenderCase)
    ensures
        is_expanded(case, *group, *short),
{
    let defaults = &group.defaults;
    let expected_local = match &short.expected_local {
        Some(local) => copy_pairs(local),
        None => copy_pairs(&defaults.initial_local),
    };
    let expected_global = match &short.expected_global {
        Some(global) => copy_pairs(global),
        None => copy_pairs(&defaults.initial_global),
    };
    let expected_warnings: usize = match (short.expected_warnings, defaults.expected_warnings) {
        (Some(count), _) => count,
        (None, Some(count)) => count,
        (None, None) => 0,
    };
    MacroRenderCase {
        id: Some(short.id.clone()),
        name: short.id.clone(),
        input: short.input.clone(),
        context: copy_pairs(&defaults.context),
        initial_local: copy_pairs(&defaults.initial_local),
        initial_global: copy_pairs(&defaults.initial_global),
        plugins: copy_texts(&defaults.plugins),
        outlets: copy_pairs(&defaults.outlets),
        expected_text: short.expected_text.clone(),
        expected_local,
        expected_global,
        expected_warnings,
        expected_error: None,
    }
}

/// The part of an entry's name behind its last dot.
pub open spec fn behind_dot(key: Seq<char>) -> Option<Seq<char>> {
    match last_char(key, '.', key.len() as int) {
        Some(at) => Some(key.skip(at + 1)),
        None => None,
    }
}

fn find_behind_dot(key: &str) -> (part: Option<String>)
    ensures
        option_view(part) == behind_dot(key@),
{
    let chars = to_chars(key);
    let end: usize = chars.len();
    match find_last_char(&chars, '.') {
        Some(at) => {
            let part = from_range(&chars, at + 1, end);
            proof {
                assert(part@ =~= key@.skip(at + 1));
            }
            Some(part)
        },
        None => None,
    }
}

/// The identities of the first `count` entries that became active.
pub open spec fn active_ids(activated: Seq<ActivatedView>, count: int) -> Seq<Seq<char>>
    decreases count,
{
    if count <= 0 {
        Seq::empty()
    } else {
        let head = active_ids(activated, count - 1);
        match behind_dot(activated[count - 1].entry_key) {
            Some(id) => head.push(id),
            None => head,
        }
    }
}

/// What was decided last of an entry among the first `count` decisions.
pub open spec fn last_outcome(decisions: Seq<DecisionView>, id: Seq<char>, count: int) -> Option<
    LoreDecisionOutcome,
>
    decreases count,
{
    if count <= 0 {
        None
    } else if behind_dot(decisions[count - 1].entry_key) == Some(id) {
        Some(decisions[count - 1].outcome)
    } else {
        last_outcome(decisions, id, count - 1)
    }
}

/// What was decided last of each entry, by its identity in ascending order.
pub open spec fn are_outcomes(
    outcomes: Seq<(String, LoreDecisionOutcome)>,
    decisions: Seq<DecisionView>,
    count: int,
) -> bool {
    &&& assoc::ascending(outcomes)
    &&& forall|id: Seq<char>| #[trigger]
        assoc::lookup(outcomes, id) == last_outcome(decisions, id, count)
}

/// The name of what was decided.
pub open spec fn decision_text(outcome: LoreDecisionOutcome) -> Seq<char> {
    match outcome {
        LoreDecisionOutcome::Disabled => "Disabled"@,
        LoreDecisionOutcome::TriggerFiltered => "TriggerFiltered"@,
        LoreDecisionOutcome::DelaySuppressed => "DelaySuppressed"@,
        LoreDecisionOutcome::CooldownSuppressed => "CooldownSuppressed"@,
        LoreDecisionOutcome::RecursionSuppressed => "RecursionSuppressed"@,
        LoreDecisionOutcome::NoPrimaryMatch => "NoPrimaryMatch"@,
        LoreDecisionOutcome::SecondaryRejected => "SecondaryRejected"@,
        LoreDecisionOutcome::GroupRejected => "GroupRejected"@,
        LoreDecisionOutcome::ProbabilityRejected => "ProbabilityRejected"@,
        LoreDecisionOutcome::BudgetRejected => "BudgetRejected"@,
        LoreDecisionOutcome::Activated => "Activated"@,
    }
}

fn decision_name(outcome: LoreDecisionOutcome) -> (name: &'static str)
    ensures
        name@ == decision_text(outcome),
{
    match outcome {
        LoreDecisionOutcome::Disabled => "Disabled",
        LoreDecisionOutcome::TriggerFiltered => "TriggerFiltered",
        LoreDecisionOutcome::DelaySuppressed => "DelaySuppressed",
        LoreDecisionOutcome::CooldownSuppressed => "CooldownSuppressed",
        LoreDecisionOutcome::RecursionSuppressed => "RecursionSuppressed",
        LoreDecisionOutcome::NoPrimaryMatch => "NoPrimaryMatch",
        LoreDecisionOutcome::SecondaryRejected => "SecondaryRejected",
        LoreDecisionOutcome::GroupRejected => "GroupRejected",
        LoreDecisionOutcome::ProbabilityRejected => "ProbabilityRejected",
        LoreDecisionOutcome::BudgetRejected => "BudgetRejected",
        LoreDecisionOutcome::Activated => "Activated",
    }
}

/// The abstract values of what was decided of entries.
pub open spec fn outcome_pairs(outcomes: Seq<(String, LoreDecisionOutcome)>) -> Seq<
    (Seq<char>, LoreDecisionOutcome),
> {
    Seq::new(outcomes.len(), |i: int| (outcomes[i].0@, outcomes[i].1))
}

/// What was decided of the first `count` entries, as it is shown.
pub open spec fn shown_outcomes_upto(
    outcomes: Seq<(Seq<char>, LoreDecisionOutcome)>,
    count: int,
) -> Seq<char>
    decreases count,
{
    if count <= 0 {
        Seq::empty()
    } else {
        let head = shown_outcomes_upto(outcomes, count - 1);
        let between = if count == 1 {
            ""@
        } else {
            ", "@
        };
        head + between + quoted_of(outcomes[count - 1].0) + ": "@ + decision_text(
            outcomes[count - 1].1,
        )
    }
}

/// What was decided of entries, as it is shown.
pub open spec fn shown_outcomes(outcomes: Seq<(Seq<char>, LoreDecisionOutcome)>) -> Seq<char> {
    "{"@ + shown_outcomes_upto(outcomes, outcomes.len() as int) + "}"@
}

/// The first `count` texts of a list, as they are shown.
pub open spec fn shown_list_upto(texts: Seq<Seq<char>>, count: int) -> Seq<char>
    decreases count,
{
    if count <= 0 {
        Seq::empty()
    } else {
        let head = shown_list_upto(texts, count - 1);
        let between = if count == 1 {
            ""@
        } else {
            ", "@
        };
        head + between + quoted_of(texts[count - 1])
    }
}

/// The texts of a list, as they are shown.
pub open spec fn shown_list(texts: Seq<Seq<char>>) -> Seq<char> {
    "["@ + shown_list_upto(texts, texts.len() as int) + "]"@
}

fn show_list(texts: &Vec<String>) -> (shown: String)
    ensures
        shown@ == shown_list(views(texts@)),
{
    let ghost all = views(texts@);
    let mut inner = String::new();
    let mut i: usize = 0;
    proof {
        assert(inner@ =~= Seq::<char>::empty());
    }
    while i < texts.len()
        invariant
            i <= texts@.len(),
            all == views(texts@),
            inner@ == shown_list_upto(all, i as int),
        decreases texts@.len() - i,
    {
        inner.push_str(
            if i == 0 {
                ""
            } else {
                ", "
            },
        );
        inner.push_str(quoted(texts[i].as_str()).as_str());
        i = i + 1;
    }
    let mut shown = "[".to_owned();
    shown.push_str(inner.as_str());
    shown.push_str("]");
    shown
}

fn show_outcomes(outcomes: &Vec<(String, LoreDecisionOutcome)>) -> (shown: String)
    ensures
        shown@ == shown_outcomes(outcome_pairs(outcomes@)),
{
    let ghost all = outcome_pairs(outcomes@);
    let mut inner = String::new();
    let mut i: usize = 0;
    proof {
        assert(inner@ =~= Seq::<char>::empty());
    }
    while i < outcomes.len()
        invariant
            i <= outcomes@.len(),
            all == outcome_pairs(outcomes@),
            inner@ == shown_outcomes_upto(all, i as int),
        decreases outcomes@.len() - i,
    {
        inner.push_str(
            if i == 0 {
                ""
            } else {
                ", "
            },
        );
        inner.push_str(quoted(outcomes[i].0.as_str()).as_str());
        inner.push_str(": ");
        inner.push_str(decision_name(outcomes[i].1));
        i = i + 1;
    }
    let mut shown = "{".to_owned();
    shown.push_str(inner.as_str());
    shown.push_str("}");
    shown
}

fn collect_active_ids(activated: &Vec<ActivatedLore>) -> (ids: Vec<String>)
    ensures
        views(ids@) == active_ids(activated_views(activated@), activated@.len() as int),
{
    let ghost all = activated_views(activated@);
    let mut ids: Vec<String> = Vec::new();
    let mut i: usize = 0;
    proof {
        assert(views(ids@) =~= Seq::<Seq<char>>::empty());
    }
    while i < activated.len()
        invariant
            i <= activated@.len(),
            all == activated_views(activated@),
            views(ids@) == active_ids(all, i as int),
        decreases activated@.len() - i,
    {
        proof {
            assert(all[i as int].entry_key == activated@[i as int].entry_key@);
        }
        if let Some(id) = find_behind_dot(activated[i].entry_key.as_str()) {
            proof {
                lemma_views_push(ids@, id);
            }
            ids.push(id);
        }
        i = i + 1;
    }
    ids
}

fn collect_outcomes(decisions: &Vec<LoreDecision>) -> (outcomes: Vec<(String, LoreDecisionOutcome)>)
    ensures
        are_outcomes(outcomes@, decision_views(decisions@), decisions@.len() as int),
{
    let ghost all = decision_views(decisions@);
    let mut outcomes: Vec<(String, LoreDecisionOutcome)> = Vec::new();
    let mut i: usize = 0;
    while i < decisions.len()
        invariant
            i <= decisions@.len(),
            all == decision_views(decisions@),
            are_outcomes(outcomes@, all, i as int),
        decreases decisions@.len() - i,
    {
        proof {
            assert(all[i as int] == decisions@[i as int]@);
        }
        if let Some(id) = find_behind_dot(decisions[i].entry_key.as_str()) {
            let ghost before = outcomes@;
            let outcome = decisions[i].outcome;
            proof {
                assoc::lemma_with_entry_ascending(before, id, outcome);
                assert forall|other: Seq<char>| #[trigger]
                    assoc::lookup(assoc::with_entry(before, id, outcome), other) == last_outcome(
                        all,
                        other,
                        i + 1,
                    ) by {
                    assoc::lemma_with_entry_found(before, id, outcome, other);
                }
            }
            assoc::set(&mut outcomes, id, outcome);
        } else {
            proof {
                assert forall|other: Seq<char>| #[trigger]
                    assoc::lookup(outcomes@, other) == last_outcome(all, other, i + 1) by {
                    assert(last_outcome(all, other, i + 1) == last_outcome(all, other, i as int));
                }
            }
        }
        i = i + 1;
    }
    outcomes
}

fn same_outcomes(
    left: &Vec<(String, LoreDecisionOutcome)>,
    right: &Vec<(String, LoreDecisionOutcome)>,
) -> (r: bool)
    ensures
        r == (outcome_pairs(left@) == outcome_pairs(right@)),
{
    proof {
        assert(outcome_pairs(left@).len() == left@.len());
        assert(outcome_pairs(right@).len() == right@.len());
    }
    if left.len() != right.len() {
        return false;
    }
    let mut i: usize = 0;
    while i < left.len()
        invariant
            i <= left@.len(),
            left@.len() == right@.len(),
            forall|j: int|
                0 <= j < i ==> (#[trigger] left@[j]).0@ == right@[j].0@ && left@[j].1
                    == right@[j].1,
        decreases left@.len() - i,
    {
        if !text::same(left[i].0.as_str(), right[i].0.as_str()) || left[i].1 != right[i].1 {
            proof {
                assert(outcome_pairs(left@)[i as int] != outcome_pairs(right@)[i as int]);
            }
            return false;
        }
        i = i + 1;
    }
    proof {
        assert(outcome_pairs(left@) =~= outcome_pairs(right@));
    }
    true
}

fn same_texts(left: &Vec<String>, right: &Vec<String>) -> (r: bool)
    ensures
        r == (views(left@) == views(right@)),
{
    proof {
        assert(views(left@).len() == left@.len());
        assert(views(right@).len() == right@.len());
    }
    if left.len() != right.len() {
        return false;
    }
    let mut i: usize = 0;
    while i < left.len()
        invariant
            i <= left@.len(),
            left@.len() == right@.len(),
            forall|j: int| 0 <= j < i ==> (#[trigger] left@[j])@ == right@[j]@,
        decreases left@.len() - i,
    {
        if !text::same(left[i].as_str(), right[i].as_str()) {
            proof {
                assert(views(left@)[i as int] != views(right@)[i as int]);
            }
            return false;
        }
        i = i + 1;
    }
    proof {
        assert(views(left@) =~= views(right@));
    }
    true
}

/// What is said of a case of lore.
pub open spec fn lore_verdict_of(
    file: Seq<char>,
    case: LoreEvaluateCase,
    activated: Seq<Seq<char>>,
    outcomes: Seq<(Seq<char>, LoreDecisionOutcome)>,
) -> CaseView {
    let passed = activated == views(case.expected_activated@) && outcomes == outcome_pairs(
        case.expected_outcomes@,
    );
    let message = if passed {
        "lore activations and final decisions match"@
    } else {
        "expected activated "@ + shown_list(views(case.expected_activated@)) + " and outcomes "@
            + shown_outcomes(outcome_pairs(case.expected_outcomes@)) + "; found activated "@
            + shown_list(activated) + " and outcomes "@ + shown_outcomes(outcomes)
    };
    tried_case(file, case.name@, passed, message)
}

/// The report on a case of lore that came to a result.
pub open spec fn is_lore_report(
    report: CaseView,
    file: Seq<char>,
    case: LoreEvaluateCase,
    result: LoreResult,
) -> bool {
    exists|outcomes: Seq<(String, LoreDecisionOutcome)>|
        #[trigger] are_outcomes(
            outcomes,
            decision_views(result.decisions@),
            result.decisions@.len() as int,
        ) && report == lore_verdict_of(
            file,
            case,
            active_ids(activated_views(result.activated@), result.activated@.len() as int),
            outcome_pairs(outcomes),
        )
}

/// Judges what a case of lore came to.
pub fn judge_lore_case(file: &str, case: &LoreEvaluateCase, result: &LoreResult) -> (report:
    FixtureCaseReport)
    ensures
        is_lore_report(report@, file@, *case, *result),
{
    let activated = collect_active_ids(&result.activated);
    let outcomes = collect_outcomes(&result.decisions);
    let passed = same_texts(&activated, &case.expected_activated) && same_outcomes(
        &outcomes,
        &case.expected_outcomes,
    );
    let message = if passed {
        "lore activations and final decisions match".to_owned()
    } else {
        let mut message = "expected activated ".to_owned();
        message.push_str(show_list(&case.expected_activated).as_str());
        message.push_str(" and outcomes ");
        message.push_str(show_outcomes(&case.expected_outcomes).as_str());
        message.push_str("; found activated ");
        message.push_str(show_list(&activated).as_str());
        message.push_str(" and outcomes ");
        message.push_str(show_outcomes(&outcomes).as_str());
        message
    };
    report_case(file, case.name.as_str(), passed, message)
}

/// What trying a case of lore comes to.
pub open spec fn is_lore_trial(
    r: Result<FixtureCaseReport, FixtureError>,
    file: Seq<char>,
    case: LoreEvaluateCase,
    replies: LoreReplies,
    limit: usize,
) -> bool {
    exists|listing: Result<Vec<LoreEntry>, LoreError>, result: Result<LoreResult, LoreError>|
        {
            &&& #[trigger] is_entry_list(
                listing,
                case.source_revision@,
                case.entries@,
                0,
                limit,
            )
            &&& listing matches Ok(entries) ==> is_evaluation(
                result,
                case.settings,
                evaluated(
                    entries@,
                    scene_of(case.messages@, case.settings, replies, true, false),
                ),
            )
            &&& #[trigger] is_lore_end(r, file, case, listing, result)
        }
}

/// How a case of lore ends, given what reading its entries and evaluating them
/// came to.
pub open spec fn is_lore_end(
    r: Result<FixtureCaseReport, FixtureError>,
    file: Seq<char>,
    case: LoreEvaluateCase,
    listing: Result<Vec<LoreEntry>, LoreError>,
    result: Result<LoreResult, LoreError>,
) -> bool {
    match (listing, result) {
        (Err(e), _) => r == Err::<FixtureCaseReport, FixtureError>(FixtureError::Lore(e)),
        (Ok(_), Err(e)) => r == Err::<FixtureCaseReport, FixtureError>(FixtureError::Lore(e)),
        (Ok(_), Ok(lore)) => r matches Ok(report) && is_lore_report(report@, file, case, lore),
    }
}

/// Tries a case of lore, of whose entries there may be `limit`. Regular
/// expressions are matched here.
pub fn verify_lore_evaluate(
    file: &str,
    case: &LoreEvaluateCase,
    replies: &LoreReplies,
    limit: usize,
    unused: EcmaRegexWorker,
) -> (r: Result<FixtureCaseReport, FixtureError>)
    requires
        replies.wf(),
    ensures
        is_lore_trial(r, file@, *case, *replies, limit),
{
    let listing = parse_lore_entries(&case.source_revision, &case.entries, 0, limit);
    let ghost listed = listing;
    let entries = match listing {
        Ok(entries) => entries,
        Err(e) => {
            let r = Err(FixtureError::Lore(e));
            proof {
                assert(is_entry_list(listed, case.source_revision@, case.entries@, 0, limit));
                assert(is_lore_end(r, file@, *case, listed, Err(e)));
            }
            return r;
        },
    };
    let engine = LoreEngine::with_worker(case.tokenizer, unused);
    let result = engine.evaluate_in_process(&entries, &case.messages, &case.settings, replies);
    let ghost ended = result;
    proof {
        assert(is_entry_list(listed, case.source_revision@, case.entries@, 0, limit));
    }
    match result {
        Ok(lore) => {
            let r = Ok(judge_lore_case(file, case, &lore));
            proof {
                assert(is_lore_end(r, file@, *case, listed, ended));
            }
            r
        },
        Err(e) => {
            let r = Err(FixtureError::Lore(e));
            proof {
                assert(is_lore_end(r, file@, *case, listed, ended));
            }
            r
        },
    }
}

/// A placement that a script knows.
pub open spec fn is_placement(code: u64) -> bool {
    code == 1 || code == 2 || code == 3 || code == 5 || code == 6
}

/// What is said of a case of a script.
pub open spec fn script_verdict(
    file: Seq<char>,
    case: RegexScriptApplyCase,
    outcome: ScriptOutcome,
) -> Result<CaseView, FixtureError> {
    match outcome {
        ScriptOutcome::Invalid => Err(FixtureError::InvalidRegexScript { case: case.name }),
        _ => if !is_placement(case.placement) {
            Ok(
                tried_case(
                    file,
                    case.name@,
                    false,
                    "unknown placement code "@ + decimal(case.placement as nat),
                ),
            )
        } else {
            match outcome {
                ScriptOutcome::Failed(e) => Err(FixtureError::Regex(e)),
                ScriptOutcome::Applied(text) => if text@ == case.expected_text@ {
                    Ok(tried_case(file, case.name@, true, "regex script output matches"@))
                } else {
                    Ok(
                        tried_case(
                            file,
                            case.name@,
                            false,
                            "expected "@ + quoted_of(case.expected_text@) + ", found "@
                                + quoted_of(text@),
                        ),
                    )
                },
                ScriptOutcome::Invalid => Err(
                    FixtureError::InvalidRegexScript { case: case.name },
                ),
            }
        },
    }
}

/// Judges what a case of a script came to.
pub fn verify_regex_script(file: &str, case: &RegexScriptApplyCase, outcome: ScriptOutcome) -> (r:
    Result<FixtureCaseReport, FixtureError>)
    ensures
        match (r, script_verdict(file@, *case, outcome)) {
            (Ok(report), Ok(view)) => report@ == view,
            (Err(e), Err(expected)) => e == expected,
            _ => false,
        },
{
    if let ScriptOutcome::Invalid = outcome {
        return Err(FixtureError::InvalidRegexScript { case: case.name.clone() });
    }
    let code: u64 = case.placement;
    if !(code == 1 || code == 2 || code == 3 || code == 5 || code == 6) {
        let mut message = "unknown placement code ".to_owned();
        message.push_str(decimal_text(code).as_str());
        return Ok(report_case(file, case.name.as_str(), false, message));
    }
    match outcome {
        ScriptOutcome::Failed(e) => Err(FixtureError::Regex(e)),
        ScriptOutcome::Applied(text) => {
            if text::same(text.as_str(), case.expected_text.as_str()) {
                return Ok(
                    report_case(
                        file,
                        case.name.as_str(),
                        true,
                        "regex script output matches".to_owned(),
                    ),
                );
            }
            let mut message = "expected ".to_owned();
            message.push_str(quoted(case.expected_text.as_str()).as_str());
            message.push_str(", found ");
            message.push_str(quoted(text.as_str()).as_str());
            Ok(report_case(file, case.name.as_str(), false, message))
        },
        ScriptOutcome::Invalid => Err(
            FixtureError::InvalidRegexScript { case: case.name.clone() },
        ),
    }
}

/// What is said of a case of a request to a provider, which is not run here.
pub open spec fn parity_not_run(file: Seq<char>, name: Seq<char>) -> CaseView {
    CaseView {
        file,
        name,
        passed: false,
        not_run: true,
        message: "not run: provider-request parity requires the Dry Run fixture runner"@,
    }
}

/// What trying cases takes beside the cases: replies to what macros and lore
/// need to be told, how many lore entries there may be, the matcher of the
/// program, and what a script made of the text of the case.
#[derive(Debug)]
pub struct CaseAids {
    pub macro_replies: Replies,
    pub lore_replies: LoreReplies,
    pub lore_limit: usize,
    pub worker: EcmaRegexWorker,
    pub script: ScriptOutcome,
}

/// What trying a case comes to.
pub open spec fn is_trial(
    r: Result<FixtureCaseReport, FixtureError>,
    profile: CompatibilityProfile,
    file: Seq<char>,
    case: FixtureCase,
    aids: CaseAids,
) -> bool {
    match case {
        FixtureCase::CanonicalJson(c) => match canonical_of(c.input@) {
            Some(bytes) => {
                let canonical = decode_utf8(bytes);
                let hash = hash_of(c.domain@, seq![bytes]);
                let passed = canonical == c.expected_canonical@ && hash == c.expected_hash@;
                r matches Ok(report) && report@ == tried_case(
                    file,
                    c.name@,
                    passed,
                    canonical_message(c, canonical, hash, passed),
                )
            },
            None => r == Err::<FixtureCaseReport, FixtureError>(FixtureError::Canonicalize),
        },
        FixtureCase::ArtifactRevision(c) => r matches Ok(report) && report@ == revision_verdict(
            file,
            c,
        ),
        FixtureCase::CompatibilityOutcome(c) => r matches Ok(report) && report@
            == outcome_verdict(profile, file, c),
        FixtureCase::MacroRender(c) => exists|
            result: Result<MacroRender, MacroError>,
            state: StateTransaction,
        |
            #[trigger] is_case_render(c, aids.macro_replies, result, state) && match (
                r,
                macro_case_outcome(file, c, result, state),
            ) {
                (Ok(report), Ok(view)) => report@ == view,
                (Err(e), Err(error)) => e == FixtureError::Macro(error),
                _ => false,
            },
        FixtureCase::LoreEvaluate(c) => is_lore_trial(
            r,
            file,
            c,
            aids.lore_replies,
            aids.lore_limit,
        ),
        FixtureCase::RegexScriptApply(c) => match (r, script_verdict(file, c, aids.script)) {
            (Ok(report), Ok(view)) => report@ == view,
            (Err(e), Err(expected)) => e == expected,
            _ => false,
        },
        FixtureCase::ProviderRequestParity(c) => r matches Ok(report) && report@
            == parity_not_run(file, c.name@),
    }
}

/// Tries a case.
pub fn verify_case(profile: &CompatibilityProfile, file: &str, case: &FixtureCase, aids: CaseAids) -> (r:
    Result<FixtureCaseReport, FixtureError>)
    requires
        aids.macro_replies.transforms is None,
        aids.lore_replies.wf(),
    ensures
        is_trial(r, *profile, file@, *case, aids),
{
    match case {
        FixtureCase::CanonicalJson(c) => verify_canonical_json(file, c),
        FixtureCase::ArtifactRevision(c) => Ok(verify_artifact_revision(file, c)),
        FixtureCase::CompatibilityOutcome(c) => Ok(verify_compatibility_outcome(profile, file, c)),
        FixtureCase::MacroRender(c) => verify_macro_render(file, c, &aids.macro_replies),
        FixtureCase::LoreEvaluate(c) => verify_lore_evaluate(
            file,
            c,
            &aids.lore_replies,
            aids.lore_limit,
            aids.worker,
        ),
        FixtureCase::RegexScriptApply(c) => verify_regex_script(file, c, aids.script),
        FixtureCase::ProviderRequestParity(c) => Ok(
            FixtureCaseReport {
                file: file.to_owned(),
                name: c.name.clone(),
                passed: false,
                not_run: true,
                message: "not run: provider-request parity requires the Dry Run fixture runner".to_owned(),
            },
        ),
    }
}

/// A case passes if and only if what came of it is what it expects: the hash, the
/// outcome, the text with the variables and the warnings, the error, or the entries
/// and decisions. No case that was tried is told as not run.
pub proof fn law_cases_pass_as_expected(
    file: Seq<char>,
    revision: ArtifactRevisionCase,
    profile: CompatibilityProfile,
    outcome: CompatibilityOutcomeCase,
    render: MacroRenderCase,
    rendered: MacroRender,
    state: StateTransaction,
    lore: LoreEvaluateCase,
    activated: Seq<Seq<char>>,
    outcomes: Seq<(Seq<char>, LoreDecisionOutcome)>,
)
    ensures
        revision_verdict(file, revision).passed <==> revision_hash_of(
            revision.artifact_kind@,
            revision.source_format@,
            encode_utf8(revision.source@),
        ) == revision.expected_hash@,
        outcome_verdict(profile, file, outcome).passed <==> outcome_of(
            profile,
            outcome.subject_kind,
            outcome.subject@,
        ) == outcome.expected_outcome,
        macro_verdict_of(file, render, rendered, state).passed <==> {
            &&& rendered.text@ == render.expected_text@
            &&& cell_pairs(state.local@) == text_pairs(render.expected_local@)
            &&& cell_pairs(state.global@) == text_pairs(render.expected_global@)
            &&& rendered.warnings@.len() == render.expected_warnings
        },
        lore_verdict_of(file, lore, activated, outcomes).passed <==> activated == views(
            lore.expected_activated@,
        ) && outcomes == outcome_pairs(lore.expected_outcomes@),
        !revision_verdict(file, revision).not_run,
        !outcome_verdict(profile, file, outcome).not_run,
        !macro_verdict_of(file, render, rendered, state).not_run,
        !lore_verdict_of(file, lore, activated, outcomes).not_run,
{
}

/// A case that is to fail passes if and only if it fails with an error that says what
/// is expected.
pub proof fn law_failures_pass_as_expected(
    file: Seq<char>,
    case: MacroRenderCase,
    code: Seq<char>,
    result: Result<MacroRender, MacroError>,
)
    ensures
        failure_verdict(file, case, code, result).passed <==> (result matches Err(error)
            && text::contains(fault_text(fault_view(error)), code)),
{
}

/// Of the decisions on an entry the last one counts.
pub proof fn law_the_last_decision_counts(
    decisions: Seq<DecisionView>,
    id: Seq<char>,
    i: int,
    count: int,
)
    requires
        0 <= i < count <= decisions.len(),
        behind_dot(decisions[i].entry_key) == Some(id),
        forall|k: int|
            i < k < count ==> behind_dot((#[trigger] decisions[k]).entry_key) != Some(id),
    ensures
        last_outcome(decisions, id, count) == Some(decisions[i].outcome),
    decreases count,
{
    if i < count - 1 {
        assert(behind_dot(decisions[count - 1].entry_key) != Some(id));
        law_the_last_decision_counts(decisions, id, i, count - 1);
    }
}

} // verus!
