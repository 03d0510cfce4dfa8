//! Compatibility profiles: what an engine makes of what it meets.
use vstd::prelude::*;

use crate::assoc;
use crate::identity::hex_value;
use crate::text::{
    self, ascii_lower_text, blank, contains_text, is_blank, lemma_lex_transitive, less, lex_less,
    lowercase, lowercase_of, same_ignoring_case, to_chars, views,
};

verus! {

pub const PROFILE_SCHEMA: &'static str = "stcli.compat-profile/v1";

/// A compatibility profile.
#[derive(Clone, Debug, Eq, PartialEq)]
pub struct CompatibilityProfile {
    pub schema: String,
    pub id: String,
    pub upstream: UpstreamRevision,
    pub scope: ProfileScope,
    pub macros: MacroManifest,
    pub preset_fields: Vec<(String, CompatibilityOutcome)>,
}

/// What becomes of something that an engine meets.
#[derive(Clone, Copy, Debug, Eq, PartialEq, Structural)]
pub enum CompatibilityOutcome {
    ProviderBehavior,
    AssemblyBehavior,
    Exact,
    PreservedMetadata,
    DocumentedFallback,
    HardUnsupported,
}

/// Something that an engine may meet.
#[derive(Clone, Debug, Eq, PartialEq)]
pub struct CompatibilitySubject {
    pub kind: CompatibilitySubjectKind,
    pub name: String,
}

/// The kinds of what an engine may meet.
#[derive(Clone, Copy, Debug, Eq, PartialEq, Structural)]
pub enum CompatibilitySubjectKind {
    Format,
    Generation,
    PromptPath,
    Macro,
    Metadata,
    PresetField,
    Feature,
}

/// The program that a profile is compatible with.
#[derive(Clone, Debug, Eq, PartialEq)]
pub struct UpstreamRevision {
    pub repository: String,
    pub tag: String,
    pub commit: String,
    pub version: String,
}

/// What a profile covers.
#[derive(Clone, Debug, Eq, PartialEq)]
pub struct ProfileScope {
    pub formats: Vec<String>,
    pub prompt_path: String,
    pub generation_types: Vec<String>,
    pub documented_fallback: Vec<String>,
    pub hard_unsupported: Vec<String>,
    pub preserved_metadata: Vec<String>,
}

/// The macros that a profile covers.
#[derive(Clone, Debug, Eq, PartialEq)]
pub struct MacroManifest {
    pub exact: Vec<String>,
    pub documented_fallback: Vec<(String, String)>,
    pub hard_unsupported: Vec<String>,
    pub source_files: Vec<String>,
}

/// Why a profile is not taken.
#[derive(Clone, Debug, Eq, PartialEq)]
pub enum ProfileError {
    Read(String),
    Decode(String),
    UnsupportedSchema(String),
    EmptyId,
    InvalidCommit(String),
    EmptyMacro,
    UnsortedOrDuplicateMacro { previous: String, current: String },
}

/// A hexadecimal digit, large or small.
pub open spec fn hex_letter(c: char) -> bool {
    hex_value(c) is Some
}

/// A name of so many hexadecimal digits.
pub open spec fn is_hex_name(name: Seq<char>, digits: nat) -> bool {
    name.len() == digits && forall|i: int|
        0 <= i < name.len() ==> hex_letter(#[trigger] name[i])
}

/// Whether a name is made of so many hexadecimal digits.
pub fn check_hex_name(name: &str, digits: usize) -> (r: bool)
    ensures
        r == is_hex_name(name@, digits as nat),
{
    let chars = to_chars(name);
    if chars.len() != digits {
        return false;
    }
    let mut i: usize = 0;
    while i < chars.len()
        invariant
            i <= chars@.len(),
            chars@ == name@,
            forall|j: int| 0 <= j < i ==> hex_letter(#[trigger] name@[j]),
        decreases chars@.len() - i,
    {
        let code: u32 = chars[i] as u32;
        if !((48 <= code && code <= 57) || (97 <= code && code <= 102) || (65 <= code && code
            <= 70)) {
            proof {
                assert(!hex_letter(name@[i as int]));
            }
            return false;
        }
        i = i + 1;
    }
    true
}

/// What is wrong with the macros from place `i` on, if anything is: an empty
/// name, or one that does not come behind the one before it, whatever the case.
pub open spec fn macros_error(names: Seq<String>, i: int) -> Option<ProfileError>
    decreases names.len() - i,
{
    if i < 0 || i >= names.len() {
        None
    } else if blank(names[i]@) {
        Some(ProfileError::EmptyMacro)
    } else if i > 0 && !lex_less(lowercase_of(names[i - 1]@), lowercase_of(names[i]@)) {
        Some(
            ProfileError::UnsortedOrDuplicateMacro { previous: names[i - 1], current: names[i] },
        )
    } else {
        macros_error(names, i + 1)
    }
}

/// What is wrong with a profile, if anything is.
pub open spec fn profile_error(profile: CompatibilityProfile) -> Option<ProfileError> {
    if profile.schema@ != PROFILE_SCHEMA@ {
        Some(ProfileError::UnsupportedSchema(profile.schema))
    } else if blank(profile.id@) {
        Some(ProfileError::EmptyId)
    } else if !is_hex_name(profile.upstream.commit@, 40) {
        Some(ProfileError::InvalidCommit(profile.upstream.commit))
    } else {
        macros_error(profile.macros.exact@, 0)
    }
}

/// A name is among others, whatever the case of its letters.
pub open spec fn names_ignoring_case(names: Seq<String>, name: Seq<char>) -> bool {
    exists|i: int|
        0 <= i < names.len() && ascii_lower_text((#[trigger] names[i])@) == ascii_lower_text(name)
}

fn contains_case_insensitive(names: &Vec<String>, name: &str) -> (r: bool)
    ensures
        r == names_ignoring_case(names@, name@),
{
    let mut i: usize = 0;
    while i < names.len()
        invariant
            i <= names@.len(),
            forall|j: int|
                0 <= j < i ==> ascii_lower_text((#[trigger] names@[j])@) != ascii_lower_text(name@),
        decreases names@.len() - i,
    {
        if same_ignoring_case(names[i].as_str(), name) {
            return true;
        }
        i = i + 1;
    }
    false
}

/// `outcome` where it holds, or else that something is not supported.
pub open spec fn supported(holds: bool, outcome: CompatibilityOutcome) -> CompatibilityOutcome {
    if holds {
        outcome
    } else {
        CompatibilityOutcome::HardUnsupported
    }
}

/// What becomes of something that an engine meets.
pub open spec fn outcome_of(
    profile: CompatibilityProfile,
    kind: CompatibilitySubjectKind,
    name: Seq<char>,
) -> CompatibilityOutcome {
    match kind {
        CompatibilitySubjectKind::Format => supported(
            views(profile.scope.formats@).contains(name),
            CompatibilityOutcome::Exact,
        ),
        CompatibilitySubjectKind::Generation => supported(
            views(profile.scope.generation_types@).contains(name),
            CompatibilityOutcome::Exact,
        ),
        CompatibilitySubjectKind::PromptPath => supported(
            ascii_lower_text(profile.scope.prompt_path@) == ascii_lower_text(name),
            CompatibilityOutcome::Exact,
        ),
        CompatibilitySubjectKind::Macro => if names_ignoring_case(profile.macros.exact@, name) {
            CompatibilityOutcome::Exact
        } else if names_ignoring_case(profile.macros.hard_unsupported@, name) {
            CompatibilityOutcome::HardUnsupported
        } else {
            CompatibilityOutcome::DocumentedFallback
        },
        CompatibilitySubjectKind::Metadata => supported(
            views(profile.scope.preserved_metadata@).contains(name),
            CompatibilityOutcome::PreservedMetadata,
        ),
        CompatibilitySubjectKind::PresetField => match assoc::lookup(
            profile.preset_fields@,
            name,
        ) {
            Some(outcome) => outcome,
            None => CompatibilityOutcome::HardUnsupported,
        },
        CompatibilitySubjectKind::Feature => supported(
            views(profile.scope.documented_fallback@).contains(name),
            CompatibilityOutcome::DocumentedFallback,
        ),
    }
}

fn pick(holds: bool, outcome: CompatibilityOutcome) -> (r: CompatibilityOutcome)
    ensures
        r == supported(holds, outcome),
{
    if holds {
        outcome
    } else {
        CompatibilityOutcome::HardUnsupported
    }
}

impl CompatibilityProfile {
    /// Checks a profile.
    pub fn validate(&self) -> (r: Result<(), ProfileError>)
        ensures
            match r {
                Ok(()) => profile_error(*self) is None,
                Err(e) => profile_error(*self) == Some(e),
            },
    {
        if !text::same(self.schema.as_str(), PROFILE_SCHEMA) {
            return Err(ProfileError::UnsupportedSchema(self.schema.clone()));
        }
        if is_blank(self.id.as_str()) {
            return Err(ProfileError::EmptyId);
        }
        if !check_hex_name(self.upstream.commit.as_str(), 40) {
            return Err(ProfileError::InvalidCommit(self.upstream.commit.clone()));
        }
        let names = &self.macros.exact;
        let mut i: usize = 0;
        while i < names.len()
            invariant
                i <= names@.len(),
                *names == self.macros.exact,
                profile_error(*self) == macros_error(names@, i as int),
            decreases names@.len() - i,
        {
            if is_blank(names[i].as_str()) {
                return Err(ProfileError::EmptyMacro);
            }
            if i > 0 && !less(
                lowercase(names[i - 1].as_str()).as_str(),
                lowercase(names[i].as_str()).as_str(),
            ) {
                return Err(
                    ProfileError::UnsortedOrDuplicateMacro {
                        previous: names[i - 1].clone(),
                        current: names[i].clone(),
                    },
                );
            }
            i = i + 1;
        }
        Ok(())
    }

    /// Tells what becomes of something that an engine meets.
    pub fn classify(&self, subject: &CompatibilitySubject) -> (outcome: CompatibilityOutcome)
        ensures
            outcome == outcome_of(*self, subject.kind, subject.name@),
    {
        let name: &str = subject.name.as_str();
        match subject.kind {
            CompatibilitySubjectKind::Format => pick(
                contains_text(&self.scope.formats, name),
                CompatibilityOutcome::Exact,
            ),
            CompatibilitySubjectKind::Generation => pick(
                contains_text(&self.scope.generation_types, name),
                CompatibilityOutcome::Exact,
            ),
            CompatibilitySubjectKind::PromptPath => pick(
                same_ignoring_case(self.scope.prompt_path.as_str(), name),
                CompatibilityOutcome::Exact,
            ),
            CompatibilitySubjectKind::Macro => if contains_case_insensitive(
                &self.macros.exact,
                name,
            ) {
                CompatibilityOutcome::Exact
            } else if contains_case_insensitive(&self.macros.hard_unsupported, name) {
                CompatibilityOutcome::HardUnsupported
            } else {
                CompatibilityOutcome::DocumentedFallback
            },
            CompatibilitySubjectKind::Metadata => pick(
                contains_text(&self.scope.preserved_metadata, name),
                CompatibilityOutcome::PreservedMetadata,
            ),
            CompatibilitySubjectKind::PresetField => match assoc::find(
                &self.preset_fields,
                name,
            ) {
                Some(outcome) => *outcome,
                None => CompatibilityOutcome::HardUnsupported,
            },
            CompatibilitySubjectKind::Feature => pick(
                contains_text(&self.scope.documented_fallback, name),
                CompatibilityOutcome::DocumentedFallback,
            ),
        }
    }
}

/// The macros of a profile that is taken are in strictly ascending order,
/// whatever the case of their letters, and so no two are the same.
pub proof fn law_exact_macros_are_sorted(profile: CompatibilityProfile, i: int, j: int)
    requires
        profile_error(profile) is None,
        0 <= i < j < profile.macros.exact@.len(),
    ensures
        lex_less(
            lowercase_of(profile.macros.exact@[i]@),
            lowercase_of(profile.macros.exact@[j]@),
        ),
    decreases j - i,
{
    let names = profile.macros.exact@;
    lemma_macros_ordered(names, 0, j);
    if i < j - 1 {
        law_exact_macros_are_sorted(profile, i, j - 1);
        lemma_lex_transitive(
            lowercase_of(names[i]@),
            lowercase_of(names[j - 1]@),
            lowercase_of(names[j]@),
        );
    }
}

proof fn lemma_macros_ordered(names: Seq<String>, i: int, j: int)
    requires
        macros_error(names, i) is None,
        0 <= i <= j < names.len(),
        0 < j,
    ensures
        lex_less(lowercase_of(names[j - 1]@), lowercase_of(names[j]@)),
    decreases j - i,
{
    if i < j {
        lemma_macros_ordered(names, i + 1, j);
    }
}

/// A macro that a profile supports exactly does so in capitals and in small letters
/// alike; one that it rules out and does not support is unsupported; all others fall
/// back.
pub proof fn law_macros_are_judged_whatever_the_case(
    profile: CompatibilityProfile,
    name: Seq<char>,
    other: Seq<char>,
    i: int,
)
    requires
        ascii_lower_text(name) == ascii_lower_text(other),
    ensures
        outcome_of(profile, CompatibilitySubjectKind::Macro, name) == outcome_of(
            profile,
            CompatibilitySubjectKind::Macro,
            other,
        ),
        0 <= i < profile.macros.exact@.len() ==> outcome_of(
            profile,
            CompatibilitySubjectKind::Macro,
            profile.macros.exact@[i]@,
        ) == CompatibilityOutcome::Exact,
        outcome_of(profile, CompatibilitySubjectKind::Macro, name)
            == CompatibilityOutcome::HardUnsupported ==> exists|k: int|
            0 <= k < profile.macros.hard_unsupported@.len() && ascii_lower_text(
                (#[trigger] profile.macros.hard_unsupported@[k])@,
            ) == ascii_lower_text(name),
{
    if 0 <= i < profile.macros.exact@.len() {
        assert(ascii_lower_text(profile.macros.exact@[i]@) == ascii_lower_text(
            profile.macros.exact@[i]@,
        ));
    }
}

/// A format or a kind of generation is exact where the profile lists it, metadata is
/// preserved and a feature falls back where it lists it; what is not listed is
/// unsupported.
pub proof fn law_what_is_not_listed_is_unsupported(
    profile: CompatibilityProfile,
    name: Seq<char>,
)
    ensures
        outcome_of(profile, CompatibilitySubjectKind::Format, name) == if is_listed(
            profile.scope.formats@,
            name,
        ) {
            CompatibilityOutcome::Exact
        } else {
            CompatibilityOutcome::HardUnsupported
        },
        outcome_of(profile, CompatibilitySubjectKind::Generation, name) == if is_listed(
            profile.scope.generation_types@,
            name,
        ) {
            CompatibilityOutcome::Exact
        } else {
            CompatibilityOutcome::HardUnsupported
        },
        outcome_of(profile, CompatibilitySubjectKind::Metadata, name) == if is_listed(
            profile.scope.preserved_metadata@,
            name,
        ) {
            CompatibilityOutcome::PreservedMetadata
        } else {
            CompatibilityOutcome::HardUnsupported
        },
        outcome_of(profile, CompatibilitySubjectKind::Feature, name) == if is_listed(
            profile.scope.documented_fallback@,
            name,
        ) {
            CompatibilityOutcome::DocumentedFallback
        } else {
            CompatibilityOutcome::HardUnsupported
        },
{
    lemma_listed(profile.scope.formats@, name);
    lemma_listed(profile.scope.generation_types@, name);
    lemma_listed(profile.scope.preserved_metadata@, name);
    lemma_listed(profile.scope.documented_fallback@, name);
}

/// A name is one of some.
pub open spec fn is_listed(names: Seq<String>, name: Seq<char>) -> bool {
    exists|i: int| 0 <= i < names.len() && (#[trigger] names[i])@ == name
}

proof fn lemma_listed(names: Seq<String>, name: Seq<char>)
    ensures
        is_listed(names, name) <==> views(names).contains(name),
{
    if is_listed(names, name) {
        let i = choose|i: int| 0 <= i < names.len() && (#[trigger] names[i])@ == name;
        assert(views(names)[i] == name);
    }
    if views(names).contains(name) {
        let i = choose|i: int| 0 <= i < views(names).len() && views(names)[i] == name;
        assert(names[i]@ == name);
    }
}

} // verus!
