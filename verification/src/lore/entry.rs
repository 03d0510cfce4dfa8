//! Lore entries, and how they are read from an artifact.
use vstd::prelude::*;

use crate::ecma_regex::EcmaRegexError;
use crate::identity::{compact_of, compact_text, ContentHash, hash_text};
use crate::json::{
    as_flag, as_items, as_members, as_signed, as_text, as_unsigned, field, find_member,
    items_view, Json, JsonNumber, JsonNumberView, JsonView, lemma_array_view, lemma_object_view,
    member, members_view, NumberForm, NumberFormView,
};
use crate::macros::evaluate::MacroError;
use crate::text::{
    self, decimal, decimal_text, lemma_views_push, listed, option_view, split_list, views,
};

verus! {

pub const DEFAULT_ENTRY_DEPTH: usize = 4;

pub const DEFAULT_GROUP_WEIGHT: u64 = 100;

/// The integer that orders the number 100 among numbers: the bits of its double
/// precision form.
pub const HUNDRED_ORDER: i64 = 4636737291354636288;

/// Where an entry stands in a prompt.
#[derive(Clone, Copy, Debug, Eq, PartialEq, Structural)]
pub enum LorePosition {
    Before,
    After,
    AuthorNoteTop,
    AuthorNoteBottom,
    AtDepth,
    ExampleTop,
    ExampleBottom,
    Outlet,
}

/// What an entry asks of its secondary keys.
#[derive(Clone, Copy, Debug, Eq, PartialEq, Structural)]
pub enum SelectiveLogic {
    AndAny,
    NotAll,
    NotAny,
    AndAll,
}

/// A lore entry.
#[derive(Clone, Debug)]
pub struct LoreEntry {
    pub source_revision: ContentHash,
    pub source_index: usize,
    pub id: String,
    pub keys: Vec<String>,
    pub secondary_keys: Vec<String>,
    pub content: String,
    pub enabled: bool,
    pub constant: bool,
    pub selective: bool,
    pub selective_logic: SelectiveLogic,
    pub insertion_order: i64,
    pub position: LorePosition,
    pub depth: usize,
    pub role: i64,
    pub outlet: String,
    pub exclude_recursion: bool,
    pub prevent_recursion: bool,
    pub delay_until_recursion: usize,
    pub scan_depth: Option<usize>,
    pub case_sensitive: Option<bool>,
    pub match_whole_words: Option<bool>,
    pub probability: JsonNumber,
    pub use_probability: bool,
    pub group: Vec<String>,
    pub group_override: bool,
    pub group_weight: u64,
    pub sticky: usize,
    pub cooldown: usize,
    pub delay: usize,
    pub ignore_budget: bool,
    pub triggers: Vec<String>,
}

/// Why lore cannot be read or evaluated.
#[derive(Debug)]
pub enum LoreError {
    MissingEntries,
    InvalidEntries,
    InvalidEntry(String),
    Regex(EcmaRegexError),
    RegexPattern(String),
    Macro(MacroError),
    TooManyEntries { count: usize, limit: usize },
    /// The evaluation needs a reply that it was not given.
    Unresolved(LoreQuestion),
}

/// What an evaluation needs to be told.
#[derive(Clone, Debug, Eq, PartialEq)]
pub enum LoreQuestion {
    /// Does the pattern match the text?
    Matches { pattern: String, flags: String, text: String },
    /// What share of a hundred is the number, out of the largest of 64 bits?
    Percentage { value: u64 },
    /// What does the entry come to, and how many tokens is that?
    Rendering { entry_key: String },
}

impl LorePosition {
    /// The position that a number or a name stands for.
    pub open spec fn of(value: Option<JsonView>, card_position: Option<Seq<char>>) -> LorePosition {
        match as_signed(value) {
            Some(0) => LorePosition::Before,
            Some(2) => LorePosition::AuthorNoteTop,
            Some(3) => LorePosition::AuthorNoteBottom,
            Some(4) => LorePosition::AtDepth,
            Some(5) => LorePosition::ExampleTop,
            Some(6) => LorePosition::ExampleBottom,
            Some(7) => LorePosition::Outlet,
            _ => if card_position == Some("before_char"@) {
                LorePosition::Before
            } else {
                LorePosition::After
            },
        }
    }

    fn from_value(value: Option<&Json>, card_position: Option<&Json>) -> (position: Self)
        ensures
            position == Self::of(view_of(value), as_text(view_of(card_position))),
    {
        let number: Option<i64> = match value {
            Some(v) => v.signed(),
            None => None,
        };
        match number {
            Some(0) => return LorePosition::Before,
            Some(2) => return LorePosition::AuthorNoteTop,
            Some(3) => return LorePosition::AuthorNoteBottom,
            Some(4) => return LorePosition::AtDepth,
            Some(5) => return LorePosition::ExampleTop,
            Some(6) => return LorePosition::ExampleBottom,
            Some(7) => return LorePosition::Outlet,
            _ => {},
        }
        if let Some(v) = card_position {
            if let Some(t) = v.text() {
                if text::same(t.as_str(), "before_char") {
                    return LorePosition::Before;
                }
            }
        }
        LorePosition::After
    }
}

impl SelectiveLogic {
    /// The logic that a number stands for.
    pub open spec fn of(value: Option<JsonView>) -> SelectiveLogic {
        match as_signed(value) {
            Some(1) => SelectiveLogic::NotAll,
            Some(2) => SelectiveLogic::NotAny,
            Some(3) => SelectiveLogic::AndAll,
            _ => SelectiveLogic::AndAny,
        }
    }

    fn from_value(value: Option<&Json>) -> (logic: Self)
        ensures
            logic == Self::of(view_of(value)),
    {
        let number: Option<i64> = match value {
            Some(v) => v.signed(),
            None => None,
        };
        match number {
            Some(1) => SelectiveLogic::NotAll,
            Some(2) => SelectiveLogic::NotAny,
            Some(3) => SelectiveLogic::AndAll,
            _ => SelectiveLogic::AndAny,
        }
    }
}

/// The name of an entry among those of all sources.
pub open spec fn entry_key(entry: LoreEntry) -> Seq<char> {
    hash_text(entry.source_revision@) + "."@ + entry.id@
}

impl LoreEntry {
    /// The name of the entry among those of all sources.
    pub fn key(&self) -> (key: String)
        ensures
            key@ == entry_key(*self),
    {
        let mut key = self.source_revision.text();
        key.push_str(".");
        key.push_str(self.id.as_str());
        key
    }
}

/// The abstract value of a value that may be absent.
pub open spec fn view_of(value: Option<&Json>) -> Option<JsonView> {
    match value {
        Some(v) => Some(v@),
        None => None,
    }
}

/// The first value, or the second where there is none.
pub open spec fn either(
    first: Option<JsonView>,
    second: Option<JsonView>,
) -> Option<JsonView> {
    match first {
        Some(v) => Some(v),
        None => second,
    }
}

fn or_else<'a>(first: Option<&'a Json>, second: Option<&'a Json>) -> (value: Option<&'a Json>)
    ensures
        view_of(value) == either(view_of(first), view_of(second)),
{
    match first {
        Some(v) => Some(v),
        None => second,
    }
}

/// The text of a value, or nothing where it is none.
pub open spec fn text_or_empty(value: Option<JsonView>) -> Seq<char> {
    match as_text(value) {
        Some(t) => t,
        None => Seq::empty(),
    }
}

pub(crate) fn string(value: Option<&Json>) -> (text: String)
    ensures
        text@ == text_or_empty(view_of(value)),
{
    if let Some(v) = value {
        if let Some(t) = v.text() {
            return t.clone();
        }
    }
    let empty = String::new();
    proof {
        assert(empty@ =~= Seq::<char>::empty());
    }
    empty
}

/// The texts among some values, in order.
pub open spec fn texts_among(items: Seq<JsonView>) -> Seq<Seq<char>>
    decreases items.len(),
{
    if items.len() == 0 {
        Seq::empty()
    } else {
        match items.last() {
            JsonView::Text(t) => texts_among(items.drop_last()).push(t),
            _ => texts_among(items.drop_last()),
        }
    }
}

/// The texts of an array.
pub open spec fn texts_of(value: Option<JsonView>) -> Seq<Seq<char>> {
    match as_items(value) {
        Some(items) => texts_among(items),
        None => Seq::empty(),
    }
}

pub(crate) fn string_array(value: Option<&Json>) -> (texts: Vec<String>)
    ensures
        views(texts@) == texts_of(view_of(value)),
{
    let mut texts: Vec<String> = Vec::new();
    proof {
        assert(views(texts@) =~= Seq::<Seq<char>>::empty());
    }
    if let Some(v) = value {
        if let Some(items) = v.items() {
            let mut i: usize = 0;
            while i < items.len()
                invariant
                    i <= items@.len(),
                    views(texts@) == texts_among(items_view(items@).take(i as int)),
                decreases items@.len() - i,
            {
                proof {
                    assert(items_view(items@).take(i + 1).drop_last() =~= items_view(items@).take(
                        i as int,
                    ));
                    assert(items_view(items@).take(i + 1).last() == items@[i as int]@);
                }
                if let Some(t) = items[i].text() {
                    proof {
                        lemma_views_push(texts@, *t);
                    }
                    texts.push(t.clone());
                }
                i = i + 1;
            }
            proof {
                assert(items_view(items@).take(items@.len() as int) =~= items_view(items@));
            }
        }
    }
    texts
}

/// The truth value of a value, or the one given where it is none.
pub open spec fn flag_or(value: Option<JsonView>, default: bool) -> bool {
    match as_flag(value) {
        Some(b) => b,
        None => default,
    }
}

pub(crate) fn bool_value(value: Option<&Json>, default: bool) -> (flag: bool)
    ensures
        flag == flag_or(view_of(value), default),
{
    match optional_bool(value) {
        Some(b) => b,
        None => default,
    }
}

fn optional_bool(value: Option<&Json>) -> (flag: Option<bool>)
    ensures
        flag == as_flag(view_of(value)),
{
    match value {
        Some(v) => v.flag(),
        None => None,
    }
}

/// The size that a value holds.
pub open spec fn as_size(value: Option<JsonView>) -> Option<usize> {
    match as_unsigned(value) {
        Some(n) => if n <= usize::MAX {
            Some(n as usize)
        } else {
            None
        },
        None => None,
    }
}

/// The size that a value holds, or the one given where it holds none.
pub open spec fn size_or(value: Option<JsonView>, default: usize) -> usize {
    match as_size(value) {
        Some(n) => n,
        None => default,
    }
}

fn optional_usize(value: Option<&Json>) -> (size: Option<usize>)
    ensures
        size == as_size(view_of(value)),
{
    match value {
        Some(v) => match v.unsigned() {
            Some(n) => if n <= usize::MAX as u64 {
                Some(n as usize)
            } else {
                None
            },
            None => None,
        },
        None => None,
    }
}

fn usize_value(value: Option<&Json>, default: usize) -> (size: usize)
    ensures
        size == size_or(view_of(value), default),
{
    match optional_usize(value) {
        Some(n) => n,
        None => default,
    }
}

/// The number 100.
pub open spec fn hundred() -> JsonNumberView {
    JsonNumberView { form: NumberFormView::Unsigned(100), order: HUNDRED_ORDER }
}

/// The number of a value, or 100 where it is none.
pub open spec fn number_or_hundred(value: Option<JsonView>) -> JsonNumberView {
    match value {
        Some(JsonView::Number(n)) => n,
        _ => hundred(),
    }
}

fn percentage(value: Option<&Json>) -> (number: JsonNumber)
    ensures
        number@ == number_or_hundred(view_of(value)),
{
    if let Some(Json::Number(n)) = value {
        return n.copy();
    }
    JsonNumber { form: NumberForm::Unsigned(100), order: HUNDRED_ORDER }
}

/// What the extensions of an entry say of a setting, or else the entry itself.
pub open spec fn setting(
    entry: JsonView,
    extension_name: Seq<char>,
    own_name: Seq<char>,
) -> Option<JsonView> {
    match as_members(field(entry, "plugins"@)) {
        Some(extensions) => either(member(extensions, extension_name), field(entry, own_name)),
        None => field(entry, own_name),
    }
}

fn find_setting<'a>(entry: &'a Json, extension_name: &str, own_name: &str) -> (value: Option<
    &'a Json,
>)
    ensures
        view_of(value) == setting(entry@, extension_name@, own_name@),
{
    match entry.get("plugins") {
        Some(extensions) => match extensions.members() {
            Some(members) => or_else(find_member(members, extension_name), entry.get(own_name)),
            None => entry.get(own_name),
        },
        None => entry.get(own_name),
    }
}

/// The rules that an entry states of when it is active.
pub open spec fn has_conditions(entry: LoreEntry, value: JsonView) -> bool {
    &&& views(entry.keys@) == texts_of(either(field(value, "keys"@), field(value, "key"@)))
    &&& views(entry.secondary_keys@) == texts_of(
        either(field(value, "secondary_keys"@), field(value, "keysecondary"@)),
    )
    &&& entry.enabled == flag_or(field(value, "enabled"@), !flag_or(field(value, "disable"@), false))
    &&& entry.constant == flag_or(field(value, "constant"@), false)
    &&& entry.selective == flag_or(field(value, "selective"@), false)
    &&& entry.selective_logic == SelectiveLogic::of(
        setting(value, "selective_logic"@, "selectiveLogic"@),
    )
    &&& entry.scan_depth == as_size(setting(value, "scan_depth"@, "scanDepth"@))
    &&& entry.case_sensitive == as_flag(setting(value, "case_sensitive"@, "caseSensitive"@))
    &&& entry.match_whole_words == as_flag(
        setting(value, "match_whole_words"@, "matchWholeWords"@),
    )
    &&& views(entry.triggers@) == texts_of(setting(value, "triggers"@, "triggers"@))
}

/// What an entry states of recursion, time and chance.
pub open spec fn has_limits(entry: LoreEntry, value: JsonView) -> bool {
    &&& entry.exclude_recursion == flag_or(
        setting(value, "exclude_recursion"@, "excludeRecursion"@),
        false,
    )
    &&& entry.prevent_recursion == flag_or(
        setting(value, "prevent_recursion"@, "preventRecursion"@),
        false,
    )
    &&& entry.delay_until_recursion == size_or(
        setting(value, "delay_until_recursion"@, "delayUntilRecursion"@),
        0,
    )
    &&& entry.probability@ == number_or_hundred(setting(value, "probability"@, "probability"@))
    &&& entry.use_probability == flag_or(setting(value, "use_probability"@, "useProbability"@), true)
    &&& views(entry.group@) == listed(
        text_or_empty(setting(value, "group"@, "group"@)),
        ',',
        0,
    )
    &&& entry.group_override == flag_or(setting(value, "group_override"@, "groupOverride"@), false)
    &&& entry.group_weight == match as_unsigned(setting(value, "group_weight"@, "groupWeight"@)) {
        Some(weight) => weight,
        None => DEFAULT_GROUP_WEIGHT,
    }
    &&& entry.sticky == size_or(setting(value, "sticky"@, "sticky"@), 0)
    &&& entry.cooldown == size_or(setting(value, "cooldown"@, "cooldown"@), 0)
    &&& entry.delay == size_or(setting(value, "delay"@, "delay"@), 0)
    &&& entry.ignore_budget == flag_or(setting(value, "ignore_budget"@, "ignoreBudget"@), false)
}

/// What an entry puts into a prompt, and where.
pub open spec fn has_placement(entry: LoreEntry, value: JsonView) -> bool {
    &&& entry.content@ == text_or_empty(field(value, "content"@))
    &&& entry.insertion_order == match as_signed(
        either(field(value, "insertion_order"@), field(value, "order"@)),
    ) {
        Some(order) => order,
        None => 100,
    }
    &&& entry.position == LorePosition::of(
        setting(value, "position"@, "position"@),
        as_text(field(value, "position"@)),
    )
    &&& entry.depth == size_or(setting(value, "depth"@, "depth"@), DEFAULT_ENTRY_DEPTH)
    &&& entry.role == match as_signed(setting(value, "role"@, "role"@)) {
        Some(role) => role,
        None => 0,
    }
    &&& entry.outlet@ == text_or_empty(setting(value, "outlet_name"@, "outletName"@))
}

/// The entry that an object describes.
pub open spec fn is_entry(
    entry: LoreEntry,
    revision: Seq<u8>,
    source_index: usize,
    id: Seq<char>,
    value: JsonView,
) -> bool {
    &&& value is Object
    &&& entry.source_revision@ == revision
    &&& entry.source_index == source_index
    &&& entry.id@ == id
    &&& has_conditions(entry, value)
    &&& has_limits(entry, value)
    &&& has_placement(entry, value)
}

/// Reads one entry.
pub fn parse_entry(
    revision: &ContentHash,
    source_index: usize,
    id: String,
    value: &Json,
) -> (r: Result<LoreEntry, LoreError>)
    ensures
        match r {
            Ok(entry) => is_entry(entry, revision@, source_index, id@, value@),
            Err(e) => !(value@ is Object) && e == LoreError::InvalidEntry(id),
        },
{
    if value.members().is_none() {
        return Err(LoreError::InvalidEntry(id));
    }
    let enabled = match optional_bool(value.get("enabled")) {
        Some(enabled) => enabled,
        None => !bool_value(value.get("disable"), false),
    };
    let order: Option<i64> = match or_else(value.get("insertion_order"), value.get("order")) {
        Some(v) => v.signed(),
        None => None,
    };
    let insertion_order: i64 = match order {
        Some(order) => order,
        None => 100,
    };
    let stated_role: Option<i64> = match find_setting(value, "role", "role") {
        Some(v) => v.signed(),
        None => None,
    };
    let role: i64 = match stated_role {
        Some(role) => role,
        None => 0,
    };
    let stated_weight: Option<u64> = match find_setting(value, "group_weight", "groupWeight") {
        Some(v) => v.unsigned(),
        None => None,
    };
    let group_weight: u64 = match stated_weight {
        Some(weight) => weight,
        None => DEFAULT_GROUP_WEIGHT,
    };
    Ok(
        LoreEntry {
            source_revision: *revision,
            source_index,
            id,
            keys: string_array(or_else(value.get("keys"), value.get("key"))),
            secondary_keys: string_array(
                or_else(value.get("secondary_keys"), value.get("keysecondary")),
            ),
            content: string(value.get("content")),
            enabled,
            constant: bool_value(value.get("constant"), false),
            selective: bool_value(value.get("selective"), false),
            selective_logic: SelectiveLogic::from_value(
                find_setting(value, "selective_logic", "selectiveLogic"),
            ),
            insertion_order,
            position: LorePosition::from_value(
                find_setting(value, "position", "position"),
                value.get("position"),
            ),
            depth: usize_value(find_setting(value, "depth", "depth"), DEFAULT_ENTRY_DEPTH),
            role,
            outlet: string(find_setting(value, "outlet_name", "outletName")),
            exclude_recursion: bool_value(
                find_setting(value, "exclude_recursion", "excludeRecursion"),
                false,
            ),
            prevent_recursion: bool_value(
                find_setting(value, "prevent_recursion", "preventRecursion"),
                false,
            ),
            delay_until_recursion: usize_value(
                find_setting(value, "delay_until_recursion", "delayUntilRecursion"),
                0,
            ),
            scan_depth: optional_usize(find_setting(value, "scan_depth", "scanDepth")),
            case_sensitive: optional_bool(find_setting(value, "case_sensitive", "caseSensitive")),
            match_whole_words: optional_bool(
                find_setting(value, "match_whole_words", "matchWholeWords"),
            ),
            probability: percentage(find_setting(value, "probability", "probability")),
            use_probability: bool_value(
                find_setting(value, "use_probability", "useProbability"),
                true,
            ),
            group: split_list(string(find_setting(value, "group", "group")).as_str(), ','),
            group_override: bool_value(find_setting(value, "group_override", "groupOverride"), false),
            group_weight,
            sticky: usize_value(find_setting(value, "sticky", "sticky"), 0),
            cooldown: usize_value(find_setting(value, "cooldown", "cooldown"), 0),
            delay: usize_value(find_setting(value, "delay", "delay"), 0),
            ignore_budget: bool_value(find_setting(value, "ignore_budget", "ignoreBudget"), false),
            triggers: string_array(find_setting(value, "triggers", "triggers")),
        },
    )
}

/// The entries of an artifact: its own, or those of the book of its character.
pub open spec fn entries_of(semantic: JsonView) -> Option<JsonView> {
    either(
        field(semantic, "entries"@),
        match field(semantic, "data"@) {
            Some(data) => match field(data, "character_book"@) {
                Some(book) => field(book, "entries"@),
                None => None,
            },
            None => None,
        },
    )
}

fn find_entries(semantic: &Json) -> (entries: Option<&Json>)
    ensures
        view_of(entries) == entries_of(semantic@),
{
    let own = semantic.get("entries");
    if own.is_some() {
        return own;
    }
    match semantic.get("data") {
        Some(data) => match data.get("character_book") {
            Some(book) => book.get("entries"),
            None => None,
        },
        None => None,
    }
}

/// The identity of an entry of a list: the one it states, or its place.
pub open spec fn listed_id(entry: JsonView, index: int) -> Option<Seq<char>> {
    match field(entry, "id"@) {
        Some(JsonView::Text(t)) => Some(t),
        Some(other) => compact_of(other),
        None => Some(decimal(index as nat)),
    }
}

/// The identity of an entry at a place among the entries of an artifact.
pub open spec fn id_at(entries: JsonView, index: int) -> Option<Seq<char>> {
    match entries {
        JsonView::Array(items) => listed_id(items[index], index),
        JsonView::Object(members) => Some(members[index].0),
        _ => None,
    }
}

/// The value at a place among the entries of an artifact.
pub open spec fn value_at(entries: JsonView, index: int) -> JsonView {
    match entries {
        JsonView::Array(items) => items[index],
        JsonView::Object(members) => members[index].1,
        _ => JsonView::Null,
    }
}

/// How many entries an artifact has, where they are a list or named.
pub open spec fn entry_count(entries: JsonView) -> Option<int> {
    match entries {
        JsonView::Array(items) => Some(items.len() as int),
        JsonView::Object(members) => Some(members.len() as int),
        _ => None,
    }
}

/// Every entry of an artifact has an identity.
pub open spec fn identified(entries: JsonView) -> bool {
    match entry_count(entries) {
        Some(count) => forall|i: int| 0 <= i < count ==> #[trigger] id_at(entries, i) is Some,
        None => false,
    }
}

fn item_id(entry: &Json, index: usize) -> (id: Option<String>)
    ensures
        option_view(id) == listed_id(entry@, index as int),
{
    match entry.get("id") {
        Some(value) => match value.text() {
            Some(t) => Some(t.clone()),
            None => compact_text(value),
        },
        None => Some(decimal_text(index as u64)),
    }
}

/// What reading the entries of an artifact comes to.
pub open spec fn is_entry_list(
    r: Result<Vec<LoreEntry>, LoreError>,
    revision: Seq<u8>,
    semantic: JsonView,
    source_index: usize,
    limit: usize,
) -> bool {
    match entries_of(semantic) {
        None => r == Err::<Vec<LoreEntry>, LoreError>(LoreError::MissingEntries),
        Some(entries) => if !identified(entries) {
            r == Err::<Vec<LoreEntry>, LoreError>(LoreError::InvalidEntries)
        } else if entry_count(entries)->0 > limit {
            r matches Err(LoreError::TooManyEntries { count, limit: allowed }) && count
                == entry_count(entries)->0 && allowed == limit
        } else {
            match r {
                Ok(list) => {
                    &&& list@.len() == entry_count(entries)->0
                    &&& forall|i: int|
                        0 <= i < list@.len() ==> is_entry(
                            #[trigger] list@[i],
                            revision,
                            source_index,
                            id_at(entries, i)->0,
                            value_at(entries, i),
                        )
                },
                Err(LoreError::InvalidEntry(id)) => exists|i: int| #[trigger]
                    is_first_invalid(entries, i) && id@ == id_at(entries, i)->0,
                Err(_) => false,
            }
        },
    }
}

/// The first entry that is no object stands at `index`.
pub open spec fn is_first_invalid(entries: JsonView, index: int) -> bool {
    &&& 0 <= index < entry_count(entries)->0
    &&& !(value_at(entries, index) is Object)
    &&& forall|k: int| 0 <= k < index ==> #[trigger] value_at(entries, k) is Object
}

fn collect_ids(entries: &Json) -> (ids: Option<Vec<String>>)
    ensures
        match ids {
            Some(list) => {
                &&& identified(entries@)
                &&& list@.len() == entry_count(entries@)->0
                &&& forall|i: int|
                    0 <= i < list@.len() ==> id_at(entries@, i) == Some((#[trigger] list@[i])@)
            },
            None => !identified(entries@),
        },
{
    let mut ids: Vec<String> = Vec::new();
    if let Some(items) = entries.items() {
        let mut i: usize = 0;
        while i < items.len()
            invariant
                i <= items@.len(),
                entries@ == JsonView::Array(items_view(items@)),
                ids@.len() == i,
                forall|j: int|
                    0 <= j < i ==> id_at(entries@, j) == Some((#[trigger] ids@[j])@),
            decreases items@.len() - i,
        {
            proof {
                assert(items_view(items@)[i as int] == items@[i as int]@);
            }
            match item_id(&items[i], i) {
                Some(id) => ids.push(id),
                None => {
                    proof {
                        assert(id_at(entries@, i as int) is None);
                    }
                    return None;
                },
            }
            i = i + 1;
        }
        proof {
            assert forall|j: int| 0 <= j < items@.len() implies #[trigger] id_at(
                entries@,
                j,
            ) is Some by {
                assert(id_at(entries@, j) == Some(ids@[j]@));
            }
        }
        return Some(ids);
    }
    if let Some(members) = entries.members() {
        let mut i: usize = 0;
        while i < members.len()
            invariant
                i <= members@.len(),
                entries@ == JsonView::Object(members_view(members@)),
                ids@.len() == i,
                forall|j: int|
                    0 <= j < i ==> id_at(entries@, j) == Some((#[trigger] ids@[j])@),
            decreases members@.len() - i,
        {
            proof {
                assert(members_view(members@)[i as int].0 == members@[i as int].0@);
            }
            ids.push(members[i].0.clone());
            i = i + 1;
        }
        return Some(ids);
    }
    None
}

fn entry_at(entries: &Json, index: usize) -> (value: &Json)
    requires
        entry_count(entries@) is Some,
        index < entry_count(entries@)->0,
    ensures
        value@ == value_at(entries@, index as int),
{
    match entries {
        Json::Array(items) => {
            proof {
                lemma_array_view(*items);
                assert(items_view(items@)[index as int] == items@[index as int]@);
            }
            &items[index]
        },
        Json::Object(members) => {
            proof {
                lemma_object_view(*members);
                assert(members_view(members@)[index as int].1 == members@[index as int].1@);
            }
            &members[index].1
        },
        _ => entries,
    }
}

/// Reads the entries of an artifact, of which there may be `limit`.
pub fn parse_lore_entries(
    revision: &ContentHash,
    semantic: &Json,
    source_index: usize,
    limit: usize,
) -> (r: Result<Vec<LoreEntry>, LoreError>)
    ensures
        is_entry_list(r, revision@, semantic@, source_index, limit),
{
    let entries = match find_entries(semantic) {
        Some(entries) => entries,
        None => return Err(LoreError::MissingEntries),
    };
    let ids = match collect_ids(entries) {
        Some(ids) => ids,
        None => return Err(LoreError::InvalidEntries),
    };
    let count: usize = ids.len();
    if count > limit {
        return Err(LoreError::TooManyEntries { count, limit });
    }
    let mut list: Vec<LoreEntry> = Vec::new();
    let mut i: usize = 0;
    while i < count
        invariant
            i <= count,
            count == ids@.len(),
            entry_count(entries@) == Some(count as int),
            list@.len() == i,
            forall|j: int|
                0 <= j < count ==> id_at(entries@, j) == Some((#[trigger] ids@[j])@),
            forall|j: int|
                0 <= j < i ==> is_entry(
                    #[trigger] list@[j],
                    revision@,
                    source_index,
                    id_at(entries@, j)->0,
                    value_at(entries@, j),
                ),
            forall|j: int| 0 <= j < i ==> #[trigger] value_at(entries@, j) is Object,
            entries_of(semantic@) == Some(entries@),
            identified(entries@),
            count <= limit,
        decreases count - i,
    {
        let ghost before = list@;
        match parse_entry(revision, source_index, ids[i].clone(), entry_at(entries, i)) {
            Ok(entry) => list.push(entry),
            Err(e) => {
                proof {
                    assert(is_first_invalid(entries@, i as int));
                }
                return Err(e);
            },
        }
        i = i + 1;
    }
    Ok(list)
}

/// An entry is enabled as it says, or else unless it says that it is disabled.
pub proof fn law_entries_are_enabled_unless_they_say_not(
    entry: LoreEntry,
    revision: Seq<u8>,
    source_index: usize,
    id: Seq<char>,
    value: JsonView,
)
    requires
        is_entry(entry, revision, source_index, id, value),
    ensures
        field(value, "enabled"@) matches Some(JsonView::Bool(b)) ==> entry.enabled == b,
        as_flag(field(value, "enabled"@)) is None ==> (entry.enabled <==> field(
            value,
            "disable"@,
        ) != Some(JsonView::Bool(true))),
        entry.constant <==> field(value, "constant"@) == Some(JsonView::Bool(true)),
        entry.selective <==> field(value, "selective"@) == Some(JsonView::Bool(true)),
{
}

/// The keys of an entry are those under the one name or, where that is missing, those
/// under the other.
pub proof fn law_keys_go_by_either_name(
    entry: LoreEntry,
    revision: Seq<u8>,
    source_index: usize,
    id: Seq<char>,
    value: JsonView,
)
    requires
        is_entry(entry, revision, source_index, id, value),
    ensures
        field(value, "keys"@) is Some ==> views(entry.keys@) == texts_of(field(value, "keys"@)),
        field(value, "keys"@) is None ==> views(entry.keys@) == texts_of(field(value, "key"@)),
        field(value, "secondary_keys"@) is Some ==> views(entry.secondary_keys@) == texts_of(
            field(value, "secondary_keys"@),
        ),
        field(value, "secondary_keys"@) is None ==> views(entry.secondary_keys@) == texts_of(
            field(value, "keysecondary"@),
        ),
{
}

/// What the extensions of an entry say of a setting counts, and what the entry itself
/// says only where they say nothing.
pub proof fn law_extensions_speak_first(
    value: JsonView,
    extensions: Seq<(Seq<char>, JsonView)>,
    extension_name: Seq<char>,
    own_name: Seq<char>,
)
    requires
        field(value, "plugins"@) == Some(JsonView::Object(extensions)),
    ensures
        member(extensions, extension_name) is Some ==> setting(value, extension_name, own_name)
            == member(extensions, extension_name),
        member(extensions, extension_name) is None ==> setting(value, extension_name, own_name)
            == field(value, own_name),
{
}

/// The logic of secondary keys goes by its number: any of them, not all, none, all.
pub proof fn law_logic_goes_by_number(value: Option<JsonView>)
    ensures
        SelectiveLogic::of(value) == SelectiveLogic::NotAll <==> as_signed(value) == Some(1i64),
        SelectiveLogic::of(value) == SelectiveLogic::NotAny <==> as_signed(value) == Some(2i64),
        SelectiveLogic::of(value) == SelectiveLogic::AndAll <==> as_signed(value) == Some(3i64),
        SelectiveLogic::of(value) == SelectiveLogic::AndAny <==> as_signed(value) != Some(1i64)
            && as_signed(value) != Some(2i64) && as_signed(value) != Some(3i64),
{
}

/// The position of an entry goes by its number; without one a card's word for the
/// place in front counts, and else it stands behind.
pub proof fn law_positions_go_by_number(value: Option<JsonView>, word: Option<Seq<char>>)
    ensures
        as_signed(value) == Some(0i64) ==> LorePosition::of(value, word) == LorePosition::Before,
        as_signed(value) == Some(1i64) && word is None ==> LorePosition::of(value, word)
            == LorePosition::After,
        LorePosition::of(value, word) == LorePosition::AuthorNoteTop <==> as_signed(value)
            == Some(2i64),
        LorePosition::of(value, word) == LorePosition::AuthorNoteBottom <==> as_signed(value)
            == Some(3i64),
        LorePosition::of(value, word) == LorePosition::AtDepth <==> as_signed(value) == Some(
            4i64,
        ),
        LorePosition::of(value, word) == LorePosition::ExampleTop <==> as_signed(value) == Some(
            5i64,
        ),
        LorePosition::of(value, word) == LorePosition::ExampleBottom <==> as_signed(value)
            == Some(6i64),
        LorePosition::of(value, word) == LorePosition::Outlet <==> as_signed(value) == Some(7i64),
        as_signed(value) is None ==> (LorePosition::of(value, word) == LorePosition::Before
            <==> word == Some("before_char"@)),
{
}

/// The texts of a list are told in order, and nothing else in it is.
pub proof fn law_texts_are_told_in_order(items: Seq<JsonView>, item: JsonView)
    ensures
        item matches JsonView::Text(t) ==> texts_among(items.push(item)) == texts_among(
            items,
        ).push(t),
        !(item is Text) ==> texts_among(items.push(item)) == texts_among(items),
        texts_among(Seq::empty()).len() == 0,
{
    assert(items.push(item).drop_last() =~= items);
}

} // verus!
