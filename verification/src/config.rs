//! The configuration of a host: provider profiles and enabled extensions.
use vstd::prelude::*;

use crate::assoc;
use crate::document::{
    self, ensure_section, has_distinct_keys, has_item, inner_mut, item_at, item_shape, ItemShape,
    key_place, keys_of, keys_without, law_merged_values_read_as_wanted, law_other_entries_stay,
    law_other_sections_stay, lemma_item_is_put, lemma_keys_without, lemma_other_items_stay,
    lemma_others_stay_without, lemma_others_stay_without_keys, lemma_place_from,
    lemma_taken_keys_are_gone, lemma_unmet_keys_stay, merge, read_document, remove_item,
    rename_entry, renamed, root_mut, table_of, toml_document, toml_text, TomlDocument, TomlItem,
    TomlTable, update_entry, updated, with_item, with_section, without, without_keys,
    write_document,
};
use crate::egress::{copy_allowances, EgressAllowance};
use crate::identity::ContentHash;
use crate::json::Json;
use crate::plugin::{
    copy_capabilities, InstalledPlugin, is_pinned, is_version, is_within, PluginCapability,
    PluginError, PluginRegistry, PluginRuntime, version_parses, within,
};
use crate::provider::ProviderSettings;
use crate::session::PluginPin;
use crate::text::{self, blank, interspersed, is_blank, join_texts, views};

verus! {

/// The configuration of a host, each list in ascending order of its names.
#[derive(Clone, Debug)]
pub struct Config {
    pub providers: Vec<(String, ProviderSettings)>,
    pub enabled_extensions: Vec<(String, GlobalExtensionPin)>,
}

/// An extension that new sessions are bound to.
#[derive(Clone, Debug)]
pub struct GlobalExtensionPin {
    pub version: String,
    pub digest: ContentHash,
    pub settings: Json,
    pub egress_allow_list: Vec<EgressAllowance>,
}

/// A draft of a provider profile.
#[derive(Clone, Debug, Eq, PartialEq)]
pub struct ProviderTemplate {
    pub name: String,
    pub id: String,
    pub base_url: String,
    pub chat_completions_path: String,
    pub api_key_env: Option<String>,
    pub credential_key: Option<String>,
    pub default_model: String,
    pub stream: bool,
    pub timeout_seconds: u64,
}

/// Why a configuration does not hold what it should.
#[derive(Clone, Debug, Eq, PartialEq)]
pub enum ParseError {
    Toml(String),
    EmptyProfileName,
    InvalidProfile { name: String, source: String },
    EmptyExtensionId,
    EmptyExtensionVersion(String),
    InvalidExtensionVersion { id: String },
    InvalidExtensionSettings(String),
}

/// Why a configuration cannot be had, used or changed.
#[derive(Clone, Debug)]
pub enum ConfigError {
    Read { path: String, source: String },
    Parse { path: String, source: ParseError },
    ProfileNotFound { name: String, available: Vec<String> },
    ProfileAlreadyExists(String),
    InvalidProfile { name: String, source: ParseError },
    Edit { path: String, source: String },
    Serialize(String),
    ProvidersNotTable { path: String },
    InvalidExtension { id: String, source: ParseError },
    ExtensionsNotTable { path: String },
    Write { path: String, source: String },
    EnabledExtensionNotConfigured(String),
    EnabledExtensionNotInstalled { id: String, version: String, digest: ContentHash },
    EnabledExtensionNotStBridge(String),
    EnabledExtensionGrantExceeded(String),
    Plugin(PluginError),
}

/// What is wrong with an enabled extension, if anything is.
pub open spec fn extension_error(id: String, pin: GlobalExtensionPin) -> Option<ParseError> {
    if blank(id@) {
        Some(ParseError::EmptyExtensionId)
    } else if blank(pin.version@) {
        Some(ParseError::EmptyExtensionVersion(id))
    } else if !version_parses(pin.version@) {
        Some(ParseError::InvalidExtensionVersion { id })
    } else if !(pin.settings@ is Object) {
        Some(ParseError::InvalidExtensionSettings(id))
    } else {
        None
    }
}

/// Checks an enabled extension.
pub fn validate_enabled_extension(id: &String, pin: &GlobalExtensionPin) -> (r: Result<
    (),
    ParseError,
>)
    ensures
        match r {
            Ok(()) => extension_error(*id, *pin) is None,
            Err(e) => extension_error(*id, *pin) == Some(e),
        },
{
    if is_blank(id.as_str()) {
        return Err(ParseError::EmptyExtensionId);
    }
    if is_blank(pin.version.as_str()) {
        return Err(ParseError::EmptyExtensionVersion(id.clone()));
    }
    if !is_version(pin.version.as_str()) {
        return Err(ParseError::InvalidExtensionVersion { id: id.clone() });
    }
    if pin.settings.members().is_none() {
        return Err(ParseError::InvalidExtensionSettings(id.clone()));
    }
    Ok(())
}

/// What is wrong with the providers from place `i` on, if anything is, given
/// what is wrong with the settings of each.
pub open spec fn providers_error(
    providers: Seq<(String, ProviderSettings)>,
    faults: Seq<Option<String>>,
    i: int,
) -> Option<ParseError>
    decreases providers.len() - i,
{
    if i < 0 || i >= providers.len() {
        None
    } else if blank(providers[i].0@) {
        Some(ParseError::EmptyProfileName)
    } else {
        match faults[i] {
            Some(source) => Some(ParseError::InvalidProfile { name: providers[i].0, source }),
            None => providers_error(providers, faults, i + 1),
        }
    }
}

/// What is wrong with the enabled extensions from place `i` on, if anything is.
pub open spec fn extensions_error(extensions: Seq<(String, GlobalExtensionPin)>, i: int) -> Option<
    ParseError,
>
    decreases extensions.len() - i,
{
    if i < 0 || i >= extensions.len() {
        None
    } else {
        match extension_error(extensions[i].0, extensions[i].1) {
            Some(e) => Some(e),
            None => extensions_error(extensions, i + 1),
        }
    }
}

/// What is wrong with a configuration, if anything is.
pub open spec fn config_error(config: Config, faults: Seq<Option<String>>) -> Option<ParseError> {
    match providers_error(config.providers@, faults, 0) {
        Some(e) => Some(e),
        None => extensions_error(config.enabled_extensions@, 0),
    }
}

/// The names of the entries of a list.
pub open spec fn names_of<V>(entries: Seq<(String, V)>) -> Seq<String> {
    Seq::new(entries.len(), |i: int| entries[i].0)
}

/// What resolving an enabled extension comes to.
pub open spec fn is_resolution(
    r: Result<PluginPin, ConfigError>,
    installed: Option<InstalledPlugin>,
    tier: Seq<PluginCapability>,
    id: String,
    pin: GlobalExtensionPin,
) -> bool {
    match extension_error(id, pin) {
        Some(source) => r == Err::<PluginPin, ConfigError>(
            ConfigError::InvalidExtension { id, source },
        ),
        None => match installed {
            None => r == Err::<PluginPin, ConfigError>(
                ConfigError::EnabledExtensionNotInstalled {
                    id,
                    version: pin.version,
                    digest: pin.digest,
                },
            ),
            Some(plugin) => if plugin.manifest.runtime != PluginRuntime::StBridge {
                r == Err::<PluginPin, ConfigError>(ConfigError::EnabledExtensionNotStBridge(id))
            } else if !within(tier, plugin.manifest.requested_capabilities@) {
                r == Err::<PluginPin, ConfigError>(ConfigError::EnabledExtensionGrantExceeded(id))
            } else {
                r matches Ok(p) && is_global_pin(p, tier, id, pin)
            },
        },
    }
}

/// The pin of an enabled extension.
pub open spec fn is_global_pin(
    pin: PluginPin,
    tier: Seq<PluginCapability>,
    id: String,
    global: GlobalExtensionPin,
) -> bool {
    &&& pin.id == id
    &&& pin.version == global.version
    &&& pin.component_hash == global.digest
    &&& pin.capabilities@ == tier
    &&& pin.settings@ == global.settings@
    &&& pin.egress_allow_list@ == global.egress_allow_list@
    &&& pin.enabled
}

/// Resolves an enabled extension, given the plugin that is installed under its
/// pin and the capabilities that every such extension has.
pub fn resolve_enabled_extension_pin(
    installed: Option<&InstalledPlugin>,
    tier: &Vec<PluginCapability>,
    id: &String,
    configured: &GlobalExtensionPin,
) -> (r: Result<PluginPin, ConfigError>)
    ensures
        is_resolution(
            r,
            match installed {
                Some(plugin) => Some(*plugin),
                None => None,
            },
            tier@,
            *id,
            *configured,
        ),
{
    match validate_enabled_extension(id, configured) {
        Ok(()) => {},
        Err(source) => return Err(ConfigError::InvalidExtension { id: id.clone(), source }),
    }
    let plugin = match installed {
        Some(plugin) => plugin,
        None => {
            return Err(
                ConfigError::EnabledExtensionNotInstalled {
                    id: id.clone(),
                    version: configured.version.clone(),
                    digest: configured.digest,
                },
            );
        },
    };
    if plugin.manifest.runtime != PluginRuntime::StBridge {
        return Err(ConfigError::EnabledExtensionNotStBridge(id.clone()));
    }
    if !is_within(tier, &plugin.manifest.requested_capabilities) {
        return Err(ConfigError::EnabledExtensionGrantExceeded(id.clone()));
    }
    Ok(
        PluginPin {
            id: id.clone(),
            version: configured.version.clone(),
            component_hash: configured.digest,
            capabilities: copy_capabilities(tier),
            settings: configured.settings.copy(),
            egress_allow_list: copy_allowances(&configured.egress_allow_list),
            enabled: true,
        },
    )
}

impl Config {
    /// An empty configuration.
    pub fn empty() -> (config: Self)
        ensures
            config.providers@.len() == 0,
            config.enabled_extensions@.len() == 0,
    {
        Config { providers: Vec::new(), enabled_extensions: Vec::new() }
    }

    /// Checks a configuration, given what is wrong with the settings of each
    /// provider.
    pub fn validate(&self, faults: &Vec<Option<String>>) -> (r: Result<(), ParseError>)
        requires
            faults@.len() == self.providers@.len(),
        ensures
            match r {
                Ok(()) => config_error(*self, faults@) is None,
                Err(e) => config_error(*self, faults@) == Some(e),
            },
    {
        let mut i: usize = 0;
        while i < self.providers.len()
            invariant
                i <= self.providers@.len(),
                faults@.len() == self.providers@.len(),
                providers_error(self.providers@, faults@, 0) == providers_error(
                    self.providers@,
                    faults@,
                    i as int,
                ),
            decreases self.providers@.len() - i,
        {
            if is_blank(self.providers[i].0.as_str()) {
                return Err(ParseError::EmptyProfileName);
            }
            if let Some(source) = &faults[i] {
                return Err(
                    ParseError::InvalidProfile {
                        name: self.providers[i].0.clone(),
                        source: source.clone(),
                    },
                );
            }
            i = i + 1;
        }
        let mut k: usize = 0;
        while k < self.enabled_extensions.len()
            invariant
                k <= self.enabled_extensions@.len(),
                providers_error(self.providers@, faults@, 0) is None,
                extensions_error(self.enabled_extensions@, 0) == extensions_error(
                    self.enabled_extensions@,
                    k as int,
                ),
            decreases self.enabled_extensions@.len() - k,
        {
            let entry = &self.enabled_extensions[k];
            match validate_enabled_extension(&entry.0, &entry.1) {
                Ok(()) => {},
                Err(e) => return Err(e),
            }
            k = k + 1;
        }
        Ok(())
    }

    /// The settings of a provider profile, or which profiles there are instead.
    pub fn resolve_provider_profile(&self, name: &str) -> (r: Result<
        &ProviderSettings,
        ConfigError,
    >)
        ensures
            match r {
                Ok(settings) => assoc::lookup(self.providers@, name@) == Some(*settings),
                Err(ConfigError::ProfileNotFound { name: n, available }) => {
                    &&& assoc::lookup(self.providers@, name@) is None
                    &&& n@ == name@
                    &&& available@ == names_of(self.providers@)
                },
                Err(_) => false,
            },
    {
        if let Some(settings) = assoc::find(&self.providers, name) {
            return Ok(settings);
        }
        let mut available: Vec<String> = Vec::new();
        let mut i: usize = 0;
        while i < self.providers.len()
            invariant
                i <= self.providers@.len(),
                available@.len() == i,
                forall|j: int| 0 <= j < i ==> #[trigger] available@[j] == self.providers@[j].0,
            decreases self.providers@.len() - i,
        {
            available.push(self.providers[i].0.clone());
            i = i + 1;
        }
        proof {
            assert(available@ =~= names_of(self.providers@));
        }
        Err(ConfigError::ProfileNotFound { name: name.to_owned(), available })
    }

    /// Resolves one enabled extension.
    pub fn resolve_enabled_extension(
        &self,
        registry: &PluginRegistry,
        listing: &Vec<InstalledPlugin>,
        tier: &Vec<PluginCapability>,
        id: &String,
    ) -> (r: Result<PluginPin, ConfigError>)
        ensures
            match assoc::lookup(self.enabled_extensions@, id@) {
                None => r == Err::<PluginPin, ConfigError>(
                    ConfigError::EnabledExtensionNotConfigured(*id),
                ),
                Some(pin) => is_listed_resolution(r, listing@, tier@, (*id, pin)),
            },
    {
        match assoc::find(&self.enabled_extensions, id.as_str()) {
            None => Err(ConfigError::EnabledExtensionNotConfigured(id.clone())),
            Some(configured) => resolve_listed(registry, listing, tier, id, configured),
        }
    }

    /// Resolves all enabled extensions, in the order of their names.
    pub fn resolve_enabled_extensions(
        &self,
        registry: &PluginRegistry,
        listing: &Vec<InstalledPlugin>,
        tier: &Vec<PluginCapability>,
    ) -> (r: Result<Vec<PluginPin>, ConfigError>)
        ensures
            match r {
                Ok(pins) => are_enabled_pins(
                    pins@,
                    self.enabled_extensions@,
                    listing@,
                    tier@,
                ),
                Err(e) => is_first_refusal(e, self.enabled_extensions@, listing@, tier@),
            },
    {
        let mut pins: Vec<PluginPin> = Vec::new();
        let mut i: usize = 0;
        while i < self.enabled_extensions.len()
            invariant
                i <= self.enabled_extensions@.len(),
                pins@.len() == i,
                forall|j: int|
                    0 <= j < i ==> is_listed_resolution(
                        Ok(#[trigger] pins@[j]),
                        listing@,
                        tier@,
                        self.enabled_extensions@[j],
                    ),
            decreases self.enabled_extensions@.len() - i,
        {
            let entry = &self.enabled_extensions[i];
            match resolve_listed(registry, listing, tier, &entry.0, &entry.1) {
                Ok(pin) => {
                    proof {
                        assert(is_listed_resolution(
                            Ok(pin),
                            listing@,
                            tier@,
                            self.enabled_extensions@[i as int],
                        ));
                    }
                    pins.push(pin);
                },
                Err(e) => {
                    proof {
                        assert(is_listed_resolution(
                            Err(e),
                            listing@,
                            tier@,
                            self.enabled_extensions@[i as int],
                        ));
                        let before = self.enabled_extensions@.take(i as int);
                        assert forall|j: int| 0 <= j < before.len() implies #[trigger] resolves(
                            before[j],
                            listing@,
                            tier@,
                        ) by {
                            assert(is_listed_resolution(
                                Ok(pins@[j]),
                                listing@,
                                tier@,
                                before[j],
                            ));
                        }
                        assert(all_resolve(before, listing@, tier@));
                    }
                    return Err(e);
                },
            }
            i = i + 1;
        }
        Ok(pins)
    }
}

/// The first listed package of an identity, version and digest, if there is one.
pub open spec fn is_first_pinned(
    found: Option<InstalledPlugin>,
    listing: Seq<InstalledPlugin>,
    id: Seq<char>,
    version: Seq<char>,
    digest: Seq<u8>,
) -> bool {
    match found {
        Some(plugin) => exists|k: int|
            0 <= k < listing.len() && plugin == #[trigger] listing[k] && is_pinned(
                listing[k],
                id,
                version,
                digest,
            ) && forall|j: int|
                0 <= j < k ==> !is_pinned(#[trigger] listing[j], id, version, digest),
        None => forall|j: int|
            0 <= j < listing.len() ==> !is_pinned(#[trigger] listing[j], id, version, digest),
    }
}

/// What resolving an enabled extension among the listed packages comes to.
pub open spec fn is_listed_resolution(
    r: Result<PluginPin, ConfigError>,
    listing: Seq<InstalledPlugin>,
    tier: Seq<PluginCapability>,
    entry: (String, GlobalExtensionPin),
) -> bool {
    exists|installed: Option<InstalledPlugin>|
        #[trigger] is_first_pinned(
            installed,
            listing,
            entry.0@,
            entry.1.version@,
            entry.1.digest@,
        ) && is_resolution(r, installed, tier, entry.0, entry.1)
}

/// The pins that enabled extensions resolve to.
pub open spec fn are_enabled_pins(
    pins: Seq<PluginPin>,
    entries: Seq<(String, GlobalExtensionPin)>,
    listing: Seq<InstalledPlugin>,
    tier: Seq<PluginCapability>,
) -> bool {
    &&& pins.len() == entries.len()
    &&& forall|i: int|
        0 <= i < pins.len() ==> is_listed_resolution(
            Ok(#[trigger] pins[i]),
            listing,
            tier,
            entries[i],
        )
}

/// Why the first of the enabled extensions that does not resolve to a pin does
/// not.
pub open spec fn is_first_refusal(
    e: ConfigError,
    entries: Seq<(String, GlobalExtensionPin)>,
    listing: Seq<InstalledPlugin>,
    tier: Seq<PluginCapability>,
) -> bool {
    exists|i: int|
        0 <= i < entries.len() && #[trigger] is_listed_resolution(
            Err(e),
            listing,
            tier,
            entries[i],
        ) && all_resolve(entries.take(i), listing, tier)
}

/// Every one of some enabled extensions resolves to a pin.
pub open spec fn all_resolve(
    entries: Seq<(String, GlobalExtensionPin)>,
    listing: Seq<InstalledPlugin>,
    tier: Seq<PluginCapability>,
) -> bool {
    forall|j: int| 0 <= j < entries.len() ==> #[trigger] resolves(entries[j], listing, tier)
}

/// An enabled extension resolves to a pin.
pub open spec fn resolves(
    entry: (String, GlobalExtensionPin),
    listing: Seq<InstalledPlugin>,
    tier: Seq<PluginCapability>,
) -> bool {
    exists|pin: PluginPin| is_listed_resolution(Ok(pin), listing, tier, entry)
}

fn resolve_listed(
    registry: &PluginRegistry,
    listing: &Vec<InstalledPlugin>,
    tier: &Vec<PluginCapability>,
    id: &String,
    configured: &GlobalExtensionPin,
) -> (r: Result<PluginPin, ConfigError>)
    ensures
        is_listed_resolution(r, listing@, tier@, (*id, *configured)),
{
    let found = registry.find_pinned(
        listing,
        id.as_str(),
        configured.version.as_str(),
        &configured.digest,
    );
    let r = resolve_enabled_extension_pin(found, tier, id, configured);
    proof {
        let installed = match found {
            Some(plugin) => Some(*plugin),
            None => None,
        };
        let entry = (*id, *configured);
        assert(is_first_pinned(
            installed,
            listing@,
            entry.0@,
            entry.1.version@,
            entry.1.digest@,
        ));
        assert(is_resolution(r, installed, tier@, entry.0, entry.1));
    }
    r
}

/// The names that are shown where a profile was not found.
pub open spec fn available_text(names: Seq<Seq<char>>) -> Seq<char> {
    if names.len() == 0 {
        "(none configured)"@
    } else {
        interspersed(names, ", "@)
    }
}

/// The names that are shown where a profile was not found.
pub fn format_available(names: &Vec<String>) -> (text: String)
    ensures
        text@ == available_text(views(names@)),
{
    proof {
        assert(views(names@).len() == names@.len());
    }
    if names.len() == 0 {
        "(none configured)".to_owned()
    } else {
        join_texts(names, ", ")
    }
}

/// Whether a profile can be kept, given what is wrong with its settings.
pub open spec fn profile_check(name: String, fault: Option<String>) -> Result<(), ConfigError> {
    if blank(name@) {
        Err(ConfigError::InvalidProfile { name, source: ParseError::EmptyProfileName })
    } else {
        match fault {
            Some(source) => Err(
                ConfigError::InvalidProfile {
                    name,
                    source: ParseError::InvalidProfile { name, source },
                },
            ),
            None => Ok(()),
        }
    }
}

/// Checks the name of a profile that is to be kept, given what is wrong with its
/// settings.
pub fn check_profile(name: &String, fault: Option<String>) -> (r: Result<(), ConfigError>)
    ensures
        r == profile_check(*name, fault),
{
    if is_blank(name.as_str()) {
        return Err(
            ConfigError::InvalidProfile {
                name: name.clone(),
                source: ParseError::EmptyProfileName,
            },
        );
    }
    match fault {
        Some(source) => Err(
            ConfigError::InvalidProfile {
                name: name.clone(),
                source: ParseError::InvalidProfile { name: name.clone(), source },
            },
        ),
        None => Ok(()),
    }
}

/// The file that a configuration is kept in.
pub const CONFIG_FILE: &'static str = "config.toml";

/// An error that says that a text is no document.
pub open spec fn is_edit_error(e: ConfigError, message: Seq<char>) -> bool {
    e matches ConfigError::Edit { path, source } && path@ == CONFIG_FILE@ && source@ == message
}

fn edit_error(message: String) -> (e: ConfigError)
    ensures
        is_edit_error(e, message@),
{
    ConfigError::Edit { path: CONFIG_FILE.to_owned(), source: message }
}

/// An error that says that a section is no table.
pub open spec fn is_section_error(e: ConfigError, section: Seq<char>) -> bool {
    if section == "providers"@ {
        e matches ConfigError::ProvidersNotTable { path } && path@ == CONFIG_FILE@
    } else {
        e matches ConfigError::ExtensionsNotTable { path } && path@ == CONFIG_FILE@
    }
}

fn section_error(section: &str) -> (e: ConfigError)
    ensures
        is_section_error(e, section@),
{
    if text::same(section, "providers") {
        ConfigError::ProvidersNotTable { path: CONFIG_FILE.to_owned() }
    } else {
        ConfigError::ExtensionsNotTable { path: CONFIG_FILE.to_owned() }
    }
}

/// A section of a document, where it is a table.
pub open spec fn section_of(document: TomlDocument, section: Seq<char>) -> Option<TomlTable> {
    match item_at(document.root, section) {
        TomlItem::Table(table) => Some(table),
        _ => None,
    }
}

/// A section of a document has the key.
pub open spec fn has_entry(document: TomlDocument, section: Seq<char>, name: Seq<char>) -> bool {
    section_of(document, section) matches Some(table) && key_place(table, name)
        < table.entries.len()
}

/// A document without a key of a section.
pub open spec fn without_entry(
    document: TomlDocument,
    section: Seq<char>,
    name: Seq<char>,
) -> TomlDocument {
    match section_of(document, section) {
        Some(table) => TomlDocument {
            root: with_item(document.root, section, TomlItem::Table(without(table, name))),
            ..document
        },
        None => document,
    }
}

/// What taking an entry out of the text of a configuration comes to.
pub open spec fn is_removed_text(
    r: Result<Option<String>, ConfigError>,
    source: Seq<char>,
    section: Seq<char>,
    name: Seq<char>,
) -> bool {
    match toml_document(source) {
        Err(message) => r matches Err(e) && is_edit_error(e, message),
        Ok(document) => if has_entry(document, section, name) {
            r matches Ok(Some(text)) && text@ == toml_text(without_entry(document, section, name))
        } else {
            r == Ok::<Option<String>, ConfigError>(None)
        },
    }
}

/// The text of a configuration without a key of a section, or nothing where the
/// section does not have it. Everything else stays as it is written.
pub fn remove_entry_text(source: &str, section: &str, name: &str) -> (r: Result<
    Option<String>,
    ConfigError,
>)
    ensures
        is_removed_text(r, source@, section@, name@),
{
    let mut document = match read_document(source) {
        Ok(document) => document,
        Err(message) => return Err(edit_error(message)),
    };
    let removed = match inner_mut(root_mut(&mut document), section) {
        Some(table) => {
            let ghost before = table_of(*table);
            let taken = remove_item(table, name);
            proof {
                lemma_place_from(before.entries, name@, 0);
            }
            taken.is_some()
        },
        None => false,
    };
    if removed {
        Ok(Some(write_document(&document)))
    } else {
        Ok(None)
    }
}

/// The section of a document before an entry is saved in it.
pub open spec fn opened_section(document: TomlDocument, section: Seq<char>) -> TomlItem {
    item_at(with_section(document.root, section), section)
}

/// A section after an entry that is saved under a name was given that name.
pub open spec fn moved_entry(
    table: TomlTable,
    original: Option<String>,
    name: Seq<char>,
) -> TomlTable {
    match original {
        Some(old_name) => if old_name@ != name {
            renamed(table, old_name@, name)
        } else {
            table
        },
        None => table,
    }
}

/// An entry is to be given a name that another entry has.
pub open spec fn is_name_taken(table: TomlTable, original: Option<String>, name: Seq<char>) -> bool {
    original matches Some(old_name) && old_name@ != name && has_item(table, name)
}

/// A document in which an entry is saved: given its name, without the managed
/// keys that it should not have, and brought in line key by key.
pub open spec fn with_entry(
    document: TomlDocument,
    section: Seq<char>,
    original: Option<String>,
    name: Seq<char>,
    desired: TomlTable,
    managed: Seq<Seq<char>>,
) -> TomlDocument {
    let root = with_section(document.root, section);
    match item_at(root, section) {
        TomlItem::Table(table) => TomlDocument {
            root: with_item(
                root,
                section,
                TomlItem::Table(
                    updated(moved_entry(table, original, name), name, desired, managed),
                ),
            ),
            ..document
        },
        _ => document,
    }
}

/// What saving an entry in the text of a configuration comes to.
pub open spec fn is_saved_text(
    r: Result<String, ConfigError>,
    source: Seq<char>,
    section: Seq<char>,
    original: Option<String>,
    name: String,
    desired: Seq<char>,
    managed: Seq<Seq<char>>,
) -> bool {
    match toml_document(source) {
        Err(message) => r matches Err(e) && is_edit_error(e, message),
        Ok(document) => match opened_section(document, section) {
            TomlItem::Table(table) => if is_name_taken(table, original, name@) {
                r == Err::<String, ConfigError>(ConfigError::ProfileAlreadyExists(name))
            } else {
                match toml_document(desired) {
                    Err(message) => r matches Err(e) && is_edit_error(e, message),
                    Ok(wanted) => r matches Ok(text) && text@ == toml_text(
                        with_entry(document, section, original, name@, wanted.root, managed),
                    ),
                }
            },
            _ => r matches Err(e) && is_section_error(e, section),
        },
    }
}

/// Saves an entry in a section of the text of a configuration, given how it
/// should read and which of its keys are managed. A key that is not managed, and
/// everything else, stays as it is written.
pub fn save_entry_text(
    source: &str,
    section: &str,
    original: &Option<String>,
    name: &String,
    desired: &str,
    managed: &Vec<String>,
) -> (r: Result<String, ConfigError>)
    ensures
        is_saved_text(r, source@, section@, *original, *name, desired@, views(managed@)),
{
    let mut document = match read_document(source) {
        Ok(document) => document,
        Err(message) => return Err(edit_error(message)),
    };
    let root = root_mut(&mut document);
    ensure_section(root, section);
    let table = match inner_mut(root, section) {
        Some(table) => table,
        None => return Err(section_error(section)),
    };
    if let Some(old_name) = original {
        if !text::same(old_name.as_str(), name.as_str()) {
            if item_shape(table, name.as_str()) != ItemShape::Absent {
                return Err(ConfigError::ProfileAlreadyExists(name.clone()));
            }
            rename_entry(table, old_name.as_str(), name.as_str());
        }
    }
    let wanted = match read_document(desired) {
        Ok(wanted) => wanted,
        Err(message) => return Err(edit_error(message)),
    };
    update_entry(table, name.as_str(), document::root(&wanted), managed);
    Ok(write_document(&document))
}

/// The keys of a provider profile that are managed.
pub open spec fn provider_keys() -> Seq<Seq<char>> {
    seq![
        "id"@,
        "base_url"@,
        "chat_completions_path"@,
        "api_key_env"@,
        "credential_key"@,
        "static_headers"@,
        "timeout_seconds"@,
        "ca_certificate_pem"@,
        "model"@,
        "stream"@,
    ]
}

fn provider_fields() -> (fields: Vec<String>)
    ensures
        views(fields@) == provider_keys(),
{
    let fields: Vec<String> = vec![
        "id".to_owned(),
        "base_url".to_owned(),
        "chat_completions_path".to_owned(),
        "api_key_env".to_owned(),
        "credential_key".to_owned(),
        "static_headers".to_owned(),
        "timeout_seconds".to_owned(),
        "ca_certificate_pem".to_owned(),
        "model".to_owned(),
        "stream".to_owned(),
    ];
    proof {
        assert(views(fields@) =~= provider_keys());
    }
    fields
}

/// The keys of an enabled extension that are managed.
pub open spec fn extension_keys() -> Seq<Seq<char>> {
    seq!["version"@, "digest"@, "settings"@, "egress_allow_list"@]
}

fn extension_fields() -> (fields: Vec<String>)
    ensures
        views(fields@) == extension_keys(),
{
    let fields: Vec<String> = vec![
        "version".to_owned(),
        "digest".to_owned(),
        "settings".to_owned(),
        "egress_allow_list".to_owned(),
    ];
    proof {
        assert(views(fields@) =~= extension_keys());
    }
    fields
}

impl Config {
    /// Saves a profile in the text of a configuration, given what is wrong with
    /// its settings and how they read. A profile that had another name is given
    /// the new one.
    pub fn save_provider_profile(
        source: &str,
        original_name: &Option<String>,
        name: &String,
        fault: Option<String>,
        desired: &str,
    ) -> (r: Result<String, ConfigError>)
        ensures
            match profile_check(*name, fault) {
                Err(e) => r == Err::<String, ConfigError>(e),
                Ok(()) => is_saved_text(
                    r,
                    source@,
                    "providers"@,
                    *original_name,
                    *name,
                    desired@,
                    provider_keys(),
                ),
            },
    {
        match check_profile(name, fault) {
            Ok(()) => {},
            Err(e) => return Err(e),
        }
        save_entry_text(source, "providers", original_name, name, desired, &provider_fields())
    }

    /// Saves a profile under the name that it has.
    pub fn add_provider_profile(
        source: &str,
        name: &String,
        fault: Option<String>,
        desired: &str,
    ) -> (r: Result<String, ConfigError>)
        ensures
            match profile_check(*name, fault) {
                Err(e) => r == Err::<String, ConfigError>(e),
                Ok(()) => is_saved_text(
                    r,
                    source@,
                    "providers"@,
                    None,
                    *name,
                    desired@,
                    provider_keys(),
                ),
            },
    {
        Config::save_provider_profile(source, &None, name, fault, desired)
    }

    /// The settings of which a copy is kept under a name that is not taken.
    pub fn duplicate_provider_profile(&self, source_name: &str, target_name: &String) -> (r: Result<
        &ProviderSettings,
        ConfigError,
    >)
        ensures
            if assoc::has(self.providers@, target_name@) {
                r == Err::<&ProviderSettings, ConfigError>(
                    ConfigError::ProfileAlreadyExists(*target_name),
                )
            } else {
                match r {
                    Ok(settings) => assoc::lookup(self.providers@, source_name@) == Some(*settings),
                    Err(ConfigError::ProfileNotFound { name, available }) => {
                        &&& assoc::lookup(self.providers@, source_name@) is None
                        &&& name@ == source_name@
                        &&& available@ == names_of(self.providers@)
                    },
                    Err(_) => false,
                }
            },
    {
        proof {
            assoc::lemma_index_of(self.providers@, target_name@);
        }
        if assoc::find(&self.providers, target_name.as_str()).is_some() {
            return Err(ConfigError::ProfileAlreadyExists(target_name.clone()));
        }
        self.resolve_provider_profile(source_name)
    }

    /// Takes a profile out of the text of a configuration.
    pub fn remove_provider_profile(source: &str, name: &str) -> (r: Result<
        Option<String>,
        ConfigError,
    >)
        ensures
            is_removed_text(r, source@, "providers"@, name@),
    {
        remove_entry_text(source, "providers", name)
    }

    /// Saves an enabled extension in the text of a configuration, given how it
    /// reads.
    pub fn save_enabled_extension(
        source: &str,
        id: &String,
        pin: &GlobalExtensionPin,
        desired: &str,
    ) -> (r: Result<String, ConfigError>)
        ensures
            match extension_error(*id, *pin) {
                Some(fault) => r == Err::<String, ConfigError>(
                    ConfigError::InvalidExtension { id: *id, source: fault },
                ),
                None => is_saved_text(
                    r,
                    source@,
                    "extensions"@,
                    None,
                    *id,
                    desired@,
                    extension_keys(),
                ),
            },
    {
        match validate_enabled_extension(id, pin) {
            Ok(()) => {},
            Err(fault) => {
                return Err(ConfigError::InvalidExtension { id: id.clone(), source: fault });
            },
        }
        save_entry_text(source, "extensions", &None, id, desired, &extension_fields())
    }

    /// Takes an enabled extension out of the text of a configuration.
    pub fn remove_enabled_extension(source: &str, id: &str) -> (r: Result<
        Option<String>,
        ConfigError,
    >)
        ensures
            is_removed_text(r, source@, "extensions"@, id@),
    {
        remove_entry_text(source, "extensions", id)
    }
}

/// What stands under a name in a section: nothing where it is not there.
pub open spec fn entry_of(document: TomlDocument, section: Seq<char>, name: Seq<char>) -> TomlItem {
    match section_of(document, section) {
        Some(table) => item_at(table, name),
        None => TomlItem::Nothing,
    }
}

/// Two documents agree in everything but one section.
pub open spec fn agree_outside(left: TomlDocument, right: TomlDocument, section: Seq<char>) -> bool {
    &&& left.rest == right.rest
    &&& left.root.note == right.root.note
    &&& forall|other: Seq<char>|
        other != section ==> #[trigger] item_at(left.root, other) == item_at(right.root, other)
}

/// Saving an entry leaves every other section as it is, with all that is written
/// in it and around it, and every other entry of its own section.
pub proof fn law_saving_leaves_the_rest(
    text: String,
    source: Seq<char>,
    section: Seq<char>,
    original: Option<String>,
    name: String,
    desired: Seq<char>,
    managed: Seq<Seq<char>>,
)
    requires
        is_saved_text(Ok(text), source, section, original, name, desired, managed),
    ensures
        ({
            &&& toml_document(source) matches Ok(document)
            &&& exists|saved: TomlDocument|
                {
                    &&& text@ == #[trigger] toml_text(saved)
                    &&& agree_outside(saved, document, section)
                    &&& forall|other: Seq<char>|
                        other != name@ && !(original matches Some(old_name) && old_name@ == other)
                            ==> #[trigger] entry_of(saved, section, other) == entry_of(
                            document,
                            section,
                            other,
                        )
                }
        }),
{
    let document = toml_document(source)->Ok_0;
    let wanted = toml_document(desired)->Ok_0.root;
    let saved = with_entry(document, section, original, name@, wanted, managed);
    let root = with_section(document.root, section);
    let table = item_at(root, section)->Table_0;
    let moved = moved_entry(table, original, name@);
    let kept = updated(moved, name@, wanted, managed);
    let nothing = TomlItem::Table(TomlTable { note: None, entries: Seq::empty() });
    assert forall|other: Seq<char>| other != section implies #[trigger] item_at(saved.root, other)
        == item_at(document.root, other) by {
        law_other_sections_stay(document.root, section, kept, other);
    }
    lemma_item_is_put(root, section, TomlItem::Table(kept));
    lemma_item_is_put(document.root, section, nothing);
    assert(section_of(saved, section) == Some(kept));
    assert forall|other: Seq<char>|
        other != name@ && !(original matches Some(old_name) && old_name@ == other) implies
            #[trigger] entry_of(saved, section, other) == entry_of(document, section, other) by {
        law_other_entries_stay(moved, name@, wanted, managed, other);
        if let Some(old_name) = original {
            lemma_others_stay_without(table, old_name@, other);
            lemma_other_items_stay(
                without(table, old_name@),
                name@,
                item_at(table, old_name@),
                other,
            );
        }
    }
    assert(text@ == toml_text(saved));
}

/// The name that an entry had before it is saved.
pub open spec fn previous_name(original: Option<String>, name: Seq<char>) -> Seq<char> {
    match original {
        Some(old_name) => old_name@,
        None => name,
    }
}

proof fn lemma_moved_entry(table: TomlTable, original: Option<String>, name: Seq<char>)
    requires
        !is_name_taken(table, original, name),
    ensures
        item_at(moved_entry(table, original, name), name) == item_at(
            table,
            previous_name(original, name),
        ),
{
    if let Some(old_name) = original {
        lemma_place_from(table.entries, old_name@, 0);
        lemma_item_is_put(without(table, old_name@), name, item_at(table, old_name@));
    }
}

/// What is written around a value of an entry, where there is one.
pub open spec fn around_value(entry: TomlItem, key: Seq<char>) -> Option<Seq<char>> {
    match entry {
        TomlItem::Table(table) => match item_at(table, key) {
            TomlItem::Value { around, .. } => Some(around),
            _ => None,
        },
        _ => None,
    }
}

/// Every value of an entry that is saved reads as it should. Where a value stood
/// under its key before, what is written around that value stays, under another
/// name too.
pub proof fn law_saved_values_read_as_wanted(
    text: String,
    source: Seq<char>,
    section: Seq<char>,
    original: Option<String>,
    name: String,
    desired: Seq<char>,
    managed: Seq<Seq<char>>,
    key: Seq<char>,
)
    requires
        is_saved_text(Ok(text), source, section, original, name, desired, managed),
        keys_of(toml_document(desired)->Ok_0.root).contains(key),
        item_at(toml_document(desired)->Ok_0.root, key) is Value,
    ensures
        exists|saved: TomlDocument|
            {
                &&& text@ == #[trigger] toml_text(saved)
                &&& entry_of(saved, section, name@) matches TomlItem::Table(entry)
                &&& item_at(entry, key) matches TomlItem::Value { written, around }
                &&& written == item_at(toml_document(desired)->Ok_0.root, key)->written
                &&& around_value(
                    entry_of(
                        toml_document(source)->Ok_0,
                        section,
                        previous_name(original, name@),
                    ),
                    key,
                ) matches Some(kept) ==> around == kept
            },
{
    let document = toml_document(source)->Ok_0;
    let wanted = toml_document(desired)->Ok_0.root;
    let saved = with_entry(document, section, original, name@, wanted, managed);
    let root = with_section(document.root, section);
    let table = item_at(root, section)->Table_0;
    let moved = moved_entry(table, original, name@);
    let kept = updated(moved, name@, wanted, managed);
    lemma_moved_entry(table, original, name@);
    let nothing = TomlItem::Table(TomlTable { note: None, entries: Seq::empty() });
    lemma_item_is_put(root, section, TomlItem::Table(kept));
    lemma_item_is_put(document.root, section, nothing);
    assert(section_of(saved, section) == Some(kept));
    let stale = keys_without(managed, keys_of(wanted), managed.len() as int);
    match item_at(moved, name@) {
        TomlItem::Table(existing) => {
            if stale.contains(key) {
                lemma_keys_without(managed, keys_of(wanted), managed.len() as int, key);
            }
            lemma_others_stay_without_keys(existing, stale, stale.len() as int, key);
            let place = choose|i: int|
                0 <= i < keys_of(wanted).len() && keys_of(wanted)[i] == key;
            let rest = without_keys(existing, stale, stale.len() as int);
            law_merged_values_read_as_wanted(rest, wanted, keys_of(wanted).len() as int, place);
            lemma_item_is_put(moved, name@, TomlItem::Table(merge(rest, wanted)));
        },
        _ => lemma_item_is_put(moved, name@, TomlItem::Table(wanted)),
    }
    assert(text@ == toml_text(saved));
}

/// A key of an entry that is neither managed nor wanted stays as it is when the
/// entry is saved, under another name too.
pub proof fn law_unmanaged_keys_stay(
    text: String,
    source: Seq<char>,
    section: Seq<char>,
    original: Option<String>,
    name: String,
    desired: Seq<char>,
    managed: Seq<Seq<char>>,
    key: Seq<char>,
)
    requires
        is_saved_text(Ok(text), source, section, original, name, desired, managed),
        entry_of(toml_document(source)->Ok_0, section, previous_name(original, name@)) is Table,
        !managed.contains(key),
        !keys_of(toml_document(desired)->Ok_0.root).contains(key),
    ensures
        exists|saved: TomlDocument|
            {
                &&& text@ == #[trigger] toml_text(saved)
                &&& entry_of(saved, section, name@) matches TomlItem::Table(entry)
                &&& item_at(entry, key) == item_at(
                    entry_of(
                        toml_document(source)->Ok_0,
                        section,
                        previous_name(original, name@),
                    )->Table_0,
                    key,
                )
            },
{
    let document = toml_document(source)->Ok_0;
    let wanted = toml_document(desired)->Ok_0.root;
    let saved = with_entry(document, section, original, name@, wanted, managed);
    let root = with_section(document.root, section);
    let table = item_at(root, section)->Table_0;
    let existing = item_at(table, previous_name(original, name@))->Table_0;
    let moved = moved_entry(table, original, name@);
    let kept = updated(moved, name@, wanted, managed);
    lemma_moved_entry(table, original, name@);
    lemma_item_is_put(root, section, TomlItem::Table(kept));
    assert(section_of(saved, section) == Some(kept));
    let stale = keys_without(managed, keys_of(wanted), managed.len() as int);
    if stale.contains(key) {
        lemma_keys_without(managed, keys_of(wanted), managed.len() as int, key);
    }
    lemma_others_stay_without_keys(existing, stale, stale.len() as int, key);
    let rest = without_keys(existing, stale, stale.len() as int);
    let count = keys_of(wanted).len() as int;
    assert(keys_of(wanted).take(count) =~= keys_of(wanted));
    lemma_unmet_keys_stay(rest, wanted, count, key);
    lemma_item_is_put(moved, name@, TomlItem::Table(merge(rest, wanted)));
    assert(text@ == toml_text(saved));
}

/// An entry that is removed is gone, and everything else stays as it is.
pub proof fn law_removing_leaves_the_rest(
    text: String,
    source: Seq<char>,
    section: Seq<char>,
    name: Seq<char>,
)
    requires
        is_removed_text(Ok(Some(text)), source, section, name),
        section_of(toml_document(source)->Ok_0, section) matches Some(table) ==> has_distinct_keys(
            table,
        ),
    ensures
        ({
            &&& toml_document(source) matches Ok(document)
            &&& exists|after: TomlDocument|
                {
                    &&& text@ == #[trigger] toml_text(after)
                    &&& !has_entry(after, section, name)
                    &&& agree_outside(after, document, section)
                    &&& forall|other: Seq<char>|
                        other != name ==> #[trigger] entry_of(after, section, other) == entry_of(
                            document,
                            section,
                            other,
                        )
                }
        }),
{
    let document = toml_document(source)->Ok_0;
    let table = section_of(document, section)->0;
    let rest = without(table, name);
    let after = without_entry(document, section, name);
    lemma_item_is_put(document.root, section, TomlItem::Table(rest));
    lemma_taken_keys_are_gone(table, name);
    assert(section_of(after, section) == Some(rest));
    assert forall|other: Seq<char>| other != section implies #[trigger] item_at(after.root, other)
        == item_at(document.root, other) by {
        lemma_other_items_stay(document.root, section, TomlItem::Table(rest), other);
    }
    assert forall|other: Seq<char>| other != name implies #[trigger] entry_of(
        after,
        section,
        other,
    ) == entry_of(document, section, other) by {
        lemma_others_stay_without(table, name, other);
    }
    assert(text@ == toml_text(after));
}

proof fn lemma_providers(
    providers: Seq<(String, ProviderSettings)>,
    faults: Seq<Option<String>>,
    i: int,
)
    requires
        0 <= i <= providers.len(),
    ensures
        providers_error(providers, faults, i) is None <==> forall|k: int|
            i <= k < providers.len() ==> !blank((#[trigger] providers[k]).0@) && faults[k] is None,
    decreases providers.len() - i,
{
    if i < providers.len() {
        lemma_providers(providers, faults, i + 1);
        if providers_error(providers, faults, i) is None {
            assert forall|k: int| i <= k < providers.len() implies !blank(
                (#[trigger] providers[k]).0@,
            ) && faults[k] is None by {
                if k > i {
                    assert(!blank(providers[k].0@));
                }
            }
        }
        if forall|k: int|
            i <= k < providers.len() ==> !blank((#[trigger] providers[k]).0@) && faults[k] is None {
            assert(!blank(providers[i].0@));
        }
    }
}

/// An extension can be enabled: it has an identity and a version that can be read, and
/// its settings are an object.
pub open spec fn can_be_enabled(id: Seq<char>, pin: GlobalExtensionPin) -> bool {
    &&& !blank(id)
    &&& !blank(pin.version@)
    &&& version_parses(pin.version@)
    &&& pin.settings@ is Object
}

proof fn lemma_extensions(extensions: Seq<(String, GlobalExtensionPin)>, i: int)
    requires
        0 <= i <= extensions.len(),
    ensures
        extensions_error(extensions, i) is None <==> forall|k: int|
            i <= k < extensions.len() ==> can_be_enabled(
                (#[trigger] extensions[k]).0@,
                extensions[k].1,
            ),
    decreases extensions.len() - i,
{
    if i < extensions.len() {
        lemma_extensions(extensions, i + 1);
        if extensions_error(extensions, i) is None {
            assert forall|k: int| i <= k < extensions.len() implies can_be_enabled(
                (#[trigger] extensions[k]).0@,
                extensions[k].1,
            ) by {
                if k > i {
                    assert(can_be_enabled(extensions[k].0@, extensions[k].1));
                }
            }
        }
        if forall|k: int|
            i <= k < extensions.len() ==> can_be_enabled(
                (#[trigger] extensions[k]).0@,
                extensions[k].1,
            ) {
            assert(can_be_enabled(extensions[i].0@, extensions[i].1));
        }
    }
}

/// Every provider has a name, and nothing is wrong with its settings.
pub open spec fn are_sound_providers(
    providers: Seq<(String, ProviderSettings)>,
    faults: Seq<Option<String>>,
) -> bool {
    forall|k: int|
        0 <= k < providers.len() ==> !blank((#[trigger] providers[k]).0@) && faults[k] is None
}

/// Every extension can be enabled.
pub open spec fn are_sound_extensions(extensions: Seq<(String, GlobalExtensionPin)>) -> bool {
    forall|k: int|
        0 <= k < extensions.len() ==> can_be_enabled(
            (#[trigger] extensions[k]).0@,
            extensions[k].1,
        )
}

/// A configuration is accepted if and only if each of its providers is named and sound
/// and each of its extensions can be enabled.
pub proof fn law_sound_configurations_are_accepted(config: Config, faults: Seq<Option<String>>)
    ensures
        config_error(config, faults) is None <==> are_sound_providers(config.providers@, faults)
            && are_sound_extensions(config.enabled_extensions@),
{
    lemma_providers(config.providers@, faults, 0);
    lemma_extensions(config.enabled_extensions@, 0);
}

/// An enabled extension that resolves is installed just as it is pinned, is a bridge
/// extension, and is granted no more than it asks for.
pub proof fn law_resolved_extensions_are_as_pinned(
    pin: PluginPin,
    listing: Seq<InstalledPlugin>,
    tier: Seq<PluginCapability>,
    entry: (String, GlobalExtensionPin),
)
    requires
        is_listed_resolution(Ok(pin), listing, tier, entry),
    ensures
        can_be_enabled(entry.0@, entry.1),
        pin.id@ == entry.0@,
        pin.version@ == entry.1.version@,
        pin.component_hash@ == entry.1.digest@,
        pin.settings@ == entry.1.settings@,
        pin.capabilities@ == tier,
        pin.enabled,
        exists|k: int|
            {
                &&& 0 <= k < listing.len()
                &&& (#[trigger] listing[k]).manifest.id@ == pin.id@
                &&& listing[k].manifest.version@ == pin.version@
                &&& listing[k].manifest.component_sha256@ == pin.component_hash@
                &&& listing[k].manifest.runtime == PluginRuntime::StBridge
                &&& forall|c: int|
                    0 <= c < tier.len() ==> listing[k].manifest.requested_capabilities@.contains(
                        #[trigger] tier[c],
                    )
            },
{
    let installed = choose|installed: Option<InstalledPlugin>|
        #[trigger] is_first_pinned(
            installed,
            listing,
            entry.0@,
            entry.1.version@,
            entry.1.digest@,
        ) && is_resolution(Ok(pin), installed, tier, entry.0, entry.1);
    let plugin = installed->0;
    let k = choose|k: int|
        0 <= k < listing.len() && plugin == #[trigger] listing[k] && is_pinned(
            listing[k],
            entry.0@,
            entry.1.version@,
            entry.1.digest@,
        ) && forall|j: int|
            0 <= j < k ==> !is_pinned(
                #[trigger] listing[j],
                entry.0@,
                entry.1.version@,
                entry.1.digest@,
            );
    assert(listing[k].manifest.id@ == pin.id@);
}

} // verus!
