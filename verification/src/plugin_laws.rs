//! What plugins may do, and in what order they run.
use vstd::prelude::*;

use crate::identity::sha256_of;
use crate::plugin::{
    admission_fault, component_fault, depends_on, effect_fault, effects_fault, first_effect_fault,
    InstalledPlugin, law_order_respects_precedence, next_to_run, PluginCapability,
    PluginEffect, PluginEvent, PluginGrant, PluginLimits, PluginManifest, PluginRuntime, precedes,
    ready, runs_in_order,
};
use crate::state::VariableScope;
use crate::text::{begins_with, lex_less, views};

verus! {

/// A text is one of some.
pub open spec fn is_named(names: Seq<String>, name: Seq<char>) -> bool {
    exists|i: int| 0 <= i < names.len() && (#[trigger] names[i])@ == name
}

/// An effect has its occasion: artifacts are inspected with outputs alone and nothing
/// else is, a command may write state, what comes after a commit and in the life of a
/// bridge may only be observed, a request is only aborted before it is made, and a
/// prompt is only rewritten while one is made.
pub open spec fn has_its_occasion(event: PluginEvent, effect: PluginEffect) -> bool {
    &&& event == PluginEvent::InspectArtifact <==> effect is Output
    &&& event == PluginEvent::Command ==> effect is Observe || effect is StateWrite
    &&& event == PluginEvent::PostCommit ==> effect is Observe
    &&& event == PluginEvent::StBridgeLifecycle ==> effect is Observe
    &&& effect is Abort ==> event == PluginEvent::PreRequest
    &&& effect is PromptRewrite ==> event == PluginEvent::GenerateInterceptor || event
        == PluginEvent::ChatCompletionPromptReady
}

/// An effect is declared by a manifest, and within what it owns.
pub open spec fn is_declared(manifest: PluginManifest, effect: PluginEffect) -> bool {
    match effect {
        PluginEffect::RegisterMacro { name, .. } => is_named(manifest.macros@, name@),
        PluginEffect::RegisterCommand { name, .. } => is_named(manifest.commands@, name@),
        PluginEffect::Prompt { contribution } => manifest.prompt_slots@.contains(
            contribution.slot,
        ),
        PluginEffect::PromptRewrite { .. } => manifest.runtime == PluginRuntime::StBridge,
        PluginEffect::StateWrite { key, .. } => key.scope == VariableScope::Local && begins_with(
            key.name@,
            manifest.id@ + seq!['.'],
        ),
        _ => true,
    }
}

/// The capability that an effect calls for was granted.
pub open spec fn is_granted(
    capabilities: Seq<PluginCapability>,
    effect: PluginEffect,
) -> bool {
    &&& effect is Output ==> capabilities.contains(PluginCapability::InspectArtifact)
    &&& effect is Observe ==> capabilities.contains(PluginCapability::ObserveLifecycle)
    &&& effect is RegisterMacro ==> capabilities.contains(PluginCapability::RegisterMacro)
    &&& effect is RegisterCommand ==> capabilities.contains(PluginCapability::RegisterCommand)
    &&& effect is Prompt || effect is PromptRewrite ==> capabilities.contains(
        PluginCapability::ContributePrompt,
    )
    &&& effect is StateWrite ==> capabilities.contains(PluginCapability::WriteOwnState)
    &&& effect is Abort ==> capabilities.contains(PluginCapability::AbortPreRequest)
}

proof fn lemma_named(names: Seq<String>, name: Seq<char>)
    ensures
        is_named(names, name) <==> views(names).contains(name),
{
    if is_named(names, name) {
        let i = choose|i: int| 0 <= i < names.len() && (#[trigger] names[i])@ == name;
        assert(views(names)[i] == name);
    }
    if views(names).contains(name) {
        let i = choose|i: int| 0 <= i < views(names).len() && views(names)[i] == name;
        assert(names[i]@ == name);
    }
}

proof fn lemma_effect(
    manifest: PluginManifest,
    capabilities: Seq<PluginCapability>,
    event: PluginEvent,
    effect: PluginEffect,
)
    requires
        event == PluginEvent::InspectArtifact ==> effect is Output,
    ensures
        effect_fault(manifest, capabilities, event, effect) is None <==> has_its_occasion(
            event,
            effect,
        ) && is_declared(manifest, effect) && is_granted(capabilities, effect),
{
    reveal_strlit(".");
    assert("."@ =~= seq!['.']);
    match effect {
        PluginEffect::RegisterMacro { name, .. } => lemma_named(manifest.macros@, name@),
        PluginEffect::RegisterCommand { name, .. } => lemma_named(manifest.commands@, name@),
        _ => {},
    }
}

proof fn lemma_effects(
    manifest: PluginManifest,
    capabilities: Seq<PluginCapability>,
    event: PluginEvent,
    effects: Seq<PluginEffect>,
)
    requires
        event == PluginEvent::InspectArtifact ==> forall|i: int|
            0 <= i < effects.len() ==> #[trigger] effects[i] is Output,
    ensures
        first_effect_fault(manifest, capabilities, event, effects) is None <==> forall|i: int|
            0 <= i < effects.len() ==> has_its_occasion(event, #[trigger] effects[i])
                && is_declared(manifest, effects[i]) && is_granted(capabilities, effects[i]),
    decreases effects.len(),
{
    if effects.len() > 0 {
        let rest = effects.drop_first();
        assert(effects[0] == effects.first());
        lemma_effect(manifest, capabilities, event, effects[0]);
        assert forall|i: int| 0 <= i < rest.len() implies rest[i] == #[trigger] effects[
            i + 1] by {
        }
        assert forall|i: int|
            event == PluginEvent::InspectArtifact && 0 <= i < rest.len() implies #[trigger]
        rest[i] is Output by {
            assert(effects[i + 1] is Output);
        }
        lemma_effects(manifest, capabilities, event, rest);
        if first_effect_fault(manifest, capabilities, event, rest) is None && effect_fault(
            manifest,
            capabilities,
            event,
            effects[0],
        ) is None {
            assert forall|i: int| 0 <= i < effects.len() implies has_its_occasion(
                event,
                #[trigger] effects[i],
            ) && is_declared(manifest, effects[i]) && is_granted(capabilities, effects[i]) by {
                if i > 0 {
                    assert(rest[i - 1] == effects[i]);
                }
            }
        }
        if forall|i: int|
            0 <= i < effects.len() ==> has_its_occasion(event, #[trigger] effects[i])
                && is_declared(manifest, effects[i]) && is_granted(capabilities, effects[i]) {
            assert forall|i: int| 0 <= i < rest.len() implies has_its_occasion(
                event,
                #[trigger] rest[i],
            ) && is_declared(manifest, rest[i]) && is_granted(capabilities, rest[i]) by {
                assert(rest[i] == effects[i + 1]);
            }
        }
    }
}

/// The effects of a plugin are accepted if and only if each has its occasion, is
/// declared, and is covered by a capability that was granted.
pub proof fn law_effects_are_accepted_if_allowed(
    manifest: PluginManifest,
    capabilities: Seq<PluginCapability>,
    event: PluginEvent,
    effects: Seq<PluginEffect>,
)
    ensures
        effects_fault(manifest, capabilities, event, effects) is None <==> forall|i: int|
            0 <= i < effects.len() ==> has_its_occasion(event, #[trigger] effects[i])
                && is_declared(manifest, effects[i]) && is_granted(capabilities, effects[i]),
{
    if event == PluginEvent::InspectArtifact && exists|i: int|
        0 <= i < effects.len() && !(#[trigger] effects[i] is Output) {
        let i = choose|i: int| 0 <= i < effects.len() && !(#[trigger] effects[i] is Output);
        assert(!has_its_occasion(event, effects[i]));
    } else {
        lemma_effects(manifest, capabilities, event, effects);
    }
}

/// A plugin may run for an event if and only if its grant is enabled, is for just this
/// package, grants nothing that the package does not ask for, and the package has
/// subscribed to the event or is given a command.
pub proof fn law_plugins_run_as_granted(
    installed: InstalledPlugin,
    grant: PluginGrant,
    event: PluginEvent,
)
    ensures
        admission_fault(installed, grant, event) is None <==> {
            &&& grant.enabled
            &&& grant.id@ == installed.manifest.id@
            &&& grant.version@ == installed.manifest.version@
            &&& grant.component_sha256@ == installed.manifest.component_sha256@
            &&& forall|i: int|
                0 <= i < grant.capabilities@.len()
                    ==> installed.manifest.requested_capabilities@.contains(
                    #[trigger] grant.capabilities@[i],
                )
            &&& event == PluginEvent::Command || installed.manifest.subscriptions@.contains(event)
        },
{
}

/// A component is run if and only if it and its input are within the limits and its
/// digest is the one that was installed and the one that was granted.
pub proof fn law_components_are_what_was_granted(
    limits: PluginLimits,
    installed: InstalledPlugin,
    grant: PluginGrant,
    input_bytes: int,
    component: Seq<u8>,
)
    ensures
        component_fault(limits, installed, grant, input_bytes, component) is None <==> {
            &&& input_bytes <= limits.input_bytes
            &&& component.len() <= limits.component_bytes
            &&& sha256_of(component) == installed.manifest.component_sha256@
            &&& sha256_of(component) == grant.component_sha256@
        },
{
}

/// What a plugin depends on runs before it, and so does what it asks to come after and
/// what asks to come before it.
pub proof fn law_plugins_run_after_what_they_need(
    plugins: Seq<InstalledPlugin>,
    order: Seq<int>,
    i: int,
    j: int,
)
    requires
        runs_in_order(plugins, order),
        0 <= i < order.len(),
        0 <= j < order.len(),
        ({
            let first = plugins[order[i]].manifest;
            let second = plugins[order[j]].manifest;
            ||| exists|k: int|
                0 <= k < second.dependencies@.len() && (
                #[trigger] second.dependencies@[k]).id@ == first.id@
            ||| is_named(first.before@, second.id@)
            ||| is_named(second.after@, first.id@)
        }),
    ensures
        i < j,
{
    let first = plugins[order[i]].manifest;
    let second = plugins[order[j]].manifest;
    lemma_named(first.before@, second.id@);
    lemma_named(second.after@, first.id@);
    assert(precedes(first, second));
    law_order_respects_precedence(plugins, order, i, j);
}

/// A plugin has to wait until another has run.
pub open spec fn waits_for(plugin: PluginManifest, other: PluginManifest) -> bool {
    ||| exists|k: int|
        0 <= k < plugin.dependencies@.len() && (#[trigger] plugin.dependencies@[k]).id@
            == other.id@
    ||| is_named(other.before@, plugin.id@)
    ||| is_named(plugin.after@, other.id@)
}

/// Of plugins that wait for nothing the ones of lesser identity run first.
pub proof fn law_free_plugins_run_by_identity(
    plugins: Seq<InstalledPlugin>,
    order: Seq<int>,
    i: int,
    j: int,
)
    requires
        runs_in_order(plugins, order),
        0 <= i < j < order.len(),
        forall|k: int|
            0 <= k < plugins.len() ==> !waits_for(
                plugins[order[j]].manifest,
                (#[trigger] plugins[k]).manifest,
            ),
    ensures
        !lex_less(plugins[order[j]].manifest.id@, plugins[order[i]].manifest.id@),
{
    let placed = order.take(i);
    let late = order[j];
    assert(next_to_run(plugins, order.take(j), late));
    assert(ready(plugins, placed, late)) by {
        if placed.contains(late) {
            let x = choose|x: int| 0 <= x < placed.len() && placed[x] == late;
            assert(order.take(j)[x] == late);
        }
        assert forall|k: int|
            0 <= k < plugins.len() && #[trigger] precedes(
                plugins[k].manifest,
                plugins[late].manifest,
            ) implies placed.contains(k) by {
            lemma_named(plugins[k].manifest.before@, plugins[late].manifest.id@);
            lemma_named(plugins[late].manifest.after@, plugins[k].manifest.id@);
            assert(!waits_for(plugins[late].manifest, plugins[k].manifest));
            assert(!depends_on(plugins[late].manifest, plugins[k].manifest.id@));
        }
    }
    assert(next_to_run(plugins, placed, order[i]));
}

} // verus!
