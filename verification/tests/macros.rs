use stcli_core::macros::evaluate::{MacroContext, MacroError};
use stcli_core::macros::render::MacroEngine;
use stcli_core::macros::replies::{Question, Replies};
use stcli_core::state::{StateTransaction, VariableScope};

#[test]
fn nested_macro_arguments_resolve_inside_out() {
    let mut context = MacroContext::empty();
    context.insert("char", "Alice".to_owned());
    let mut state = StateTransaction::empty();
    state.set_raw(VariableScope::Local, "Alice_mood", "happy", "test", "fixture");
    let rendered = MacroEngine::new(1)
        .render("{{getvar::{{char}}_mood}}", &context, &Replies::none(), &mut state)
        .unwrap();
    assert_eq!(rendered.text, "happy");
}

#[test]
fn false_conditional_does_not_execute_discarded_mutation() {
    let context = MacroContext::empty();
    let mut state = StateTransaction::empty();
    let rendered = MacroEngine::new(1)
        .render(
            "{{if::false}}{{setvar::bad::1}}{{else}}{{setvar::good::2}}ok{{/if}}",
            &context,
            &Replies::none(),
            &mut state,
        )
        .unwrap();
    assert_eq!(rendered.text, "ok");
    assert!(state.get(VariableScope::Local, "bad").is_none());
    assert_eq!(state.get(VariableScope::Local, "good").unwrap().raw_value, "2");
}

#[test]
fn cjk_and_emoji_inside_macro_arguments_do_not_split_utf8() {
    let context = MacroContext::empty();
    let mut state = StateTransaction::empty();
    let rendered = MacroEngine::new(1)
        .render(
            "{{setvar::greeting::日本🙂}}{{getvar::greeting}}",
            &context,
            &Replies::none(),
            &mut state,
        )
        .unwrap();
    assert_eq!(rendered.text, "日本🙂");
}

#[test]
fn unknown_macro_is_preserved_with_warning() {
    let context = MacroContext::empty();
    let mut state = StateTransaction::empty();
    let rendered = MacroEngine::new(1)
        .render("before {{platformMacro::x}} after", &context, &Replies::none(), &mut state)
        .unwrap();
    assert_eq!(rendered.text, "before {{platformMacro::x}} after");
    assert_eq!(rendered.warnings.len(), 1);
}

#[test]
fn shorthand_updates_local_variables() {
    let context = MacroContext::empty();
    let mut state = StateTransaction::empty();
    let rendered = MacroEngine::new(1)
        .render(
            "{{.score = 1}}{{.score += 2}}{{.score}}",
            &context,
            &Replies::none(),
            &mut state,
        )
        .unwrap();
    assert_eq!(rendered.text, "3");
}

#[test]
fn utility_counts_condition_shorthand_and_hard_unsupported_are_enforced() {
    let mut context = MacroContext::empty();
    context.insert("char", "Alice".to_owned());
    let mut state = StateTransaction::empty();
    state.set_raw(VariableScope::Local, "enabled", "true", "test", "fixture");
    let rendered = MacroEngine::new(1)
        .render(
            "{{space::2}}{{newline::2}}{{if::.enabled::yes}}{{if::!char::no}}",
            &context,
            &Replies::none(),
            &mut state,
        )
        .unwrap();
    assert_eq!(rendered.text, "  \n\nyes");

    let rendered =
        MacroEngine::new(1).render("{{group}}", &context, &Replies::none(), &mut state).unwrap();
    assert_eq!(rendered.text, "");
}

#[test]
fn arbitrary_macro_input_never_panics() {
    let inputs = [
        "", "{", "{{", "}}", "{{}}", "{{{{}}}}", "{{if", "{{if::}}", "{{/if}}", "{{else}}",
        "{{a::{{b::{{c}}}}}}", "{{roll::999999d999999}}", "{{.x ??= {{.y}}}}", "日{{本", "{{\\}}}",
        "{{random::}}", "{{//}}", "{{setvar::::}}", "}}{{", "{{if::1}}{{if::2}}{{/if}}",
    ];
    for input in inputs {
        for seed in [0u64, 1, u64::MAX] {
            let mut state = StateTransaction::empty();
            let _ = MacroEngine::new(seed).render(
                input,
                &MacroContext::empty(),
                &Replies::none(),
                &mut state,
            );
        }
    }
}

#[test]
fn balanced_unknown_macros_round_trip_under_identity_environment() {
    let inputs = [
        "plain text",
        "{{unknown_alpha::body}}",
        "before {{unknown_b::x y z}} between {{unknown_c::日本}} after",
        "{{unknown_x::}}",
        "a\n{{unknown_q::1, 2}}\nb",
    ];
    for input in inputs {
        let mut state = StateTransaction::empty();
        let rendered = MacroEngine::new(0)
            .render(input, &MacroContext::empty(), &Replies::none(), &mut state)
            .unwrap();
        assert_eq!(rendered.text, input);
    }
}

#[test]
fn unknown_macros_are_warned_of_and_change_nothing() {
    let mut state = StateTransaction::empty();
    let rendered = MacroEngine::new(7)
        .render(
            "{{unknown_a::1}} and {{unknown_b::2}}",
            &MacroContext::empty(),
            &Replies::none(),
            &mut state,
        )
        .unwrap();
    assert_eq!(rendered.text, "{{unknown_a::1}} and {{unknown_b::2}}");
    assert_eq!(rendered.warnings.len(), rendered.evaluations.len());
    assert!(rendered.warnings.iter().all(|warning| warning.code == "unknown-macro-preserved"));
    assert_eq!(state, StateTransaction::empty());
}

#[test]
fn text_without_tags_is_kept() {
    let mut state = StateTransaction::empty();
    let rendered = MacroEngine::new(9)
        .render("no tags {here}", &MacroContext::empty(), &Replies::none(), &mut state)
        .unwrap();
    assert_eq!(rendered.text, "no tags {here}");
    assert!(rendered.evaluations.is_empty());
    assert!(rendered.warnings.is_empty());
}

#[test]
fn a_transform_is_asked_for_and_applied() {
    let mut context = MacroContext::empty();
    context.insert("char", "Alice".to_owned());
    let mut replies = Replies::none();
    replies.transforms = Some(vec![]);
    let mut state = StateTransaction::empty();
    let asked =
        MacroEngine::new(1).render_with_transform("I am {{char}}.", &context, &replies, &mut state);
    assert_eq!(
        asked,
        Err(MacroError::Unresolved(Question::Transform { text: "Alice".to_owned() }))
    );
    replies.transforms = Some(vec![("Alice".to_owned(), "ALICE".to_owned())]);
    let mut state = StateTransaction::empty();
    let rendered = MacroEngine::new(1)
        .render_with_transform("I am {{char}}.", &context, &replies, &mut state)
        .unwrap();
    assert_eq!(rendered.text, "I am ALICE.");
}

#[test]
fn arithmetic_on_other_numerals_is_asked_for() {
    let mut state = StateTransaction::empty();
    state.set_raw(VariableScope::Local, "x", "0.5", "test", "fixture");
    let asked = MacroEngine::new(1).render(
        "{{addvar::x::0.25}}",
        &MacroContext::empty(),
        &Replies::none(),
        &mut state,
    );
    assert!(matches!(asked, Err(MacroError::Unresolved(_))));
}

#[test]
fn names_are_found_whatever_their_case() {
    let mut context = MacroContext::empty();
    context.insert("Char", "Alice".to_owned());
    context.register("Mood", "bright".to_owned());
    let mut state = StateTransaction::empty();
    let rendered = MacroEngine::new(1)
        .render("{{CHAR}} {{char}} {{mood}}", &context, &Replies::none(), &mut state)
        .unwrap();
    assert_eq!(rendered.text, "Alice Alice bright");
}

#[test]
fn dice_that_are_ill_written_are_refused() {
    let mut state = StateTransaction::empty();
    let refused = MacroEngine::new(1).render(
        "{{roll::many}}",
        &MacroContext::empty(),
        &Replies::none(),
        &mut state,
    );
    assert_eq!(refused, Err(MacroError::InvalidRoll("many".to_owned())));
    assert_eq!(
        MacroError::InvalidRoll("many".to_owned()).message(),
        "invalid dice expression 'many'"
    );
}
