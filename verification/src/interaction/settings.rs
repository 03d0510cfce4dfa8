//! The settings in force for an extension.
use vstd::prelude::*;

use crate::assoc;
use crate::interaction::declaration::InteractionDeclaration;
use crate::interaction::schema::{DeclaredField, invalid, refuses};
use crate::interaction::value::{lemma_value_ordered, value_json};
use crate::json::{
    copy_members, field, find_member, Json, JsonView, lemma_member_ordered, lemma_object_view,
    lemma_with_member_found, lemma_with_member_ordered, member, members_view, no_pairs, ordered,
    set_member,
};
use crate::plugin::PluginError;
use crate::text;

verus! {

/// The settings that an extension starts from: the persisted ones, or else the
/// pinned ones, or else none.
pub open spec fn base_settings(persisted: JsonView, pinned: JsonView) -> Seq<
    (Seq<char>, JsonView),
> {
    match persisted {
        JsonView::Object(members) => members,
        _ => match pinned {
            JsonView::Object(members) => members,
            _ => Seq::empty(),
        },
    }
}

/// Why persisted or pinned settings are refused.
pub open spec fn settings_error(persisted: JsonView, pinned: JsonView) -> Option<Seq<char>> {
    if !(persisted is Object || persisted is Null) {
        Some("persisted Extension settings must be an object or null"@)
    } else if !(pinned is Object || pinned is Null) {
        Some("pinned Extension settings must be an object or null"@)
    } else {
        None
    }
}

/// The value in force of a setting: the pinned one of a declared setting, else
/// the one that the extension starts from, else the declared default.
pub open spec fn setting_in_force(
    fields: Seq<(String, DeclaredField)>,
    persisted: JsonView,
    pinned: JsonView,
    name: Seq<char>,
) -> Option<JsonView> {
    let declared = assoc::lookup(fields, name);
    if declared is Some && field(pinned, name) is Some {
        field(pinned, name)
    } else if member(base_settings(persisted, pinned), name) is Some {
        member(base_settings(persisted, pinned), name)
    } else if declared is Some {
        Some(value_json((declared->0).default))
    } else {
        None
    }
}

/// The members are the settings in force.
pub open spec fn are_settings(
    members: Seq<(Seq<char>, JsonView)>,
    fields: Seq<(String, DeclaredField)>,
    persisted: JsonView,
    pinned: JsonView,
) -> bool {
    &&& ordered(JsonView::Object(members))
    &&& forall|name: Seq<char>| #[trigger]
        member(members, name) == setting_in_force(fields, persisted, pinned, name)
}

/// The settings in force for an extension.
pub fn effective_settings(
    declaration: &InteractionDeclaration,
    persisted: &Json,
    pinned: &Json,
) -> (r: Result<Vec<(String, Json)>, PluginError>)
    requires
        ordered(persisted@),
        ordered(pinned@),
        assoc::ascending(declaration.fields@),
    ensures
        match r {
            Ok(members) => settings_error(persisted@, pinned@) is None && are_settings(
                members_view(members@),
                declaration.fields@,
                persisted@,
                pinned@,
            ),
            Err(e) => settings_error(persisted@, pinned@) is Some && refuses(
                e,
                settings_error(persisted@, pinned@)->0,
            ),
        },
{
    let mut effective = match persisted {
        Json::Object(members) => {
            proof {
                lemma_object_view(*members);
            }
            copy_members(members)
        },
        Json::Null => match pinned {
            Json::Object(members) => {
                proof {
                    lemma_object_view(*members);
                }
                copy_members(members)
            },
            Json::Null => no_pairs(),
            _ => {
                return Err(
                    invalid("pinned Extension settings must be an object or null".to_owned()),
                );
            },
        },
        _ => {
            return Err(
                invalid("persisted Extension settings must be an object or null".to_owned()),
            );
        },
    };
    let ghost base = base_settings(persisted@, pinned@);
    let ghost fields = declaration.fields@;
    proof {
        assert(members_view(effective@) =~= base);
        assert forall|name: Seq<char>| #[trigger]
            member(members_view(effective@), name) == defaulted(fields, base, name, 0) by {
            lemma_lookup_before(fields, name, 0);
        }
    }
    let mut i: usize = 0;
    while i < declaration.fields.len()
        invariant
            i <= declaration.fields@.len(),
            fields == declaration.fields@,
            assoc::ascending(fields),
            ordered(JsonView::Object(members_view(effective@))),
            forall|name: Seq<char>| #[trigger]
                member(members_view(effective@), name) == defaulted(fields, base, name, i as int),
        decreases declaration.fields@.len() - i,
    {
        let ghost before = members_view(effective@);
        let entry = &declaration.fields[i];
        proof {
            lemma_value_ordered(entry.1.default);
            assoc::lemma_index_of(fields, entry.0@);
            lemma_index_unique(fields, i as int);
        }
        if find_member(&effective, entry.0.as_str()).is_none() {
            let value = entry.1.default.to_json();
            set_member(&mut effective, entry.0.clone(), value);
            proof {
                lemma_with_member_ordered(
                    before,
                    entry.0@,
                    value_json(entry.1.default),
                );
                assert forall|name: Seq<char>| #[trigger]
                    member(members_view(effective@), name) == defaulted(
                        fields,
                        base,
                        name,
                        i + 1,
                    ) by {
                    lemma_with_member_found(
                        before,
                        entry.0@,
                        value_json(entry.1.default),
                        name,
                    );
                    assert(member(before, name) == defaulted(fields, base, name, i as int));
                    assert(member(before, entry.0@) == defaulted(
                        fields,
                        base,
                        entry.0@,
                        i as int,
                    ));
                    assoc::lemma_index_of(fields, name);
                    if name != entry.0@ && assoc::index_of(fields, name) == i {
                        assert(fields[i as int].0@ == name);
                    }
                }
            }
        } else {
            proof {
                assert forall|name: Seq<char>| #[trigger]
                    member(members_view(effective@), name) == defaulted(
                        fields,
                        base,
                        name,
                        i + 1,
                    ) by {
                    assert(member(before, name) == defaulted(fields, base, name, i as int));
                    assert(member(before, entry.0@) == defaulted(
                        fields,
                        base,
                        entry.0@,
                        i as int,
                    ));
                    assoc::lemma_index_of(fields, name);
                    if name != entry.0@ && assoc::index_of(fields, name) == i {
                        assert(fields[i as int].0@ == name);
                    }
                }
            }
        }
        i = i + 1;
    }
    let pinned_members = match pinned {
        Json::Object(members) => members,
        Json::Null => {
            proof {
                assert forall|name: Seq<char>| #[trigger]
                    member(members_view(effective@), name) == setting_in_force(
                        fields,
                        persisted@,
                        pinned@,
                        name,
                    ) by {
                    assoc::lemma_index_of(fields, name);
                }
            }
            return Ok(effective);
        },
        _ => {
            return Err(
                invalid("pinned Extension settings must be an object or null".to_owned()),
            );
        },
    };
    proof {
        lemma_object_view(*pinned_members);
        assert forall|name: Seq<char>| #[trigger]
            member(members_view(effective@), name) == overridden(
                fields,
                base,
                members_view(pinned_members@),
                name,
                0,
            ) by {
            assoc::lemma_index_of(fields, name);
        }
    }
    let ghost pins = members_view(pinned_members@);
    let mut k: usize = 0;
    while k < declaration.fields.len()
        invariant
            k <= declaration.fields@.len(),
            fields == declaration.fields@,
            assoc::ascending(fields),
            pins == members_view(pinned_members@),
            ordered(JsonView::Object(pins)),
            ordered(JsonView::Object(members_view(effective@))),
            forall|name: Seq<char>| #[trigger]
                member(members_view(effective@), name) == overridden(
                    fields,
                    base,
                    pins,
                    name,
                    k as int,
                ),
        decreases declaration.fields@.len() - k,
    {
        let ghost before = members_view(effective@);
        let property = &declaration.fields[k].0;
        proof {
            lemma_index_unique(fields, k as int);
            lemma_member_ordered(pins, property@);
        }
        match find_member(pinned_members, property.as_str()) {
            Some(value) => {
                let copy = value.copy();
                set_member(&mut effective, property.clone(), copy);
                proof {
                    lemma_with_member_ordered(before, property@, value@);
                    assert forall|name: Seq<char>| #[trigger]
                        member(members_view(effective@), name) == overridden(
                            fields,
                            base,
                            pins,
                            name,
                            k + 1,
                        ) by {
                        lemma_with_member_found(before, property@, value@, name);
                        assert(member(before, name) == overridden(
                            fields,
                            base,
                            pins,
                            name,
                            k as int,
                        ));
                        assoc::lemma_index_of(fields, name);
                        if name != property@ && assoc::index_of(fields, name) == k {
                            assert(fields[k as int].0@ == name);
                        }
                    }
                }
            },
            None => {
                proof {
                    assert forall|name: Seq<char>| #[trigger]
                        member(members_view(effective@), name) == overridden(
                            fields,
                            base,
                            pins,
                            name,
                            k + 1,
                        ) by {
                        assert(member(before, name) == overridden(
                            fields,
                            base,
                            pins,
                            name,
                            k as int,
                        ));
                        assoc::lemma_index_of(fields, name);
                        if name != property@ && assoc::index_of(fields, name) == k {
                            assert(fields[k as int].0@ == name);
                        }
                    }
                }
            },
        }
        k = k + 1;
    }
    proof {
        assert forall|name: Seq<char>| #[trigger]
            member(members_view(effective@), name) == setting_in_force(
                fields,
                persisted@,
                pinned@,
                name,
            ) by {
            assert(member(members_view(effective@), name) == overridden(
                fields,
                base,
                pins,
                name,
                fields.len() as int,
            ));
            assoc::lemma_index_of(fields, name);
        }
    }
    Ok(effective)
}

/// The value of a setting once the defaults of the first `count` declared ones
/// have been filled in.
spec fn defaulted(
    fields: Seq<(String, DeclaredField)>,
    base: Seq<(Seq<char>, JsonView)>,
    name: Seq<char>,
    count: int,
) -> Option<JsonView> {
    let at = assoc::index_of(fields, name);
    if member(base, name) is Some {
        member(base, name)
    } else if at < count && at < fields.len() {
        Some(value_json(fields[at].1.default))
    } else {
        None
    }
}

/// The value of a setting once the first `count` declared ones have been
/// overridden by pinned ones.
spec fn overridden(
    fields: Seq<(String, DeclaredField)>,
    base: Seq<(Seq<char>, JsonView)>,
    pins: Seq<(Seq<char>, JsonView)>,
    name: Seq<char>,
    count: int,
) -> Option<JsonView> {
    let at = assoc::index_of(fields, name);
    if at < count && at < fields.len() && member(pins, name) is Some {
        member(pins, name)
    } else {
        defaulted(fields, base, name, fields.len() as int)
    }
}

proof fn lemma_lookup_before(fields: Seq<(String, DeclaredField)>, name: Seq<char>, count: int)
    requires
        count == 0,
    ensures
        assoc::index_of(fields, name) >= count,
{
    assoc::lemma_index_of(fields, name);
}

proof fn lemma_index_unique(fields: Seq<(String, DeclaredField)>, at: int)
    requires
        assoc::ascending(fields),
        0 <= at < fields.len(),
    ensures
        assoc::index_of(fields, fields[at].0@) == at,
{
    assert forall|i: int| 0 <= i < at implies (#[trigger] fields[i]).0@ != fields[at].0@ by {
        text::lemma_lex_asymmetric(fields[i].0@, fields[at].0@);
    }
    assoc::lemma_index_is(fields, fields[at].0@, at);
}

} // verus!
