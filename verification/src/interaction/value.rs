//! Values of settings and their JSON forms.
use vstd::prelude::*;

use crate::json::{
    array, as_text, ascending, equal_json, find_member, items_view, Json, json_view, JsonNumber, JsonView,
    lemma_array_view, lemma_member_index, lemma_object_of_ordered, lemma_object_view, lemma_rank,
    member, member_index, members_view, named, no_items, no_pairs, object, object_of, ordered,
    push_item, push_pair, push_text, rank,
};
use crate::text;

verus! {

/// The value of a setting.
#[derive(Debug, Eq, PartialEq)]
pub enum InteractionValue {
    Boolean(bool),
    Number(JsonNumber),
    Text(String),
    OrderedList(Vec<InteractionListItem>),
}

/// An item of an ordered list: its identity and its other values.
#[derive(Debug, Eq, PartialEq)]
pub struct InteractionListItem {
    pub id: String,
    pub values: Vec<(String, InteractionValue)>,
}

/// The JSON value of a setting's value. A list item is an object of its
/// identity and its other values.
pub open spec fn value_json(value: InteractionValue) -> JsonView
    decreases value,
{
    match value {
        InteractionValue::Boolean(b) => JsonView::Bool(b),
        InteractionValue::Number(n) => JsonView::Number(n@),
        InteractionValue::Text(t) => JsonView::Text(t@),
        InteractionValue::OrderedList(items) => JsonView::Array(
            Seq::new(
                items@.len(),
                |i: int|
                    if 0 <= i < items@.len() {
                        item_json(items@[i])
                    } else {
                        JsonView::Null
                    },
            ),
        ),
    }
}

/// The JSON value of a list item.
pub open spec fn item_json(item: InteractionListItem) -> JsonView
    decreases item,
{
    JsonView::Object(
        object_of(seq![("id"@, JsonView::Text(item.id@))] + values_view(item.values@)),
    )
}

/// The named JSON values of a list item but its identity.
pub open spec fn values_view(values: Seq<(String, InteractionValue)>) -> Seq<
    (Seq<char>, JsonView),
>
    decreases values,
{
    if values.len() == 0 {
        Seq::empty()
    } else {
        values_view(values.drop_last()).push((values.last().0@, value_json(values.last().1)))
    }
}

proof fn lemma_values_view(values: Seq<(String, InteractionValue)>)
    ensures
        values_view(values).len() == values.len(),
        forall|i: int|
            0 <= i < values.len() ==> #[trigger] values_view(values)[i] == (
                values[i].0@,
                value_json(values[i].1),
            ),
    decreases values.len(),
{
    if values.len() > 0 {
        lemma_values_view(values.drop_last());
        assert forall|i: int| 0 <= i < values.len() implies #[trigger] values_view(values)[i] == (
            values[i].0@,
            value_json(values[i].1),
        ) by {
            if i < values.len() - 1 {
                assert(values_view(values.drop_last())[i] == (
                    values.drop_last()[i].0@,
                    value_json(values.drop_last()[i].1),
                ));
            }
        }
    }
}

/// The JSON values of some list items.
pub open spec fn list_view(items: Seq<InteractionListItem>) -> Seq<JsonView> {
    Seq::new(items.len(), |i: int| item_json(items[i]))
}

/// A JSON value that can be the value of a setting: a truth value, a number, a
/// text, or a list of items.
pub open spec fn representable(value: JsonView) -> bool
    decreases value,
{
    match value {
        JsonView::Bool(_) => true,
        JsonView::Number(_) => true,
        JsonView::Text(_) => true,
        JsonView::Array(items) => forall|i: int|
            0 <= i < items.len() ==> representable_item(#[trigger] items[i]),
        _ => false,
    }
}

/// A JSON value that can be a list item: an object with a text for identity
/// whose other members can be values of settings.
pub open spec fn representable_item(value: JsonView) -> bool
    decreases value,
{
    match value {
        JsonView::Object(members) => as_text(member(members, "id"@)) is Some && forall|i: int|
            0 <= i < members.len() && (#[trigger] members[i]).0 != "id"@ ==> representable(
                members[i].1,
            ),
        _ => false,
    }
}

impl InteractionValue {
    /// The JSON value of a setting's value.
    pub fn to_json(&self) -> (json: Json)
        ensures
            json@ == value_json(*self),
        decreases *self,
    {
        match self {
            InteractionValue::Boolean(b) => Json::Bool(*b),
            InteractionValue::Number(n) => Json::Number(n.copy()),
            InteractionValue::Text(t) => Json::Text(t.clone()),
            InteractionValue::OrderedList(items) => {
                let mut list: Vec<Json> = Vec::new();
                let mut i: usize = 0;
                while i < items.len()
                    invariant
                        i <= items@.len(),
                        *self == InteractionValue::OrderedList(*items),
                        list@.len() == i,
                        forall|j: int|
                            0 <= j < i ==> json_view(#[trigger] list@[j]) == item_json(items@[j]),
                    decreases items@.len() - i,
                {
                    proof {
                        assert(decreases_to!(*self => self->OrderedList_0));
                        assert(decreases_to!(*items => items@[i as int]));
                    }
                    let item = items[i].to_json();
                    list.push(item);
                    i = i + 1;
                }
                proof {
                    lemma_array_view(list);
                    assert(items_view(list@) =~= list_view(items@));
                    assert(value_json(*self)->Array_0 =~= list_view(items@));
                }
                Json::Array(list)
            },
        }
    }

    /// Reads a setting's value from a JSON value. Writing it gives the JSON
    /// value back.
    pub fn from_json(value: &Json) -> (r: Option<InteractionValue>)
        requires
            ordered(value@),
        ensures
            match r {
                Some(v) => representable(value@) && value_json(v) == value@,
                None => !representable(value@),
            },
        decreases *value,
    {
        match value {
            Json::Bool(b) => Some(InteractionValue::Boolean(*b)),
            Json::Number(n) => Some(InteractionValue::Number(n.copy())),
            Json::Text(t) => Some(InteractionValue::Text(t.clone())),
            Json::Array(items) => {
                proof {
                    lemma_array_view(*items);
                }
                let mut list: Vec<InteractionListItem> = Vec::new();
                let mut i: usize = 0;
                while i < items.len()
                    invariant
                        i <= items@.len(),
                        *value == Json::Array(*items),
                        value@ == JsonView::Array(items_view(items@)),
                        ordered(value@),
                        list@.len() == i,
                        forall|j: int|
                            0 <= j < i ==> representable_item(#[trigger] items_view(items@)[j]),
                        forall|j: int|
                            0 <= j < i ==> item_json(#[trigger] list@[j]) == items_view(items@)[j],
                    decreases items@.len() - i,
                {
                    proof {
                        assert(decreases_to!(*value => value->Array_0));
                        assert(decreases_to!(*items => items@[i as int]));
                        assert(items_view(items@)[i as int] == items@[i as int]@);
                        assert(ordered((value@->Array_0)[i as int]));
                    }
                    match InteractionListItem::from_json(&items[i]) {
                        Some(item) => {
                            list.push(item);
                        },
                        None => {
                            proof {
                                assert(!representable_item((value@->Array_0)[i as int]));
                            }
                            return None;
                        },
                    }
                    i = i + 1;
                }
                let r = InteractionValue::OrderedList(list);
                proof {
                    assert(list_view(list@) =~= items_view(items@));
                    assert(value_json(r)->Array_0 =~= list_view(list@));
                }
                Some(r)
            },
            _ => None,
        }
    }

    /// Whether two values are equal.
    pub fn same(&self, other: &InteractionValue) -> (r: bool)
        ensures
            r == equal_json(value_json(*self), value_json(*other)),
    {
        self.to_json().same(&other.to_json())
    }

    /// A copy of the value.
    pub fn copy(&self) -> (copy: InteractionValue)
        ensures
            value_json(copy) == value_json(*self),
        decreases *self,
    {
        match self {
            InteractionValue::Boolean(b) => InteractionValue::Boolean(*b),
            InteractionValue::Number(n) => InteractionValue::Number(n.copy()),
            InteractionValue::Text(t) => InteractionValue::Text(t.clone()),
            InteractionValue::OrderedList(items) => {
                let mut list: Vec<InteractionListItem> = Vec::new();
                let mut i: usize = 0;
                while i < items.len()
                    invariant
                        i <= items@.len(),
                        *self == InteractionValue::OrderedList(*items),
                        list@.len() == i,
                        forall|j: int|
                            0 <= j < i ==> item_json(#[trigger] list@[j]) == item_json(items@[j]),
                    decreases items@.len() - i,
                {
                    proof {
                        assert(decreases_to!(*self => self->OrderedList_0));
                        assert(decreases_to!(*items => items@[i as int]));
                    }
                    let item = items[i].copy();
                    list.push(item);
                    i = i + 1;
                }
                let copy = InteractionValue::OrderedList(list);
                proof {
                    assert(value_json(copy)->Array_0 =~= value_json(*self)->Array_0);
                }
                copy
            },
        }
    }
}

impl InteractionListItem {
    /// The JSON value of a list item.
    pub fn to_json(&self) -> (json: Json)
        ensures
            json@ == item_json(*self),
        decreases *self,
    {
        let mut pairs: Vec<(String, Json)> = vec![("id".to_owned(), Json::Text(self.id.clone()))];
        let mut i: usize = 0;
        proof {
            assert(pairs@[0].0@ == "id"@ && json_view(pairs@[0].1) == JsonView::Text(self.id@));
        }
        while i < self.values.len()
            invariant
                i <= self.values@.len(),
                pairs@.len() == i + 1,
                pairs@[0].0@ == "id"@,
                json_view(pairs@[0].1) == JsonView::Text(self.id@),
                forall|j: int|
                    1 <= j <= i ==> (#[trigger] pairs@[j]).0@ == self.values@[j - 1].0@
                        && json_view(pairs@[j].1) == value_json(self.values@[j - 1].1),
            decreases self.values@.len() - i,
        {
            proof {
                assert(decreases_to!(*self => self.values));
                assert(decreases_to!(self.values => self.values@[i as int]));
            }
            let name = self.values[i].0.clone();
            let value = self.values[i].1.to_json();
            pairs.push((name, value));
            i = i + 1;
        }
        proof {
            lemma_values_view(self.values@);
            assert(members_view(pairs@) =~= seq![("id"@, JsonView::Text(self.id@))] + values_view(
                self.values@,
            ));
        }
        object(pairs)
    }

    /// Reads a list item from a JSON value.
    pub fn from_json(value: &Json) -> (r: Option<InteractionListItem>)
        requires
            ordered(value@),
        ensures
            match r {
                Some(item) => representable_item(value@) && item_json(item) == value@,
                None => !representable_item(value@),
            },
        decreases *value,
    {
        let members = match value {
            Json::Object(members) => members,
            _ => {
                return None;
            },
        };
        proof {
            lemma_object_view(*members);
        }
        let id = match find_member(members, "id") {
            Some(Json::Text(id)) => id.clone(),
            _ => {
                return None;
            },
        };
        let ghost all = members_view(members@);
        let ghost at = member_index(all, "id"@);
        proof {
            lemma_member_index(all, "id"@);
        }
        let mut values: Vec<(String, InteractionValue)> = Vec::new();
        let mut i: usize = 0;
        while i < members.len()
            invariant
                i <= members@.len(),
                *value == Json::Object(*members),
                all == members_view(members@),
                value@ == JsonView::Object(all),
                ordered(value@),
                0 <= at < all.len(),
                all[at].0 == "id"@,
                forall|j: int|
                    0 <= j < i && (#[trigger] all[j]).0 != "id"@ ==> representable(all[j].1),
                values@.len() == (if i <= at {
                    i as int
                } else {
                    i - 1
                }),
                forall|j: int|
                    0 <= j < values@.len() ==> ((#[trigger] values@[j]).0@, value_json(
                        values@[j].1,
                    )) == all[if j < at {
                        j
                    } else {
                        j + 1
                    }],
            decreases members@.len() - i,
        {
            proof {
                assert(decreases_to!(*value => value->Object_0));
                assert(decreases_to!(*members => members@[i as int]));
                assert(all[i as int] == (members@[i as int].0@, members@[i as int].1@));
                assert(ordered((value@->Object_0)[i as int].1));
                assert(ascending(all));
                if i != at {
                    lemma_names_differ(all, i as int, at);
                }
            }
            if !text::same(members[i].0.as_str(), "id") {
                match InteractionValue::from_json(&members[i].1) {
                    Some(v) => {
                        let name = members[i].0.clone();
                        values.push((name, v));
                    },
                    None => {
                        proof {
                            assert(!representable((value@->Object_0)[i as int].1));
                        }
                        return None;
                    },
                }
            }
            i = i + 1;
        }
        let item = InteractionListItem { id, values };
        proof {
            lemma_values_view(values@);
            assert(values_view(values@) =~= all.remove(at));
            assert(seq![("id"@, JsonView::Text(id@))] + values_view(values@) =~= seq![all[at]]
                + all.remove(at));
            lemma_object_of_restores(all, at, all.len() - 1);
            assert((seq![all[at]] + all.remove(at)).take(all.len() as int) =~= seq![all[at]]
                + all.remove(at));
            assert(all.take(all.len() as int) =~= all);
            assert(all.take(all.len() - 1).push(all[all.len() - 1]) =~= all);
            assert(as_text(member(all, "id"@)) is Some);
            assert(representable_item(value@)) by {
                assert forall|j: int|
                    0 <= j < all.len() && (#[trigger] all[j]).0 != "id"@ implies representable(
                    all[j].1,
                ) by {}
                assert(value@->Object_0 == all);
            }
        }
        Some(item)
    }

    /// A copy of the item.
    pub fn copy(&self) -> (copy: InteractionListItem)
        ensures
            item_json(copy) == item_json(*self),
        decreases *self,
    {
        let mut values: Vec<(String, InteractionValue)> = Vec::new();
        let mut i: usize = 0;
        while i < self.values.len()
            invariant
                i <= self.values@.len(),
                values@.len() == i,
                forall|j: int|
                    0 <= j < i ==> (#[trigger] values@[j]).0@ == self.values@[j].0@ && value_json(
                        values@[j].1,
                    ) == value_json(self.values@[j].1),
            decreases self.values@.len() - i,
        {
            proof {
                assert(decreases_to!(*self => self.values));
                assert(decreases_to!(self.values => self.values@[i as int]));
            }
            let name = self.values[i].0.clone();
            let value = self.values[i].1.copy();
            values.push((name, value));
            i = i + 1;
        }
        let copy = InteractionListItem { id: self.id.clone(), values };
        proof {
            lemma_values_view(self.values@);
            lemma_values_view(values@);
            assert(values_view(values@) =~= values_view(self.values@));
        }
        copy
    }
}

proof fn lemma_names_differ(members: Seq<(Seq<char>, JsonView)>, i: int, j: int)
    requires
        ascending(members),
        0 <= i < members.len(),
        0 <= j < members.len(),
        i != j,
    ensures
        members[i].0 != members[j].0,
{
    if i < j {
        text::lemma_lex_asymmetric(members[i].0, members[j].0);
    } else {
        text::lemma_lex_asymmetric(members[j].0, members[i].0);
    }
}

proof fn lemma_member_absent(members: Seq<(Seq<char>, JsonView)>, name: Seq<char>)
    requires
        forall|i: int| 0 <= i < members.len() ==> (#[trigger] members[i]).0 != name,
    ensures
        member_index(members, name) == members.len(),
{
    lemma_member_index(members, name);
}

proof fn lemma_rank_at(members: Seq<(Seq<char>, JsonView)>, name: Seq<char>, at: int)
    requires
        0 <= at <= members.len(),
        forall|i: int| 0 <= i < at ==> text::lex_less((#[trigger] members[i]).0, name),
        at < members.len() ==> text::lex_less(name, members[at].0),
    ensures
        rank(members, name) == at,
{
    lemma_rank(members, name);
    let k = rank(members, name);
    if k < at {
        text::lemma_lex_asymmetric(members[k].0, name);
    }
}

/// Making an object of a member and then of the others in their order restores
/// an ordered object.
proof fn lemma_object_of_restores(members: Seq<(Seq<char>, JsonView)>, at: int, k: int)
    requires
        ascending(members),
        0 <= at < members.len(),
        0 <= k < members.len(),
    ensures
        object_of((seq![members[at]] + members.remove(at)).take(k + 1)) == (if k <= at {
            members.take(k).push(members[at])
        } else {
            members.take(k + 1)
        }),
    decreases k,
{
    let pairs = seq![members[at]] + members.remove(at);
    let prefix = pairs.take(k + 1);
    if k == 0 {
        assert(prefix.drop_last() =~= Seq::empty());
        let empty = object_of(prefix.drop_last());
        assert(empty =~= Seq::empty());
        assert(rank(empty, members[at].0) == 0);
        assert(object_of(prefix) =~= seq![members[at]]);
        assert(members.take(0).push(members[at]) =~= seq![members[at]]);
        assert(members.take(1) =~= seq![members[0]]);
    } else {
        lemma_object_of_restores(members, at, k - 1);
        assert(prefix.drop_last() =~= pairs.take(k));
        let before = object_of(pairs.take(k));
        if k <= at {
            let new = members[k - 1];
            assert(prefix.last() == new);
            assert(before == members.take(k - 1).push(members[at]));
            assert forall|i: int| 0 <= i < before.len() implies (#[trigger] before[i]).0
                != new.0 by {
                if i < k - 1 {
                    assert(before[i] == members[i]);
                    lemma_names_differ(members, i, k - 1);
                } else {
                    lemma_names_differ(members, at, k - 1);
                }
            }
            lemma_member_absent(before, new.0);
            assert forall|i: int| 0 <= i < k - 1 implies text::lex_less(
                (#[trigger] before[i]).0,
                new.0,
            ) by {
                assert(before[i] == members[i]);
                assert(text::lex_less(members[i].0, members[k - 1].0));
            }
            assert(text::lex_less(members[k - 1].0, members[at].0));
            lemma_rank_at(before, new.0, k - 1);
            assert(object_of(prefix) =~= members.take(k).push(members[at]));
        } else {
            let new = members[k];
            assert(prefix.last() == new);
            assert(before =~= members.take(k));
            assert forall|i: int| 0 <= i < before.len() implies (#[trigger] before[i]).0
                != new.0 by {
                assert(before[i] == members[i]);
                lemma_names_differ(members, i, k);
            }
            lemma_member_absent(before, new.0);
            assert forall|i: int| 0 <= i < k implies text::lex_less(
                (#[trigger] before[i]).0,
                new.0,
            ) by {
                assert(before[i] == members[i]);
                assert(text::lex_less(members[i].0, members[k].0));
            }
            lemma_rank_at(before, new.0, k);
            assert(object_of(prefix) =~= members.take(k + 1));
        }
    }
}

/// How a value is recorded: as its JSON value, but a list item as its identity
/// and an object of its other values.
pub open spec fn recorded_value(value: InteractionValue) -> JsonView
    decreases value,
{
    match value {
        InteractionValue::Boolean(b) => JsonView::Bool(b),
        InteractionValue::Number(n) => JsonView::Number(n@),
        InteractionValue::Text(t) => JsonView::Text(t@),
        InteractionValue::OrderedList(items) => JsonView::Array(recorded_items(items@)),
    }
}

/// How some list items are recorded.
pub open spec fn recorded_items(items: Seq<InteractionListItem>) -> Seq<JsonView>
    decreases items,
{
    if items.len() == 0 {
        Seq::empty()
    } else {
        recorded_items(items.drop_last()).push(
            JsonView::Object(
                object_of(
                    named().push(("id"@, JsonView::Text(items.last().id@))).push((
                            "values"@,
                            JsonView::Object(object_of(recorded_values(items.last().values@))),
                        )),
                ),
            ),
        )
    }
}

/// How the named values of a list item are recorded.
pub open spec fn recorded_values(values: Seq<(String, InteractionValue)>) -> Seq<
    (Seq<char>, JsonView),
>
    decreases values,
{
    if values.len() == 0 {
        Seq::empty()
    } else {
        recorded_values(values.drop_last()).push(
            (values.last().0@, recorded_value(values.last().1)),
        )
    }
}

impl InteractionValue {
    /// How the value is recorded.
    pub fn record(&self) -> (json: Json)
        ensures
            json@ == recorded_value(*self),
        decreases *self,
    {
        match self {
            InteractionValue::Boolean(b) => Json::Bool(*b),
            InteractionValue::Number(n) => Json::Number(n.copy()),
            InteractionValue::Text(t) => Json::Text(t.clone()),
            InteractionValue::OrderedList(items) => {
                let mut list = no_items();
                let mut i: usize = 0;
                proof {
                    assert(items@.take(0) =~= Seq::empty());
                }
                while i < items.len()
                    invariant
                        i <= items@.len(),
                        *self == InteractionValue::OrderedList(*items),
                        items_view(list@) == recorded_items(items@.take(i as int)),
                    decreases items@.len() - i,
                {
                    proof {
                        assert(decreases_to!(*self => self->OrderedList_0));
                        assert(decreases_to!(*items => items@[i as int]));
                        assert(items@.take(i + 1).drop_last() =~= items@.take(i as int));
                        assert(items@.take(i + 1).last() == items@[i as int]);
                    }
                    let item = items[i].record();
                    push_item(&mut list, item);
                    i = i + 1;
                }
                proof {
                    assert(items@.take(items@.len() as int) =~= items@);
                }
                array(list)
            },
        }
    }
}

impl InteractionListItem {
    fn record(&self) -> (json: Json)
        ensures
            json@ == JsonView::Object(
                object_of(
                    named().push(("id"@, JsonView::Text(self.id@))).push(("values"@, JsonView::Object(object_of(recorded_values(self.values@))))),
                ),
            ),
        decreases *self,
    {
        let mut values = no_pairs();
        let mut i: usize = 0;
        proof {
            assert(self.values@.take(0) =~= Seq::empty());
        }
        while i < self.values.len()
            invariant
                i <= self.values@.len(),
                members_view(values@) == recorded_values(self.values@.take(i as int)),
            decreases self.values@.len() - i,
        {
            proof {
                assert(decreases_to!(*self => self.values));
                assert(decreases_to!(self.values => self.values@[i as int]));
                assert(self.values@.take(i + 1).drop_last() =~= self.values@.take(i as int));
                assert(self.values@.take(i + 1).last() == self.values@[i as int]);
            }
            let value = self.values[i].1.record();
            push_pair(&mut values, self.values[i].0.as_str(), value);
            i = i + 1;
        }
        proof {
            assert(self.values@.take(self.values@.len() as int) =~= self.values@);
        }
        let mut pairs = no_pairs();
        push_text(&mut pairs, "id", self.id.as_str());
        push_pair(&mut pairs, "values", object(values));
        object(pairs)
    }
}

/// The JSON value of a setting is ordered.
pub proof fn lemma_value_ordered(value: InteractionValue)
    ensures
        ordered(value_json(value)),
    decreases value,
{
    if value is OrderedList {
        let items = value->OrderedList_0;
        let views = value_json(value)->Array_0;
        assert forall|i: int| 0 <= i < views.len() implies ordered(#[trigger] views[i]) by {
            assert(decreases_to!(items => items@[i]));
            lemma_item_ordered(items@[i]);
        }
    }
}

proof fn lemma_item_ordered(item: InteractionListItem)
    ensures
        ordered(item_json(item)),
    decreases item,
{
    let values = values_view(item.values@);
    lemma_values_view(item.values@);
    let pairs = seq![("id"@, JsonView::Text(item.id@))] + values;
    assert forall|i: int| 0 <= i < pairs.len() implies ordered((#[trigger] pairs[i]).1) by {
        if i > 0 {
            assert(pairs[i] == values[i - 1]);
            assert(decreases_to!(item => item.values));
            assert(decreases_to!(item.values => item.values@[i - 1]));
            lemma_value_ordered(item.values@[i - 1].1);
        }
    }
    lemma_object_of_ordered(pairs);
}

} // verus!
