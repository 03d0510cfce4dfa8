//! JSON values as the rules of the engine read them.
//!
//! An object keeps its members in ascending order of their names, each name
//! once. A number keeps the form it was written in and, beside it, an integer
//! that orders it among the other numbers.
use vstd::prelude::*;

use crate::text;

verus! {

/// How a JSON number was written: a non-negative integer, a negative integer,
/// or anything else, by its numeral.
#[derive(Clone, Debug, Eq, PartialEq)]
pub enum NumberForm {
    Unsigned(u64),
    Negative(i64),
    Real(String),
}

/// A JSON number with the integer by which it is ordered: the bits of its double
/// precision value where that is not negative, and the negative of the bits of
/// its magnitude where it is. So of two numbers the one with the smaller `order`
/// is the smaller double precision value.
#[derive(Clone, Debug, Eq)]
pub struct JsonNumber {
    pub form: NumberForm,
    pub order: i64,
}

/// A JSON value.
#[derive(Debug, Eq, PartialEq)]
pub enum Json {
    Null,
    Bool(bool),
    Number(JsonNumber),
    Text(String),
    Array(Vec<Json>),
    Object(Vec<(String, Json)>),
}

/// The abstract value of a [`NumberForm`].
pub enum NumberFormView {
    Unsigned(u64),
    Negative(i64),
    Real(Seq<char>),
}

/// The abstract value of a [`JsonNumber`].
pub struct JsonNumberView {
    pub form: NumberFormView,
    pub order: i64,
}

/// The abstract value of a [`Json`].
pub enum JsonView {
    Null,
    Bool(bool),
    Number(JsonNumberView),
    Text(Seq<char>),
    Array(Seq<JsonView>),
    Object(Seq<(Seq<char>, JsonView)>),
}

impl View for JsonNumber {
    type V = JsonNumberView;

    open spec fn view(&self) -> JsonNumberView {
        JsonNumberView {
            form: match self.form {
                NumberForm::Unsigned(n) => NumberFormView::Unsigned(n),
                NumberForm::Negative(n) => NumberFormView::Negative(n),
                NumberForm::Real(t) => NumberFormView::Real(t@),
            },
            order: self.order,
        }
    }
}

/// The abstract value of a JSON value.
pub open spec fn json_view(value: Json) -> JsonView
    decreases value,
{
    match value {
        Json::Null => JsonView::Null,
        Json::Bool(b) => JsonView::Bool(b),
        Json::Number(n) => JsonView::Number(n@),
        Json::Text(s) => JsonView::Text(s@),
        Json::Array(items) => JsonView::Array(
            Seq::new(
                items@.len(),
                |i: int|
                    if 0 <= i < items@.len() {
                        json_view(items@[i])
                    } else {
                        JsonView::Null
                    },
            ),
        ),
        Json::Object(members) => JsonView::Object(
            Seq::new(
                members@.len(),
                |i: int|
                    if 0 <= i < members@.len() {
                        (members@[i].0@, json_view(members@[i].1))
                    } else {
                        (Seq::empty(), JsonView::Null)
                    },
            ),
        ),
    }
}

impl View for Json {
    type V = JsonView;

    open spec fn view(&self) -> JsonView {
        json_view(*self)
    }
}

/// Two numbers are equal: integers by their value, and others by the double
/// precision value that they stand for, so that zero has no sign.
pub open spec fn equal_numbers(left: JsonNumberView, right: JsonNumberView) -> bool {
    match (left.form, right.form) {
        (NumberFormView::Unsigned(a), NumberFormView::Unsigned(b)) => a == b,
        (NumberFormView::Negative(a), NumberFormView::Negative(b)) => a == b,
        (NumberFormView::Real(_), NumberFormView::Real(_)) => left.order == right.order,
        _ => false,
    }
}

/// Two values are equal, their numbers by what they stand for.
pub open spec fn equal_json(left: JsonView, right: JsonView) -> bool
    decreases left,
{
    match (left, right) {
        (JsonView::Null, JsonView::Null) => true,
        (JsonView::Bool(a), JsonView::Bool(b)) => a == b,
        (JsonView::Number(a), JsonView::Number(b)) => equal_numbers(a, b),
        (JsonView::Text(a), JsonView::Text(b)) => a == b,
        (JsonView::Array(a), JsonView::Array(b)) => a.len() == b.len() && forall|i: int|
            0 <= i < a.len() ==> equal_json(#[trigger] a[i], b[i]),
        (JsonView::Object(a), JsonView::Object(b)) => a.len() == b.len() && forall|i: int|
            0 <= i < a.len() ==> (#[trigger] a[i]).0 == b[i].0 && equal_json(a[i].1, b[i].1),
        _ => false,
    }
}

/// A value is equal to one of some values.
pub open spec fn has_equal(values: Seq<JsonView>, value: JsonView) -> bool {
    exists|i: int| 0 <= i < values.len() && equal_json(#[trigger] values[i], value)
}

impl PartialEq for JsonNumber {
    fn eq(&self, other: &Self) -> (equal: bool) {
        match (&self.form, &other.form) {
            (NumberForm::Unsigned(a), NumberForm::Unsigned(b)) => *a == *b,
            (NumberForm::Negative(a), NumberForm::Negative(b)) => *a == *b,
            (NumberForm::Real(_), NumberForm::Real(_)) => self.order == other.order,
            _ => false,
        }
    }
}

impl vstd::std_specs::cmp::PartialEqSpecImpl for JsonNumber {
    open spec fn obeys_eq_spec() -> bool {
        true
    }

    open spec fn eq_spec(&self, other: &Self) -> bool {
        equal_numbers(self@, other@)
    }
}

/// The abstract members of an object.
pub open spec fn members_view(members: Seq<(String, Json)>) -> Seq<(Seq<char>, JsonView)> {
    Seq::new(members.len(), |i: int| (members[i].0@, json_view(members[i].1)))
}

/// The abstract values of a list.
pub open spec fn items_view(items: Seq<Json>) -> Seq<JsonView> {
    Seq::new(items.len(), |i: int| json_view(items[i]))
}

/// An array's abstract value is made of those of its items.
pub proof fn lemma_array_view(items: Vec<Json>)
    ensures
        json_view(Json::Array(items)) == JsonView::Array(items_view(items@)),
{
    assert(json_view(Json::Array(items))->Array_0 =~= items_view(items@));
}

/// An object's abstract value is made of those of its members.
pub proof fn lemma_object_view(members: Vec<(String, Json)>)
    ensures
        json_view(Json::Object(members)) == JsonView::Object(members_view(members@)),
{
    assert(json_view(Json::Object(members))->Object_0 =~= members_view(members@));
}

/// The position of the first member named `name`, or the number of members
/// when there is none.
pub open spec fn member_index(members: Seq<(Seq<char>, JsonView)>, name: Seq<char>) -> int
    decreases members.len(),
{
    if members.len() == 0 {
        0
    } else if members[0].0 == name {
        0
    } else {
        1 + member_index(members.drop_first(), name)
    }
}

/// The value of the member named `name`.
pub open spec fn member(members: Seq<(Seq<char>, JsonView)>, name: Seq<char>) -> Option<JsonView> {
    let at = member_index(members, name);
    if at < members.len() {
        Some(members[at].1)
    } else {
        None
    }
}

/// Whether the members stand in strictly ascending order of their names.
pub open spec fn ascending(members: Seq<(Seq<char>, JsonView)>) -> bool {
    forall|i: int, j: int|
        0 <= i < j < members.len() ==> text::lex_less(
            #[trigger] members[i].0,
            #[trigger] members[j].0,
        )
}

pub proof fn lemma_member_index(members: Seq<(Seq<char>, JsonView)>, name: Seq<char>)
    ensures
        0 <= member_index(members, name) <= members.len(),
        member_index(members, name) < members.len() ==> members[member_index(members, name)].0
            == name,
        forall|i: int|
            0 <= i < member_index(members, name) ==> (#[trigger] members[i]).0 != name,
    decreases members.len(),
{
    if members.len() > 0 && members[0].0 != name {
        lemma_member_index(members.drop_first(), name);
        assert forall|i: int| 0 <= i < member_index(members, name) implies (
        #[trigger] members[i]).0 != name by {
            if i > 0 {
                assert(members.drop_first()[i - 1] == members[i]);
            }
        }
    }
}

proof fn lemma_member_index_is(members: Seq<(Seq<char>, JsonView)>, name: Seq<char>, at: int)
    requires
        0 <= at <= members.len(),
        at < members.len() ==> members[at].0 == name,
        forall|i: int| 0 <= i < at ==> (#[trigger] members[i]).0 != name,
    ensures
        member_index(members, name) == at,
{
    lemma_member_index(members, name);
    let found = member_index(members, name);
    if found < at {
        assert(members[found].0 != name);
    } else if at < found {
        assert(members[at].0 != name);
    }
}

/// Finds the member named `name`.
pub fn find_member<'a>(members: &'a Vec<(String, Json)>, name: &str) -> (found: Option<&'a Json>)
    ensures
        match found {
            Some(value) => member(members_view(members@), name@) == Some(value@),
            None => member(members_view(members@), name@) is None,
        },
{
    let mut i: usize = 0;
    while i < members.len()
        invariant
            i <= members@.len(),
            forall|j: int| 0 <= j < i ==> (#[trigger] members@[j]).0@ != name@,
        decreases members@.len() - i,
    {
        if text::same(members[i].0.as_str(), name) {
            proof {
                lemma_member_index_is(members_view(members@), name@, i as int);
            }
            return Some(&members[i].1);
        }
        i = i + 1;
    }
    proof {
        lemma_member_index_is(members_view(members@), name@, members@.len() as int);
    }
    None
}

/// `value` as an object has a member named `name` of this value.
pub open spec fn field(value: JsonView, name: Seq<char>) -> Option<JsonView> {
    match value {
        JsonView::Object(members) => member(members, name),
        _ => None,
    }
}

/// The text of a value that is a text.
pub open spec fn as_text(value: Option<JsonView>) -> Option<Seq<char>> {
    match value {
        Some(JsonView::Text(t)) => Some(t),
        _ => None,
    }
}

/// The items of a value that is an array.
pub open spec fn as_items(value: Option<JsonView>) -> Option<Seq<JsonView>> {
    match value {
        Some(JsonView::Array(items)) => Some(items),
        _ => None,
    }
}

/// The members of a value that is an object.
pub open spec fn as_members(value: Option<JsonView>) -> Option<Seq<(Seq<char>, JsonView)>> {
    match value {
        Some(JsonView::Object(members)) => Some(members),
        _ => None,
    }
}

/// The truth value of a value that is one.
pub open spec fn as_flag(value: Option<JsonView>) -> Option<bool> {
    match value {
        Some(JsonView::Bool(b)) => Some(b),
        _ => None,
    }
}

/// The non-negative integer of a value that is one.
pub open spec fn as_unsigned(value: Option<JsonView>) -> Option<u64> {
    match value {
        Some(JsonView::Number(n)) => match n.form {
            NumberFormView::Unsigned(u) => Some(u),
            _ => None,
        },
        _ => None,
    }
}

/// The signed integer of a value that is one in the signed range.
pub open spec fn as_signed(value: Option<JsonView>) -> Option<i64> {
    match value {
        Some(JsonView::Number(n)) => match n.form {
            NumberFormView::Unsigned(u) => if u <= i64::MAX {
                Some(u as i64)
            } else {
                None
            },
            NumberFormView::Negative(i) => Some(i),
            NumberFormView::Real(_) => None,
        },
        _ => None,
    }
}

impl JsonNumber {
    /// A copy of the number.
    pub fn copy(&self) -> (copy: JsonNumber)
        ensures
            copy == *self,
    {
        let form = match &self.form {
            NumberForm::Unsigned(n) => NumberForm::Unsigned(*n),
            NumberForm::Negative(n) => NumberForm::Negative(*n),
            NumberForm::Real(t) => NumberForm::Real(t.clone()),
        };
        JsonNumber { form, order: self.order }
    }
}

impl Json {
    /// The member named `name` of a value that is an object.
    pub fn get<'a>(&'a self, name: &str) -> (found: Option<&'a Json>)
        ensures
            match found {
                Some(value) => field(self@, name@) == Some(value@),
                None => field(self@, name@) is None,
            },
    {
        match self {
            Json::Object(members) => {
                proof {
                    lemma_object_view(*members);
                }
                find_member(members, name)
            },
            _ => None,
        }
    }

    /// The text of a value that is a text.
    pub fn text(&self) -> (found: Option<&String>)
        ensures
            match found {
                Some(t) => as_text(Some(self@)) == Some(t@),
                None => as_text(Some(self@)) is None,
            },
    {
        match self {
            Json::Text(t) => Some(t),
            _ => None,
        }
    }

    /// The items of a value that is an array.
    pub fn items(&self) -> (found: Option<&Vec<Json>>)
        ensures
            match found {
                Some(items) => as_items(Some(self@)) == Some(items_view(items@)),
                None => as_items(Some(self@)) is None,
            },
    {
        match self {
            Json::Array(items) => {
                proof {
                    lemma_array_view(*items);
                }
                Some(items)
            },
            _ => None,
        }
    }

    /// The members of a value that is an object.
    pub fn members(&self) -> (found: Option<&Vec<(String, Json)>>)
        ensures
            match found {
                Some(members) => as_members(Some(self@)) == Some(members_view(members@)),
                None => as_members(Some(self@)) is None,
            },
    {
        match self {
            Json::Object(members) => {
                proof {
                    lemma_object_view(*members);
                }
                Some(members)
            },
            _ => None,
        }
    }

    /// The truth value of a value that is one.
    pub fn flag(&self) -> (found: Option<bool>)
        ensures
            found == as_flag(Some(self@)),
    {
        match self {
            Json::Bool(b) => Some(*b),
            _ => None,
        }
    }

    /// The non-negative integer of a value that is one.
    pub fn unsigned(&self) -> (found: Option<u64>)
        ensures
            found == as_unsigned(Some(self@)),
    {
        match self {
            Json::Number(n) => match &n.form {
                NumberForm::Unsigned(u) => Some(*u),
                _ => None,
            },
            _ => None,
        }
    }

    /// The signed integer of a value that is one in the signed range.
    pub fn signed(&self) -> (found: Option<i64>)
        ensures
            found == as_signed(Some(self@)),
    {
        match self {
            Json::Number(n) => match &n.form {
                NumberForm::Unsigned(u) => if *u <= i64::MAX as u64 {
                    Some(*u as i64)
                } else {
                    None
                },
                NumberForm::Negative(i) => Some(*i),
                NumberForm::Real(_) => None,
            },
            _ => None,
        }
    }

    /// A copy of the value.
    pub fn copy(&self) -> (copy: Json)
        ensures
            copy@ == self@,
        decreases *self,
    {
        match self {
            Json::Null => Json::Null,
            Json::Bool(b) => Json::Bool(*b),
            Json::Number(n) => Json::Number(n.copy()),
            Json::Text(t) => Json::Text(t.clone()),
            Json::Array(items) => {
                let mut copies: Vec<Json> = Vec::new();
                let mut i: usize = 0;
                while i < items.len()
                    invariant
                        i <= items@.len(),
                        *self == Json::Array(*items),
                        copies@.len() == i,
                        forall|j: int|
                            0 <= j < i ==> json_view(#[trigger] copies@[j]) == json_view(items@[j]),
                    decreases items@.len() - i,
                {
                    proof {
                        assert(decreases_to!(*self => self->Array_0));
                    }
                    let item = items[i].copy();
                    copies.push(item);
                    i = i + 1;
                }
                proof {
                    assert(items_view(copies@) =~= items_view(items@));
                    lemma_array_view(copies);
                    lemma_array_view(*items);
                }
                Json::Array(copies)
            },
            Json::Object(members) => {
                let mut copies: Vec<(String, Json)> = Vec::new();
                let mut i: usize = 0;
                while i < members.len()
                    invariant
                        i <= members@.len(),
                        *self == Json::Object(*members),
                        copies@.len() == i,
                        forall|j: int|
                            0 <= j < i ==> (#[trigger] copies@[j]).0@ == members@[j].0@
                                && json_view(copies@[j].1) == json_view(members@[j].1),
                    decreases members@.len() - i,
                {
                    proof {
                        assert(decreases_to!(*self => self->Object_0));
                        assert(decreases_to!(*members => members@[i as int]));
                    }
                    let name = members[i].0.clone();
                    let value = members[i].1.copy();
                    copies.push((name, value));
                    i = i + 1;
                }
                proof {
                    assert(members_view(copies@) =~= members_view(members@));
                    lemma_object_view(copies);
                    lemma_object_view(*members);
                }
                Json::Object(copies)
            },
        }
    }

    /// Whether two values are equal.
    pub fn same(&self, other: &Json) -> (same: bool)
        ensures
            same == equal_json(self@, other@),
        decreases *self,
    {
        match (self, other) {
            (Json::Null, Json::Null) => true,
            (Json::Bool(a), Json::Bool(b)) => *a == *b,
            (Json::Number(a), Json::Number(b)) => *a == *b,
            (Json::Text(a), Json::Text(b)) => text::same(a.as_str(), b.as_str()),
            (Json::Array(a), Json::Array(b)) => {
                proof {
                    lemma_array_view(*a);
                    lemma_array_view(*b);
                }
                if a.len() != b.len() {
                    proof {
                        assert(items_view(a@).len() != items_view(b@).len());
                    }
                    return false;
                }
                let mut i: usize = 0;
                while i < a.len()
                    invariant
                        i <= a@.len() == b@.len(),
                        *self == Json::Array(*a),
                        self@ == JsonView::Array(items_view(a@)),
                        other@ == JsonView::Array(items_view(b@)),
                        forall|j: int|
                            0 <= j < i ==> equal_json(#[trigger] items_view(a@)[j], items_view(b@)[j]),
                    decreases a@.len() - i,
                {
                    if !a[i].same(&b[i]) {
                        proof {
                            assert(!equal_json(items_view(a@)[i as int], items_view(b@)[i as int]));
                        }
                        return false;
                    }
                    i = i + 1;
                }
                true
            },
            (Json::Object(a), Json::Object(b)) => {
                proof {
                    lemma_object_view(*a);
                    lemma_object_view(*b);
                }
                if a.len() != b.len() {
                    proof {
                        assert(members_view(a@).len() != members_view(b@).len());
                    }
                    return false;
                }
                let mut i: usize = 0;
                while i < a.len()
                    invariant
                        i <= a@.len() == b@.len(),
                        *self == Json::Object(*a),
                        self@ == JsonView::Object(members_view(a@)),
                        other@ == JsonView::Object(members_view(b@)),
                        forall|j: int|
                            0 <= j < i ==> (#[trigger] members_view(a@)[j]).0 == members_view(b@)[j].0
                                && equal_json(members_view(a@)[j].1, members_view(b@)[j].1),
                    decreases a@.len() - i,
                {
                    if !text::same(a[i].0.as_str(), b[i].0.as_str()) || !a[i].1.same(&b[i].1) {
                        proof {
                            assert(members_view(a@)[i as int].0 == a@[i as int].0@);
                            assert(members_view(b@)[i as int].0 == b@[i as int].0@);
                        }
                        return false;
                    }
                    i = i + 1;
                }
                true
            },
            _ => false,
        }
    }
}

impl Clone for Json {
    fn clone(&self) -> (copy: Self)
        ensures
            copy@ == self@,
    {
        self.copy()
    }
}

/// The first position whose name comes after `name`, or the number of members
/// when there is none.
pub open spec fn rank(members: Seq<(Seq<char>, JsonView)>, name: Seq<char>) -> int
    decreases members.len(),
{
    if members.len() == 0 || text::lex_less(name, members[0].0) {
        0
    } else {
        1 + rank(members.drop_first(), name)
    }
}

/// The members with the one named `name` given the value `value`: in its place
/// where there is one, else as a new member in the order of names.
pub open spec fn with_member(
    members: Seq<(Seq<char>, JsonView)>,
    name: Seq<char>,
    value: JsonView,
) -> Seq<(Seq<char>, JsonView)> {
    let at = member_index(members, name);
    if at < members.len() {
        members.update(at, (name, value))
    } else {
        members.insert(rank(members, name), (name, value))
    }
}

/// The members without the one named `name`.
pub open spec fn without_member(
    members: Seq<(Seq<char>, JsonView)>,
    name: Seq<char>,
) -> Seq<(Seq<char>, JsonView)> {
    let at = member_index(members, name);
    if at < members.len() {
        members.remove(at)
    } else {
        members
    }
}

pub proof fn lemma_rank(members: Seq<(Seq<char>, JsonView)>, name: Seq<char>)
    ensures
        0 <= rank(members, name) <= members.len(),
        rank(members, name) < members.len() ==> text::lex_less(
            name,
            members[rank(members, name)].0,
        ),
        forall|i: int|
            0 <= i < rank(members, name) ==> !text::lex_less(name, (#[trigger] members[i]).0),
    decreases members.len(),
{
    if members.len() > 0 && !text::lex_less(name, members[0].0) {
        lemma_rank(members.drop_first(), name);
        assert forall|i: int| 0 <= i < rank(members, name) implies !text::lex_less(
            name,
            (#[trigger] members[i]).0,
        ) by {
            if i > 0 {
                assert(members.drop_first()[i - 1] == members[i]);
            }
        }
    }
}

proof fn lemma_rank_is(members: Seq<(Seq<char>, JsonView)>, name: Seq<char>, at: int)
    requires
        0 <= at <= members.len(),
        at < members.len() ==> text::lex_less(name, members[at].0),
        forall|i: int| 0 <= i < at ==> !text::lex_less(name, (#[trigger] members[i]).0),
    ensures
        rank(members, name) == at,
{
    lemma_rank(members, name);
    let found = rank(members, name);
    if found < at {
        assert(!text::lex_less(name, members[found].0));
    } else if at < found {
        assert(!text::lex_less(name, members[at].0));
    }
}

/// Setting a member keeps the order of names.
pub proof fn lemma_with_member_ascending(
    members: Seq<(Seq<char>, JsonView)>,
    name: Seq<char>,
    value: JsonView,
)
    requires
        ascending(members),
    ensures
        ascending(with_member(members, name, value)),
{
    lemma_member_index(members, name);
    lemma_rank(members, name);
    let at = member_index(members, name);
    let k = rank(members, name);
    let result = with_member(members, name, value);
    assert forall|i: int, j: int| 0 <= i < j < result.len() implies text::lex_less(
        #[trigger] result[i].0,
        #[trigger] result[j].0,
    ) by {
        if at < members.len() {
            assert(result[i].0 == members[i].0 && result[j].0 == members[j].0);
        } else if i < k && j == k {
            assert(members[i].0 != name);
            text::lemma_lex_total(members[i].0, name);
        } else if i == k {
            assert(result[j] == members[j - 1]);
            if j - 1 > k {
                text::lemma_lex_transitive(name, members[k].0, members[j - 1].0);
            }
        } else {
            let a = if i < k {
                i
            } else {
                i - 1
            };
            let b = if j < k {
                j
            } else {
                j - 1
            };
            assert(result[i] == members[a] && result[j] == members[b]);
        }
    }
}

/// A member that was set is found with its new value, and every other one as
/// it was.
pub proof fn lemma_with_member_found(
    members: Seq<(Seq<char>, JsonView)>,
    name: Seq<char>,
    value: JsonView,
    other: Seq<char>,
)
    ensures
        member(with_member(members, name, value), name) == Some(value),
        other != name ==> member(with_member(members, name, value), other) == member(
            members,
            other,
        ),
{
    lemma_member_index(members, name);
    lemma_rank(members, name);
    lemma_member_index(members, other);
    let at = member_index(members, name);
    let k = rank(members, name);
    let result = with_member(members, name, value);
    let o = member_index(members, other);
    if at < members.len() {
        lemma_member_index_is(result, name, at);
        if other != name {
            lemma_member_index_is(result, other, o);
        }
    } else {
        assert forall|i: int| 0 <= i < k implies (#[trigger] result[i]).0 != name by {
            assert(result[i] == members[i]);
        }
        lemma_member_index_is(result, name, k);
        if other != name {
            let moved = if o < k {
                o
            } else {
                o + 1
            };
            assert forall|i: int| 0 <= i < moved implies (#[trigger] result[i]).0 != other by {
                if i < k {
                    assert(result[i] == members[i]);
                } else if i > k {
                    assert(result[i] == members[i - 1]);
                }
            }
            lemma_member_index_is(result, other, moved);
        }
    }
}

/// Taking a member away leaves the others as they are.
pub proof fn lemma_without_member_found(
    members: Seq<(Seq<char>, JsonView)>,
    name: Seq<char>,
    other: Seq<char>,
)
    requires
        other != name,
    ensures
        member(without_member(members, name), other) == member(members, other),
{
    lemma_member_index(members, name);
    lemma_member_index(members, other);
    let at = member_index(members, name);
    let o = member_index(members, other);
    let result = without_member(members, name);
    if at < members.len() {
        let moved = if o < at {
            o
        } else {
            o - 1
        };
        assert forall|i: int| 0 <= i < moved implies (#[trigger] result[i]).0 != other by {
            if i < at {
                assert(result[i] == members[i]);
            } else {
                assert(result[i] == members[i + 1]);
            }
        }
        lemma_member_index_is(result, other, moved);
    }
}

/// Gives the member named `name` the value `value`.
pub fn set_member(members: &mut Vec<(String, Json)>, name: String, value: Json)
    ensures
        members_view(final(members)@) == with_member(
            members_view(old(members)@),
            name@,
            value@,
        ),
{
    let ghost before = members_view(members@);
    let mut i: usize = 0;
    while i < members.len()
        invariant
            i <= members@.len(),
            members@ == old(members)@,
            before == members_view(members@),
            forall|j: int| 0 <= j < i ==> (#[trigger] before[j]).0 != name@,
        decreases members@.len() - i,
    {
        if text::same(members[i].0.as_str(), name.as_str()) {
            proof {
                lemma_member_index_is(before, name@, i as int);
            }
            members[i].1 = value;
            proof {
                assert(members_view(members@) =~= with_member(before, name@, value@));
            }
            return;
        }
        i = i + 1;
    }
    proof {
        lemma_member_index_is(before, name@, members@.len() as int);
    }
    let mut k: usize = 0;
    while k < members.len() && !text::less(name.as_str(), members[k].0.as_str())
        invariant
            k <= members@.len(),
            members@ == old(members)@,
            before == members_view(members@),
            forall|j: int| 0 <= j < k ==> !text::lex_less(name@, (#[trigger] before[j]).0),
        decreases members@.len() - k,
    {
        k = k + 1;
    }
    proof {
        lemma_rank_is(before, name@, k as int);
    }
    members.insert(k, (name, value));
    proof {
        assert(members_view(members@) =~= with_member(before, name@, value@));
    }
}

/// Takes the member named `name` away, and says whether there was one.
pub fn remove_member(members: &mut Vec<(String, Json)>, name: &str) -> (removed: bool)
    ensures
        members_view(final(members)@) == without_member(members_view(old(members)@), name@),
        removed == (member(members_view(old(members)@), name@) is Some),
{
    let ghost before = members_view(members@);
    let mut i: usize = 0;
    while i < members.len()
        invariant
            i <= members@.len(),
            members@ == old(members)@,
            before == members_view(members@),
            forall|j: int| 0 <= j < i ==> (#[trigger] before[j]).0 != name@,
        decreases members@.len() - i,
    {
        if text::same(members[i].0.as_str(), name) {
            proof {
                lemma_member_index_is(before, name@, i as int);
            }
            members.remove(i);
            proof {
                assert(members_view(members@) =~= without_member(before, name@));
            }
            return true;
        }
        i = i + 1;
    }
    proof {
        lemma_member_index_is(before, name@, members@.len() as int);
    }
    false
}

/// A copy of the members of an object.
pub fn copy_members(members: &Vec<(String, Json)>) -> (copies: Vec<(String, Json)>)
    ensures
        members_view(copies@) == members_view(members@),
{
    let mut copies: Vec<(String, Json)> = Vec::new();
    let mut i: usize = 0;
    while i < members.len()
        invariant
            i <= members@.len(),
            copies@.len() == i,
            forall|j: int|
                0 <= j < i ==> (#[trigger] copies@[j]).0@ == members@[j].0@ && json_view(
                    copies@[j].1,
                ) == json_view(members@[j].1),
        decreases members@.len() - i,
    {
        let name = members[i].0.clone();
        let value = members[i].1.copy();
        copies.push((name, value));
        i = i + 1;
    }
    proof {
        assert(members_view(copies@) =~= members_view(members@));
    }
    copies
}

/// Every number in the value is an integer.
pub open spec fn exact(value: JsonView) -> bool
    decreases value,
{
    match value {
        JsonView::Number(n) => !(n.form is Real),
        JsonView::Array(items) => forall|i: int|
            0 <= i < items.len() ==> exact(#[trigger] items[i]),
        JsonView::Object(members) => forall|i: int|
            0 <= i < members.len() ==> exact((#[trigger] members[i]).1),
        _ => true,
    }
}

/// Every object in the value has its members in strictly ascending order.
pub open spec fn ordered(value: JsonView) -> bool
    decreases value,
{
    match value {
        JsonView::Array(items) => forall|i: int|
            0 <= i < items.len() ==> ordered(#[trigger] items[i]),
        JsonView::Object(members) => ascending(members) && forall|i: int|
            0 <= i < members.len() ==> ordered((#[trigger] members[i]).1),
        _ => true,
    }
}

/// The members that some named values make, a later one in place of an earlier
/// one of the same name.
pub open spec fn object_of(pairs: Seq<(Seq<char>, JsonView)>) -> Seq<(Seq<char>, JsonView)>
    decreases pairs.len(),
{
    if pairs.len() == 0 {
        Seq::empty()
    } else {
        with_member(object_of(pairs.drop_last()), pairs.last().0, pairs.last().1)
    }
}

/// Makes an object of some named values.
pub fn object(pairs: Vec<(String, Json)>) -> (value: Json)
    ensures
        value@ == JsonView::Object(object_of(members_view(pairs@))),
{
    let ghost all = members_view(pairs@);
    let total: usize = pairs.len();
    let mut members: Vec<(String, Json)> = Vec::new();
    let mut rest = pairs;
    let mut reversed: Vec<(String, Json)> = Vec::new();
    proof {
        assert(members_view(rest@) =~= all.take(all.len() as int));
    }
    while rest.len() > 0
        invariant
            rest@.len() + reversed@.len() == all.len(),
            members_view(rest@) == all.take(rest@.len() as int),
            forall|j: int|
                0 <= j < reversed@.len() ==> ((#[trigger] reversed@[j]).0@, json_view(reversed@[j].1))
                    == all[all.len() - 1 - j],
        decreases rest@.len(),
    {
        let ghost before = rest@;
        match rest.pop() {
            Some(pair) => {
                proof {
                    assert(members_view(before)[before.len() - 1] == all[before.len() - 1]);
                    assert forall|j: int| 0 <= j < rest@.len() implies members_view(rest@)[j]
                        == all[j] by {
                        assert(members_view(before)[j] == all[j]);
                    }
                    assert(members_view(rest@) =~= all.take(rest@.len() as int));
                }
                reversed.push(pair);
            },
            None => {},
        }
    }
    proof {
        assert(members_view(members@) =~= object_of(all.take(0)));
    }
    let mut done: usize = 0;
    while reversed.len() > 0
        invariant
            done + reversed@.len() == all.len(),
            all.len() == total,
            members_view(members@) == object_of(all.take(done as int)),
            forall|j: int|
                0 <= j < reversed@.len() ==> ((#[trigger] reversed@[j]).0@, json_view(reversed@[j].1))
                    == all[all.len() - 1 - j],
        decreases reversed@.len(),
    {
        let ghost before = reversed@;
        match reversed.pop() {
            Some(pair) => {
                proof {
                    let last = before[before.len() - 1];
                    assert((last.0@, json_view(last.1)) == all[done as int]);
                    assert(all.take(done + 1).drop_last() =~= all.take(done as int));
                }
                set_member(&mut members, pair.0, pair.1);
                done = done + 1;
            },
            None => {},
        }
    }
    proof {
        assert(all.take(all.len() as int) =~= all);
        lemma_object_view(members);
    }
    Json::Object(members)
}

/// The abstract value of an optional text: a text, or null.
pub open spec fn text_or_null(text: Option<Seq<char>>) -> JsonView {
    match text {
        Some(t) => JsonView::Text(t),
        None => JsonView::Null,
    }
}

/// The JSON value of an optional text.
pub fn optional_text(text: &Option<String>) -> (value: Json)
    ensures
        value@ == text_or_null(text::option_view(*text)),
{
    match text {
        Some(t) => Json::Text(t.clone()),
        None => Json::Null,
    }
}

/// The abstract value of a list of texts.
pub open spec fn texts_array(texts: Seq<Seq<char>>) -> JsonView {
    JsonView::Array(Seq::new(texts.len(), |i: int| JsonView::Text(texts[i])))
}

/// The JSON value of a list of texts.
pub fn text_array(texts: &Vec<String>) -> (value: Json)
    ensures
        value@ == texts_array(text::views(texts@)),
{
    let mut items: Vec<Json> = Vec::new();
    let mut i: usize = 0;
    while i < texts.len()
        invariant
            i <= texts@.len(),
            items@.len() == i,
            forall|j: int|
                0 <= j < i ==> json_view(#[trigger] items@[j]) == JsonView::Text(texts@[j]@),
        decreases texts@.len() - i,
    {
        items.push(Json::Text(texts[i].clone()));
        i = i + 1;
    }
    proof {
        lemma_array_view(items);
        assert(items_view(items@) =~= texts_array(text::views(texts@))->Array_0);
    }
    Json::Array(items)
}

proof fn lemma_with_member_exact(
    members: Seq<(Seq<char>, JsonView)>,
    name: Seq<char>,
    value: JsonView,
)
    requires
        exact(JsonView::Object(members)),
        exact(value),
    ensures
        exact(JsonView::Object(with_member(members, name, value))),
{
    lemma_member_index(members, name);
    lemma_rank(members, name);
    assert(JsonView::Object(members)->Object_0 == members);
    assert forall|i: int| 0 <= i < members.len() implies exact((#[trigger] members[i]).1) by {
        assert(exact(JsonView::Object(members)));
        assert(exact((JsonView::Object(members)->Object_0)[i].1));
    }
    let result = with_member(members, name, value);
    assert forall|i: int| 0 <= i < result.len() implies exact((#[trigger] result[i]).1) by {
        let at = member_index(members, name);
        let k = rank(members, name);
        if at < members.len() {
            if i != at {
                assert(result[i] == members[i]);
                assert(exact(members[i].1));
            } else {
                assert(result[i].1 == value);
            }
        } else if i < k {
            assert(result[i] == members[i]);
            assert(exact(members[i].1));
        } else if i > k {
            assert(result[i] == members[i - 1]);
            assert(exact(members[i - 1].1));
        } else {
            assert(result[i] == (name, value));
        }
    }
}

/// An object made of values whose numbers are integers has only integers.
pub proof fn lemma_object_of_exact(pairs: Seq<(Seq<char>, JsonView)>)
    requires
        forall|i: int| 0 <= i < pairs.len() ==> exact((#[trigger] pairs[i]).1),
    ensures
        exact(JsonView::Object(object_of(pairs))),
    decreases pairs.len(),
{
    if pairs.len() > 0 {
        assert forall|i: int| 0 <= i < pairs.len() - 1 implies exact(
            (#[trigger] pairs.drop_last()[i]).1,
        ) by {
            assert(pairs.drop_last()[i] == pairs[i]);
        }
        lemma_object_of_exact(pairs.drop_last());
        assert(exact(pairs[pairs.len() - 1].1));
        lemma_with_member_exact(object_of(pairs.drop_last()), pairs.last().0, pairs.last().1);
    }
}

/// An object made of values whose objects are ordered is ordered.
pub proof fn lemma_object_of_ordered(pairs: Seq<(Seq<char>, JsonView)>)
    requires
        forall|i: int| 0 <= i < pairs.len() ==> ordered((#[trigger] pairs[i]).1),
    ensures
        ordered(JsonView::Object(object_of(pairs))),
    decreases pairs.len(),
{
    if pairs.len() > 0 {
        assert forall|i: int| 0 <= i < pairs.len() - 1 implies ordered(
            (#[trigger] pairs.drop_last()[i]).1,
        ) by {
            assert(pairs.drop_last()[i] == pairs[i]);
        }
        lemma_object_of_ordered(pairs.drop_last());
        assert(ordered(pairs[pairs.len() - 1].1));
        lemma_with_member_ordered(object_of(pairs.drop_last()), pairs.last().0, pairs.last().1);
    }
}

/// Setting a member to an ordered value keeps an object ordered.
pub proof fn lemma_with_member_ordered(
    members: Seq<(Seq<char>, JsonView)>,
    name: Seq<char>,
    value: JsonView,
)
    requires
        ordered(JsonView::Object(members)),
        ordered(value),
    ensures
        ordered(JsonView::Object(with_member(members, name, value))),
{
    lemma_member_index(members, name);
    lemma_rank(members, name);
    lemma_with_member_ascending(members, name, value);
    let result = with_member(members, name, value);
    assert forall|i: int| 0 <= i < result.len() implies ordered((#[trigger] result[i]).1) by {
        let at = member_index(members, name);
        let k = rank(members, name);
        if at < members.len() {
            if i != at {
                assert(result[i] == members[i]);
            } else {
                assert(result[i].1 == value);
            }
        } else if i < k {
            assert(result[i] == members[i]);
        } else if i > k {
            assert(result[i] == members[i - 1]);
        }
    }
}

/// No named values.
pub open spec fn named() -> Seq<(Seq<char>, JsonView)> {
    Seq::empty()
}

/// A list of named values with nothing in it.
pub fn no_pairs() -> (pairs: Vec<(String, Json)>)
    ensures
        members_view(pairs@) == named(),
{
    let pairs: Vec<(String, Json)> = Vec::new();
    proof {
        assert(members_view(pairs@) =~= Seq::<(Seq<char>, JsonView)>::empty());
    }
    pairs
}

/// Adds a named value.
pub fn push_pair(pairs: &mut Vec<(String, Json)>, name: &str, value: Json)
    ensures
        members_view(final(pairs)@) == members_view(old(pairs)@).push((name@, value@)),
{
    let ghost before = pairs@;
    pairs.push((name.to_owned(), value));
    proof {
        assert forall|i: int| 0 <= i < before.len() implies members_view(pairs@)[i]
            == members_view(before)[i] by {
            assert(pairs@[i] == before[i]);
        }
        assert(members_view(pairs@) =~= members_view(before).push((name@, value@)));
    }
}

/// Adds a named text.
pub fn push_text(pairs: &mut Vec<(String, Json)>, name: &str, value: &str)
    ensures
        members_view(final(pairs)@) == members_view(old(pairs)@).push(
            (name@, JsonView::Text(value@)),
        ),
{
    push_pair(pairs, name, Json::Text(value.to_owned()));
}

/// A named text where there is one.
pub open spec fn optional_pair(name: Seq<char>, value: Option<Seq<char>>) -> Seq<
    (Seq<char>, JsonView),
> {
    match value {
        Some(t) => seq![(name, JsonView::Text(t))],
        None => Seq::empty(),
    }
}

/// Adds a named text where there is one.
pub fn push_optional(pairs: &mut Vec<(String, Json)>, name: &str, value: &Option<String>)
    ensures
        members_view(final(pairs)@) == members_view(old(pairs)@) + optional_pair(
            name@,
            text::option_view(*value),
        ),
{
    let ghost before = members_view(pairs@);
    match value {
        Some(t) => {
            push_text(pairs, name, t.as_str());
        },
        None => {},
    }
    proof {
        assert(members_view(pairs@) =~= before + optional_pair(name@, text::option_view(*value)));
    }
}

/// A list of values with nothing in it.
pub fn no_items() -> (items: Vec<Json>)
    ensures
        items_view(items@) == Seq::<JsonView>::empty(),
{
    let items: Vec<Json> = Vec::new();
    proof {
        assert(items_view(items@) =~= Seq::<JsonView>::empty());
    }
    items
}

/// Adds a value to a list.
pub fn push_item(items: &mut Vec<Json>, value: Json)
    ensures
        items_view(final(items)@) == items_view(old(items)@).push(value@),
{
    let ghost before = items@;
    items.push(value);
    proof {
        assert forall|i: int| 0 <= i < before.len() implies items_view(items@)[i] == items_view(
            before,
        )[i] by {
            assert(items@[i] == before[i]);
        }
        assert(items_view(items@) =~= items_view(before).push(value@));
    }
}

/// Makes an array of some values.
pub fn array(items: Vec<Json>) -> (value: Json)
    ensures
        value@ == JsonView::Array(items_view(items@)),
{
    proof {
        lemma_array_view(items);
    }
    Json::Array(items)
}

/// A member of an ordered object is ordered.
pub proof fn lemma_member_ordered(members: Seq<(Seq<char>, JsonView)>, key: Seq<char>)
    requires
        ordered(JsonView::Object(members)),
    ensures
        member(members, key) is Some ==> ordered(member(members, key)->0),
{
    lemma_member_index(members, key);
    let at = member_index(members, key);
    assert(JsonView::Object(members)->Object_0 == members);
    if at < members.len() {
        assert(ordered((JsonView::Object(members)->Object_0)[at].1));
    }
}

} // verus!
