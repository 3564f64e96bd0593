//! JSON documents, and the amounts found in them.

use crate::amount::{negative_zero, sum, total, zero, Amount};
use crate::decimal::{amount_of_text, parse_amount};
use vstd::prelude::*;

verus! {

/// A JSON document. A number is held as the double that stands for it, and the
/// members of an object in the order in which they are walked.
#[derive(Debug)]
pub enum Json {
    Null,
    Bool(bool),
    Number(Amount),
    Text(String),
    Array(Vec<Json>),
    Object(Vec<(String, Json)>),
}

/// What a JSON document holds.
pub enum JsonView {
    Null,
    Bool(bool),
    Number(Amount),
    Text(Seq<char>),
    Array(Seq<JsonView>),
    Object(Seq<(Seq<char>, JsonView)>),
}

impl View for Json {
    type V = JsonView;

    open spec fn view(&self) -> JsonView
        decreases *self,
    {
        match self {
            Json::Null => JsonView::Null,
            Json::Bool(flag) => JsonView::Bool(*flag),
            Json::Number(number) => JsonView::Number(*number),
            Json::Text(text) => JsonView::Text(text@),
            Json::Array(items) => JsonView::Array(
                Seq::new(
                    items@.len(),
                    |i: int|
                        if 0 <= i < items@.len() {
                            items@[i].view()
                        } else {
                            JsonView::Null
                        },
                ),
            ),
            Json::Object(members) => JsonView::Object(
                Seq::new(
                    members@.len(),
                    |i: int|
                        if 0 <= i < members@.len() {
                            (members@[i].0@, members@[i].1.view())
                        } else {
                            (Seq::empty(), JsonView::Null)
                        },
                ),
            ),
        }
    }
}

/// No name occurs twice among the members.
pub open spec fn distinct_names(members: Seq<(Seq<char>, JsonView)>) -> bool {
    forall|i: int, j: int|
        0 <= i < members.len() && 0 <= j < members.len() && i != j ==> #[trigger] members[i].0
            != #[trigger] members[j].0
}

/// In no object of the document does a name occur twice.
pub open spec fn well_formed(document: JsonView) -> bool
    decreases document,
{
    match document {
        JsonView::Array(items) => forall|i: int|
            0 <= i < items.len() ==> well_formed(#[trigger] items[i]),
        JsonView::Object(members) => distinct_names(members) && forall|i: int|
            0 <= i < members.len() ==> well_formed((#[trigger] members[i]).1),
        _ => true,
    }
}

/// The first member of that name among the members from `from` on.
pub open spec fn member_from(
    members: Seq<(Seq<char>, JsonView)>,
    name: Seq<char>,
    from: int,
) -> Option<JsonView>
    decreases members.len() - from,
{
    if from < 0 || from >= members.len() {
        None
    } else if members[from].0 == name {
        Some(members[from].1)
    } else {
        member_from(members, name, from + 1)
    }
}

/// The member of that name, where the document is an object that has one.
pub open spec fn member(document: JsonView, name: Seq<char>) -> Option<JsonView> {
    match document {
        JsonView::Object(members) => member_from(members, name, 0),
        _ => None,
    }
}

/// The items of an array.
pub open spec fn items_of(document: JsonView) -> Option<Seq<JsonView>> {
    match document {
        JsonView::Array(items) => Some(items),
        _ => None,
    }
}

/// The text of a string.
pub open spec fn text_of(document: JsonView) -> Option<Seq<char>> {
    match document {
        JsonView::Text(text) => Some(text),
        _ => None,
    }
}

/// The finite amount that a number or a numeral in a string stands for.
pub open spec fn decimal_of(document: JsonView) -> Option<Amount> {
    match document {
        JsonView::Number(number) => if number.finite() {
            Some(number)
        } else {
            None
        },
        JsonView::Text(text) => amount_of_text(text),
        _ => None,
    }
}

/// The names that a list of texts spells.
pub open spec fn names(keys: Seq<&str>) -> Seq<Seq<char>> {
    keys.map_values(|key: &str| key@)
}

/// The amount of the first of the named members that has one.
pub open spec fn first_amount(document: JsonView, names: Seq<Seq<char>>) -> Option<Amount>
    decreases names.len(),
{
    if names.len() == 0 {
        None
    } else {
        let here = match member(document, names.first()) {
            Some(value) => decimal_of(value),
            None => None,
        };
        if here is Some {
            here
        } else {
            first_amount(document, names.drop_first())
        }
    }
}

/// The amounts that the items have under the names, item by item.
pub open spec fn amounts_found(items: Seq<JsonView>, names: Seq<Seq<char>>) -> Seq<Amount>
    decreases items.len(),
{
    if items.len() == 0 {
        Seq::empty()
    } else {
        let before = amounts_found(items.drop_last(), names);
        match first_amount(items.last(), names) {
            Some(amount) => before.push(amount),
            None => before,
        }
    }
}

/// The sum of the amounts that the items have under the names, if any has one.
pub open spec fn items_total(items: Seq<JsonView>, names: Seq<Seq<char>>) -> Option<Amount> {
    let found = amounts_found(items, names);
    if found.len() == 0 {
        None
    } else {
        Some(total(found))
    }
}

/// What a member counts by itself: its amount where its name is wanted.
pub open spec fn own_amount(member: (Seq<char>, JsonView), names: Seq<Seq<char>>) -> Amount {
    if names.contains(member.0) && decimal_of(member.1) is Some {
        decimal_of(member.1)->0
    } else {
        zero()
    }
}

/// The sum of the amounts of all members that bear one of the names, at any
/// depth of the document: each object and each array is added up in its order.
pub open spec fn nested_total(document: JsonView, names: Seq<Seq<char>>) -> Amount
    decreases document, 0nat,
{
    match document {
        JsonView::Object(members) => members_total(members, members.len(), names),
        JsonView::Array(items) => array_total(items, items.len(), names),
        _ => zero(),
    }
}

/// The sum over the first `n` members of an object.
pub open spec fn members_total(
    members: Seq<(Seq<char>, JsonView)>,
    n: nat,
    names: Seq<Seq<char>>,
) -> Amount
    decreases members, n,
{
    if n == 0 || n > members.len() {
        negative_zero()
    } else {
        sum(
            members_total(members, (n - 1) as nat, names),
            sum(own_amount(members[n - 1], names), nested_total(members[n - 1].1, names)),
        )
    }
}

/// The sum over the first `n` items of an array.
pub open spec fn array_total(items: Seq<JsonView>, n: nat, names: Seq<Seq<char>>) -> Amount
    decreases items, n,
{
    if n == 0 || n > items.len() {
        negative_zero()
    } else {
        sum(array_total(items, (n - 1) as nat, names), nested_total(items[n - 1], names))
    }
}

/// `serde_json::Value`, a parsed JSON document.
#[verifier::external_type_specification]
#[verifier::external_body]
pub struct ExValue(serde_json::Value);

/// What a `serde_json::Value` holds.
pub uninterp spec fn value_contents(value: serde_json::Value) -> JsonView;

/// What `serde_json::from_slice` makes of a run of bytes: what the document
/// holds, or the text of the error.
pub uninterp spec fn parsed_contents(bytes: Seq<u8>) -> Result<JsonView, Seq<char>>;

/// A `serde_json::Value` taken apart by one level.
pub enum Node {
    Null,
    Bool(bool),
    Number(Amount),
    Text(String),
    Array(Vec<serde_json::Value>),
    Object(Vec<(String, serde_json::Value)>),
}

impl View for Node {
    type V = JsonView;

    open spec fn view(&self) -> JsonView {
        match self {
            Node::Null => JsonView::Null,
            Node::Bool(flag) => JsonView::Bool(*flag),
            Node::Number(number) => JsonView::Number(*number),
            Node::Text(text) => JsonView::Text(text@),
            Node::Array(items) => JsonView::Array(
                Seq::new(items@.len(), |i: int| value_contents(items@[i])),
            ),
            Node::Object(members) => JsonView::Object(
                Seq::new(members@.len(), |i: int| (members@[i].0@, value_contents(members@[i].1))),
            ),
        }
    }
}

/// The variants of `serde_json::Value`: the node has the variant of the value
/// and holds what it holds, the number as the bits of `serde_json::Number::as_f64`
/// and the members of the object in the order of `serde_json::Map::into_iter`.
/// A map has no key twice.
#[verifier::external_body]
fn node_of(value: serde_json::Value) -> (node: Node)
    ensures
        node@ == value_contents(value),
        node@ is Object ==> distinct_names(node@->Object_0),
{
    match value {
        serde_json::Value::Null => Node::Null,
        serde_json::Value::Bool(flag) => Node::Bool(flag),
        serde_json::Value::Number(number) => Node::Number(
            Amount { bits: number.as_f64().unwrap().to_bits() },
        ),
        serde_json::Value::String(text) => Node::Text(text),
        serde_json::Value::Array(items) => Node::Array(items),
        serde_json::Value::Object(members) => Node::Object(members.into_iter().collect()),
    }
}

/// `serde_json::from_slice`: the document that the bytes spell, or the text of
/// the error. Either depends on the bytes alone.
#[verifier::external_body]
fn value_from_slice(bytes: &[u8]) -> (parsed: Result<serde_json::Value, String>)
    ensures
        match parsed {
            Ok(value) => parsed_contents(bytes@) == Ok::<JsonView, Seq<char>>(
                value_contents(value),
            ),
            Err(text) => parsed_contents(bytes@) == Err::<JsonView, Seq<char>>(text@),
        },
{
    serde_json::from_slice::<serde_json::Value>(bytes).map_err(|error| error.to_string())
}

/// The document that a `serde_json::Value` holds.
pub fn json_of(value: serde_json::Value) -> (json: Json)
    ensures
        json@ == value_contents(value),
        well_formed(json@),
    decreases value_contents(value),
{
    match node_of(value) {
        Node::Null => Json::Null,
        Node::Bool(flag) => Json::Bool(flag),
        Node::Number(number) => Json::Number(number),
        Node::Text(text) => Json::Text(text),
        Node::Array(items) => {
            let ghost all = items@;
            let mut out: Vec<Json> = Vec::new();
            for item in iter: items
                invariant
                    value_contents(value) == JsonView::Array(
                        Seq::new(all.len(), |i: int| value_contents(all[i])),
                    ),
                    iter.seq() == all,
                    out@.len() == iter.index(),
                    forall|i: int|
                        0 <= i < out@.len() ==> (#[trigger] out@[i])@ == value_contents(all[i])
                            && well_formed(out@[i]@),
            {
                proof {
                    let held: Seq<JsonView> = value_contents(value)->Array_0;
                    assert(held[iter.index() as int] == value_contents(item));
                    assert(decreases_to!(value_contents(value) => held[iter.index() as int]));
                }
                out.push(json_of(item));
            }
            let json = Json::Array(out);
            assert(json@->Array_0 =~= value_contents(value)->Array_0);
            json
        },
        Node::Object(members) => {
            let ghost all = members@;
            let mut out: Vec<(String, Json)> = Vec::new();
            for entry in iter: members
                invariant
                    value_contents(value) == JsonView::Object(
                        Seq::new(all.len(), |i: int| (all[i].0@, value_contents(all[i].1))),
                    ),
                    iter.seq() == all,
                    out@.len() == iter.index(),
                    forall|i: int|
                        0 <= i < out@.len() ==> (#[trigger] out@[i]).0@ == all[i].0@ && out@[i].1@
                            == value_contents(all[i].1) && well_formed(out@[i].1@),
            {
                let (name, item) = entry;
                proof {
                    let held: Seq<(Seq<char>, JsonView)> = value_contents(value)->Object_0;
                    assert(held[iter.index() as int].1 == value_contents(item));
                    assert(decreases_to!(value_contents(value) => held[iter.index() as int].1));
                }
                out.push((name, json_of(item)));
            }
            let json = Json::Object(out);
            assert(json@->Object_0 =~= value_contents(value)->Object_0);
            json
        },
    }
}

/// The document that a run of bytes spells, or the text of the error.
pub fn parse_json(bytes: &[u8]) -> (parsed: Result<Json, String>)
    ensures
        match parsed {
            Ok(json) => parsed_contents(bytes@) == Ok::<JsonView, Seq<char>>(json@) && well_formed(
                json@,
            ),
            Err(text) => parsed_contents(bytes@) == Err::<JsonView, Seq<char>>(text@),
        },
{
    match value_from_slice(bytes) {
        Ok(value) => Ok(json_of(value)),
        Err(text) => Err(text),
    }
}

proof fn lemma_object_view(members: Vec<(String, Json)>)
    ensures
        Json::Object(members)@ is Object,
        Json::Object(members)@->Object_0.len() == members@.len(),
        forall|j: int|
            0 <= j < members@.len() ==> #[trigger] Json::Object(members)@->Object_0[j] == (
                members@[j].0@,
                members@[j].1@,
            ),
{
    reveal_with_fuel(<Json as View>::view, 2);
    let held: Seq<(Seq<char>, JsonView)> = Json::Object(members)@->Object_0;
    assert(held =~= Seq::new(members@.len(), |i: int| (members@[i].0@, members@[i].1@)));
}

proof fn lemma_array_view(items: Vec<Json>)
    ensures
        Json::Array(items)@ is Array,
        Json::Array(items)@->Array_0.len() == items@.len(),
        forall|j: int|
            0 <= j < items@.len() ==> #[trigger] Json::Array(items)@->Array_0[j] == items@[j]@,
{
    reveal_with_fuel(<Json as View>::view, 2);
    let held: Seq<JsonView> = Json::Array(items)@->Array_0;
    assert(held =~= Seq::new(items@.len(), |i: int| items@[i]@));
}

impl Json {
    /// The member of that name, where the document is an object that has one.
    pub fn get(&self, name: &str) -> (found: Option<&Json>)
        ensures
            found is Some <==> member(self@, name@) is Some,
            found is Some ==> Some(found->0@) == member(self@, name@),
    {
        match self {
            Json::Object(members) => {
                let mut i: usize = 0;
                proof {
                    lemma_object_view(*members);
                }
                while i < members.len()
                    invariant
                        i <= members@.len(),
                        self@ is Object,
                        self@->Object_0.len() == members@.len(),
                        forall|j: int|
                            0 <= j < members@.len() ==> #[trigger] self@->Object_0[j] == (
                                members@[j].0@,
                                members@[j].1@,
                            ),
                        member_from(self@->Object_0, name@, i as int) == member(self@, name@),
                    decreases members@.len() - i,
                {
                    assert(self@->Object_0[i as int].0 == members@[i as int].0@);
                    if crate::text::same(members[i].0.as_str(), name) {
                        return Some(&members[i].1);
                    }
                    i += 1;
                }
                None
            },
            _ => None,
        }
    }

    /// The text of a string.
    pub fn as_str(&self) -> (text: Option<&str>)
        ensures
            text is Some <==> text_of(self@) is Some,
            text is Some ==> Some(text->0@) == text_of(self@),
    {
        match self {
            Json::Text(text) => Some(text.as_str()),
            _ => None,
        }
    }

    /// The items of an array.
    pub fn as_array(&self) -> (items: Option<&Vec<Json>>)
        ensures
            items is Some <==> items_of(self@) is Some,
            items is Some ==> Some(documents(items->0@)) == items_of(self@),
    {
        match self {
            Json::Array(items) => {
                proof {
                    lemma_array_view(*items);
                    assert(documents(items@) =~= self@->Array_0);
                }
                Some(items)
            },
            _ => None,
        }
    }
}

/// What a list of documents holds.
pub open spec fn documents(items: Seq<Json>) -> Seq<JsonView> {
    items.map_values(|item: Json| item@)
}

/// The finite amount that a number or a numeral in a string stands for.
pub fn decimal(value: &Json) -> (amount: Option<Amount>)
    ensures
        amount == decimal_of(value@),
{
    match value {
        Json::Number(number) => if number.is_finite() {
            Some(*number)
        } else {
            None
        },
        Json::Text(text) => parse_amount(text.as_str()),
        _ => None,
    }
}

/// The amount of the first of the named members that has one.
pub fn optional_number(value: &Json, keys: &[&str]) -> (amount: Option<Amount>)
    ensures
        amount == first_amount(value@, names(keys@)),
{
    let mut i: usize = 0;
    let ghost wanted = names(keys@);
    proof {
        assert(wanted.subrange(0, wanted.len() as int) =~= wanted);
    }
    while i < keys.len()
        invariant
            i <= keys@.len(),
            wanted == names(keys@),
            first_amount(value@, wanted.subrange(i as int, wanted.len() as int)) == first_amount(
                value@,
                wanted,
            ),
        decreases keys@.len() - i,
    {
        proof {
            assert(wanted.subrange(i as int, wanted.len() as int).drop_first() =~= wanted.subrange(
                i + 1,
                wanted.len() as int,
            ));
        }
        if let Some(found) = value.get(keys[i]) {
            let amount = decimal(found);
            if amount.is_some() {
                return amount;
            }
        }
        i += 1;
    }
    None
}

/// The sum of the amounts that the items have under the names, if any has one.
pub fn sum_numbers(values: &Vec<Json>, keys: &[&str]) -> (amount: Option<Amount>)
    ensures
        amount == items_total(documents(values@), names(keys@)),
{
    let ghost all = documents(values@);
    let mut found: Vec<Amount> = Vec::new();
    let mut i: usize = 0;
    while i < values.len()
        invariant
            i <= values@.len(),
            all == documents(values@),
            found@ == amounts_found(all.take(i as int), names(keys@)),
        decreases values@.len() - i,
    {
        proof {
            assert(all.take(i + 1).drop_last() =~= all.take(i as int));
        }
        if let Some(amount) = optional_number(&values[i], keys) {
            found.push(amount);
        }
        i += 1;
    }
    proof {
        assert(all.take(i as int) =~= all);
    }
    if found.len() == 0 {
        None
    } else {
        Some(Amount::total_of(&found))
    }
}

fn is_wanted(name: &String, keys: &[&str]) -> (r: bool)
    ensures
        r == names(keys@).contains(name@),
{
    let mut i: usize = 0;
    while i < keys.len()
        invariant
            i <= keys@.len(),
            forall|j: int| 0 <= j < i ==> #[trigger] names(keys@)[j] != name@,
        decreases keys@.len() - i,
    {
        assert(names(keys@)[i as int] == keys@[i as int]@);
        if crate::text::same(name.as_str(), keys[i]) {
            return true;
        }
        i += 1;
    }
    false
}

/// The sum of the amounts of all members that bear one of the names, at any depth.
pub fn recursive_sum(value: &Json, keys: &[&str]) -> (amount: Amount)
    ensures
        amount == nested_total(value@, names(keys@)),
    decreases value@,
{
    match value {
        Json::Object(members) => {
            let mut result = Amount { bits: 0x8000_0000_0000_0000 };
            let mut i: usize = 0;
            proof {
                lemma_object_view(*members);
            }
            while i < members.len()
                invariant
                    i <= members@.len(),
                    value@ is Object,
                    value@->Object_0.len() == members@.len(),
                    forall|j: int|
                        0 <= j < members@.len() ==> #[trigger] value@->Object_0[j] == (
                            members@[j].0@,
                            members@[j].1@,
                        ),
                    result == members_total(value@->Object_0, i as nat, names(keys@)),
                decreases members@.len() - i,
            {
                let name = &members[i].0;
                let item = &members[i].1;
                assert(value@->Object_0[i as int] == (name@, item@));
                assert(decreases_to!(value@ => value@->Object_0[i as int].1));
                let own = if is_wanted(name, keys) {
                    match decimal(item) {
                        Some(amount) => amount,
                        None => Amount { bits: 0 },
                    }
                } else {
                    Amount { bits: 0 }
                };
                result = result.plus(own.plus(recursive_sum(item, keys)));
                i += 1;
            }
            result
        },
        Json::Array(items) => {
            let mut result = Amount { bits: 0x8000_0000_0000_0000 };
            let mut i: usize = 0;
            proof {
                lemma_array_view(*items);
            }
            while i < items.len()
                invariant
                    i <= items@.len(),
                    value@ is Array,
                    value@->Array_0.len() == items@.len(),
                    forall|j: int|
                        0 <= j < items@.len() ==> #[trigger] value@->Array_0[j] == items@[j]@,
                    result == array_total(value@->Array_0, i as nat, names(keys@)),
                decreases items@.len() - i,
            {
                let item = &items[i];
                assert(value@->Array_0[i as int] == item@);
                assert(decreases_to!(value@ => value@->Array_0[i as int]));
                result = result.plus(recursive_sum(item, keys));
                i += 1;
            }
            result
        },
        _ => Amount { bits: 0 },
    }
}

/// A member of a well-formed object is the one that is found under its name.
pub proof fn law_members_are_found(members: Seq<(Seq<char>, JsonView)>, i: int)
    requires
        distinct_names(members),
        0 <= i < members.len(),
    ensures
        member(JsonView::Object(members), members[i].0) == Some(members[i].1),
{
    lemma_member_from(members, 0, i);
}

proof fn lemma_member_from(members: Seq<(Seq<char>, JsonView)>, from: int, i: int)
    requires
        distinct_names(members),
        0 <= from <= i < members.len(),
    ensures
        member_from(members, members[i].0, from) == Some(members[i].1),
    decreases i - from,
{
    if from < i {
        lemma_member_from(members, from + 1, i);
    }
}

/// What is found under a name is a member of the document that bears it, and
/// where no member bears it, nothing is found.
pub proof fn law_no_member_is_made_up(document: JsonView, name: Seq<char>)
    ensures
        member(document, name) is Some <==> document is Object && exists|i: int|
            0 <= i < document->Object_0.len() && (#[trigger] document->Object_0[i]).0 == name,
        member(document, name) is Some ==> exists|i: int|
            0 <= i < document->Object_0.len() && #[trigger] document->Object_0[i] == (
                name,
                member(document, name)->0,
            ),
{
    if let JsonView::Object(members) = document {
        lemma_found_member(members, name, 0);
    }
}

proof fn lemma_found_member(members: Seq<(Seq<char>, JsonView)>, name: Seq<char>, from: int)
    requires
        0 <= from <= members.len(),
    ensures
        member_from(members, name, from) is None ==> forall|i: int|
            from <= i < members.len() ==> (#[trigger] members[i]).0 != name,
        member_from(members, name, from) is Some ==> exists|i: int|
            from <= i < members.len() && #[trigger] members[i] == (
                name,
                member_from(members, name, from)->0,
            ),
    decreases members.len() - from,
{
    if from < members.len() {
        if members[from].0 == name {
            assert(members[from] == (name, members[from].1));
        } else {
            lemma_found_member(members, name, from + 1);
        }
    }
}

/// The amount of a document under one name: that of the member of that name, if
/// it is a finite number or a numeral for one.
pub open spec fn amount_at(document: JsonView, name: Seq<char>) -> Option<Amount> {
    match member(document, name) {
        Some(JsonView::Number(number)) => if number.finite() {
            Some(number)
        } else {
            None
        },
        Some(JsonView::Text(text)) => amount_of_text(text),
        _ => None,
    }
}

/// Of several names the first under which there is an amount decides, and no
/// amount is found only where there is none under any of them.
pub proof fn law_first_name_with_an_amount_decides(
    document: JsonView,
    names: Seq<Seq<char>>,
    i: int,
)
    ensures
        0 <= i < names.len() && amount_at(document, names[i]) is Some && (forall|j: int|
            0 <= j < i ==> amount_at(document, #[trigger] names[j]) is None) ==> first_amount(
            document,
            names,
        ) == amount_at(document, names[i]),
        (forall|j: int| 0 <= j < names.len() ==> amount_at(document, #[trigger] names[j]) is None)
            ==> first_amount(document, names) is None,
        first_amount(document, names) is Some ==> first_amount(document, names)->0.finite(),
    decreases names.len(),
{
    if names.len() > 0 {
        let rest: Seq<Seq<char>> = names.drop_first();
        assert(amount_at(document, names[0]) == match member(document, names.first()) {
            Some(value) => decimal_of(value),
            None => None,
        });
        if let Some(JsonView::Text(text)) = member(document, names[0]) {
            crate::decimal::lemma_amount_is_finite(text);
        }
        law_first_name_with_an_amount_decides(document, rest, i - 1);
        assert forall|j: int| 0 <= j < rest.len() implies #[trigger] rest[j] == names[j + 1] by {}
    }
}

/// Every item counts: with one more item behind it, the total of a list becomes
/// its sum with that item's amount, whatever the amounts before it are. An item
/// without an amount changes nothing.
pub proof fn law_every_item_counts(
    items: Seq<JsonView>,
    item: JsonView,
    names: Seq<Seq<char>>,
)
    ensures
        items_total(Seq::empty(), names) is None,
        first_amount(item, names) is None ==> items_total(items.push(item), names) == items_total(
            items,
            names,
        ),
        first_amount(item, names) is Some ==> items_total(items.push(item), names) == Some(
            sum(
                match items_total(items, names) {
                    Some(total) => total,
                    None => negative_zero(),
                },
                first_amount(item, names)->0,
            ),
        ),
{
    assert(items.push(item).drop_last() =~= items);
    let before: Seq<Amount> = amounts_found(items, names);
    if let Some(amount) = first_amount(item, names) {
        assert(before.push(amount).drop_last() =~= before);
    }
}

/// How nested totals come about. A document that is neither an object nor an
/// array has none. One more item behind an array adds its own total. One more
/// member behind an object adds the total of its value and, where its name is
/// wanted and it has an amount, that amount.
pub proof fn law_nested_totals_grow(
    document: JsonView,
    items: Seq<JsonView>,
    item: JsonView,
    members: Seq<(Seq<char>, JsonView)>,
    name: Seq<char>,
    names: Seq<Seq<char>>,
)
    ensures
        !(document is Object) && !(document is Array) ==> nested_total(document, names).bits == 0,
        nested_total(JsonView::Array(Seq::empty()), names).bits == 0x8000_0000_0000_0000,
        nested_total(JsonView::Object(Seq::empty()), names).bits == 0x8000_0000_0000_0000,
        nested_total(JsonView::Array(items.push(item)), names) == sum(
            nested_total(JsonView::Array(items), names),
            nested_total(item, names),
        ),
        nested_total(JsonView::Object(members.push((name, item))), names) == sum(
            nested_total(JsonView::Object(members), names),
            sum(
                if names.contains(name) && (item is Number || item is Text) && amount_at(
                    JsonView::Object(seq![(name, item)]),
                    name,
                ) is Some {
                    amount_at(JsonView::Object(seq![(name, item)]), name)->0
                } else {
                    Amount { bits: 0 }
                },
                nested_total(item, names),
            ),
        ),
{
    lemma_array_total_prefix(items, item, items.len(), names);
    lemma_members_total_prefix(members, (name, item), members.len(), names);
    assert(items.push(item)[items.len() as int] == item);
    assert(members.push((name, item))[members.len() as int] == (name, item));
    let alone: Seq<(Seq<char>, JsonView)> = seq![(name, item)];
    assert(member_from(alone, name, 0) == Some(item)) by {
        assert(alone[0] == (name, item));
    }
}

proof fn lemma_array_total_prefix(
    items: Seq<JsonView>,
    item: JsonView,
    n: nat,
    names: Seq<Seq<char>>,
)
    requires
        n <= items.len(),
    ensures
        array_total(items.push(item), n, names) == array_total(items, n, names),
    decreases n,
{
    if n > 0 {
        lemma_array_total_prefix(items, item, (n - 1) as nat, names);
        assert(items.push(item)[n - 1] == items[n - 1]);
    }
}

proof fn lemma_members_total_prefix(
    members: Seq<(Seq<char>, JsonView)>,
    entry: (Seq<char>, JsonView),
    n: nat,
    names: Seq<Seq<char>>,
)
    requires
        n <= members.len(),
    ensures
        members_total(members.push(entry), n, names) == members_total(members, n, names),
    decreases n,
{
    if n > 0 {
        lemma_members_total_prefix(members, entry, (n - 1) as nat, names);
        assert(members.push(entry)[n - 1] == members[n - 1]);
    }
}

} // verus!
