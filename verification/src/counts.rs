//! Counts: whole amounts, of which nothing is lost in reading and adding up.
//!
//! Token counters are whole numbers. Up to two to the power of 53 every whole
//! number is a double, so totals of such counters are exact.

use crate::amount::{negative_zero, signed, sum, zero, Amount};
use crate::decimal::{amount_of_text, continued, digits_end, is_digit, literal, ten_to};
use crate::json::{
    array_total, decimal_of, first_amount, items_total, law_every_item_counts, members_total,
    nested_total, own_amount, JsonView,
};
use crate::rounding::{magnitude, units_per_one, INFINITY_RANK};
use crate::text::{digit, digits, number};
use vstd::arithmetic::power2::{lemma_pow2_unfold, pow2};
use vstd::prelude::*;

verus! {

/// The largest number up to which every whole number is a double.
pub open spec fn count_limit() -> nat {
    0x20_0000_0000_0000
}

/// The amount is the whole number `k`.
pub open spec fn is_count(a: Amount, k: int) -> bool {
    a.finite() && a.units() == k * units_per_one()
}

/// A whole number without its sign.
pub open spec fn size_of(k: int) -> nat {
    if k < 0 {
        (-k) as nat
    } else {
        k as nat
    }
}

/// The whole number that an amount is.
pub open spec fn count_of(a: Amount) -> int {
    choose|k: int| is_count(a, k)
}

/// What a member counts by itself, as a whole number.
pub open spec fn own_count(member: (Seq<char>, JsonView), names: Seq<Seq<char>>) -> int {
    if names.contains(member.0) && decimal_of(member.1) is Some {
        count_of(decimal_of(member.1)->0)
    } else {
        0
    }
}

/// Every amount that a document holds under the names is a whole number.
pub open spec fn all_counts(document: JsonView, names: Seq<Seq<char>>) -> bool
    decreases document,
{
    match document {
        JsonView::Object(members) => forall|i: int|
            0 <= i < members.len() ==> {
                let member = #[trigger] members[i];
                &&& names.contains(member.0) && decimal_of(member.1) is Some ==> exists|k: int|
                    is_count(decimal_of(member.1)->0, k)
                &&& all_counts(member.1, names)
            },
        JsonView::Array(items) => forall|i: int|
            0 <= i < items.len() ==> all_counts(#[trigger] items[i], names),
        _ => true,
    }
}

/// The whole number that the amounts under the names add up to, at any depth.
pub open spec fn nested_count(document: JsonView, names: Seq<Seq<char>>) -> int
    decreases document, 0nat,
{
    match document {
        JsonView::Object(members) => members_count(members, members.len(), names),
        JsonView::Array(items) => array_count(items, items.len(), names),
        _ => 0,
    }
}

pub open spec fn members_count(
    members: Seq<(Seq<char>, JsonView)>,
    n: nat,
    names: Seq<Seq<char>>,
) -> int
    decreases members, n,
{
    if n == 0 || n > members.len() {
        0
    } else {
        members_count(members, (n - 1) as nat, names) + own_count(members[n - 1], names)
            + nested_count(members[n - 1].1, names)
    }
}

pub open spec fn array_count(items: Seq<JsonView>, n: nat, names: Seq<Seq<char>>) -> int
    decreases items, n,
{
    if n == 0 || n > items.len() {
        0
    } else {
        array_count(items, (n - 1) as nat, names) + nested_count(items[n - 1], names)
    }
}

/// What the amounts under the names add up to without their signs, at any depth.
/// No partial sum is larger than that.
pub open spec fn nested_size(document: JsonView, names: Seq<Seq<char>>) -> nat
    decreases document, 0nat,
{
    match document {
        JsonView::Object(members) => members_size(members, members.len(), names),
        JsonView::Array(items) => array_size(items, items.len(), names),
        _ => 0,
    }
}

pub open spec fn members_size(
    members: Seq<(Seq<char>, JsonView)>,
    n: nat,
    names: Seq<Seq<char>>,
) -> nat
    decreases members, n,
{
    if n == 0 || n > members.len() {
        0
    } else {
        members_size(members, (n - 1) as nat, names) + size_of(own_count(members[n - 1], names))
            + nested_size(members[n - 1].1, names)
    }
}

pub open spec fn array_size(items: Seq<JsonView>, n: nat, names: Seq<Seq<char>>) -> nat
    decreases items, n,
{
    if n == 0 || n > items.len() {
        0
    } else {
        array_size(items, (n - 1) as nat, names) + nested_size(items[n - 1], names)
    }
}

/// A number of up to 53 bits, shifted, is a double.
proof fn lemma_representable(q: nat, e: nat) -> (rank: nat)
    requires
        q <= count_limit(),
        e <= 1074,
    ensures
        rank < INFINITY_RANK,
        magnitude(rank) == q * pow2(e),
    decreases e,
{
    if e == 0 || q >= 0x10_0000_0000_0000 {
        crate::rounding::lemma_magnitude_parts(q, e);
        e * 0x10_0000_0000_0000 + q
    } else {
        lemma_pow2_unfold(e);
        let p: int = pow2((e - 1) as nat) as int;
        assert((2 * q) * p == q * (2 * p)) by (nonlinear_arith);
        lemma_representable(2 * q, (e - 1) as nat)
    }
}

/// A whole number has one count.
proof fn lemma_count_of(a: Amount, k: int)
    requires
        is_count(a, k),
    ensures
        count_of(a) == k,
{
    let c: int = count_of(a);
    let u: int = units_per_one() as int;
    vstd::arithmetic::power2::lemma_pow2_pos(1074);
    assert(c == k) by (nonlinear_arith)
        requires
            c * u == k * u,
            u > 0,
    ;
}

/// The sum of two counts is exact as long as it stays within the limit.
pub proof fn law_counts_add(a: Amount, m: int, b: Amount, n: int)
    requires
        is_count(a, m),
        is_count(b, n),
        size_of(m + n) <= count_limit(),
    ensures
        is_count(sum(a, b), m + n),
{
    let negative: bool = m + n < 0;
    let size: nat = size_of(m + n);
    let rank: nat = lemma_representable(size, 1074);
    let s: Amount = signed(negative, rank);
    crate::amount::lemma_signed(negative, rank);
    let u: int = units_per_one() as int;
    assert(m * u + n * u == (m + n) * u) by (nonlinear_arith);
    if negative {
        assert(-(size * u) == (m + n) * u) by (nonlinear_arith)
            requires
                size == -(m + n),
        ;
    }
    crate::amount::law_sum_exact(a, b, s);
}

proof fn lemma_zero_counts()
    ensures
        is_count(zero(), 0),
        is_count(negative_zero(), 0),
{
    let u: int = units_per_one() as int;
    assert(0 * u == 0) by (nonlinear_arith);
    crate::rounding::lemma_magnitude_zero();
}

proof fn lemma_members_exact(members: Seq<(Seq<char>, JsonView)>, n: nat, names: Seq<Seq<char>>)
    requires
        n <= members.len(),
        all_counts(JsonView::Object(members), names),
        members_size(members, n, names) <= count_limit(),
    ensures
        is_count(members_total(members, n, names), members_count(members, n, names)),
        size_of(members_count(members, n, names)) <= members_size(members, n, names),
    decreases members, n,
{
    lemma_zero_counts();
    if n > 0 {
        let m: nat = (n - 1) as nat;
        let here: (Seq<char>, JsonView) = members[m as int];
        lemma_members_exact(members, m, names);
        assert(decreases_to!(members => members[m as int].1));
        law_nested_total_exact(here.1, names);
        if names.contains(here.0) && decimal_of(here.1) is Some {
            let k: int = choose|k: int| is_count(decimal_of(here.1)->0, k);
            lemma_count_of(decimal_of(here.1)->0, k);
        }
        law_counts_add(
            own_amount(here, names),
            own_count(here, names),
            nested_total(here.1, names),
            nested_count(here.1, names),
        );
        law_counts_add(
            members_total(members, m, names),
            members_count(members, m, names),
            sum(own_amount(here, names), nested_total(here.1, names)),
            own_count(here, names) + nested_count(here.1, names),
        );
    }
}

proof fn lemma_array_exact(items: Seq<JsonView>, n: nat, names: Seq<Seq<char>>)
    requires
        n <= items.len(),
        all_counts(JsonView::Array(items), names),
        array_size(items, n, names) <= count_limit(),
    ensures
        is_count(array_total(items, n, names), array_count(items, n, names)),
        size_of(array_count(items, n, names)) <= array_size(items, n, names),
    decreases items, n,
{
    lemma_zero_counts();
    if n > 0 {
        let m: nat = (n - 1) as nat;
        lemma_array_exact(items, m, names);
        let document: JsonView = JsonView::Array(items);
        assert(document->Array_0[m as int] == items[m as int]);
        assert(decreases_to!(items => items[m as int]));
        law_nested_total_exact(items[m as int], names);
        law_counts_add(
            array_total(items, m, names),
            array_count(items, m, names),
            nested_total(items[m as int], names),
            nested_count(items[m as int], names),
        );
    }
}

/// Where all amounts under the names are whole numbers that without their signs
/// add up to no more than the limit, their nested total is exactly their sum,
/// however deep the amounts lie and in whatever order they stand.
pub proof fn law_nested_total_exact(document: JsonView, names: Seq<Seq<char>>)
    requires
        all_counts(document, names),
        nested_size(document, names) <= count_limit(),
    ensures
        is_count(nested_total(document, names), nested_count(document, names)),
        size_of(nested_count(document, names)) <= nested_size(document, names),
    decreases document, 0nat,
{
    lemma_zero_counts();
    match document {
        JsonView::Object(members) => {
            lemma_members_exact(members, members.len(), names);
        },
        JsonView::Array(items) => {
            lemma_array_exact(items, items.len(), names);
        },
        _ => {},
    }
}

/// The sum of the whole numbers in a list that has some in its places.
pub open spec fn whole_sum(counts: Seq<Option<int>>) -> int
    decreases counts.len(),
{
    if counts.len() == 0 {
        0
    } else {
        whole_sum(counts.drop_last()) + match counts.last() {
            Some(k) => k,
            None => 0,
        }
    }
}

/// The sum of the whole numbers in a list, without their signs.
pub open spec fn whole_size(counts: Seq<Option<int>>) -> nat
    decreases counts.len(),
{
    if counts.len() == 0 {
        0
    } else {
        whole_size(counts.drop_last()) + match counts.last() {
            Some(k) => size_of(k),
            None => 0,
        }
    }
}

/// Items hold the whole numbers of a list under the names, place by place, and
/// nothing where the list holds none.
pub open spec fn items_hold(
    items: Seq<JsonView>,
    names: Seq<Seq<char>>,
    counts: Seq<Option<int>>,
) -> bool {
    items.len() == counts.len() && forall|i: int|
        0 <= i < items.len() ==> match #[trigger] counts[i] {
            Some(k) => first_amount(items[i], names) is Some && is_count(
                first_amount(items[i], names)->0,
                k,
            ),
            None => first_amount(items[i], names) is None,
        }
}

/// The total over items with whole amounts is the integer sum over all items
/// that have one, and there is a total if any item has one.
pub proof fn law_items_total_is_exact(
    items: Seq<JsonView>,
    names: Seq<Seq<char>>,
    counts: Seq<Option<int>>,
)
    requires
        items_hold(items, names, counts),
        whole_size(counts) <= count_limit(),
    ensures
        items_total(items, names) is Some <==> exists|i: int|
            0 <= i < counts.len() && #[trigger] counts[i] is Some,
        items_total(items, names) is Some ==> is_count(
            items_total(items, names)->0,
            whole_sum(counts),
        ),
        items_total(items, names) is None ==> whole_sum(counts) == 0,
        size_of(whole_sum(counts)) <= whole_size(counts),
    decreases items.len(),
{
    lemma_zero_counts();
    if items.len() == 0 {
        assert(items =~= Seq::empty());
        law_every_item_counts(items, JsonView::Null, names);
    } else {
        let first: Seq<JsonView> = items.drop_last();
        let numbers: Seq<Option<int>> = counts.drop_last();
        assert forall|i: int| 0 <= i < first.len() implies match #[trigger] numbers[i] {
            Some(k) => first_amount(first[i], names) is Some && is_count(
                first_amount(first[i], names)->0,
                k,
            ),
            None => first_amount(first[i], names) is None,
        } by {
            assert(numbers[i] == counts[i]);
        }
        law_items_total_is_exact(first, names, numbers);
        law_every_item_counts(first, items.last(), names);
        assert(first.push(items.last()) =~= items);
        assert(counts[items.len() - 1] == counts.last());
        if let Some(k) = counts.last() {
            let before: Amount = match items_total(first, names) {
                Some(total) => total,
                None => negative_zero(),
            };
            law_counts_add(
                before,
                whole_sum(numbers),
                first_amount(items.last(), names)->0,
                k,
            );
        } else {
            if items_total(first, names) is Some {
                let i: int = choose|i: int| 0 <= i < numbers.len() && #[trigger] numbers[i] is Some;
                assert(counts[i] is Some);
            } else {
                assert forall|i: int| 0 <= i < counts.len() implies #[trigger] counts[i]
                    is None by {
                    if i < numbers.len() {
                        assert(numbers[i] is None);
                    }
                }
            }
        }
    }
}

/// Two amounts are the same number.
pub open spec fn same_number(a: Amount, b: Amount) -> bool {
    a.finite() && b.finite() && a.units() == b.units()
}

/// No name is in both lists.
pub open spec fn disjoint(names: Seq<Seq<char>>, others: Seq<Seq<char>>) -> bool {
    forall|name: Seq<char>| !(#[trigger] names.contains(name) && others.contains(name))
}

/// Two lists hold the same names, in whatever order and however often.
pub open spec fn same_names(names: Seq<Seq<char>>, others: Seq<Seq<char>>) -> bool {
    forall|name: Seq<char>| #[trigger] names.contains(name) <==> others.contains(name)
}

proof fn lemma_joined_names(names: Seq<Seq<char>>, others: Seq<Seq<char>>, name: Seq<char>)
    ensures
        (names + others).contains(name) <==> names.contains(name) || others.contains(name),
{
    let joined: Seq<Seq<char>> = names + others;
    if names.contains(name) {
        let at: int = choose|at: int| 0 <= at < names.len() && names[at] == name;
        assert(joined[at] == name);
    }
    if others.contains(name) {
        let at: int = choose|at: int| 0 <= at < others.len() && others[at] == name;
        assert(joined[names.len() + at] == name);
    }
}

/// Counts under two lists of names that have none in common are counts under
/// each of them, and add up.
proof fn lemma_names_split(document: JsonView, names: Seq<Seq<char>>, others: Seq<Seq<char>>)
    requires
        disjoint(names, others),
        all_counts(document, names + others),
    ensures
        all_counts(document, names),
        all_counts(document, others),
        nested_count(document, names + others) == nested_count(document, names) + nested_count(
            document,
            others,
        ),
        nested_size(document, names + others) == nested_size(document, names) + nested_size(
            document,
            others,
        ),
    decreases document, 0nat,
{
    match document {
        JsonView::Object(members) => {
            assert forall|i: int| 0 <= i < members.len() implies all_counts(
                (#[trigger] members[i]).1,
                names,
            ) && all_counts(members[i].1, others) && (names.contains(members[i].0) && decimal_of(
                members[i].1,
            ) is Some ==> exists|k: int| is_count(decimal_of(members[i].1)->0, k)) && (
            others.contains(members[i].0) && decimal_of(members[i].1) is Some ==> exists|k: int|
                is_count(decimal_of(members[i].1)->0, k)) by {
                assert(document->Object_0[i] == members[i]);
                assert(decreases_to!(document => document->Object_0[i].1));
                lemma_names_split(members[i].1, names, others);
                lemma_joined_names(names, others, members[i].0);
            }
            lemma_members_split(members, members.len(), names, others);
        },
        JsonView::Array(items) => {
            assert forall|i: int| 0 <= i < items.len() implies all_counts(
                #[trigger] items[i],
                names,
            ) && all_counts(items[i], others) by {
                assert(document->Array_0[i] == items[i]);
                assert(decreases_to!(document => document->Array_0[i]));
                lemma_names_split(items[i], names, others);
            }
            lemma_array_split(items, items.len(), names, others);
        },
        _ => {},
    }
}

proof fn lemma_members_split(
    members: Seq<(Seq<char>, JsonView)>,
    n: nat,
    names: Seq<Seq<char>>,
    others: Seq<Seq<char>>,
)
    requires
        n <= members.len(),
        disjoint(names, others),
        all_counts(JsonView::Object(members), names + others),
    ensures
        members_count(members, n, names + others) == members_count(members, n, names)
            + members_count(members, n, others),
        members_size(members, n, names + others) == members_size(members, n, names)
            + members_size(members, n, others),
    decreases members, n,
{
    if n > 0 {
        let m: nat = (n - 1) as nat;
        let document: JsonView = JsonView::Object(members);
        assert(document->Object_0[m as int] == members[m as int]);
        lemma_members_split(members, m, names, others);
        assert(decreases_to!(members => members[m as int].1));
        lemma_names_split(members[m as int].1, names, others);
        lemma_joined_names(names, others, members[m as int].0);
    }
}

proof fn lemma_array_split(
    items: Seq<JsonView>,
    n: nat,
    names: Seq<Seq<char>>,
    others: Seq<Seq<char>>,
)
    requires
        n <= items.len(),
        disjoint(names, others),
        all_counts(JsonView::Array(items), names + others),
    ensures
        array_count(items, n, names + others) == array_count(items, n, names) + array_count(
            items,
            n,
            others,
        ),
        array_size(items, n, names + others) == array_size(items, n, names) + array_size(
            items,
            n,
            others,
        ),
    decreases items, n,
{
    if n > 0 {
        let m: nat = (n - 1) as nat;
        let document: JsonView = JsonView::Array(items);
        assert(document->Array_0[m as int] == items[m as int]);
        lemma_array_split(items, m, names, others);
        assert(decreases_to!(items => items[m as int]));
        lemma_names_split(items[m as int], names, others);
    }
}

/// The nested total of counts under two lists of names that have none in common
/// is the sum of the totals under each of them.
pub proof fn law_totals_add_over_names(
    document: JsonView,
    names: Seq<Seq<char>>,
    others: Seq<Seq<char>>,
)
    requires
        disjoint(names, others),
        all_counts(document, names + others),
        nested_size(document, names + others) <= count_limit(),
    ensures
        same_number(
            nested_total(document, names + others),
            sum(nested_total(document, names), nested_total(document, others)),
        ),
{
    lemma_names_split(document, names, others);
    law_nested_total_exact(document, names + others);
    law_nested_total_exact(document, names);
    law_nested_total_exact(document, others);
    law_counts_add(
        nested_total(document, names),
        nested_count(document, names),
        nested_total(document, others),
        nested_count(document, others),
    );
}

proof fn lemma_array_joined(
    items: Seq<JsonView>,
    more: Seq<JsonView>,
    n: nat,
    names: Seq<Seq<char>>,
)
    requires
        n <= items.len() + more.len(),
    ensures
        n <= items.len() ==> array_count(items + more, n, names) == array_count(items, n, names),
        n > items.len() ==> array_count(items + more, n, names) == array_count(
            items,
            items.len(),
            names,
        ) + array_count(more, (n - items.len()) as nat, names),
        n <= items.len() ==> array_size(items + more, n, names) == array_size(items, n, names),
        n > items.len() ==> array_size(items + more, n, names) == array_size(
            items,
            items.len(),
            names,
        ) + array_size(more, (n - items.len()) as nat, names),
    decreases n,
{
    if n > 0 {
        lemma_array_joined(items, more, (n - 1) as nat, names);
        if n <= items.len() {
            assert((items + more)[n - 1] == items[n - 1]);
        } else {
            let k: nat = (n - 1 - items.len()) as nat;
            assert((items + more)[n - 1] == more[k as int]);
            assert(array_count(more, 0, names) == 0);
            assert(array_count(more, k + 1, names) == array_count(more, k, names) + nested_count(
                more[k as int],
                names,
            ));
            assert(array_size(more, 0, names) == 0);
            assert(array_size(more, k + 1, names) == array_size(more, k, names) + nested_size(
                more[k as int],
                names,
            ));
        }
    }
}

/// The nested total of counts in two arrays joined into one is the sum of the
/// totals of the two.
pub proof fn law_totals_add_over_arrays(
    items: Seq<JsonView>,
    more: Seq<JsonView>,
    names: Seq<Seq<char>>,
)
    requires
        all_counts(JsonView::Array(items + more), names),
        nested_size(JsonView::Array(items + more), names) <= count_limit(),
    ensures
        same_number(
            nested_total(JsonView::Array(items + more), names),
            sum(
                nested_total(JsonView::Array(items), names),
                nested_total(JsonView::Array(more), names),
            ),
        ),
{
    let joined: JsonView = JsonView::Array(items + more);
    let first: JsonView = JsonView::Array(items);
    let second: JsonView = JsonView::Array(more);
    assert forall|i: int| 0 <= i < items.len() implies all_counts(#[trigger] items[i], names) by {
        assert(joined->Array_0[i] == items[i]);
    }
    assert forall|i: int| 0 <= i < more.len() implies all_counts(#[trigger] more[i], names) by {
        assert(joined->Array_0[items.len() + i] == more[i]);
    }
    assert(all_counts(first, names));
    assert(all_counts(second, names));
    lemma_array_joined(items, more, (items + more).len(), names);
    assert(nested_count(joined, names) == nested_count(first, names) + nested_count(second, names));
    assert(nested_size(joined, names) == nested_size(first, names) + nested_size(second, names));
    law_nested_total_exact(joined, names);
    law_nested_total_exact(first, names);
    law_nested_total_exact(second, names);
    law_counts_add(
        nested_total(first, names),
        nested_count(first, names),
        nested_total(second, names),
        nested_count(second, names),
    );
}

proof fn lemma_member_replaced(
    members: Seq<(Seq<char>, JsonView)>,
    at: int,
    entry: (Seq<char>, JsonView),
    n: nat,
    names: Seq<Seq<char>>,
)
    requires
        0 <= at < members.len(),
        n <= members.len(),
    ensures
        n <= at ==> members_count(members.update(at, entry), n, names) == members_count(
            members,
            n,
            names,
        ) && members_size(members.update(at, entry), n, names) == members_size(members, n, names),
        n > at ==> members_count(members.update(at, entry), n, names) == members_count(
            members,
            n,
            names,
        ) - own_count(members[at], names) - nested_count(members[at].1, names) + own_count(
            entry,
            names,
        ) + nested_count(entry.1, names),
        n > at ==> members_size(members.update(at, entry), n, names) == members_size(
            members,
            n,
            names,
        ) - size_of(own_count(members[at], names)) - nested_size(members[at].1, names) + size_of(
            own_count(entry, names),
        ) + nested_size(entry.1, names),
    decreases n,
{
    if n > 0 {
        lemma_member_replaced(members, at, entry, (n - 1) as nat, names);
        if n - 1 != at {
            assert(members.update(at, entry)[n - 1] == members[n - 1]);
        } else {
            assert(members.update(at, entry)[n - 1] == entry);
        }
    }
}

/// An object with an array as the member at a position.
pub open spec fn with_array(
    members: Seq<(Seq<char>, JsonView)>,
    at: int,
    items: Seq<JsonView>,
) -> JsonView {
    JsonView::Object(members.update(at, (members[at].0, JsonView::Array(items))))
}

proof fn lemma_with_array(
    members: Seq<(Seq<char>, JsonView)>,
    at: int,
    items: Seq<JsonView>,
    more: Seq<JsonView>,
    names: Seq<Seq<char>>,
)
    requires
        0 <= at < members.len(),
        all_counts(with_array(members, at, items), names),
        all_counts(with_array(members, at, more), names),
    ensures
        all_counts(with_array(members, at, items + more), names),
        all_counts(with_array(members, at, Seq::empty()), names),
        nested_count(with_array(members, at, items + more), names) + nested_count(
            with_array(members, at, Seq::empty()),
            names,
        ) == nested_count(with_array(members, at, items), names) + nested_count(
            with_array(members, at, more),
            names,
        ),
        nested_size(with_array(members, at, items + more), names) + nested_size(
            with_array(members, at, Seq::empty()),
            names,
        ) == nested_size(with_array(members, at, items), names) + nested_size(
            with_array(members, at, more),
            names,
        ),
{
    let name: Seq<char> = members[at].0;
    let none: Seq<JsonView> = Seq::empty();
    let n: nat = members.len();
    lemma_member_replaced(members, at, (name, JsonView::Array(items + more)), n, names);
    lemma_member_replaced(members, at, (name, JsonView::Array(items)), n, names);
    lemma_member_replaced(members, at, (name, JsonView::Array(more)), n, names);
    lemma_member_replaced(members, at, (name, JsonView::Array(none)), n, names);
    lemma_array_joined(items, more, (items + more).len(), names);
    assert(array_count(more, 0, names) == 0);
    assert(array_size(more, 0, names) == 0);
    let first: JsonView = with_array(members, at, items);
    let second: JsonView = with_array(members, at, more);
    assert(first->Object_0[at] == (name, JsonView::Array(items)));
    assert(second->Object_0[at] == (name, JsonView::Array(more)));
    assert(all_counts(JsonView::Array(items), names));
    assert(all_counts(JsonView::Array(more), names));
    let joined: JsonView = JsonView::Array(items + more);
    assert forall|i: int| 0 <= i < (items + more).len() implies all_counts(
        #[trigger] (items + more)[i],
        names,
    ) by {
        if i < items.len() {
            assert((items + more)[i] == JsonView::Array(items)->Array_0[i]);
        } else {
            assert((items + more)[i] == JsonView::Array(more)->Array_0[i - items.len()]);
        }
    }
    assert(all_counts(joined, names));
    assert(all_counts(JsonView::Array(none), names));
    lemma_all_counts_replaced(members, at, items, items + more, names);
    lemma_all_counts_replaced(members, at, items, none, names);
}

proof fn lemma_all_counts_replaced(
    members: Seq<(Seq<char>, JsonView)>,
    at: int,
    items: Seq<JsonView>,
    other: Seq<JsonView>,
    names: Seq<Seq<char>>,
)
    requires
        0 <= at < members.len(),
        all_counts(with_array(members, at, items), names),
        all_counts(JsonView::Array(other), names),
    ensures
        all_counts(with_array(members, at, other), names),
{
    let before: JsonView = with_array(members, at, items);
    let list: Seq<(Seq<char>, JsonView)> = with_array(members, at, other)->Object_0;
    assert forall|i: int| 0 <= i < list.len() implies ({
        let member = #[trigger] list[i];
        &&& names.contains(member.0) && decimal_of(member.1) is Some ==> exists|k: int|
            is_count(decimal_of(member.1)->0, k)
        &&& all_counts(member.1, names)
    }) by {
        if i != at {
            assert(list[i] == before->Object_0[i]);
        }
    }
}

/// The totals of an object over the parts of an array that it holds add up: what
/// the object amounts to with two arrays joined, and with an empty one, is what
/// it amounts to with the one and with the other. So no item of the array is
/// left out, wherever the object holds it.
pub proof fn law_totals_add_over_held_arrays(
    members: Seq<(Seq<char>, JsonView)>,
    at: int,
    items: Seq<JsonView>,
    more: Seq<JsonView>,
    names: Seq<Seq<char>>,
)
    requires
        0 <= at < members.len(),
        all_counts(with_array(members, at, items), names),
        all_counts(with_array(members, at, more), names),
        nested_size(with_array(members, at, items), names) + nested_size(
            with_array(members, at, more),
            names,
        ) <= count_limit(),
    ensures
        same_number(
            sum(
                nested_total(with_array(members, at, items + more), names),
                nested_total(with_array(members, at, Seq::empty()), names),
            ),
            sum(
                nested_total(with_array(members, at, items), names),
                nested_total(with_array(members, at, more), names),
            ),
        ),
{
    let whole: JsonView = with_array(members, at, items + more);
    let rest: JsonView = with_array(members, at, Seq::empty());
    let first: JsonView = with_array(members, at, items);
    let second: JsonView = with_array(members, at, more);
    lemma_with_array(members, at, items, more, names);
    law_nested_total_exact(whole, names);
    law_nested_total_exact(rest, names);
    law_nested_total_exact(first, names);
    law_nested_total_exact(second, names);
    law_counts_add(
        nested_total(whole, names),
        nested_count(whole, names),
        nested_total(rest, names),
        nested_count(rest, names),
    );
    law_counts_add(
        nested_total(first, names),
        nested_count(first, names),
        nested_total(second, names),
        nested_count(second, names),
    );
}

/// A nested total depends on which names are wanted, not on their order nor on
/// how often each is given.
pub proof fn law_repeated_names_change_nothing(
    document: JsonView,
    names: Seq<Seq<char>>,
    others: Seq<Seq<char>>,
)
    requires
        same_names(names, others),
    ensures
        nested_total(document, names) == nested_total(document, others),
    decreases document, 0nat,
{
    match document {
        JsonView::Object(members) => {
            lemma_same_members_total(members, members.len(), names, others);
        },
        JsonView::Array(items) => {
            lemma_same_array_total(items, items.len(), names, others);
        },
        _ => {},
    }
}

proof fn lemma_same_members_total(
    members: Seq<(Seq<char>, JsonView)>,
    n: nat,
    names: Seq<Seq<char>>,
    others: Seq<Seq<char>>,
)
    requires
        n <= members.len(),
        same_names(names, others),
    ensures
        members_total(members, n, names) == members_total(members, n, others),
    decreases members, n,
{
    if n > 0 {
        lemma_same_members_total(members, (n - 1) as nat, names, others);
        assert(decreases_to!(members => members[n - 1].1));
        law_repeated_names_change_nothing(members[n - 1].1, names, others);
        assert(names.contains(members[n - 1].0) <==> others.contains(members[n - 1].0));
    }
}

proof fn lemma_same_array_total(
    items: Seq<JsonView>,
    n: nat,
    names: Seq<Seq<char>>,
    others: Seq<Seq<char>>,
)
    requires
        n <= items.len(),
        same_names(names, others),
    ensures
        array_total(items, n, names) == array_total(items, n, others),
    decreases items, n,
{
    if n > 0 {
        lemma_same_array_total(items, (n - 1) as nat, names, others);
        assert(decreases_to!(items => items[n - 1]));
        law_repeated_names_change_nothing(items[n - 1], names, others);
    }
}

/// What stands under none of the names adds nothing: a document that is neither
/// an object nor an array, and the value of a member whose name is not wanted.
pub proof fn law_unnamed_values_add_nothing(
    document: JsonView,
    member: (Seq<char>, JsonView),
    names: Seq<Seq<char>>,
)
    ensures
        !(document is Object) && !(document is Array) ==> nested_total(document, names) == zero(),
        !names.contains(member.0) ==> own_amount(member, names) == zero(),
{
}

/// The digits of a number are digits, and spell it.
pub proof fn lemma_digits(n: nat)
    ensures
        digits(n).len() > 0,
        forall|i: int| 0 <= i < digits(n).len() ==> is_digit(#[trigger] digits(n)[i]),
        continued(0, digits(n)) == n,
    decreases n,
{
    if n < 10 {
        let s: Seq<char> = digits(n);
        assert(s.drop_last() =~= Seq::<char>::empty());
        assert(s.last() == digit(n));
        assert(continued(0, s.drop_last()) == 0);
    } else {
        lemma_digits(n / 10);
        let s: Seq<char> = digits(n);
        assert(s.drop_last() =~= digits(n / 10));
    }
}

proof fn lemma_all_digits_end(s: Seq<char>, from: int)
    requires
        0 <= from <= s.len(),
        forall|i: int| from <= i < s.len() ==> is_digit(#[trigger] s[i]),
    ensures
        digits_end(s, from) == s.len(),
    decreases s.len() - from,
{
    if from < s.len() {
        lemma_all_digits_end(s, from + 1);
    }
}

/// A whole number within the limit, written out, is read as exactly that number.
pub proof fn law_numerals_read_back(k: int)
    requires
        size_of(k) <= count_limit(),
    ensures
        amount_of_text(number(k, 0)) is Some,
        is_count(amount_of_text(number(k, 0))->0, k),
{
    let n: nat = size_of(k);
    let negative: bool = k < 0;
    let d: Seq<char> = digits(n);
    let s: Seq<char> = number(k, 0);
    let start: int = if negative {
        1
    } else {
        0
    };
    lemma_digits(n);
    assert(is_digit(d[0]));
    assert(s =~= if negative {
        seq!['-'] + d
    } else {
        d
    });
    assert forall|i: int| start <= i < s.len() implies is_digit(#[trigger] s[i]) by {
        assert(s[i] == d[i - start]);
    }
    lemma_all_digits_end(s, start);
    assert(s.subrange(start, s.len() as int) =~= d);
    assert(s.subrange(s.len() as int, s.len() as int) =~= Seq::<char>::empty());
    let rank: nat = lemma_representable(n, 1074);
    crate::rounding::lemma_rounded_exact(rank, 1);
    crate::amount::lemma_signed(negative, rank);
    assert(ten_to(0) == 1);
    assert(n * 1 == n);
    assert(magnitude(rank) * 1 == magnitude(rank));
    assert(literal(s)->0.exponent == 0);
    if negative {
        let u: int = units_per_one() as int;
        assert(-(n * u) == k * u) by (nonlinear_arith)
            requires
                n == -k,
        ;
    }
}

} // verus!
