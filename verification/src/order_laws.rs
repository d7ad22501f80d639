//! What holds of lists that are kept in order.

use crate::credentials::{variable_slot, variables_of, with_variable};
use crate::text::{
    lemma_text_before_total, lemma_text_before_transitive, ordered_set_of, text_before, text_slot,
    with_text,
};
use crate::upgrade_provider::{provider_slot, providers_of, with_pin, Pin};
use vstd::prelude::*;

verus! {

/// Whether the texts stand in strictly ascending order.
pub open spec fn ascending(list: Seq<Seq<char>>) -> bool {
    forall|i: int, j: int|
        0 <= i < j < list.len() ==> text_before(#[trigger] list[i], #[trigger] list[j])
}

/// The slot of a text lies behind everything that comes before the text,
/// and not behind anything else.
pub proof fn lemma_text_slot(list: Seq<Seq<char>>, name: Seq<char>)
    ensures
        0 <= text_slot(list, name) <= list.len(),
        forall|i: int| 0 <= i < text_slot(list, name) ==> text_before(#[trigger] list[i], name),
        text_slot(list, name) < list.len() ==> !text_before(list[text_slot(list, name)], name),
    decreases list.len(),
{
    if list.len() > 0 && text_before(list[0], name) {
        let rest = list.drop_first();
        lemma_text_slot(rest, name);
        let k = text_slot(list, name);
        assert forall|i: int| 0 <= i < k implies text_before(#[trigger] list[i], name) by {
            if i > 0 {
                assert(list[i] == rest[i - 1]);
            }
        }
        if k < list.len() {
            assert(list[k] == rest[k - 1]);
        }
    }
}

/// Putting a text into an ascending list leaves the list ascending, and
/// adds nothing but the text.
pub proof fn lemma_with_text(list: Seq<Seq<char>>, name: Seq<char>)
    requires
        ascending(list),
    ensures
        ascending(with_text(list, name)),
        forall|x: Seq<char>| #[trigger]
            with_text(list, name).contains(x) <==> (list.contains(x) || x == name),
{
    let k = text_slot(list, name);
    let after = with_text(list, name);
    lemma_text_slot(list, name);
    if k < list.len() && list[k] == name {
        assert forall|x: Seq<char>| #[trigger] after.contains(x) <==> (list.contains(x) || x
            == name) by {
            assert(list[k] == name);
        }
    } else {
        assert(after == list.insert(k, name));
        assert forall|i: int| k <= i < list.len() implies text_before(name, #[trigger] list[i]) by {
            lemma_text_before_total(list[k], name);
            if i > k {
                assert(text_before(list[k], list[i]));
                lemma_text_before_transitive(name, list[k], list[i]);
            }
        }
        assert forall|i: int, j: int| 0 <= i < j < after.len() implies text_before(
            #[trigger] after[i],
            #[trigger] after[j],
        ) by {
            let a = if i < k {
                list[i]
            } else if i == k {
                name
            } else {
                list[i - 1]
            };
            let b = if j < k {
                list[j]
            } else if j == k {
                name
            } else {
                list[j - 1]
            };
            assert(after[i] == a && after[j] == b);
            if i < k && j > k {
                assert(text_before(list[i], list[j - 1]));
            } else if i < k && j < k {
                assert(text_before(list[i], list[j]));
            } else if i > k {
                assert(text_before(list[i - 1], list[j - 1]));
            }
        }
        assert forall|x: Seq<char>| #[trigger] after.contains(x) <==> (list.contains(x) || x
            == name) by {
            if list.contains(x) {
                let w = choose|w: int| 0 <= w < list.len() && list[w] == x;
                let nw = if w < k {
                    w
                } else {
                    w + 1
                };
                assert(after[nw] == x);
            }
            if x == name {
                assert(after[k] == x);
            }
            if after.contains(x) {
                let w = choose|w: int| 0 <= w < after.len() && after[w] == x;
                if w < k {
                    assert(list[w] == x);
                } else if w > k {
                    assert(list[w - 1] == x);
                }
            }
        }
    }
}

/// An ordered set is ascending, and holds what its items hold.
pub proof fn lemma_ordered_set(items: Seq<Seq<char>>)
    ensures
        ascending(ordered_set_of(items)),
        forall|x: Seq<char>| #[trigger] ordered_set_of(items).contains(x) <==> items.contains(x),
    decreases items.len(),
{
    if items.len() > 0 {
        let older = items.drop_last();
        lemma_ordered_set(older);
        lemma_with_text(ordered_set_of(older), items.last());
        assert forall|x: Seq<char>| #[trigger]
            ordered_set_of(items).contains(x) <==> items.contains(x) by {
            if older.contains(x) {
                let w = choose|w: int| 0 <= w < older.len() && older[w] == x;
                assert(items[w] == x);
            }
            if x == items.last() {
                assert(items[items.len() - 1] == x);
            }
            if items.contains(x) {
                let w = choose|w: int| 0 <= w < items.len() && items[w] == x;
                if w < older.len() {
                    assert(older[w] == x);
                }
            }
        }
    } else {
        assert forall|x: Seq<char>| #[trigger]
            ordered_set_of(items).contains(x) <==> items.contains(x) by {}
    }
}

/// The names of a list of variables.
pub open spec fn variable_names(variables: Seq<(Seq<char>, Seq<char>)>) -> Seq<Seq<char>> {
    variables.map_values(|v: (Seq<char>, Seq<char>)| v.0)
}

proof fn lemma_variable_slot(variables: Seq<(Seq<char>, Seq<char>)>, name: Seq<char>)
    ensures
        variable_slot(variables, name) == text_slot(variable_names(variables), name),
    decreases variables.len(),
{
    if variables.len() > 0 && text_before(variables[0].0, name) {
        assert(variable_names(variables).drop_first() =~= variable_names(variables.drop_first()));
        lemma_variable_slot(variables.drop_first(), name);
    }
}

/// The variables that a list of exports leaves set are named by the
/// ordered set of the names that the exports set: each name once, in
/// ascending order.
pub proof fn lemma_variables_in_order(exports: Seq<(Seq<char>, Seq<char>)>)
    ensures
        variable_names(variables_of(exports)) == ordered_set_of(variable_names(exports)),
        ascending(variable_names(variables_of(exports))),
    decreases exports.len(),
{
    if exports.len() > 0 {
        let older = exports.drop_last();
        let before = variables_of(older);
        let name = exports.last().0;
        lemma_variables_in_order(older);
        lemma_variable_slot(before, name);
        lemma_text_slot(variable_names(before), name);
        assert(variable_names(exports).drop_last() =~= variable_names(older));
        assert(variable_names(with_variable(before, name, exports.last().1)) =~= with_text(
            variable_names(before),
            name,
        ));
    } else {
        assert(variable_names(variables_of(exports)) =~= ordered_set_of(variable_names(exports)));
    }
    lemma_ordered_set(variable_names(exports));
}

/// The names of a list of providers.
pub open spec fn provider_names(
    providers: Seq<(Seq<char>, Seq<(Seq<char>, Seq<Seq<char>>)>)>,
) -> Seq<Seq<char>> {
    providers.map_values(|p: (Seq<char>, Seq<(Seq<char>, Seq<Seq<char>>)>)| p.0)
}

/// The providers that a list of pins names.
pub open spec fn pinned_names(pins: Seq<Pin>) -> Seq<Seq<char>> {
    pins.map_values(|p: Pin| p.provider)
}

proof fn lemma_provider_slot(
    providers: Seq<(Seq<char>, Seq<(Seq<char>, Seq<Seq<char>>)>)>,
    name: Seq<char>,
)
    ensures
        provider_slot(providers, name) == text_slot(provider_names(providers), name),
    decreases providers.len(),
{
    if providers.len() > 0 && text_before(providers[0].0, name) {
        assert(provider_names(providers).drop_first() =~= provider_names(providers.drop_first()));
        lemma_provider_slot(providers.drop_first(), name);
    }
}

/// The providers that a list of pins tells of are named by the ordered set
/// of the providers that the pins name: each provider once, in ascending
/// order of the names.
pub proof fn lemma_providers_in_order(pins: Seq<Pin>)
    ensures
        provider_names(providers_of(pins)) == ordered_set_of(pinned_names(pins)),
        ascending(provider_names(providers_of(pins))),
    decreases pins.len(),
{
    if pins.len() > 0 {
        let older = pins.drop_last();
        let before = providers_of(older);
        let name = pins.last().provider;
        lemma_providers_in_order(older);
        lemma_provider_slot(before, name);
        lemma_text_slot(provider_names(before), name);
        assert(pinned_names(pins).drop_last() =~= pinned_names(older));
        assert(provider_names(with_pin(before, pins.last())) =~= with_text(
            provider_names(before),
            name,
        ));
    } else {
        assert(provider_names(providers_of(pins)) =~= ordered_set_of(pinned_names(pins)));
    }
    lemma_ordered_set(pinned_names(pins));
}

} // verus!
