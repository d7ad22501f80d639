//! There is one way to group directories.

use crate::grouped_dirs::{
    account_dirs_of, account_of, has_account, in_account, is_grouping_of, is_terragrunt,
    GroupedDirsView, SplitDirView,
};
use crate::order_laws::ascending;
use crate::text::{lemma_text_before_total, text_before};
use vstd::prelude::*;

verus! {

/// An account with directories has a directory.
proof fn lemma_dirs_come_from_entries(entries: Seq<SplitDirView>, account: Seq<char>)
    requires
        account_dirs_of(entries, account).len() > 0,
    ensures
        exists|i: int| 0 <= i < entries.len() && in_account(#[trigger] entries[i], account),
    decreases entries.len(),
{
    if entries.len() > 0 {
        if in_account(entries.last(), account) {
            assert(in_account(entries[entries.len() - 1], account));
        } else {
            lemma_dirs_come_from_entries(entries.drop_last(), account);
            let i = choose|i: int|
                0 <= i < entries.drop_last().len() && in_account(
                    #[trigger] entries.drop_last()[i],
                    account,
                );
            assert(entries[i] == entries.drop_last()[i]);
        }
    }
}

/// Two ascending lists with the same names are the same list.
pub proof fn lemma_ascending_lists_agree(a: Seq<Seq<char>>, b: Seq<Seq<char>>)
    requires
        ascending(a),
        ascending(b),
        forall|x: Seq<char>| a.contains(x) <==> b.contains(x),
    ensures
        a == b,
    decreases a.len(),
{
    if a.len() == 0 {
        if b.len() > 0 {
            assert(b.contains(b[0]));
        }
        assert(a =~= b);
    } else {
        assert(a.contains(a[a.len() - 1]));
        let top = a.last();
        assert(b.contains(top));
        let p = choose|p: int| 0 <= p < b.len() && b[p] == top;
        // the last of `b` is in `a`, so it does not come after the last of `a`
        assert(b.contains(b[b.len() - 1]));
        assert(a.contains(b.last()));
        let q = choose|q: int| 0 <= q < a.len() && a[q] == b.last();
        lemma_text_before_total(top, b.last());
        if p < b.len() - 1 {
            assert(text_before(b[p], b[b.len() - 1]));
        }
        if q < a.len() - 1 {
            assert(text_before(a[q], a[a.len() - 1]));
        }
        assert(b.last() == top);
        let a0 = a.drop_last();
        let b0 = b.drop_last();
        assert forall|x: Seq<char>| a0.contains(x) <==> b0.contains(x) by {
            lemma_text_before_total(x, top);
            if a0.contains(x) {
                let k = choose|k: int| 0 <= k < a0.len() && a0[k] == x;
                assert(text_before(a[k], a[a.len() - 1]));
                assert(a.contains(a[k]));
                assert(b.contains(x));
                let m = choose|m: int| 0 <= m < b.len() && b[m] == x;
                assert(m < b.len() - 1);
                assert(b0[m] == x);
            }
            if b0.contains(x) {
                let k = choose|k: int| 0 <= k < b0.len() && b0[k] == x;
                assert(text_before(b[k], b[b.len() - 1]));
                assert(b.contains(b[k]));
                assert(a.contains(x));
                let m = choose|m: int| 0 <= m < a.len() && a[m] == x;
                assert(m < a.len() - 1);
                assert(a0[m] == x);
            }
        }
        assert(ascending(a0)) by {
            assert forall|i: int, j: int| 0 <= i < j < a0.len() implies text_before(
                #[trigger] a0[i],
                #[trigger] a0[j],
            ) by {
                assert(text_before(a[i], a[j]));
            }
        }
        assert(ascending(b0)) by {
            assert forall|i: int, j: int| 0 <= i < j < b0.len() implies text_before(
                #[trigger] b0[i],
                #[trigger] b0[j],
            ) by {
                assert(text_before(b[i], b[j]));
            }
        }
        lemma_ascending_lists_agree(a0, b0);
        assert(a =~= a0.push(top));
        assert(b =~= b0.push(top));
    }
}

/// The names of the accounts of a grouping.
spec fn names_of(accounts: Seq<(Seq<char>, Seq<Seq<char>>)>) -> Seq<Seq<char>> {
    accounts.map_values(|p: (Seq<char>, Seq<Seq<char>>)| p.0)
}

proof fn lemma_names_are_the_accounts_in_use(g: GroupedDirsView, entries: Seq<SplitDirView>)
    requires
        is_grouping_of(g, entries),
    ensures
        ascending(names_of(g.accounts)),
        forall|x: Seq<char>|
            names_of(g.accounts).contains(x) <==> exists|i: int|
                0 <= i < entries.len() && in_account(#[trigger] entries[i], x),
{
    let names = names_of(g.accounts);
    assert forall|i: int, j: int| 0 <= i < j < names.len() implies text_before(
        #[trigger] names[i],
        #[trigger] names[j],
    ) by {
        assert(text_before(g.accounts[i].0, g.accounts[j].0));
    }
    assert forall|x: Seq<char>|
        names.contains(x) <==> exists|i: int|
            0 <= i < entries.len() && in_account(#[trigger] entries[i], x) by {
        if names.contains(x) {
            let k = choose|k: int| 0 <= k < names.len() && names[k] == x;
            assert(g.accounts[k].1 == account_dirs_of(entries, g.accounts[k].0));
            assert(g.accounts[k].1.len() > 0);
            lemma_dirs_come_from_entries(entries, x);
        }
        if exists|i: int| 0 <= i < entries.len() && in_account(#[trigger] entries[i], x) {
            let i = choose|i: int| 0 <= i < entries.len() && in_account(#[trigger] entries[i], x);
            assert(is_terragrunt(entries[i]));
            assert(has_account(g.accounts, account_of(entries[i])));
            let k = choose|k: int|
                0 <= k < g.accounts.len() && (#[trigger] g.accounts[k]).0 == account_of(entries[i]);
            assert(names[k] == x);
        }
    }
}

/// Directories are grouped in one way only: two groupings of the same
/// directories are equal.
pub proof fn lemma_grouping_is_unique(
    first: GroupedDirsView,
    second: GroupedDirsView,
    entries: Seq<SplitDirView>,
)
    requires
        is_grouping_of(first, entries),
        is_grouping_of(second, entries),
    ensures
        first == second,
{
    lemma_names_are_the_accounts_in_use(first, entries);
    lemma_names_are_the_accounts_in_use(second, entries);
    let a = names_of(first.accounts);
    let b = names_of(second.accounts);
    assert forall|x: Seq<char>| a.contains(x) <==> b.contains(x) by {}
    lemma_ascending_lists_agree(a, b);
    assert(first.accounts.len() == second.accounts.len());
    assert forall|k: int| 0 <= k < first.accounts.len() implies first.accounts[k]
        == second.accounts[k] by {
        assert(a[k] == first.accounts[k].0);
        assert(b[k] == second.accounts[k].0);
        assert(first.accounts[k].1 == account_dirs_of(entries, first.accounts[k].0));
        assert(second.accounts[k].1 == account_dirs_of(entries, second.accounts[k].0));
    }
    assert(first.accounts =~= second.accounts);
}

/// The grouping of `entries`.
pub open spec fn grouping_of(entries: Seq<SplitDirView>) -> GroupedDirsView {
    choose|g: GroupedDirsView| is_grouping_of(g, entries)
}

/// A grouping of `entries` is the grouping of `entries`.
pub proof fn lemma_grouping_of(g: GroupedDirsView, entries: Seq<SplitDirView>)
    requires
        is_grouping_of(g, entries),
    ensures
        g == grouping_of(entries),
{
    lemma_grouping_is_unique(g, grouping_of(entries), entries);
}

} // verus!
