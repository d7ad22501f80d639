//! Directories grouped by engine and by account.
//!
//! Directories under `terraform` form one flat list. Directories under
//! `terragrunt` must have the shape `terragrunt/accounts/<account>/...` and
//! are grouped by account, the accounts in ascending order. Everything else
//! is dropped.

use crate::path::{
    component_views, components_of, path_components, texts, ComponentKind, ComponentView,
    PathComponent,
};
use crate::text::{
    clone_strings, lemma_text_before_total, lemma_text_before_transitive, same_text, text_before,
    text_less,
};
use vstd::prelude::*;
use vstd::string::*;

verus! {

/// A directory together with the components of its path.
#[derive(Debug)]
pub struct SplitDir {
    pub dir: String,
    pub components: Vec<PathComponent>,
}

/// The mathematical value of a [`SplitDir`].
pub ghost struct SplitDirView {
    pub dir: Seq<char>,
    pub components: Seq<ComponentView>,
}

impl View for SplitDir {
    type V = SplitDirView;

    open spec fn view(&self) -> SplitDirView {
        SplitDirView { dir: self.dir@, components: component_views(self.components@) }
    }
}

/// The values of a list of split directories.
pub open spec fn split_views(v: Seq<SplitDir>) -> Seq<SplitDirView> {
    v.map_values(|e: SplitDir| e@)
}

/// Each directory with the components that `camino` finds in it.
pub open spec fn split_all(dirs: Seq<Seq<char>>) -> Seq<SplitDirView> {
    dirs.map_values(|d: Seq<char>| SplitDirView { dir: d, components: path_components(d) })
}

/// Whether the first component is the plain name `name`.
pub open spec fn has_root(components: Seq<ComponentView>, name: Seq<char>) -> bool {
    &&& components.len() > 0
    &&& components[0].kind == ComponentKind::Normal
    &&& components[0].text == name
}

/// Whether `e` lies under `terraform`.
pub open spec fn is_terraform(e: SplitDirView) -> bool {
    has_root(e.components, "terraform"@)
}

/// Whether `e` lies under `terragrunt`.
pub open spec fn is_terragrunt(e: SplitDirView) -> bool {
    has_root(e.components, "terragrunt"@)
}

/// Whether a directory under `terragrunt` has the shape
/// `terragrunt/accounts/<account>/...`. Other directories have nothing to
/// follow.
pub open spec fn follows_layout(e: SplitDirView) -> bool {
    is_terragrunt(e) ==> {
        &&& e.components.len() >= 3
        &&& e.components[1].kind == ComponentKind::Normal
        &&& e.components[1].text == "accounts"@
    }
}

/// Whether every directory follows the layout.
pub open spec fn all_follow_layout(entries: Seq<SplitDirView>) -> bool {
    forall|i: int| 0 <= i < entries.len() ==> follows_layout(#[trigger] entries[i])
}

/// The account that a directory under `terragrunt` belongs to.
pub open spec fn account_of(e: SplitDirView) -> Seq<char> {
    e.components[2].text
}

/// Whether `e` is a directory of `account`.
pub open spec fn in_account(e: SplitDirView, account: Seq<char>) -> bool {
    is_terragrunt(e) && account_of(e) == account
}

/// The directories under `terraform`, in the order given.
pub open spec fn terraform_dirs_of(entries: Seq<SplitDirView>) -> Seq<Seq<char>>
    decreases entries.len(),
{
    if entries.len() == 0 {
        Seq::empty()
    } else {
        let before = terraform_dirs_of(entries.drop_last());
        if is_terraform(entries.last()) {
            before.push(entries.last().dir)
        } else {
            before
        }
    }
}

/// The directories of `account`, in the order given.
pub open spec fn account_dirs_of(entries: Seq<SplitDirView>, account: Seq<char>) -> Seq<Seq<char>>
    decreases entries.len(),
{
    if entries.len() == 0 {
        Seq::empty()
    } else {
        let before = account_dirs_of(entries.drop_last(), account);
        if in_account(entries.last(), account) {
            before.push(entries.last().dir)
        } else {
            before
        }
    }
}

/// The mathematical value of a [`GroupedDirs`]: the `terraform` list, and the
/// accounts with their directories in the order in which they are walked.
pub ghost struct GroupedDirsView {
    pub terraform: Seq<Seq<char>>,
    pub accounts: Seq<(Seq<char>, Seq<Seq<char>>)>,
}

/// The values of a list of accounts with their directories.
pub open spec fn account_views(v: Seq<(String, Vec<String>)>) -> Seq<(Seq<char>, Seq<Seq<char>>)> {
    v.map_values(|p: (String, Vec<String>)| (p.0@, texts(p.1@)))
}

/// Whether `g` is the grouping of `entries`: the `terraform` directories as
/// given; one group for each account that has a directory, with that
/// account's directories as given; the accounts in ascending order.
pub open spec fn is_grouping_of(g: GroupedDirsView, entries: Seq<SplitDirView>) -> bool {
    &&& g.terraform == terraform_dirs_of(entries)
    &&& forall|i: int, j: int|
        0 <= i < j < g.accounts.len() ==> text_before(
            (#[trigger] g.accounts[i]).0,
            (#[trigger] g.accounts[j]).0,
        )
    &&& forall|k: int|
        0 <= k < g.accounts.len() ==> {
            &&& (#[trigger] g.accounts[k]).1 == account_dirs_of(entries, g.accounts[k].0)
            &&& g.accounts[k].1.len() > 0
        }
    &&& forall|i: int|
        0 <= i < entries.len() && is_terragrunt(#[trigger] entries[i]) ==> has_account(
            g.accounts,
            account_of(entries[i]),
        )
}

/// Whether `accounts` has a group for `account`.
pub open spec fn has_account(accounts: Seq<(Seq<char>, Seq<Seq<char>>)>, account: Seq<char>) -> bool {
    exists|k: int| 0 <= k < accounts.len() && (#[trigger] accounts[k]).0 == account
}

/// Directories grouped by engine and account.
pub struct GroupedDirs {
    /// Directories under the terraform directory.
    terraform: Vec<String>,
    /// Directories under the terragrunt directory, grouped by account, the
    /// accounts ascending.
    terragrunt: Vec<(String, Vec<String>)>,
}

impl View for GroupedDirs {
    type V = GroupedDirsView;

    closed spec fn view(&self) -> GroupedDirsView {
        GroupedDirsView {
            terraform: texts(self.terraform@),
            accounts: account_views(self.terragrunt@),
        }
    }
}

/// Whether the accounts stand in strictly ascending order, each with at least
/// one directory.
pub open spec fn accounts_in_order(accounts: Seq<(Seq<char>, Seq<Seq<char>>)>) -> bool {
    &&& forall|i: int, j: int|
        0 <= i < j < accounts.len() ==> text_before(
            (#[trigger] accounts[i]).0,
            (#[trigger] accounts[j]).0,
        )
    &&& forall|k: int| 0 <= k < accounts.len() ==> (#[trigger] accounts[k]).1.len() > 0
}

/// The directories of the first group named `account`, or none where there
/// is no such group.
pub open spec fn group_of(accounts: Seq<(Seq<char>, Seq<Seq<char>>)>, account: Seq<char>) -> Seq<
    Seq<char>,
>
    decreases accounts.len(),
{
    if accounts.len() == 0 {
        Seq::empty()
    } else if accounts[0].0 == account {
        accounts[0].1
    } else {
        group_of(accounts.drop_first(), account)
    }
}

/// The groups but those named `account`, in the same order.
pub open spec fn without_account(
    accounts: Seq<(Seq<char>, Seq<Seq<char>>)>,
    account: Seq<char>,
) -> Seq<(Seq<char>, Seq<Seq<char>>)>
    decreases accounts.len(),
{
    if accounts.len() == 0 {
        Seq::empty()
    } else {
        let before = without_account(accounts.drop_last(), account);
        if accounts.last().0 == account {
            before
        } else {
            before.push(accounts.last())
        }
    }
}

proof fn lemma_terraform_dirs_step(entries: Seq<SplitDirView>, i: int)
    requires
        0 <= i < entries.len(),
    ensures
        terraform_dirs_of(entries.take(i + 1)) == if is_terraform(entries[i]) {
            terraform_dirs_of(entries.take(i)).push(entries[i].dir)
        } else {
            terraform_dirs_of(entries.take(i))
        },
{
    assert(entries.take(i + 1).drop_last() =~= entries.take(i));
}

proof fn lemma_account_dirs_step(entries: Seq<SplitDirView>, i: int, account: Seq<char>)
    requires
        0 <= i < entries.len(),
    ensures
        account_dirs_of(entries.take(i + 1), account) == if in_account(entries[i], account) {
            account_dirs_of(entries.take(i), account).push(entries[i].dir)
        } else {
            account_dirs_of(entries.take(i), account)
        },
{
    assert(entries.take(i + 1).drop_last() =~= entries.take(i));
}

/// Whether the first component of `components` is the plain name `name`.
fn is_root_dir(components: &Vec<PathComponent>, name: &str) -> (r: bool)
    ensures
        r == has_root(component_views(components@), name@),
{
    components.len() > 0 && components[0].kind == ComponentKind::Normal && same_text(
        components[0].text.as_str(),
        name,
    )
}

/// Whether one directory follows the layout; see [`follows_layout`].
fn entry_follows_layout(e: &SplitDir) -> (r: bool)
    ensures
        r == follows_layout(e@),
{
    if is_root_dir(&e.components, "terragrunt") {
        e.components.len() >= 3 && e.components[1].kind == ComponentKind::Normal && same_text(
            e.components[1].text.as_str(),
            "accounts",
        )
    } else {
        true
    }
}

/// Where `account` stands, or would stand, among the sorted `accounts`.
fn account_position(accounts: &Vec<(String, Vec<String>)>, account: &str) -> (r: (usize, bool))
    requires
        forall|i: int, j: int|
            0 <= i < j < accounts.len() ==> text_before(
                (#[trigger] accounts[i]).0@,
                (#[trigger] accounts[j]).0@,
            ),
    ensures
        r.0 <= accounts.len(),
        forall|i: int| 0 <= i < r.0 ==> text_before((#[trigger] accounts[i]).0@, account@),
        r.1 ==> r.0 < accounts.len() && accounts[r.0 as int].0@ == account@,
        forall|i: int|
            r.0 <= i < accounts.len() && (r.1 ==> i != r.0) ==> text_before(
                account@,
                (#[trigger] accounts[i]).0@,
            ),
{
    let mut k: usize = 0;
    while k < accounts.len() && text_less(accounts[k].0.as_str(), account)
        invariant
            k <= accounts.len(),
            forall|i: int| 0 <= i < k ==> text_before((#[trigger] accounts[i]).0@, account@),
        decreases accounts.len() - k,
    {
        k = k + 1;
    }
    let found = k < accounts.len() && same_text(accounts[k].0.as_str(), account);
    proof {
        if k < accounts.len() {
            lemma_text_before_total(accounts[k as int].0@, account@);
            assert forall|i: int| k < i < accounts.len() implies text_before(
                account@,
                (#[trigger] accounts[i]).0@,
            ) by {
                assert(text_before(accounts[k as int].0@, accounts[i].0@));
                if !found {
                    lemma_text_before_transitive(account@, accounts[k as int].0@, accounts[i].0@);
                }
            }
        }
    }
    (k, found)
}

/// Takes each directory apart with `camino`.
fn split(directories: Vec<String>) -> (r: Vec<SplitDir>)
    ensures
        split_views(r@) == split_all(texts(directories@)),
{
    let mut r: Vec<SplitDir> = Vec::new();
    let mut directories = directories;
    let ghost all = directories@;
    let mut i: usize = 0;
    let n = directories.len();
    while i < n
        invariant
            n == all.len(),
            directories@ == all,
            i <= n,
            split_views(r@) == split_all(texts(all)).take(i as int),
        decreases n - i,
    {
        let components = components_of(directories[i].as_str());
        let entry = SplitDir { dir: directories[i].clone(), components };
        proof {
            let target = split_all(texts(all));
            assert(entry@.dir == texts(all)[i as int]);
            assert(entry@ == target[i as int]);
            assert(split_views(r@.push(entry)) =~= split_views(r@).push(entry@));
            assert(target.take(i as int).push(target[i as int]) =~= target.take(i + 1));
        }
        r.push(entry);
        i = i + 1;
    }
    proof {
        assert(split_all(texts(all)).take(n as int) =~= split_all(texts(all)));
    }
    r
}

impl GroupedDirs {
    #[verifier::type_invariant]
    spec fn ordered(&self) -> bool {
        accounts_in_order(account_views(self.terragrunt@))
    }

    /// Whether every directory follows the layout that
    /// [`classify`](GroupedDirs::classify) asks for.
    pub fn has_valid_layout(entries: &Vec<SplitDir>) -> (r: bool)
        ensures
            r == all_follow_layout(split_views(entries@)),
    {
        let mut i: usize = 0;
        while i < entries.len()
            invariant
                i <= entries.len(),
                forall|j: int| 0 <= j < i ==> follows_layout(#[trigger] split_views(entries@)[j]),
            decreases entries.len() - i,
        {
            if !entry_follows_layout(&entries[i]) {
                proof {
                    assert(!follows_layout(split_views(entries@)[i as int]));
                }
                return false;
            }
            i = i + 1;
        }
        true
    }

    /// Groups `directories`.
    ///
    /// A directory under `terragrunt` that does not follow the layout is a
    /// malformed repository: such input is not accepted. Use
    /// [`try_new`](GroupedDirs::try_new) where the layout is not known to hold.
    pub fn new(directories: Vec<String>) -> (g: GroupedDirs)
        requires
            all_follow_layout(split_all(texts(directories@))),
        ensures
            is_grouping_of(g@, split_all(texts(directories@))),
    {
        let entries = split(directories);
        GroupedDirs::classify(&entries)
    }

    /// Groups `directories` where all of them follow the layout, and reports
    /// a malformed repository as `None`.
    pub fn try_new(directories: Vec<String>) -> (r: Option<GroupedDirs>)
        ensures
            r.is_some() == all_follow_layout(split_all(texts(directories@))),
            r.is_some() ==> is_grouping_of(r.unwrap()@, split_all(texts(directories@))),
    {
        let entries = split(directories);
        if GroupedDirs::has_valid_layout(&entries) {
            Some(GroupedDirs::classify(&entries))
        } else {
            None
        }
    }

    /// The accounts with their directories, in ascending order of the
    /// account names.
    pub fn accounts(&self) -> (r: &Vec<(String, Vec<String>)>)
        ensures
            account_views(r@) == self@.accounts,
            accounts_in_order(self@.accounts),
    {
        proof {
            use_type_invariant(self);
        }
        &self.terragrunt
    }

    /// Position of the group named `account`, if there is one.
    fn find_account(&self, account: &str) -> (r: Option<usize>)
        ensures
            r.is_some() == has_account(self@.accounts, account@),
            r.is_some() ==> {
                &&& r.unwrap() < self.terragrunt.len()
                &&& self@.accounts[r.unwrap() as int].0 == account@
                &&& group_of(self@.accounts, account@) == self@.accounts[r.unwrap() as int].1
            },
            r.is_none() ==> group_of(self@.accounts, account@) == Seq::<Seq<char>>::empty(),
    {
        let ghost all = account_views(self.terragrunt@);
        let mut k: usize = 0;
        proof {
            assert(all.skip(0) =~= all);
        }
        while k < self.terragrunt.len()
            invariant
                all == account_views(self.terragrunt@),
                k <= self.terragrunt.len(),
                forall|j: int| 0 <= j < k ==> (#[trigger] all[j]).0 != account@,
                group_of(all, account@) == group_of(all.skip(k as int), account@),
            decreases self.terragrunt.len() - k,
        {
            if same_text(self.terragrunt[k].0.as_str(), account) {
                proof {
                    assert(all[k as int].0 == account@);
                    assert(all.skip(k as int)[0] == all[k as int]);
                }
                return Some(k);
            }
            proof {
                assert(all.skip(k as int)[0] == all[k as int]);
                assert(all.skip(k as int).drop_first() =~= all.skip(k + 1));
            }
            k = k + 1;
        }
        None
    }

    /// Whether work under the legacy account's credentials is called for:
    /// there is a `legacy` account, or there are `terraform` directories.
    pub fn contains_legacy_account(&self) -> (r: bool)
        ensures
            r == (has_account(self@.accounts, "legacy"@) || self@.terraform.len() > 0),
    {
        self.find_account("legacy").is_some() || self.terraform.len() > 0
    }

    /// The directories under `terraform`, in the order given.
    pub fn terraform_dirs(&self) -> (r: &Vec<String>)
        ensures
            texts(r@) == self@.terraform,
    {
        &self.terraform
    }

    /// The directories of the `legacy` account, or none where there is no
    /// such account.
    pub fn legacy_terragrunt_dirs(&self) -> (r: Vec<String>)
        ensures
            texts(r@) == group_of(self@.accounts, "legacy"@),
    {
        match self.find_account("legacy") {
            Some(k) => clone_strings(&self.terragrunt[k].1),
            None => {
                let r: Vec<String> = Vec::new();
                proof {
                    assert(texts(r@) =~= Seq::<Seq<char>>::empty());
                }
                r
            },
        }
    }

    /// The accounts other than `legacy`, each with its directories, in
    /// ascending order of the account names.
    pub fn sso_terragrunt_dirs(&self) -> (r: Vec<(String, Vec<String>)>)
        ensures
            account_views(r@) == without_account(self@.accounts, "legacy"@),
            accounts_in_order(self@.accounts),
    {
        proof {
            use_type_invariant(self);
        }
        let ghost all = account_views(self.terragrunt@);
        let mut r: Vec<(String, Vec<String>)> = Vec::new();
        let mut k: usize = 0;
        proof {
            assert(all.take(0) =~= Seq::<(Seq<char>, Seq<Seq<char>>)>::empty());
            assert(account_views(r@) =~= Seq::<(Seq<char>, Seq<Seq<char>>)>::empty());
        }
        while k < self.terragrunt.len()
            invariant
                all == account_views(self.terragrunt@),
                k <= self.terragrunt.len(),
                account_views(r@) == without_account(all.take(k as int), "legacy"@),
            decreases self.terragrunt.len() - k,
        {
            proof {
                assert(all.take(k + 1).drop_last() =~= all.take(k as int));
                assert(all.take(k + 1).last() == all[k as int]);
            }
            if !same_text(self.terragrunt[k].0.as_str(), "legacy") {
                let entry = (self.terragrunt[k].0.clone(), clone_strings(&self.terragrunt[k].1));
                proof {
                    assert(account_views(r@.push(entry)) =~= account_views(r@).push(all[k as int]));
                }
                r.push(entry);
            }
            k = k + 1;
        }
        proof {
            assert(all.take(k as int) =~= all);
        }
        r
    }

    /// Groups directories whose paths are already taken apart.
    ///
    /// A directory under `terragrunt` that does not follow the layout is a
    /// malformed repository: such input is not accepted.
    pub fn classify(entries: &Vec<SplitDir>) -> (g: GroupedDirs)
        requires
            all_follow_layout(split_views(entries@)),
        ensures
            is_grouping_of(g@, split_views(entries@)),
    {
        let ghost all = split_views(entries@);
        let mut terraform: Vec<String> = Vec::new();
        let mut terragrunt: Vec<(String, Vec<String>)> = Vec::new();
        let mut i: usize = 0;
        proof {
            assert(all.take(0) =~= Seq::<SplitDirView>::empty());
            assert(texts(terraform@) =~= Seq::<Seq<char>>::empty());
        }
        while i < entries.len()
            invariant
                all == split_views(entries@),
                all_follow_layout(all),
                i <= entries.len(),
                texts(terraform@) == terraform_dirs_of(all.take(i as int)),
                forall|x: int, y: int|
                    0 <= x < y < terragrunt.len() ==> text_before(
                        (#[trigger] account_views(terragrunt@)[x]).0,
                        (#[trigger] account_views(terragrunt@)[y]).0,
                    ),
                forall|k: int|
                    0 <= k < terragrunt.len() ==> {
                        &&& (#[trigger] account_views(terragrunt@)[k]).1 == account_dirs_of(
                            all.take(i as int),
                            account_views(terragrunt@)[k].0,
                        )
                        &&& account_views(terragrunt@)[k].1.len() > 0
                    },
                forall|j: int|
                    0 <= j < i && is_terragrunt(#[trigger] all.take(i as int)[j]) ==> has_account(
                        account_views(terragrunt@),
                        account_of(all.take(i as int)[j]),
                    ),
            decreases entries.len() - i,
        {
            let e = &entries[i];
            let ghost before = all.take(i as int);
            let ghost after = all.take(i + 1);
            let ghost old_accounts = account_views(terragrunt@);
            let ghost old_terraform = texts(terraform@);
            proof {
                assert(old_accounts.len() == terragrunt.len());
                assert(forall|x: int, y: int|
                    0 <= x < y < old_accounts.len() ==> text_before(
                        (#[trigger] old_accounts[x]).0,
                        (#[trigger] old_accounts[y]).0,
                    ));
                assert(forall|k: int|
                    0 <= k < old_accounts.len() ==> {
                        &&& (#[trigger] old_accounts[k]).1 == account_dirs_of(
                            before,
                            old_accounts[k].0,
                        )
                        &&& old_accounts[k].1.len() > 0
                    });
                assert(forall|j: int|
                    0 <= j < before.len() && is_terragrunt(#[trigger] before[j]) ==> has_account(
                        old_accounts,
                        account_of(before[j]),
                    ));
                assert(all[i as int] == e@);
                assert(follows_layout(e@));
                lemma_terraform_dirs_step(all, i as int);
                assert forall|a: Seq<char>| #[trigger]
                    account_dirs_of(after, a) == if in_account(e@, a) {
                        account_dirs_of(before, a).push(e@.dir)
                    } else {
                        account_dirs_of(before, a)
                    } by {
                    lemma_account_dirs_step(all, i as int, a);
                }
                assert forall|j: int| 0 <= j < after.len() implies (j < i ==> after[j]
                    == before[j]) && (j == i ==> after[j] == e@) by {}
            }
            if is_root_dir(&e.components, "terraform") {
                proof {
                    assert(texts(terraform@.push(e.dir)) =~= texts(terraform@).push(e.dir@));
                }
                terraform.push(e.dir.clone());
            }
            if is_root_dir(&e.components, "terragrunt") {
                let account = e.components[2].text.as_str();
                proof {
                    assert(component_views(e.components@)[2] == e.components@[2]@);
                    assert(account@ == account_of(e@));
                    assert forall|x: int, y: int| 0 <= x < y < terragrunt.len() implies text_before(
                        (#[trigger] terragrunt[x]).0@,
                        (#[trigger] terragrunt[y]).0@,
                    ) by {
                        assert(text_before(old_accounts[x].0, old_accounts[y].0));
                    }
                }
                let (k, found) = account_position(&terragrunt, account);
                if found {
                    terragrunt[k].1.push(e.dir.clone());
                    proof {
                        let new_accounts = account_views(terragrunt@);
                        assert(new_accounts.len() == old_accounts.len());
                        assert forall|j: int| 0 <= j < new_accounts.len() implies (
                        #[trigger] new_accounts[j]).0 == old_accounts[j].0 by {}
                        assert(texts(terragrunt@[k as int].1@) =~= old_accounts[k as int].1.push(
                            e.dir@,
                        ));
                        assert forall|j: int|
                            0 <= j < new_accounts.len() && j != k implies (
                        #[trigger] new_accounts[j]).1 == old_accounts[j].1 by {}
                        assert forall|j: int| 0 <= j < new_accounts.len() implies {
                            &&& (#[trigger] new_accounts[j]).1 == account_dirs_of(
                                after,
                                new_accounts[j].0,
                            )
                            &&& new_accounts[j].1.len() > 0
                        } by {
                            if j != k {
                                assert(old_accounts[j].1 == account_dirs_of(
                                    before,
                                    old_accounts[j].0,
                                ));
                                if j < k {
                                    assert(text_before(old_accounts[j].0, old_accounts[k as int].0));
                                } else {
                                    assert(text_before(old_accounts[k as int].0, old_accounts[j].0));
                                }
                                lemma_text_before_total(old_accounts[j].0, account@);
                            } else {
                                assert(old_accounts[j].1 == account_dirs_of(
                                    before,
                                    old_accounts[j].0,
                                ));
                            }
                        }
                        assert forall|x: int, y: int|
                            0 <= x < y < new_accounts.len() implies text_before(
                            (#[trigger] new_accounts[x]).0,
                            (#[trigger] new_accounts[y]).0,
                        ) by {
                            assert(text_before(old_accounts[x].0, old_accounts[y].0));
                        }
                        assert forall|j: int|
                            0 <= j < after.len() && is_terragrunt(
                                #[trigger] after[j],
                            ) implies has_account(new_accounts, account_of(after[j])) by {
                            if j < i {
                                assert(has_account(old_accounts, account_of(before[j])));
                                let w = choose|w: int|
                                    0 <= w < old_accounts.len() && (#[trigger] old_accounts[w]).0
                                        == account_of(before[j]);
                                assert(new_accounts[w].0 == account_of(after[j]));
                            } else {
                                assert(new_accounts[k as int].0 == account_of(after[j]));
                            }
                        }
                    }
                } else {
                    let mut dirs: Vec<String> = Vec::new();
                    dirs.push(e.dir.clone());
                    let name = e.components[2].text.clone();
                    terragrunt.insert(k, (name, dirs));
                    proof {
                        let new_accounts = account_views(terragrunt@);
                        assert(new_accounts.len() == old_accounts.len() + 1);
                        assert forall|j: int| 0 <= j < k implies #[trigger] new_accounts[j]
                            == old_accounts[j] by {}
                        assert forall|j: int| k < j < new_accounts.len() implies
                            #[trigger] new_accounts[j] == old_accounts[j - 1] by {}
                        assert(new_accounts[k as int].0 == account@);
                        assert(texts(terragrunt@[k as int].1@) =~= seq![e.dir@]);
                        assert(new_accounts[k as int].1 == seq![e.dir@]);
                        // no directory seen so far belongs to the new account
                        assert forall|j: int| 0 <= j < before.len() implies !in_account(
                            #[trigger] before[j],
                            account@,
                        ) by {
                            if in_account(before[j], account@) {
                                assert(has_account(old_accounts, account_of(before[j])));
                                let w = choose|w: int|
                                    0 <= w < old_accounts.len() && (#[trigger] old_accounts[w]).0
                                        == account_of(before[j]);
                                lemma_text_before_total(old_accounts[w].0, account@);
                                if w < k {
                                    assert(text_before(terragrunt@[w].0@, account@));
                                } else {
                                    assert(text_before(account@, terragrunt@[w + 1].0@));
                                }
                            }
                        }
                        lemma_no_member_no_dirs(before, account@);
                        assert(account_dirs_of(after, account@) =~= seq![e.dir@]);
                        assert forall|j: int| 0 <= j < new_accounts.len() implies {
                            &&& (#[trigger] new_accounts[j]).1 == account_dirs_of(
                                after,
                                new_accounts[j].0,
                            )
                            &&& new_accounts[j].1.len() > 0
                        } by {
                            if j != k {
                                let o = if j < k {
                                    j
                                } else {
                                    j - 1
                                };
                                assert(new_accounts[j] == old_accounts[o]);
                                assert(old_accounts[o].1 == account_dirs_of(
                                    before,
                                    old_accounts[o].0,
                                ));
                                lemma_text_before_total(old_accounts[o].0, account@);
                                if j < k {
                                    assert(text_before(terragrunt@[j].0@, account@));
                                } else {
                                    assert(text_before(account@, terragrunt@[j].0@));
                                }
                            }
                        }
                        assert forall|x: int, y: int|
                            0 <= x < y < new_accounts.len() implies text_before(
                            (#[trigger] new_accounts[x]).0,
                            (#[trigger] new_accounts[y]).0,
                        ) by {
                            if x != k && y != k {
                                let ox = if x < k {
                                    x
                                } else {
                                    x - 1
                                };
                                let oy = if y < k {
                                    y
                                } else {
                                    y - 1
                                };
                                assert(text_before(old_accounts[ox].0, old_accounts[oy].0));
                            } else if x == k {
                                assert(text_before(account@, terragrunt@[y].0@));
                            } else {
                                assert(text_before(terragrunt@[x].0@, account@));
                            }
                        }
                        assert forall|j: int|
                            0 <= j < after.len() && is_terragrunt(
                                #[trigger] after[j],
                            ) implies has_account(new_accounts, account_of(after[j])) by {
                            if j < i {
                                assert(has_account(old_accounts, account_of(before[j])));
                                let w = choose|w: int|
                                    0 <= w < old_accounts.len() && (#[trigger] old_accounts[w]).0
                                        == account_of(before[j]);
                                let nw = if w < k {
                                    w
                                } else {
                                    w + 1
                                };
                                assert(new_accounts[nw].0 == account_of(after[j]));
                            } else {
                                assert(new_accounts[k as int].0 == account_of(after[j]));
                            }
                        }
                    }
                }
            } else {
                proof {
                    let new_accounts = account_views(terragrunt@);
                    assert forall|j: int|
                        0 <= j < after.len() && is_terragrunt(#[trigger] after[j]) implies has_account(
                        new_accounts,
                        account_of(after[j]),
                    ) by {
                        assert(has_account(old_accounts, account_of(before[j])));
                    }
                }
            }
            i = i + 1;
        }
        proof {
            assert(all.take(i as int) =~= all);
            let g = GroupedDirsView {
                terraform: texts(terraform@),
                accounts: account_views(terragrunt@),
            };
            assert(is_grouping_of(g, all));
            assert(accounts_in_order(g.accounts));
        }
        GroupedDirs { terraform, terragrunt }
    }
}

/// An account without a directory has an empty list.
proof fn lemma_no_member_no_dirs(entries: Seq<SplitDirView>, account: Seq<char>)
    requires
        forall|j: int| 0 <= j < entries.len() ==> !in_account(#[trigger] entries[j], account),
    ensures
        account_dirs_of(entries, account) == Seq::<Seq<char>>::empty(),
    decreases entries.len(),
{
    if entries.len() > 0 {
        lemma_no_member_no_dirs(entries.drop_last(), account);
    }
}

} // verus!
