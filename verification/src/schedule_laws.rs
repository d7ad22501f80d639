//! What holds of every schedule: the session admits it, a logout stands
//! before every login, and the directories come in the order of the
//! accounts.

use crate::grouped_dirs::{
    accounts_in_order, group_of, has_account, without_account, GroupedDirsView,
};
use crate::orchestrator::{
    account_steps, legacy_steps, needs_legacy, runs, schedule_of, sso_steps, Engine, Operation,
    StepView,
};
use crate::session::{after_step, after_steps, SessionView};
use crate::text::text_before;
use vstd::prelude::*;

verus! {

/// Taking two lists of steps one after the other is taking their
/// concatenation.
pub proof fn lemma_after_steps_concat(session: SessionView, x: Seq<StepView>, y: Seq<StepView>)
    ensures
        after_steps(session, x + y) == match after_steps(session, x) {
            Some(s) => after_steps(s, y),
            None => None,
        },
    decreases y.len(),
{
    if y.len() == 0 {
        assert(x + y =~= x);
    } else {
        assert((x + y).drop_last() =~= x + y.drop_last());
        assert((x + y).last() == y.last());
        lemma_after_steps_concat(session, x, y.drop_last());
    }
}

proof fn lemma_runs_keep_session(
    account: Seq<char>,
    operation: Operation,
    engine: Engine,
    dirs: Seq<Seq<char>>,
)
    ensures
        after_steps(SessionView::LoggedIn(account), runs(operation, engine, dirs)) == Some(
            SessionView::LoggedIn(account),
        ),
    decreases dirs.len(),
{
    let all = runs(operation, engine, dirs);
    if dirs.len() > 0 {
        assert(all.drop_last() =~= runs(operation, engine, dirs.drop_last()));
        lemma_runs_keep_session(account, operation, engine, dirs.drop_last());
    }
}

proof fn lemma_login_pair(session: SessionView, login: StepView)
    requires
        !(session is Done),
    ensures
        after_steps(session, seq![StepView::Logout, login]) == after_step(
            SessionView::LoggedOut,
            login,
        ),
{
    let pair = seq![StepView::Logout, login];
    assert(pair.drop_last() =~= seq![StepView::Logout]);
    assert(pair.drop_last().drop_last() =~= Seq::<StepView>::empty());
    assert(after_steps(session, pair.drop_last().drop_last()) == Some(session));
    assert(pair.drop_last().last() == StepView::Logout);
    assert(after_steps(session, pair.drop_last()) == Some(SessionView::LoggedOut));
    assert(pair.last() == login);
}

proof fn lemma_legacy_steps_session(
    session: SessionView,
    operation: Operation,
    terraform: Seq<Seq<char>>,
    terragrunt: Seq<Seq<char>>,
)
    requires
        !(session is Done),
    ensures
        after_steps(session, legacy_steps(operation, terraform, terragrunt)) == Some(
            SessionView::LoggedIn("legacy"@),
        ),
{
    let head = seq![StepView::Logout, StepView::LegacyLogin];
    let first = runs(operation, Engine::Terraform, terraform);
    let second = runs(operation, Engine::Terragrunt, terragrunt);
    lemma_login_pair(session, StepView::LegacyLogin);
    lemma_after_steps_concat(session, head, first);
    lemma_runs_keep_session("legacy"@, operation, Engine::Terraform, terraform);
    lemma_after_steps_concat(session, head + first, second);
    lemma_runs_keep_session("legacy"@, operation, Engine::Terragrunt, terragrunt);
}

proof fn lemma_account_steps_session(
    session: SessionView,
    operation: Operation,
    account: Seq<char>,
    dirs: Seq<Seq<char>>,
)
    requires
        !(session is Done),
        account != "legacy"@,
    ensures
        after_steps(session, account_steps(operation, account, dirs)) == Some(
            SessionView::LoggedIn(account),
        ),
{
    let head = seq![StepView::Logout, StepView::SsoLogin(account)];
    lemma_login_pair(session, StepView::SsoLogin(account));
    lemma_after_steps_concat(session, head, runs(operation, Engine::Terragrunt, dirs));
    lemma_runs_keep_session(account, operation, Engine::Terragrunt, dirs);
}

/// No group that is left once `account` is taken out bears its name.
pub proof fn lemma_without_account_has_none(
    accounts: Seq<(Seq<char>, Seq<Seq<char>>)>,
    account: Seq<char>,
)
    ensures
        forall|k: int|
            0 <= k < without_account(accounts, account).len() ==> (#[trigger] without_account(
                accounts,
                account,
            )[k]).0 != account,
    decreases accounts.len(),
{
    if accounts.len() > 0 {
        lemma_without_account_has_none(accounts.drop_last(), account);
        let older = without_account(accounts.drop_last(), account);
        let all = without_account(accounts, account);
        assert forall|k: int| 0 <= k < all.len() implies (#[trigger] all[k]).0 != account by {
            if k < older.len() {
                assert(all[k] == older[k]);
            }
        }
    }
}

proof fn lemma_sso_steps_session(
    session: SessionView,
    operation: Operation,
    accounts: Seq<(Seq<char>, Seq<Seq<char>>)>,
)
    requires
        !(session is Done),
        forall|k: int| 0 <= k < accounts.len() ==> (#[trigger] accounts[k]).0 != "legacy"@,
    ensures
        after_steps(session, sso_steps(operation, accounts)) is Some,
        !(after_steps(session, sso_steps(operation, accounts)).unwrap() is Done),
    decreases accounts.len(),
{
    if accounts.len() > 0 {
        let older = accounts.drop_last();
        assert forall|k: int| 0 <= k < older.len() implies (#[trigger] older[k]).0 != "legacy"@ by {
            assert(older[k] == accounts[k]);
        }
        lemma_sso_steps_session(session, operation, older);
        let mid = after_steps(session, sso_steps(operation, older)).unwrap();
        assert(accounts[accounts.len() - 1].0 != "legacy"@);
        lemma_account_steps_session(mid, operation, accounts.last().0, accounts.last().1);
        lemma_after_steps_concat(
            session,
            sso_steps(operation, older),
            account_steps(operation, accounts.last().0, accounts.last().1),
        );
    }
}

/// The session admits every schedule: starting idle, each login finds the
/// session logged out, and each operation finds it logged in.
pub proof fn lemma_schedule_is_admitted(operation: Operation, g: GroupedDirsView)
    ensures
        after_steps(SessionView::Idle, schedule_of(operation, g)) is Some,
{
    let first = if needs_legacy(g) {
        legacy_steps(operation, g.terraform, group_of(g.accounts, "legacy"@))
    } else {
        Seq::empty()
    };
    let others = without_account(g.accounts, "legacy"@);
    if needs_legacy(g) {
        lemma_legacy_steps_session(
            SessionView::Idle,
            operation,
            g.terraform,
            group_of(g.accounts, "legacy"@),
        );
    }
    let mid = after_steps(SessionView::Idle, first).unwrap();
    lemma_without_account_has_none(g.accounts, "legacy"@);
    lemma_sso_steps_session(mid, operation, others);
    lemma_after_steps_concat(SessionView::Idle, first, sso_steps(operation, others));
}

/// Whether `step` is a login.
pub open spec fn is_login(step: StepView) -> bool {
    step is LegacyLogin || step is SsoLogin
}

/// Whether a logout stands right before every login of `steps`.
pub open spec fn logout_before_every_login(steps: Seq<StepView>) -> bool {
    forall|i: int|
        0 <= i < steps.len() && is_login(#[trigger] steps[i]) ==> i > 0 && steps[i - 1]
            == StepView::Logout
}

proof fn lemma_logout_before_login_concat(x: Seq<StepView>, y: Seq<StepView>)
    requires
        logout_before_every_login(x),
        logout_before_every_login(y),
    ensures
        logout_before_every_login(x + y),
{
    let all = x + y;
    assert forall|i: int| 0 <= i < all.len() && is_login(#[trigger] all[i]) implies i > 0 && all[i
        - 1] == StepView::Logout by {
        if i < x.len() {
            assert(all[i] == x[i]);
            assert(all[i - 1] == x[i - 1]);
        } else {
            assert(all[i] == y[i - x.len()]);
            assert(i - x.len() > 0);
            assert(all[i - 1] == y[i - x.len() - 1]);
        }
    }
}

proof fn lemma_logout_before_login_in_block(login: StepView, rest: Seq<StepView>)
    requires
        forall|i: int| 0 <= i < rest.len() ==> !is_login(#[trigger] rest[i]),
    ensures
        logout_before_every_login(seq![StepView::Logout, login] + rest),
{
    let all = seq![StepView::Logout, login] + rest;
    assert forall|i: int| 0 <= i < all.len() && is_login(#[trigger] all[i]) implies i > 0 && all[i
        - 1] == StepView::Logout by {
        if i >= 2 {
            assert(all[i] == rest[i - 2]);
        }
    }
}

proof fn lemma_logout_before_login_sso(
    operation: Operation,
    accounts: Seq<(Seq<char>, Seq<Seq<char>>)>,
)
    ensures
        logout_before_every_login(sso_steps(operation, accounts)),
    decreases accounts.len(),
{
    if accounts.len() > 0 {
        lemma_logout_before_login_sso(operation, accounts.drop_last());
        lemma_logout_before_login_in_block(
            StepView::SsoLogin(accounts.last().0),
            runs(operation, Engine::Terragrunt, accounts.last().1),
        );
        lemma_logout_before_login_concat(
            sso_steps(operation, accounts.drop_last()),
            account_steps(operation, accounts.last().0, accounts.last().1),
        );
    }
}

/// In every schedule a logout stands right before every login.
pub proof fn lemma_logout_before_every_login(operation: Operation, g: GroupedDirsView)
    ensures
        logout_before_every_login(schedule_of(operation, g)),
{
    let others = without_account(g.accounts, "legacy"@);
    lemma_logout_before_login_sso(operation, others);
    let legacy = group_of(g.accounts, "legacy"@);
    let first = runs(operation, Engine::Terraform, g.terraform);
    let second = runs(operation, Engine::Terragrunt, legacy);
    lemma_logout_before_login_in_block(StepView::LegacyLogin, first + second);
    assert(seq![StepView::Logout, StepView::LegacyLogin] + (first + second) =~= legacy_steps(
        operation,
        g.terraform,
        legacy,
    ));
    let head = if needs_legacy(g) {
        legacy_steps(operation, g.terraform, legacy)
    } else {
        Seq::empty()
    };
    lemma_logout_before_login_concat(head, sso_steps(operation, others));
}

/// The directories that `steps` run in, in order.
pub open spec fn run_dirs(steps: Seq<StepView>) -> Seq<Seq<char>>
    decreases steps.len(),
{
    if steps.len() == 0 {
        Seq::empty()
    } else {
        match steps.last() {
            StepView::Run(_, _, dir) => run_dirs(steps.drop_last()).push(dir),
            _ => run_dirs(steps.drop_last()),
        }
    }
}

/// The directories of all `accounts`, account by account.
pub open spec fn all_dirs(accounts: Seq<(Seq<char>, Seq<Seq<char>>)>) -> Seq<Seq<char>>
    decreases accounts.len(),
{
    if accounts.len() == 0 {
        Seq::empty()
    } else {
        all_dirs(accounts.drop_last()) + accounts.last().1
    }
}

proof fn lemma_run_dirs_concat(x: Seq<StepView>, y: Seq<StepView>)
    ensures
        run_dirs(x + y) == run_dirs(x) + run_dirs(y),
    decreases y.len(),
{
    if y.len() == 0 {
        assert(x + y =~= x);
        assert(run_dirs(x) + run_dirs(y) =~= run_dirs(x));
    } else {
        assert((x + y).drop_last() =~= x + y.drop_last());
        assert((x + y).last() == y.last());
        lemma_run_dirs_concat(x, y.drop_last());
        match y.last() {
            StepView::Run(_, _, dir) => {
                assert((run_dirs(x) + run_dirs(y.drop_last())).push(dir) =~= run_dirs(x)
                    + run_dirs(y.drop_last()).push(dir));
            },
            _ => {},
        }
    }
}

proof fn lemma_run_dirs_of_runs(operation: Operation, engine: Engine, dirs: Seq<Seq<char>>)
    ensures
        run_dirs(runs(operation, engine, dirs)) == dirs,
    decreases dirs.len(),
{
    let all = runs(operation, engine, dirs);
    if dirs.len() > 0 {
        assert(all.drop_last() =~= runs(operation, engine, dirs.drop_last()));
        lemma_run_dirs_of_runs(operation, engine, dirs.drop_last());
        assert(dirs.drop_last().push(dirs.last()) =~= dirs);
    } else {
        assert(run_dirs(all) =~= dirs);
    }
}

proof fn lemma_run_dirs_of_pair(login: StepView)
    requires
        is_login(login),
    ensures
        run_dirs(seq![StepView::Logout, login]) == Seq::<Seq<char>>::empty(),
{
    let pair = seq![StepView::Logout, login];
    let one = pair.drop_last();
    assert(one.len() == 1 && one.last() == StepView::Logout);
    assert(one.drop_last().len() == 0);
    assert(run_dirs(one.drop_last()) == Seq::<Seq<char>>::empty());
    assert(run_dirs(one) == run_dirs(one.drop_last()));
    assert(pair.last() == login);
    assert(run_dirs(pair) == run_dirs(one));
}

proof fn lemma_run_dirs_of_block(login: StepView, operation: Operation, dirs: Seq<Seq<char>>)
    requires
        is_login(login),
    ensures
        run_dirs(seq![StepView::Logout, login] + runs(operation, Engine::Terragrunt, dirs)) == dirs,
{
    let head = seq![StepView::Logout, login];
    lemma_run_dirs_of_pair(login);
    lemma_run_dirs_concat(head, runs(operation, Engine::Terragrunt, dirs));
    lemma_run_dirs_of_runs(operation, Engine::Terragrunt, dirs);
    assert(Seq::<Seq<char>>::empty() + dirs =~= dirs);
}

proof fn lemma_run_dirs_of_sso(operation: Operation, accounts: Seq<(Seq<char>, Seq<Seq<char>>)>)
    ensures
        run_dirs(sso_steps(operation, accounts)) == all_dirs(accounts),
    decreases accounts.len(),
{
    if accounts.len() > 0 {
        lemma_run_dirs_of_sso(operation, accounts.drop_last());
        lemma_run_dirs_of_block(
            StepView::SsoLogin(accounts.last().0),
            operation,
            accounts.last().1,
        );
        lemma_run_dirs_concat(
            sso_steps(operation, accounts.drop_last()),
            account_steps(operation, accounts.last().0, accounts.last().1),
        );
    }
}

/// A list without groups for `account` has no directories of it.
proof fn lemma_group_of_absent(accounts: Seq<(Seq<char>, Seq<Seq<char>>)>, account: Seq<char>)
    requires
        !has_account(accounts, account),
    ensures
        group_of(accounts, account) == Seq::<Seq<char>>::empty(),
    decreases accounts.len(),
{
    if accounts.len() > 0 {
        assert(accounts[0].0 != account);
        assert forall|k: int| 0 <= k < accounts.drop_first().len() implies (
        #[trigger] accounts.drop_first()[k]).0 != account by {
            assert(accounts[k + 1].0 != account);
        }
        lemma_group_of_absent(accounts.drop_first(), account);
    }
}

/// The order of the work: first the `terraform` directories, then the
/// directories of the `legacy` account, then the directories of the other
/// accounts, account by account.
pub proof fn lemma_schedule_order(operation: Operation, g: GroupedDirsView)
    ensures
        run_dirs(schedule_of(operation, g)) == g.terraform + group_of(g.accounts, "legacy"@)
            + all_dirs(without_account(g.accounts, "legacy"@)),
{
    let legacy = group_of(g.accounts, "legacy"@);
    let others = without_account(g.accounts, "legacy"@);
    let head = if needs_legacy(g) {
        legacy_steps(operation, g.terraform, legacy)
    } else {
        Seq::empty()
    };
    lemma_run_dirs_concat(head, sso_steps(operation, others));
    lemma_run_dirs_of_sso(operation, others);
    if needs_legacy(g) {
        let pair = seq![StepView::Logout, StepView::LegacyLogin];
        let first = runs(operation, Engine::Terraform, g.terraform);
        let second = runs(operation, Engine::Terragrunt, legacy);
        lemma_run_dirs_of_pair(StepView::LegacyLogin);
        lemma_run_dirs_concat(pair, first);
        lemma_run_dirs_concat(pair + first, second);
        lemma_run_dirs_of_runs(operation, Engine::Terraform, g.terraform);
        lemma_run_dirs_of_runs(operation, Engine::Terragrunt, legacy);
        assert(run_dirs(head) =~= g.terraform + legacy);
    } else {
        lemma_group_of_absent(g.accounts, "legacy"@);
        assert(g.terraform =~= Seq::<Seq<char>>::empty());
        assert(run_dirs(head) =~= g.terraform + legacy);
    }
}

/// Taking an account out leaves the others in ascending order.
pub proof fn lemma_without_account_keeps_order(
    accounts: Seq<(Seq<char>, Seq<Seq<char>>)>,
    account: Seq<char>,
)
    requires
        accounts_in_order(accounts),
    ensures
        accounts_in_order(without_account(accounts, account)),
        forall|k: int|
            0 <= k < without_account(accounts, account).len() ==> accounts.contains(
                #[trigger] without_account(accounts, account)[k],
            ),
    decreases accounts.len(),
{
    if accounts.len() > 0 {
        let older = accounts.drop_last();
        assert(accounts_in_order(older)) by {
            assert forall|i: int, j: int| 0 <= i < j < older.len() implies text_before(
                (#[trigger] older[i]).0,
                (#[trigger] older[j]).0,
            ) by {
                assert(text_before(accounts[i].0, accounts[j].0));
            }
            assert forall|k: int| 0 <= k < older.len() implies (#[trigger] older[k]).1.len()
                > 0 by {
                assert(accounts[k].1.len() > 0);
            }
        }
        lemma_without_account_keeps_order(older, account);
        let kept = without_account(older, account);
        let all = without_account(accounts, account);
        assert forall|k: int| 0 <= k < all.len() implies accounts.contains(#[trigger] all[k]) by {
            if k < kept.len() {
                assert(all[k] == kept[k]);
                assert(older.contains(kept[k]));
                let w = choose|w: int| 0 <= w < older.len() && older[w] == kept[k];
                assert(accounts[w] == all[k]);
            } else {
                assert(accounts[accounts.len() - 1] == all[k]);
            }
        }
        assert forall|i: int, j: int| 0 <= i < j < all.len() implies text_before(
            (#[trigger] all[i]).0,
            (#[trigger] all[j]).0,
        ) by {
            if j < kept.len() {
                assert(text_before(kept[i].0, kept[j].0));
            } else {
                assert(all[j] == accounts.last());
                assert(older.contains(kept[i]));
                let w = choose|w: int| 0 <= w < older.len() && older[w] == kept[i];
                assert(text_before(accounts[w].0, accounts[accounts.len() - 1].0));
            }
        }
        assert forall|k: int| 0 <= k < all.len() implies (#[trigger] all[k]).1.len() > 0 by {
            if k < kept.len() {
                assert(kept[k].1.len() > 0);
            } else {
                assert(accounts[accounts.len() - 1].1.len() > 0);
            }
        }
    }
}

/// A login is taken only by a session that is logged out.
pub proof fn lemma_login_needs_logout(session: SessionView, step: StepView)
    requires
        is_login(step),
        after_step(session, step) is Some,
    ensures
        session is LoggedOut,
        after_step(session, step).unwrap() is LoggedIn,
{
}

/// The directories that `steps` run in, each with the account that is
/// logged in when its run begins. The session starts as `session`.
pub open spec fn runs_under(session: SessionView, steps: Seq<StepView>) -> Seq<
    (Seq<char>, Seq<char>),
>
    decreases steps.len(),
{
    if steps.len() == 0 {
        Seq::empty()
    } else {
        let before = runs_under(session, steps.drop_last());
        match (after_steps(session, steps.drop_last()), steps.last()) {
            (Some(SessionView::LoggedIn(account)), StepView::Run(_, _, dir)) => before.push(
                (account, dir),
            ),
            _ => before,
        }
    }
}

/// Each of `dirs` with `account`.
pub open spec fn under(account: Seq<char>, dirs: Seq<Seq<char>>) -> Seq<(Seq<char>, Seq<char>)> {
    dirs.map_values(|d: Seq<char>| (account, d))
}

/// The directories of all `accounts`, account by account, each with its
/// account.
pub open spec fn each_under_its_account(accounts: Seq<(Seq<char>, Seq<Seq<char>>)>) -> Seq<
    (Seq<char>, Seq<char>),
>
    decreases accounts.len(),
{
    if accounts.len() == 0 {
        Seq::empty()
    } else {
        each_under_its_account(accounts.drop_last()) + under(accounts.last().0, accounts.last().1)
    }
}

proof fn lemma_runs_under_concat(session: SessionView, x: Seq<StepView>, y: Seq<StepView>)
    requires
        after_steps(session, x) is Some,
    ensures
        runs_under(session, x + y) == runs_under(session, x) + runs_under(
            after_steps(session, x).unwrap(),
            y,
        ),
    decreases y.len(),
{
    let mid = after_steps(session, x).unwrap();
    if y.len() == 0 {
        assert(x + y =~= x);
        assert(runs_under(session, x) + runs_under(mid, y) =~= runs_under(session, x));
    } else {
        assert((x + y).drop_last() =~= x + y.drop_last());
        assert((x + y).last() == y.last());
        lemma_runs_under_concat(session, x, y.drop_last());
        lemma_after_steps_concat(session, x, y.drop_last());
        let before = runs_under(mid, y.drop_last());
        match (after_steps(mid, y.drop_last()), y.last()) {
            (Some(SessionView::LoggedIn(account)), StepView::Run(_, _, dir)) => {
                assert((runs_under(session, x) + before).push((account, dir)) =~= runs_under(
                    session,
                    x,
                ) + before.push((account, dir)));
            },
            _ => {},
        }
    }
}

proof fn lemma_runs_under_of_runs(
    account: Seq<char>,
    operation: Operation,
    engine: Engine,
    dirs: Seq<Seq<char>>,
)
    ensures
        runs_under(SessionView::LoggedIn(account), runs(operation, engine, dirs)) == under(
            account,
            dirs,
        ),
    decreases dirs.len(),
{
    let all = runs(operation, engine, dirs);
    if dirs.len() > 0 {
        assert(all.drop_last() =~= runs(operation, engine, dirs.drop_last()));
        lemma_runs_under_of_runs(account, operation, engine, dirs.drop_last());
        lemma_runs_keep_session(account, operation, engine, dirs.drop_last());
        assert(under(account, dirs.drop_last()).push((account, dirs.last())) =~= under(
            account,
            dirs,
        ));
    } else {
        assert(runs_under(SessionView::LoggedIn(account), all) =~= under(account, dirs));
    }
}

proof fn lemma_runs_under_of_pair(session: SessionView, login: StepView)
    requires
        is_login(login),
    ensures
        runs_under(session, seq![StepView::Logout, login]) == Seq::<
            (Seq<char>, Seq<char>),
        >::empty(),
{
    let pair = seq![StepView::Logout, login];
    let one = pair.drop_last();
    assert(one.len() == 1 && one.last() == StepView::Logout);
    assert(one.drop_last().len() == 0);
    assert(runs_under(session, one.drop_last()) == Seq::<(Seq<char>, Seq<char>)>::empty());
    assert(runs_under(session, one) == runs_under(session, one.drop_last()));
    assert(pair.last() == login);
    assert(runs_under(session, pair) == runs_under(session, one));
}

proof fn lemma_runs_under_of_account(
    session: SessionView,
    operation: Operation,
    account: Seq<char>,
    dirs: Seq<Seq<char>>,
)
    requires
        !(session is Done),
        account != "legacy"@,
    ensures
        runs_under(session, account_steps(operation, account, dirs)) == under(account, dirs),
{
    let head = seq![StepView::Logout, StepView::SsoLogin(account)];
    lemma_login_pair(session, StepView::SsoLogin(account));
    lemma_runs_under_of_pair(session, StepView::SsoLogin(account));
    lemma_runs_under_concat(session, head, runs(operation, Engine::Terragrunt, dirs));
    lemma_runs_under_of_runs(account, operation, Engine::Terragrunt, dirs);
    assert(Seq::<(Seq<char>, Seq<char>)>::empty() + under(account, dirs) =~= under(account, dirs));
}

proof fn lemma_runs_under_of_sso(
    session: SessionView,
    operation: Operation,
    accounts: Seq<(Seq<char>, Seq<Seq<char>>)>,
)
    requires
        !(session is Done),
        forall|k: int| 0 <= k < accounts.len() ==> (#[trigger] accounts[k]).0 != "legacy"@,
    ensures
        runs_under(session, sso_steps(operation, accounts)) == each_under_its_account(accounts),
    decreases accounts.len(),
{
    if accounts.len() > 0 {
        let older = accounts.drop_last();
        assert forall|k: int| 0 <= k < older.len() implies (#[trigger] older[k]).0 != "legacy"@ by {
            assert(older[k] == accounts[k]);
        }
        lemma_runs_under_of_sso(session, operation, older);
        lemma_sso_steps_session(session, operation, older);
        let mid = after_steps(session, sso_steps(operation, older)).unwrap();
        assert(accounts[accounts.len() - 1].0 != "legacy"@);
        lemma_runs_under_of_account(mid, operation, accounts.last().0, accounts.last().1);
        lemma_runs_under_concat(
            session,
            sso_steps(operation, older),
            account_steps(operation, accounts.last().0, accounts.last().1),
        );
    }
}

/// Every directory is worked on under the credentials of its account: the
/// `terraform` directories and the directories of the `legacy` account
/// while `legacy` is logged in, the directories of every other account
/// while that account is logged in.
pub proof fn lemma_schedule_keeps_to_accounts(operation: Operation, g: GroupedDirsView)
    ensures
        runs_under(SessionView::Idle, schedule_of(operation, g)) == under(
            "legacy"@,
            g.terraform + group_of(g.accounts, "legacy"@),
        ) + each_under_its_account(without_account(g.accounts, "legacy"@)),
{
    let legacy = group_of(g.accounts, "legacy"@);
    let others = without_account(g.accounts, "legacy"@);
    let head = if needs_legacy(g) {
        legacy_steps(operation, g.terraform, legacy)
    } else {
        Seq::empty()
    };
    lemma_without_account_has_none(g.accounts, "legacy"@);
    if needs_legacy(g) {
        let pair = seq![StepView::Logout, StepView::LegacyLogin];
        let first = runs(operation, Engine::Terraform, g.terraform);
        let second = runs(operation, Engine::Terragrunt, legacy);
        lemma_login_pair(SessionView::Idle, StepView::LegacyLogin);
        lemma_runs_under_of_pair(SessionView::Idle, StepView::LegacyLogin);
        lemma_runs_under_concat(SessionView::Idle, pair, first);
        lemma_runs_under_of_runs("legacy"@, operation, Engine::Terraform, g.terraform);
        lemma_after_steps_concat(SessionView::Idle, pair, first);
        lemma_runs_keep_session("legacy"@, operation, Engine::Terraform, g.terraform);
        lemma_runs_under_concat(SessionView::Idle, pair + first, second);
        lemma_runs_under_of_runs("legacy"@, operation, Engine::Terragrunt, legacy);
        assert(runs_under(SessionView::Idle, head) =~= under("legacy"@, g.terraform + legacy));
        lemma_legacy_steps_session(SessionView::Idle, operation, g.terraform, legacy);
    } else {
        lemma_group_of_absent(g.accounts, "legacy"@);
        assert(g.terraform + legacy =~= Seq::<Seq<char>>::empty());
        assert(runs_under(SessionView::Idle, head) =~= under("legacy"@, g.terraform + legacy));
    }
    let mid = after_steps(SessionView::Idle, head).unwrap();
    lemma_runs_under_concat(SessionView::Idle, head, sso_steps(operation, others));
    lemma_runs_under_of_sso(mid, operation, others);
}

} // verus!
