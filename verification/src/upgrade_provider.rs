//! The providers that the lockfiles pin, and the upgrade of the lockfiles of
//! chosen providers.

use crate::grouped_dirs::{account_views, all_follow_layout, split_all, GroupedDirs};
use crate::grouping_laws::{grouping_of, lemma_grouping_of};
use crate::lockfile::{pin_views, pins_from, read_lockfile, LockfileError};
use crate::orchestrator::{
    legacy_schedule, legacy_steps, schedule, schedule_of, sso_schedule, sso_steps, step_views,
    Operation, Step,
};
use crate::path::texts;
use crate::plan_pr::{all_have_parents, get_parents, parents_of};
use crate::text::{clone_strings, contains_text, lines, same_text, text_before, text_less};
use crate::version::{version_before, Version};
use vstd::prelude::*;
use vstd::string::*;

verus! {

/// A lockfile: where it lies and what it holds.
#[derive(Debug)]
pub struct LockFile {
    pub path: String,
    pub content: String,
}

/// The mathematical value of a [`LockFile`].
pub ghost struct LockFileView {
    pub path: Seq<char>,
    pub content: Seq<char>,
}

impl View for LockFile {
    type V = LockFileView;

    open spec fn view(&self) -> LockFileView {
        LockFileView { path: self.path@, content: self.content@ }
    }
}

/// The values of a list of lockfiles.
pub open spec fn lockfile_views(v: Seq<LockFile>) -> Seq<LockFileView> {
    v.map_values(|f: LockFile| f@)
}

/// One provider pinned by one lockfile.
pub ghost struct Pin {
    pub provider: Seq<char>,
    pub version: Seq<char>,
    pub lockfile: Seq<char>,
}

/// The pins of one lockfile.
pub open spec fn pins_in(pins: Seq<(Seq<char>, Seq<char>)>, lockfile: Seq<char>) -> Seq<Pin> {
    pins.map_values(
        |p: (Seq<char>, Seq<char>)| Pin { provider: p.0, version: p.1, lockfile: lockfile },
    )
}

/// The pins of all `lockfiles`, file by file, or the first error met.
pub open spec fn all_pins(lockfiles: Seq<LockFileView>) -> Result<Seq<Pin>, LockfileError>
    decreases lockfiles.len(),
{
    if lockfiles.len() == 0 {
        Ok(Seq::empty())
    } else {
        match all_pins(lockfiles.drop_last()) {
            Err(e) => Err(e),
            Ok(before) => match pins_from(lines(lockfiles.last().content), 0) {
                Err(e) => Err(e),
                Ok(pins) => Ok(before + pins_in(pins, lockfiles.last().path)),
            },
        }
    }
}

/// Where `version` stands, or would stand, among `versions`: at the first
/// one that does not come before it.
pub open spec fn version_slot(versions: Seq<(Seq<char>, Seq<Seq<char>>)>, version: Seq<char>) -> int
    decreases versions.len(),
{
    if versions.len() > 0 && version_before(versions[0].0, version) {
        1 + version_slot(versions.drop_first(), version)
    } else {
        0
    }
}

/// `versions` with `lockfile` added under `version`: to the lockfiles of
/// that version where it stands at its slot, else under a new entry put
/// there.
pub open spec fn with_version(
    versions: Seq<(Seq<char>, Seq<Seq<char>>)>,
    version: Seq<char>,
    lockfile: Seq<char>,
) -> Seq<(Seq<char>, Seq<Seq<char>>)> {
    let k = version_slot(versions, version);
    if k < versions.len() && versions[k].0 == version {
        versions.update(k, (version, versions[k].1.push(lockfile)))
    } else {
        versions.insert(k, (version, seq![lockfile]))
    }
}

/// Where `name` stands, or would stand, among `providers`: at the first
/// one that does not come before it.
pub open spec fn provider_slot(
    providers: Seq<(Seq<char>, Seq<(Seq<char>, Seq<Seq<char>>)>)>,
    name: Seq<char>,
) -> int
    decreases providers.len(),
{
    if providers.len() > 0 && text_before(providers[0].0, name) {
        1 + provider_slot(providers.drop_first(), name)
    } else {
        0
    }
}

/// `providers` with one more pin: under the provider's entry where it is
/// there, else under a new entry at its slot.
pub open spec fn with_pin(
    providers: Seq<(Seq<char>, Seq<(Seq<char>, Seq<Seq<char>>)>)>,
    pin: Pin,
) -> Seq<(Seq<char>, Seq<(Seq<char>, Seq<Seq<char>>)>)> {
    let k = provider_slot(providers, pin.provider);
    if k < providers.len() && providers[k].0 == pin.provider {
        providers.update(
            k,
            (pin.provider, with_version(providers[k].1, pin.version, pin.lockfile)),
        )
    } else {
        providers.insert(k, (pin.provider, seq![(pin.version, seq![pin.lockfile])]))
    }
}

/// The providers that `pins` tell of, pin by pin: the providers in
/// ascending order of their names; under each provider its versions, each
/// put at its slot; under each version the lockfiles that pin it, in the
/// order of the pins.
pub open spec fn providers_of(pins: Seq<Pin>) -> Seq<(Seq<char>, Seq<(Seq<char>, Seq<Seq<char>>)>)>
    decreases pins.len(),
{
    if pins.len() == 0 {
        Seq::empty()
    } else {
        with_pin(providers_of(pins.drop_last()), pins.last())
    }
}

/// The versions of one provider, each with the lockfiles that pin it.
#[derive(Debug)]
pub struct ProviderVersions {
    /// <version> -> <lockfile where the version is present>
    versions: Vec<(Version, Vec<String>)>,
}

/// The values of a list of versions with their lockfiles.
pub open spec fn version_views(v: Seq<(Version, Vec<String>)>) -> Seq<(Seq<char>, Seq<Seq<char>>)> {
    v.map_values(|p: (Version, Vec<String>)| (p.0@, texts(p.1@)))
}

impl View for ProviderVersions {
    type V = Seq<(Seq<char>, Seq<Seq<char>>)>;

    closed spec fn view(&self) -> Seq<(Seq<char>, Seq<Seq<char>>)> {
        version_views(self.versions@)
    }
}

/// The providers, each with its versions.
#[derive(Debug)]
pub struct Providers {
    /// <provider name> -> <provider versions>
    providers: Vec<(String, ProviderVersions)>,
}

/// The values of a list of providers with their versions.
pub open spec fn provider_views(v: Seq<(String, ProviderVersions)>) -> Seq<
    (Seq<char>, Seq<(Seq<char>, Seq<Seq<char>>)>),
> {
    v.map_values(|p: (String, ProviderVersions)| (p.0@, p.1@))
}

impl View for Providers {
    type V = Seq<(Seq<char>, Seq<(Seq<char>, Seq<Seq<char>>)>)>;

    closed spec fn view(&self) -> Seq<(Seq<char>, Seq<(Seq<char>, Seq<Seq<char>>)>)> {
        provider_views(self.providers@)
    }
}

impl ProviderVersions {
    /// No versions.
    pub fn new() -> (r: ProviderVersions)
        ensures
            r@ == Seq::<(Seq<char>, Seq<Seq<char>>)>::empty(),
    {
        let r = ProviderVersions { versions: Vec::new() };
        proof {
            assert(r@ =~= Seq::<(Seq<char>, Seq<Seq<char>>)>::empty());
        }
        r
    }

    /// The versions with their lockfiles, in order.
    pub fn versions(&self) -> (r: &Vec<(Version, Vec<String>)>)
        ensures
            version_views(r@) == self@,
    {
        &self.versions
    }

    /// Adds `lockfile` under `version`; see [`with_version`].
    pub fn add(&mut self, version: Version, lockfile: String)
        ensures
            final(self)@ == with_version(old(self)@, version@, lockfile@),
    {
        let ghost before = self@;
        let mut k: usize = 0;
        proof {
            assert(before.skip(0) =~= before);
        }
        while k < self.versions.len() && self.versions[k].0.precedes(&version)
            invariant
                k <= self.versions.len(),
                before == version_views(self.versions@),
                version_slot(before, version@) == k + version_slot(before.skip(k as int), version@),
            decreases self.versions.len() - k,
        {
            proof {
                assert(before.skip(k as int)[0] == before[k as int]);
                assert(before.skip(k as int).drop_first() =~= before.skip(k + 1));
            }
            k = k + 1;
        }
        proof {
            if k < self.versions.len() {
                assert(before.skip(k as int)[0] == before[k as int]);
            }
            assert(version_slot(before, version@) == k);
        }
        if k < self.versions.len() && self.versions[k].0.same_as(&version) {
            self.versions[k].1.push(lockfile);
            proof {
                assert(texts(self.versions@[k as int].1@) =~= before[k as int].1.push(lockfile@));
                assert(self@ =~= with_version(before, version@, lockfile@));
            }
        } else {
            let mut lockfiles: Vec<String> = Vec::new();
            lockfiles.push(lockfile);
            proof {
                assert(texts(lockfiles@) =~= seq![lockfile@]);
            }
            self.versions.insert(k, (version, lockfiles));
            proof {
                assert(self@ =~= with_version(before, version@, lockfile@));
            }
        }
    }
}

impl Providers {
    /// No providers.
    pub fn new() -> (r: Providers)
        ensures
            r@ == Seq::<(Seq<char>, Seq<(Seq<char>, Seq<Seq<char>>)>)>::empty(),
    {
        let r = Providers { providers: Vec::new() };
        proof {
            assert(r@ =~= Seq::<(Seq<char>, Seq<(Seq<char>, Seq<Seq<char>>)>)>::empty());
        }
        r
    }

    /// The providers with their versions, in order.
    pub fn providers(&self) -> (r: &Vec<(String, ProviderVersions)>)
        ensures
            provider_views(r@) == self@,
    {
        &self.providers
    }

    /// Adds one pin; see [`with_pin`].
    pub fn add(&mut self, provider: String, version: Version, lockfile: String)
        ensures
            final(self)@ == with_pin(
                old(self)@,
                Pin { provider: provider@, version: version@, lockfile: lockfile@ },
            ),
    {
        let ghost before = self@;
        let ghost pin = Pin { provider: provider@, version: version@, lockfile: lockfile@ };
        let mut k: usize = 0;
        proof {
            assert(before.skip(0) =~= before);
        }
        while k < self.providers.len() && text_less(
            self.providers[k].0.as_str(),
            provider.as_str(),
        )
            invariant
                k <= self.providers.len(),
                before == provider_views(self.providers@),
                provider_slot(before, provider@) == k + provider_slot(
                    before.skip(k as int),
                    provider@,
                ),
            decreases self.providers.len() - k,
        {
            proof {
                assert(before.skip(k as int)[0] == before[k as int]);
                assert(before.skip(k as int).drop_first() =~= before.skip(k + 1));
            }
            k = k + 1;
        }
        proof {
            if k < self.providers.len() {
                assert(before.skip(k as int)[0] == before[k as int]);
            }
            assert(provider_slot(before, provider@) == k);
        }
        if k < self.providers.len() && same_text(self.providers[k].0.as_str(), provider.as_str()) {
            self.providers[k].1.add(version, lockfile);
            proof {
                assert(self@ =~= with_pin(before, pin));
            }
        } else {
            let mut versions = ProviderVersions::new();
            versions.add(version, lockfile);
            proof {
                assert(versions@ =~= seq![(pin.version, seq![pin.lockfile])]);
            }
            self.providers.insert(k, (provider, versions));
            proof {
                assert(self@ =~= with_pin(before, pin));
            }
        }
    }
}

/// Get all providers from all lockfiles.
///
/// The result tells, for each provider, which lockfiles pin which of its
/// versions; see [`providers_of`]. A lockfile that cannot be read makes the
/// whole call fail with the first error met.
pub fn get_all_providers(lockfiles: &Vec<LockFile>) -> (r: Result<Providers, LockfileError>)
    ensures
        match r {
            Ok(providers) => all_pins(lockfile_views(lockfiles@)) is Ok && providers@
                == providers_of(all_pins(lockfile_views(lockfiles@))->Ok_0),
            Err(e) => all_pins(lockfile_views(lockfiles@)) == Err::<Seq<Pin>, LockfileError>(e),
        },
{
    let ghost all = lockfile_views(lockfiles@);
    let mut providers = Providers::new();
    let mut i: usize = 0;
    proof {
        assert(all.take(0) =~= Seq::<LockFileView>::empty());
    }
    while i < lockfiles.len()
        invariant
            i <= lockfiles.len(),
            all == lockfile_views(lockfiles@),
            all_pins(all.take(i as int)) is Ok,
            providers@ == providers_of(all_pins(all.take(i as int))->Ok_0),
        decreases lockfiles.len() - i,
    {
        let lockfile = &lockfiles[i];
        let ghost before = all_pins(all.take(i as int))->Ok_0;
        proof {
            assert(all.take(i + 1).drop_last() =~= all.take(i as int));
            assert(all.take(i + 1).last() == lockfile@);
        }
        let pins = match read_lockfile(lockfile.content.as_str()) {
            Ok(pins) => pins,
            Err(e) => {
                proof {
                    lemma_error_stays(all, i + 1, e);
                }
                return Err(e);
            },
        };
        let ghost wanted = pins_in(pin_views(pins@), lockfile.path@);
        let mut k: usize = 0;
        proof {
            assert(before + wanted.take(0) =~= before);
        }
        while k < pins.len()
            invariant
                k <= pins.len(),
                wanted == pins_in(pin_views(pins@), lockfile.path@),
                providers@ == providers_of(before + wanted.take(k as int)),
            decreases pins.len() - k,
        {
            proof {
                assert((before + wanted.take(k + 1)).drop_last() =~= before + wanted.take(k as int));
                assert((before + wanted.take(k + 1)).last() == wanted[k as int]);
                assert(pin_views(pins@)[k as int] == (pins[k as int].0@, pins[k as int].1@));
            }
            providers.add(pins[k].0.clone(), pins[k].1.duplicate(), lockfile.path.clone());
            k = k + 1;
        }
        proof {
            assert(wanted.take(k as int) =~= wanted);
        }
        i = i + 1;
    }
    proof {
        assert(all.take(i as int) =~= all);
    }
    Ok(providers)
}

/// Once a lockfile cannot be read, no later lockfile changes the error.
proof fn lemma_error_stays(lockfiles: Seq<LockFileView>, n: int, e: LockfileError)
    requires
        0 <= n <= lockfiles.len(),
        all_pins(lockfiles.take(n)) == Err::<Seq<Pin>, LockfileError>(e),
    ensures
        all_pins(lockfiles) == Err::<Seq<Pin>, LockfileError>(e),
    decreases lockfiles.len() - n,
{
    if n < lockfiles.len() {
        assert(lockfiles.take(n + 1).drop_last() =~= lockfiles.take(n));
        lemma_error_stays(lockfiles, n + 1, e);
    } else {
        assert(lockfiles.take(n) =~= lockfiles);
    }
}

/// The texts of a list of versions.
pub open spec fn version_texts(v: Seq<Version>) -> Seq<Seq<char>> {
    v.map_values(|x: Version| x@)
}

/// The versions other than `latest`, in the same order.
pub open spec fn outdated_versions(versions: Seq<(Seq<char>, Seq<Seq<char>>)>, latest: Seq<char>) -> Seq<
    (Seq<char>, Seq<Seq<char>>),
>
    decreases versions.len(),
{
    if versions.len() == 0 {
        Seq::empty()
    } else {
        let before = outdated_versions(versions.drop_last(), latest);
        if versions.last().0 == latest {
            before
        } else {
            before.push(versions.last())
        }
    }
}

/// The providers that are pinned to a version other than their latest,
/// each with those versions only. `latest` gives the latest version of
/// each provider, in the order of `providers`.
pub open spec fn outdated_of(
    providers: Seq<(Seq<char>, Seq<(Seq<char>, Seq<Seq<char>>)>)>,
    latest: Seq<Seq<char>>,
) -> Seq<(Seq<char>, Seq<(Seq<char>, Seq<Seq<char>>)>)>
    decreases providers.len(),
{
    if providers.len() == 0 || latest.len() == 0 {
        Seq::empty()
    } else {
        let before = outdated_of(providers.drop_last(), latest.drop_last());
        let kept = outdated_versions(providers.last().1, latest.last());
        if kept.len() > 0 {
            before.push((providers.last().0, kept))
        } else {
            before
        }
    }
}

impl ProviderVersions {
    /// The versions other than `latest`; see [`outdated_versions`].
    pub fn outdated(&self, latest: &Version) -> (r: ProviderVersions)
        ensures
            r@ == outdated_versions(self@, latest@),
    {
        let ghost all = self@;
        let mut kept: Vec<(Version, Vec<String>)> = Vec::new();
        let mut i: usize = 0;
        proof {
            assert(all.take(0) =~= Seq::<(Seq<char>, Seq<Seq<char>>)>::empty());
            assert(version_views(kept@) =~= Seq::<(Seq<char>, Seq<Seq<char>>)>::empty());
        }
        while i < self.versions.len()
            invariant
                i <= self.versions.len(),
                all == version_views(self.versions@),
                version_views(kept@) == outdated_versions(all.take(i as int), latest@),
            decreases self.versions.len() - i,
        {
            proof {
                assert(all.take(i + 1).drop_last() =~= all.take(i as int));
                assert(all.take(i + 1).last() == all[i as int]);
            }
            if !self.versions[i].0.same_as(latest) {
                let entry = (self.versions[i].0.duplicate(), clone_strings(&self.versions[i].1));
                proof {
                    assert(version_views(kept@.push(entry)) =~= version_views(kept@).push(
                        all[i as int],
                    ));
                }
                kept.push(entry);
            }
            i = i + 1;
        }
        proof {
            assert(all.take(i as int) =~= all);
        }
        ProviderVersions { versions: kept }
    }

    /// Whether there is no version.
    pub fn is_empty(&self) -> (r: bool)
        ensures
            r == (self@.len() == 0),
    {
        self.versions.len() == 0
    }
}

impl Providers {
    /// The providers that are pinned to a version other than their latest;
    /// see [`outdated_of`]. `latest` gives the latest version of each
    /// provider, in the order of the providers.
    pub fn outdated(&self, latest: &Vec<Version>) -> (r: Providers)
        requires
            latest.len() == self@.len(),
        ensures
            r@ == outdated_of(self@, version_texts(latest@)),
    {
        let ghost all = self@;
        let ghost news = version_texts(latest@);
        let mut kept: Vec<(String, ProviderVersions)> = Vec::new();
        let mut i: usize = 0;
        proof {
            assert(all.take(0) =~= Seq::<(Seq<char>, Seq<(Seq<char>, Seq<Seq<char>>)>)>::empty());
            assert(provider_views(kept@) =~= Seq::<
                (Seq<char>, Seq<(Seq<char>, Seq<Seq<char>>)>),
            >::empty());
        }
        while i < self.providers.len()
            invariant
                i <= self.providers.len(),
                all == provider_views(self.providers@),
                news == version_texts(latest@),
                latest.len() == self.providers.len(),
                provider_views(kept@) == outdated_of(all.take(i as int), news.take(i as int)),
            decreases self.providers.len() - i,
        {
            proof {
                assert(all.take(i + 1).drop_last() =~= all.take(i as int));
                assert(all.take(i + 1).last() == all[i as int]);
                assert(news.take(i + 1).drop_last() =~= news.take(i as int));
                assert(news.take(i + 1).last() == latest[i as int]@);
            }
            let versions = self.providers[i].1.outdated(&latest[i]);
            if !versions.is_empty() {
                let entry = (self.providers[i].0.clone(), versions);
                proof {
                    assert(provider_views(kept@.push(entry)) =~= provider_views(kept@).push(
                        (all[i as int].0, versions@),
                    ));
                }
                kept.push(entry);
            }
            i = i + 1;
        }
        proof {
            assert(all.take(i as int) =~= all);
            assert(news.take(i as int) =~= news);
        }
        Providers { providers: kept }
    }

    /// The names of the providers, in order.
    pub fn names(&self) -> (r: Vec<String>)
        ensures
            texts(r@) == self@.map_values(
                |p: (Seq<char>, Seq<(Seq<char>, Seq<Seq<char>>)>)| p.0,
            ),
    {
        let ghost wanted = self@.map_values(
            |p: (Seq<char>, Seq<(Seq<char>, Seq<Seq<char>>)>)| p.0,
        );
        let mut r: Vec<String> = Vec::new();
        let mut i: usize = 0;
        proof {
            assert(texts(r@) =~= wanted.take(0));
        }
        while i < self.providers.len()
            invariant
                i <= self.providers.len(),
                wanted == provider_views(self.providers@).map_values(
                    |p: (Seq<char>, Seq<(Seq<char>, Seq<Seq<char>>)>)| p.0,
                ),
                texts(r@) == wanted.take(i as int),
            decreases self.providers.len() - i,
        {
            let name = self.providers[i].0.clone();
            proof {
                assert(wanted[i as int] == name@);
                assert(texts(r@.push(name)) =~= texts(r@).push(name@));
                assert(wanted.take(i as int).push(wanted[i as int]) =~= wanted.take(i + 1));
            }
            r.push(name);
            i = i + 1;
        }
        proof {
            assert(wanted.take(i as int) =~= wanted);
        }
        r
    }
}

/// The lockfiles under all `versions`, version by version.
pub open spec fn lockfiles_under(versions: Seq<(Seq<char>, Seq<Seq<char>>)>) -> Seq<Seq<char>>
    decreases versions.len(),
{
    if versions.len() == 0 {
        Seq::empty()
    } else {
        lockfiles_under(versions.drop_last()) + versions.last().1
    }
}

/// The lockfiles of the providers named in `selected`, provider by provider.
pub open spec fn selected_lockfiles(
    providers: Seq<(Seq<char>, Seq<(Seq<char>, Seq<Seq<char>>)>)>,
    selected: Seq<Seq<char>>,
) -> Seq<Seq<char>>
    decreases providers.len(),
{
    if providers.len() == 0 {
        Seq::empty()
    } else {
        let before = selected_lockfiles(providers.drop_last(), selected);
        if selected.contains(providers.last().0) {
            before + lockfiles_under(providers.last().1)
        } else {
            before
        }
    }
}

impl ProviderVersions {
    /// The lockfiles under all versions; see [`lockfiles_under`].
    pub fn lockfiles(&self) -> (r: Vec<String>)
        ensures
            texts(r@) == lockfiles_under(self@),
    {
        let ghost all = self@;
        let mut r: Vec<String> = Vec::new();
        let mut i: usize = 0;
        proof {
            assert(all.take(0) =~= Seq::<(Seq<char>, Seq<Seq<char>>)>::empty());
            assert(texts(r@) =~= Seq::<Seq<char>>::empty());
        }
        while i < self.versions.len()
            invariant
                i <= self.versions.len(),
                all == version_views(self.versions@),
                texts(r@) == lockfiles_under(all.take(i as int)),
            decreases self.versions.len() - i,
        {
            let mut more = clone_strings(&self.versions[i].1);
            proof {
                assert(all.take(i + 1).drop_last() =~= all.take(i as int));
                assert(all.take(i + 1).last() == all[i as int]);
                assert(texts(r@ + more@) =~= texts(r@) + texts(more@));
            }
            r.append(&mut more);
            i = i + 1;
        }
        proof {
            assert(all.take(i as int) =~= all);
        }
        r
    }
}

impl Providers {
    /// The lockfiles of the providers named in `selected`; see
    /// [`selected_lockfiles`].
    pub fn lockfiles_of(&self, selected: &Vec<String>) -> (r: Vec<String>)
        ensures
            texts(r@) == selected_lockfiles(self@, texts(selected@)),
    {
        let ghost all = self@;
        let mut r: Vec<String> = Vec::new();
        let mut i: usize = 0;
        proof {
            assert(all.take(0) =~= Seq::<(Seq<char>, Seq<(Seq<char>, Seq<Seq<char>>)>)>::empty());
            assert(texts(r@) =~= Seq::<Seq<char>>::empty());
        }
        while i < self.providers.len()
            invariant
                i <= self.providers.len(),
                all == provider_views(self.providers@),
                texts(r@) == selected_lockfiles(all.take(i as int), texts(selected@)),
            decreases self.providers.len() - i,
        {
            proof {
                assert(all.take(i + 1).drop_last() =~= all.take(i as int));
                assert(all.take(i + 1).last() == all[i as int]);
            }
            if contains_text(selected, self.providers[i].0.as_str()) {
                let mut more = self.providers[i].1.lockfiles();
                proof {
                    assert(texts(r@ + more@) =~= texts(r@) + texts(more@));
                }
                r.append(&mut more);
            }
            i = i + 1;
        }
        proof {
            assert(all.take(i as int) =~= all);
        }
        r
    }
}

/// The steps that bring the lockfiles of the selected providers up to date:
/// an `init -upgrade` in the directory of each of their lockfiles, laid out
/// as every schedule is. `None` where a lockfile has no directory, or where
/// a directory under `terragrunt` does not follow the layout
/// `terragrunt/accounts/<account>`.
pub fn update_lockfiles(providers: &Providers, selected_providers: &Vec<String>) -> (r: Option<
    Vec<Step>,
>)
    ensures
        r.is_some() == (all_have_parents(
            selected_lockfiles(providers@, texts(selected_providers@)),
        ) && all_follow_layout(
            split_all(parents_of(selected_lockfiles(providers@, texts(selected_providers@)))),
        )),
        r.is_some() ==> step_views(r.unwrap()@) == schedule_of(
            Operation::InitUpgrade,
            grouping_of(
                split_all(parents_of(selected_lockfiles(providers@, texts(selected_providers@)))),
            ),
        ),
{
    let lockfiles = providers.lockfiles_of(selected_providers);
    let all_dirs = match get_parents(&lockfiles) {
        Some(dirs) => dirs,
        None => {
            return None;
        },
    };
    match GroupedDirs::try_new(all_dirs) {
        Some(grouped) => {
            proof {
                lemma_grouping_of(grouped@, split_all(texts(all_dirs@)));
            }
            Some(schedule(Operation::InitUpgrade, &grouped))
        },
        None => None,
    }
}

/// The steps that upgrade the legacy account's directories: a logout, the
/// legacy login, an upgrade in each `terraform` directory, then an upgrade
/// in each legacy `terragrunt` directory.
pub fn upgrade_legacy_dirs(terraform_dirs: &Vec<String>, terragrunt_dirs: &Vec<String>) -> (r: Vec<
    Step,
>)
    ensures
        step_views(r@) == legacy_steps(
            Operation::InitUpgrade,
            texts(terraform_dirs@),
            texts(terragrunt_dirs@),
        ),
{
    legacy_schedule(Operation::InitUpgrade, terraform_dirs, terragrunt_dirs)
}

/// The steps that upgrade the directories of each account in turn: for each
/// account a logout, the login, and an upgrade in each of its directories.
pub fn upgrade_terragrunt_with_sso(terragrunt_sso_dirs: &Vec<(String, Vec<String>)>) -> (r: Vec<
    Step,
>)
    ensures
        step_views(r@) == sso_steps(Operation::InitUpgrade, account_views(terragrunt_sso_dirs@)),
{
    sso_schedule(Operation::InitUpgrade, terragrunt_sso_dirs)
}

/// The lockfiles of all `providers`, provider by provider.
pub open spec fn all_lockfiles_of(providers: Seq<(Seq<char>, Seq<(Seq<char>, Seq<Seq<char>>)>)>) -> Seq<
    Seq<char>,
>
    decreases providers.len(),
{
    if providers.len() == 0 {
        Seq::empty()
    } else {
        all_lockfiles_of(providers.drop_last()) + lockfiles_under(providers.last().1)
    }
}

impl Providers {
    /// The lockfiles of all providers; see [`all_lockfiles_of`].
    pub fn all_lockfiles(&self) -> (r: Vec<String>)
        ensures
            texts(r@) == all_lockfiles_of(self@),
    {
        let ghost all = self@;
        let mut r: Vec<String> = Vec::new();
        let mut i: usize = 0;
        proof {
            assert(all.take(0) =~= Seq::<(Seq<char>, Seq<(Seq<char>, Seq<Seq<char>>)>)>::empty());
            assert(texts(r@) =~= Seq::<Seq<char>>::empty());
        }
        while i < self.providers.len()
            invariant
                i <= self.providers.len(),
                all == provider_views(self.providers@),
                texts(r@) == all_lockfiles_of(all.take(i as int)),
            decreases self.providers.len() - i,
        {
            let mut more = self.providers[i].1.lockfiles();
            proof {
                assert(all.take(i + 1).drop_last() =~= all.take(i as int));
                assert(all.take(i + 1).last() == all[i as int]);
                assert(texts(r@ + more@) =~= texts(r@) + texts(more@));
            }
            r.append(&mut more);
            i = i + 1;
        }
        proof {
            assert(all.take(i as int) =~= all);
        }
        r
    }
}

} // verus!
