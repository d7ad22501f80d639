//! The providers as text, for the user to read.

use crate::path::{path_strip_prefix, strip_prefix, texts};
use crate::upgrade_provider::{provider_views, version_views, ProviderVersions, Providers};
use vstd::prelude::*;
use vstd::string::*;

verus! {

/// The text that `{:?}` writes for the string `s`.
pub uninterp spec fn debug_text(s: Seq<char>) -> Seq<char>;

/// Formats `s` with `{:?}`. Trusted: the result is what [`debug_text`]
/// names.
#[verifier::external_body]
fn debug_of(s: &str) -> (r: String)
    ensures
        r@ == debug_text(s@),
{
    format!("{:?}", s)
}

/// The items as `{:?}` writes them, with `, ` between them.
pub open spec fn debug_items(items: Seq<Seq<char>>) -> Seq<char>
    decreases items.len(),
{
    if items.len() == 0 {
        Seq::empty()
    } else if items.len() == 1 {
        debug_text(items[0])
    } else {
        debug_items(items.drop_last()) + ", "@ + debug_text(items.last())
    }
}

/// The list as `{:?}` writes it: the items in square brackets.
pub open spec fn debug_list(items: Seq<Seq<char>>) -> Seq<char> {
    "["@ + debug_items(items) + "]"@
}

/// Whether every one of `paths` lies under `base`.
pub open spec fn all_under(paths: Seq<Seq<char>>, base: Seq<char>) -> bool {
    forall|i: int| 0 <= i < paths.len() ==> path_strip_prefix(#[trigger] paths[i], base) is Some
}

/// Each of `paths` as seen from `base`.
pub open spec fn relative_to(paths: Seq<Seq<char>>, base: Seq<char>) -> Seq<Seq<char>> {
    paths.map_values(|p: Seq<char>| path_strip_prefix(p, base).unwrap())
}

/// Whether the lockfiles of all `versions` lie under `base`.
pub open spec fn versions_under(versions: Seq<(Seq<char>, Seq<Seq<char>>)>, base: Seq<char>) -> bool {
    forall|i: int| 0 <= i < versions.len() ==> all_under((#[trigger] versions[i]).1, base)
}

/// One entry for each version: the version, an arrow, and the list of its
/// lockfiles as seen from `base`.
pub open spec fn versions_text(versions: Seq<(Seq<char>, Seq<Seq<char>>)>, base: Seq<char>) -> Seq<
    char,
>
    decreases versions.len(),
{
    if versions.len() == 0 {
        Seq::empty()
    } else {
        versions_text(versions.drop_last(), base) + "\n  - "@ + versions.last().0 + " -> "@
            + debug_list(relative_to(versions.last().1, base)) + "\n"@
    }
}

/// Whether the lockfiles of all `providers` lie under `base`.
pub open spec fn providers_under(
    providers: Seq<(Seq<char>, Seq<(Seq<char>, Seq<Seq<char>>)>)>,
    base: Seq<char>,
) -> bool {
    forall|i: int| 0 <= i < providers.len() ==> versions_under((#[trigger] providers[i]).1, base)
}

/// One entry for each provider: its name and its versions.
pub open spec fn providers_text(
    providers: Seq<(Seq<char>, Seq<(Seq<char>, Seq<Seq<char>>)>)>,
    base: Seq<char>,
) -> Seq<char>
    decreases providers.len(),
{
    if providers.len() == 0 {
        Seq::empty()
    } else {
        providers_text(providers.drop_last(), base) + "- "@ + providers.last().0 + ":"@
            + versions_text(providers.last().1, base) + "\n"@
    }
}

/// The list of `paths` as seen from `base`; `None` where one of them does
/// not lie under `base`.
fn relative_list(paths: &Vec<String>, base: &str) -> (r: Option<String>)
    ensures
        r.is_some() == all_under(texts(paths@), base@),
        r.is_some() ==> r.unwrap()@ == debug_list(relative_to(texts(paths@), base@)),
{
    let ghost all = texts(paths@);
    let ghost wanted = relative_to(all, base@);
    let mut list = String::from_str("[");
    let mut i: usize = 0;
    proof {
        assert(wanted.take(0) =~= Seq::<Seq<char>>::empty());
        assert("["@ + Seq::<char>::empty() =~= "["@);
    }
    while i < paths.len()
        invariant
            i <= paths.len(),
            all == texts(paths@),
            wanted == relative_to(all, base@),
            forall|j: int| 0 <= j < i ==> path_strip_prefix(#[trigger] all[j], base@) is Some,
            list@ == "["@ + debug_items(wanted.take(i as int)),
        decreases paths.len() - i,
    {
        proof {
            assert(all[i as int] == paths[i as int]@);
        }
        let relative = match strip_prefix(paths[i].as_str(), base) {
            Some(relative) => relative,
            None => {
                return None;
            },
        };
        let ghost before = list@;
        if i > 0 {
            list.append(", ");
        }
        let shown = debug_of(relative.as_str());
        list.append(shown.as_str());
        proof {
            let now = wanted.take(i + 1);
            assert(now.drop_last() =~= wanted.take(i as int));
            assert(now.last() == relative@);
            if i == 0 {
                assert(now[0] == relative@);
                assert(debug_items(wanted.take(0)) =~= Seq::<char>::empty());
                assert(before + shown@ =~= "["@ + debug_items(now));
            } else {
                assert(before + ", "@ + shown@ =~= "["@ + debug_items(now));
            }
        }
        i = i + 1;
    }
    proof {
        assert(wanted.take(i as int) =~= wanted);
    }
    list.append("]");
    Some(list)
}

impl ProviderVersions {
    /// The versions as text, the lockfiles as seen from `current_dir`; see
    /// [`versions_text`]. `None` where a lockfile does not lie under
    /// `current_dir`.
    pub fn to_text(&self, current_dir: &str) -> (r: Option<String>)
        ensures
            r.is_some() == versions_under(self@, current_dir@),
            r.is_some() ==> r.unwrap()@ == versions_text(self@, current_dir@),
    {
        let versions = self.versions();
        let ghost all = self@;
        let mut text = String::new();
        let mut i: usize = 0;
        proof {
            assert(all.take(0) =~= Seq::<(Seq<char>, Seq<Seq<char>>)>::empty());
        }
        while i < versions.len()
            invariant
                i <= versions.len(),
                all == version_views(versions@),
                all == self@,
                forall|j: int| 0 <= j < i ==> all_under((#[trigger] all[j]).1, current_dir@),
                text@ == versions_text(all.take(i as int), current_dir@),
            decreases versions.len() - i,
        {
            proof {
                assert(all.take(i + 1).drop_last() =~= all.take(i as int));
                assert(all.take(i + 1).last() == all[i as int]);
            }
            let list = match relative_list(&versions[i].1, current_dir) {
                Some(list) => list,
                None => {
                    proof {
                        assert(!all_under(all[i as int].1, current_dir@));
                    }
                    return None;
                },
            };
            text.append("\n  - ");
            text.append(versions[i].0.as_str());
            text.append(" -> ");
            text.append(list.as_str());
            text.append("\n");
            i = i + 1;
        }
        proof {
            assert(all.take(i as int) =~= all);
        }
        Some(text)
    }
}

impl Providers {
    /// The providers as text, the lockfiles as seen from `current_dir`; see
    /// [`providers_text`]. `None` where a lockfile does not lie under
    /// `current_dir`.
    pub fn to_text(&self, current_dir: &str) -> (r: Option<String>)
        ensures
            r.is_some() == providers_under(self@, current_dir@),
            r.is_some() ==> r.unwrap()@ == providers_text(self@, current_dir@),
    {
        let providers = self.providers();
        let ghost all = self@;
        let mut text = String::new();
        let mut i: usize = 0;
        proof {
            assert(all.take(0) =~= Seq::<(Seq<char>, Seq<(Seq<char>, Seq<Seq<char>>)>)>::empty());
        }
        while i < providers.len()
            invariant
                i <= providers.len(),
                all == provider_views(providers@),
                all == self@,
                forall|j: int| 0 <= j < i ==> versions_under((#[trigger] all[j]).1, current_dir@),
                text@ == providers_text(all.take(i as int), current_dir@),
            decreases providers.len() - i,
        {
            proof {
                assert(all.take(i + 1).drop_last() =~= all.take(i as int));
                assert(all.take(i + 1).last() == all[i as int]);
            }
            let versions = match providers[i].1.to_text(current_dir) {
                Some(versions) => versions,
                None => {
                    proof {
                        assert(!versions_under(all[i as int].1, current_dir@));
                    }
                    return None;
                },
            };
            text.append("- ");
            text.append(providers[i].0.as_str());
            text.append(":");
            text.append(versions.as_str());
            text.append("\n");
            i = i + 1;
        }
        proof {
            assert(all.take(i as int) =~= all);
        }
        Some(text)
    }
}

} // verus!
