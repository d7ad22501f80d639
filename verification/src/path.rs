//! Paths as text, taken apart by `camino`.
//!
//! A path is held as a `String`. Everything that depends on how a path is
//! parsed is asked of `camino`, which follows the path syntax of the platform
//! the library is built for; the functions below name those answers so that
//! the rest of the library can state what it does with them.

use vstd::prelude::*;

verus! {

/// The kind of one path component, as `camino::Utf8Component` tells them apart.
#[derive(Clone, Copy, Debug, PartialEq, Eq, Structural)]
pub enum ComponentKind {
    Prefix,
    RootDir,
    CurDir,
    ParentDir,
    Normal,
}

/// One component of a path: its kind and the text it stands for in the path.
#[derive(Debug)]
pub struct PathComponent {
    pub kind: ComponentKind,
    pub text: String,
}

/// The mathematical value of a [`PathComponent`].
pub ghost struct ComponentView {
    pub kind: ComponentKind,
    pub text: Seq<char>,
}

impl View for PathComponent {
    type V = ComponentView;

    open spec fn view(&self) -> ComponentView {
        ComponentView { kind: self.kind, text: self.text@ }
    }
}

/// The values of a list of components.
pub open spec fn component_views(v: Seq<PathComponent>) -> Seq<ComponentView> {
    v.map_values(|c: PathComponent| c@)
}

/// The texts of a list of strings.
pub open spec fn texts(v: Seq<String>) -> Seq<Seq<char>> {
    v.map_values(|s: String| s@)
}

/// The components that `camino::Utf8Path::components` yields for `path`.
pub uninterp spec fn path_components(path: Seq<char>) -> Seq<ComponentView>;

/// What `camino::Utf8Path::parent` returns for `path`.
pub uninterp spec fn path_parent(path: Seq<char>) -> Option<Seq<char>>;

/// What `camino::Utf8Path::file_name` returns for `path`.
pub uninterp spec fn path_file_name(path: Seq<char>) -> Option<Seq<char>>;

/// What `camino::Utf8Path::extension` returns for `path`.
pub uninterp spec fn path_extension(path: Seq<char>) -> Option<Seq<char>>;

/// The path that `camino::Utf8Path::join` builds from `base` and `rel`.
pub uninterp spec fn path_join(base: Seq<char>, rel: Seq<char>) -> Seq<char>;

/// What `camino::Utf8Path::strip_prefix` leaves of `path` once `base` is
/// taken off its front, or `None` where `base` is no prefix of `path`.
pub uninterp spec fn path_strip_prefix(path: Seq<char>, base: Seq<char>) -> Option<Seq<char>>;

/// Whether `camino::Utf8Path::ends_with` finds `child` at the end of `path`.
pub uninterp spec fn path_ends_with(path: Seq<char>, child: Seq<char>) -> bool;

/// Calls `camino::Utf8Path::components` and hands each component out with its
/// kind and its text (`Utf8Component::as_str`). Trusted: the result is what
/// [`path_components`] names.
#[verifier::external_body]
pub(crate) fn components_of(path: &str) -> (r: Vec<PathComponent>)
    ensures
        component_views(r@) == path_components(path@),
{
    let mut out = Vec::new();
    for c in camino::Utf8Path::new(path).components() {
        let kind = match c {
            camino::Utf8Component::Prefix(_) => ComponentKind::Prefix,
            camino::Utf8Component::RootDir => ComponentKind::RootDir,
            camino::Utf8Component::CurDir => ComponentKind::CurDir,
            camino::Utf8Component::ParentDir => ComponentKind::ParentDir,
            camino::Utf8Component::Normal(_) => ComponentKind::Normal,
        };
        out.push(PathComponent { kind, text: c.as_str().to_string() });
    }
    out
}

/// Calls `camino::Utf8Path::parent`. Trusted: the result is what
/// [`path_parent`] names.
#[verifier::external_body]
pub(crate) fn parent_of(path: &str) -> (r: Option<String>)
    ensures
        r.is_some() == path_parent(path@).is_some(),
        r.is_some() ==> r.unwrap()@ == path_parent(path@).unwrap(),
{
    camino::Utf8Path::new(path).parent().map(|p| p.as_str().to_string())
}

/// Calls `camino::Utf8Path::file_name`. Trusted: the result is what
/// [`path_file_name`] names.
#[verifier::external_body]
pub(crate) fn file_name_of(path: &str) -> (r: Option<String>)
    ensures
        r.is_some() == path_file_name(path@).is_some(),
        r.is_some() ==> r.unwrap()@ == path_file_name(path@).unwrap(),
{
    camino::Utf8Path::new(path).file_name().map(|p| p.to_string())
}

/// Calls `camino::Utf8Path::extension`. Trusted: the result is what
/// [`path_extension`] names.
#[verifier::external_body]
pub(crate) fn extension_of(path: &str) -> (r: Option<String>)
    ensures
        r.is_some() == path_extension(path@).is_some(),
        r.is_some() ==> r.unwrap()@ == path_extension(path@).unwrap(),
{
    camino::Utf8Path::new(path).extension().map(|p| p.to_string())
}

/// Calls `camino::Utf8Path::join`. Trusted: the result is what
/// [`path_join`] names.
#[verifier::external_body]
pub(crate) fn join(base: &str, rel: &str) -> (r: String)
    ensures
        r@ == path_join(base@, rel@),
{
    camino::Utf8Path::new(base).join(rel).into_string()
}

/// Calls `camino::Utf8Path::strip_prefix`; its error carries nothing and
/// becomes `None`. Trusted: the result is what [`path_strip_prefix`] names.
#[verifier::external_body]
pub(crate) fn strip_prefix(path: &str, base: &str) -> (r: Option<String>)
    ensures
        r.is_some() == path_strip_prefix(path@, base@).is_some(),
        r.is_some() ==> r.unwrap()@ == path_strip_prefix(path@, base@).unwrap(),
{
    camino::Utf8Path::new(path).strip_prefix(base).ok().map(|p| p.as_str().to_string())
}

/// Calls `camino::Utf8Path::ends_with`. Trusted: the result is what
/// [`path_ends_with`] names.
#[verifier::external_body]
pub(crate) fn ends_with(path: &str, child: &str) -> (r: bool)
    ensures
        r == path_ends_with(path@, child@),
{
    camino::Utf8Path::new(path).ends_with(child)
}

} // verus!
