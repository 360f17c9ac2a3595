use vstd::prelude::*;

verus! {

/// The local copy of the crate whose reverse dependencies are checked.
#[derive(Debug)]
pub struct LocalCrate {
    canonicalized_path: String,
    name: String,
    version: String,
}

/// The plain contents of a [`LocalCrate`].
pub struct LocalCrateView {
    pub canonicalized_path: Seq<char>,
    pub name: Seq<char>,
    pub version: Seq<char>,
}

impl View for LocalCrate {
    type V = LocalCrateView;

    closed spec fn view(&self) -> LocalCrateView {
        LocalCrateView {
            canonicalized_path: self.canonicalized_path@,
            name: self.name@,
            version: self.version@,
        }
    }
}

/// The `[package]` of a manifest as far as it is read: its name, and its
/// version where the manifest sets it rather than inheriting it.
pub type ManifestPackage = (String, Option<String>);

/// The same as plain text.
pub open spec fn package_view(package: ManifestPackage) -> (Seq<char>, Option<Seq<char>>) {
    (
        package.0@,
        match package.1 {
            Some(version) => Some(version@),
            None => None,
        },
    )
}

/// A manifest as far as it is read, as plain text: `Err` where it does not
/// parse, `Ok(None)` where it has no package.
pub open spec fn manifest_view(manifest: Result<Option<ManifestPackage>, ()>) -> Result<
    Option<(Seq<char>, Option<Seq<char>>)>,
    (),
> {
    match manifest {
        Ok(Some(package)) => Ok(Some(package_view(package))),
        Ok(None) => Ok(None),
        Err(_) => Err(()),
    }
}

/// What `cargo_toml::Manifest::from_str` reads from the text of a `Cargo.toml`,
/// as far as it is read here.
pub uninterp spec fn cargo_manifest_package(text: Seq<char>) -> Result<
    Option<(Seq<char>, Option<Seq<char>>)>,
    (),
>;

/// Calls `cargo_toml::Manifest::from_str` and keeps the package's name and set
/// version; the contract claims that these are the named result
/// `cargo_manifest_package` of the text.
#[verifier::external_body]
fn read_manifest(text: &str) -> (manifest: Result<Option<ManifestPackage>, ()>)
    ensures
        manifest_view(manifest) == cargo_manifest_package(text@),
{
    match cargo_toml::Manifest::<cargo_toml::Value>::from_str(text) {
        Err(_) => Err(()),
        Ok(manifest) => match manifest.package {
            None => Ok(None),
            Some(package) => match package.version {
                cargo_toml::Inheritable::Set(version) => Ok(Some((package.name, Some(version)))),
                cargo_toml::Inheritable::Inherited { .. } => Ok(Some((package.name, None))),
            },
        },
    }
}

/// The local crate that a manifest read as `manifest` describes, at
/// `canonicalized_path`, where it has a package with a set version.
pub open spec fn crate_of(canonicalized_path: Seq<char>, manifest: Result<
    Option<(Seq<char>, Option<Seq<char>>)>,
    (),
>) -> Option<LocalCrateView> {
    match manifest {
        Ok(Some((name, Some(version)))) => Some(LocalCrateView { canonicalized_path, name, version }),
        _ => None,
    }
}

/// The local crate keeps the manifest's text: where the package sets a
/// version, the crate has exactly that name, that version text (pre-release and
/// build parts included) and the given path; otherwise there is no crate.
pub proof fn lemma_crate_keeps_manifest_text(
    canonicalized_path: Seq<char>,
    manifest: Result<Option<(Seq<char>, Option<Seq<char>>)>, ()>,
)
    ensures
        manifest matches Ok(Some((name, Some(version)))) ==> crate_of(canonicalized_path, manifest)
            matches Some(c) && c.name == name && c.version == version && c.canonicalized_path
            == canonicalized_path,
        !(manifest matches Ok(Some((_, Some(_))))) ==> crate_of(canonicalized_path, manifest) is None,
{
}

impl LocalCrate {
    /// The local crate at `canonicalized_path` whose manifest reads as
    /// `manifest`; `Err` where the manifest did not parse, has no package, or
    /// does not set the package's version.
    pub fn from_package(canonicalized_path: &str, manifest: Result<Option<ManifestPackage>, ()>) -> (local_crate: Result<Self, ()>)
        ensures
            match crate_of(canonicalized_path@, manifest_view(manifest)) {
                Some(expected) => local_crate matches Ok(c) && c@ == expected,
                None => local_crate is Err,
            },
            match manifest {
                Ok(Some((name, Some(version)))) => local_crate matches Ok(c) && c@.name == name@
                    && c@.version == version@ && c@.canonicalized_path == canonicalized_path@,
                _ => local_crate is Err,
            },
    {
        match manifest {
            Ok(Some((name, Some(version)))) => Ok(
                LocalCrate { canonicalized_path: String::from_str(canonicalized_path), name, version },
            ),
            _ => Err(()),
        }
    }

    /// The local crate at `canonicalized_path` whose `Cargo.toml` holds
    /// `manifest`; `Err` where it does not parse, has no package, or does not
    /// set the package's version.
    pub fn from_manifest(canonicalized_path: &str, manifest: &str) -> (local_crate: Result<Self, ()>)
        ensures
            match crate_of(canonicalized_path@, cargo_manifest_package(manifest@)) {
                Some(expected) => local_crate matches Ok(c) && c@ == expected,
                None => local_crate is Err,
            },
    {
        Self::from_package(canonicalized_path, read_manifest(manifest))
    }

    /// `api_base_url/api/v1/crates/name/reverse_dependencies`.
    pub fn get_reverse_dependencies_url(&self, api_base_url: &str) -> (url: String)
        ensures
            url@ == api_base_url@ + "/api/v1/crates/"@ + self@.name + "/reverse_dependencies"@,
    {
        let mut url = String::from_str(api_base_url);
        url.append("/api/v1/crates/");
        url.append(self.name.as_str());
        url.append("/reverse_dependencies");
        url
    }

    pub fn get_canonicalized_path(&self) -> (path: String)
        ensures
            path@ == self@.canonicalized_path,
    {
        self.canonicalized_path.clone()
    }

    pub fn get_version(&self) -> (version: &str)
        ensures
            version@ == self@.version,
    {
        self.version.as_str()
    }
}

} // verus!
