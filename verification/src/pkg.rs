use vstd::prelude::*;

verus! {

/// Mathematical value of a `Package`: every string field as a character
/// sequence, dependencies as a sequence of the same shape.
#[verifier::ext_equal]
pub ghost struct PkgV {
    pub name: Seq<char>,
    pub version: Seq<char>,
    pub resolution: Seq<char>,
    pub checksum: Option<Seq<char>>,
    pub registry: Seq<char>,
    pub display_name: Seq<char>,
    pub license: Seq<char>,
    pub license_expiration: Option<Seq<char>>,
    pub url: Seq<char>,
    pub license_url: Option<Seq<char>>,
    pub debug_info: Option<Seq<char>>,
    pub dependencies: Seq<PkgV>,
    pub processed: bool,
    pub retry_for_unknown: bool,
    pub raw_api_response: Option<Seq<char>>,
}

pub open spec fn view_opt(o: Option<String>) -> Option<Seq<char>> {
    match o {
        Some(s) => Some(s@),
        None => None,
    }
}

/// A package reference: the identity read from a lockfile, extended with
/// resolution results once a registry has been consulted.
pub struct Package {
    // Identity fields, set when the package is first seen.
    pub name: String,
    pub version: String,
    pub resolution: String,
    pub checksum: Option<String>,
    // Resolution fields, filled in once the package has been looked up.
    pub registry: String,
    pub display_name: String,
    pub license: String,
    pub license_expiration: Option<String>,
    pub url: String,
    pub license_url: Option<String>,
    pub debug_info: Option<String>,
    pub dependencies: Vec<Package>,
    pub processed: bool,
    pub retry_for_unknown: bool,
    pub raw_api_response: Option<String>,
}

impl Package {
    /// The mathematical value of this package.
    pub open spec fn pv(self) -> PkgV
        decreases self,
    {
        PkgV {
            name: self.name@,
            version: self.version@,
            resolution: self.resolution@,
            checksum: view_opt(self.checksum),
            registry: self.registry@,
            display_name: self.display_name@,
            license: self.license@,
            license_expiration: view_opt(self.license_expiration),
            url: self.url@,
            license_url: view_opt(self.license_url),
            debug_info: view_opt(self.debug_info),
            dependencies: pvs(self.dependencies@),
            processed: self.processed,
            retry_for_unknown: self.retry_for_unknown,
            raw_api_response: view_opt(self.raw_api_response),
        }
    }
}

/// The mathematical values of a sequence of packages.
pub open spec fn pvs(deps: Seq<Package>) -> Seq<PkgV>
    decreases deps,
{
    if deps.len() == 0 {
        Seq::<PkgV>::empty()
    } else {
        seq![deps[0].pv()] + pvs(deps.subrange(1, deps.len() as int))
    }
}

/// `pvs` maps each element to its value.
pub proof fn lemma_pvs(deps: Seq<Package>)
    ensures
        pvs(deps).len() == deps.len(),
        forall|i: int| 0 <= i < deps.len() ==> pvs(deps)[i] == deps[i].pv(),
    decreases deps,
{
    if deps.len() > 0 {
        lemma_pvs(deps.subrange(1, deps.len() as int));
        assert(forall|i: int|
            1 <= i < deps.len() ==> deps.subrange(1, deps.len() as int)[i - 1] == deps[i]);
    }
}

/// The value of a package freshly read from a lockfile: identity fields set,
/// everything else empty.
pub open spec fn fresh_pkg(
    name: Seq<char>,
    version: Seq<char>,
    resolution: Seq<char>,
    checksum: Option<Seq<char>>,
) -> PkgV {
    PkgV {
        name: name,
        version: version,
        resolution: resolution,
        checksum: checksum,
        registry: Seq::<char>::empty(),
        display_name: Seq::<char>::empty(),
        license: Seq::<char>::empty(),
        license_expiration: None,
        url: Seq::<char>::empty(),
        license_url: None,
        debug_info: None,
        dependencies: Seq::<PkgV>::empty(),
        processed: false,
        retry_for_unknown: false,
        raw_api_response: None,
    }
}

/// The value of an error placeholder: license UNKNOWN, the error text kept
/// as diagnostics, no dependencies, already processed.
pub open spec fn error_pkg(
    name: Seq<char>,
    version: Seq<char>,
    registry: Seq<char>,
    url: Seq<char>,
    error_msg: Seq<char>,
) -> PkgV {
    PkgV {
        name: name,
        version: version,
        resolution: Seq::<char>::empty(),
        checksum: None,
        registry: registry,
        display_name: name + "@"@ + version,
        license: "UNKNOWN"@,
        license_expiration: None,
        url: url,
        license_url: None,
        debug_info: Some(error_msg),
        dependencies: Seq::<PkgV>::empty(),
        processed: true,
        retry_for_unknown: false,
        raw_api_response: None,
    }
}

fn clone_opt_string(o: &Option<String>) -> (r: Option<String>)
    ensures
        view_opt(r) == view_opt(*o),
{
    match o {
        Some(s) => Some(s.clone()),
        None => None,
    }
}

impl Package {
    /// Create a new package from lockfile data.
    pub fn new(name: String, version: String, resolution: String, checksum: Option<String>) -> (r:
        Package)
        ensures
            r.pv() == fresh_pkg(name@, version@, resolution@, view_opt(checksum)),
    {
        let r = Package {
            name,
            version,
            resolution,
            checksum,
            registry: String::new(),
            display_name: String::new(),
            license: String::new(),
            license_expiration: None,
            url: String::new(),
            license_url: None,
            debug_info: None,
            dependencies: Vec::new(),
            processed: false,
            retry_for_unknown: false,
            raw_api_response: None,
        };
        proof {
            assert(r.pv().dependencies =~= Seq::<PkgV>::empty());
            assert(r.pv() =~~= fresh_pkg(r.name@, r.version@, r.resolution@, view_opt(r.checksum)));
        }
        r
    }

    /// Create a package that records a failed resolution.
    pub fn with_error(
        name: String,
        version: String,
        registry: &str,
        url: String,
        error_msg: &str,
    ) -> (r: Package)
        ensures
            r.pv() == error_pkg(name@, version@, registry@, url@, error_msg@),
    {
        let mut display_name = name.clone();
        display_name.append("@");
        display_name.append(version.as_str());
        let r = Package {
            name,
            version,
            resolution: String::new(),
            checksum: None,
            registry: registry.to_owned(),
            display_name,
            license: "UNKNOWN".to_owned(),
            license_expiration: None,
            url,
            license_url: None,
            debug_info: Some(error_msg.to_owned()),
            dependencies: Vec::new(),
            processed: true,
            retry_for_unknown: false,
            raw_api_response: None,
        };
        proof {
            assert(r.pv().dependencies =~= Seq::<PkgV>::empty());
            assert(r.pv() =~~= error_pkg(r.name@, r.version@, r.registry@, r.url@, error_msg@));
        }
        r
    }

    /// Mark this package as processed.
    pub fn mark_processed(&mut self)
        ensures
            final(self).pv() == (PkgV { processed: true, ..old(self).pv() }),
    {
        self.processed = true;
        proof {
            assert(final(self).pv() =~~= (PkgV { processed: true, ..old(self).pv() }));
        }
    }

    /// Whether this package has been processed.
    pub fn is_processed(&self) -> (r: bool)
        ensures
            r == self.pv().processed,
    {
        self.processed
    }

    /// The stored display name, or `name@version` when none was stored.
    pub fn display_name(&self) -> (r: String)
        ensures
            r@ == if self.pv().display_name.len() != 0 {
                self.pv().display_name
            } else {
                self.pv().name + "@"@ + self.pv().version
            },
    {
        if !self.display_name.as_str().is_empty() {
            self.display_name.clone()
        } else {
            let mut d = self.name.clone();
            d.append("@");
            d.append(self.version.as_str());
            d
        }
    }

    /// A fresh package with the same value in every field.
    pub fn duplicate(&self) -> (r: Package)
        ensures
            r.pv() == self.pv(),
        decreases *self,
    {
        let mut deps: Vec<Package> = Vec::new();
        let n = self.dependencies.len();
        let mut i: usize = 0;
        while i < n
            invariant
                i <= n,
                n == self.dependencies@.len(),
                deps@.len() == i,
                forall|j: int| 0 <= j < i ==> deps@[j].pv() == self.dependencies@[j].pv(),
            decreases n - i,
        {
            proof {
                assert(decreases_to!(*self => self.dependencies@[i as int]));
            }
            let d = self.dependencies[i].duplicate();
            deps.push(d);
            i += 1;
        }
        let r = Package {
            name: self.name.clone(),
            version: self.version.clone(),
            resolution: self.resolution.clone(),
            checksum: clone_opt_string(&self.checksum),
            registry: self.registry.clone(),
            display_name: self.display_name.clone(),
            license: self.license.clone(),
            license_expiration: clone_opt_string(&self.license_expiration),
            url: self.url.clone(),
            license_url: clone_opt_string(&self.license_url),
            debug_info: clone_opt_string(&self.debug_info),
            dependencies: deps,
            processed: self.processed,
            retry_for_unknown: self.retry_for_unknown,
            raw_api_response: clone_opt_string(&self.raw_api_response),
        };
        proof {
            lemma_pvs(r.dependencies@);
            lemma_pvs(self.dependencies@);
            assert(r.pv().dependencies =~= self.pv().dependencies);
            assert(r.pv() =~~= self.pv());
        }
        r
    }
}

/// A package identity as read directly from a lockfile.
pub struct LockfilePackage {
    pub name: String,
    pub version: String,
    pub resolution: String,
    pub checksum: Option<String>,
}

impl LockfilePackage {
    /// Convert a lockfile entry into the unified package type.
    pub fn to_package(&self) -> (r: Package)
        ensures
            r.pv() == fresh_pkg(
                self.name@,
                self.version@,
                self.resolution@,
                view_opt(self.checksum),
            ),
    {
        Package::new(
            self.name.clone(),
            self.version.clone(),
            self.resolution.clone(),
            clone_opt_string(&self.checksum),
        )
    }
}

/// Resolution results for a package, kept separate from the identity.
pub struct PackageInfo {
    pub registry: String,
    pub name: String,
    pub license: String,
    pub license_expiration: Option<String>,
    pub url: String,
    pub license_url: Option<String>,
    pub debug_info: Option<String>,
    pub dependencies: Vec<Package>,
}

} // verus!
