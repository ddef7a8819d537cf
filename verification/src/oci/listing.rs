//! Finding the packages of a namespace among the repositories of a registry.

use vstd::prelude::*;

use crate::error::Error;
use crate::error::ErrorView;
use crate::oci::backend::or_nothing;
use crate::oci::backend::repository_of;
use crate::oci::backend::OciBackend;
use crate::oci::transport::CatalogPage;
use crate::package::is_label;
use crate::package::law_label_characters;
use crate::package::law_package_text_reads_back;
use crate::package::package_of;
use crate::package::package_text;
use crate::package::PackageNames;
use crate::package::PackageRef;
use crate::text::all_in;
use crate::text::contains_char;
use crate::text::cut;
use crate::text::decimal;
use crate::text::law_end_is_taken;
use crate::text::law_pieces_join_to_the_text;
use crate::text::lemma_position;
use crate::text::opt_text;
use crate::text::position;
use crate::text::same_text;
use crate::text::slice_texts;
use crate::text::split;
use crate::text::strip_prefix;
use crate::text::texts;
use crate::text::to_decimal;
use crate::text::trim_end;
use crate::text::trimmed_end;
use crate::text::without_prefix;
use crate::text::CharClass;

verus! {

/// The number of entries that one page is asked for.
pub const PAGE_SIZE: usize = 100;

/// What the repositories of the packages of a namespace start with.
pub open spec fn repository_prefix(prefix: Option<Seq<char>>, namespace: Seq<char>) -> Seq<char> {
    or_nothing(prefix) + namespace + "/"@
}

/// The package of the namespace that lies in the repository, where one does. Repositories that are
/// nested further hold none.
pub open spec fn package_in(
    repository: Seq<char>,
    prefix: Option<Seq<char>>,
    namespace: Seq<char>,
) -> Option<PackageNames> {
    match strip_prefix(repository, repository_prefix(prefix, namespace)) {
        Some(name) => if name.contains('/') {
            None
        } else {
            match package_of(package_text((namespace, name))) {
                Ok(names) => Some(names),
                Err(_) => None,
            }
        },
        None => None,
    }
}

/// The packages of the namespace that lie in the repositories, in the order of these.
pub open spec fn packages_in(
    repositories: Seq<Seq<char>>,
    prefix: Option<Seq<char>>,
    namespace: Seq<char>,
) -> Seq<PackageNames>
    decreases repositories.len(),
{
    if repositories.len() == 0 {
        Seq::empty()
    } else {
        let before = packages_in(repositories.drop_last(), prefix, namespace);
        match package_in(repositories.last(), prefix, namespace) {
            Some(names) => before.push(names),
            None => before,
        }
    }
}

/// The names of a list of packages.
pub open spec fn all_names(packages: Seq<PackageRef>) -> Seq<PackageNames> {
    Seq::new(packages.len(), |i: int| packages[i].names())
}

/// The names on a page of the GitHub API, from the reply to the request for it: why there was none, that
/// there is no such page, or what its body reads as.
pub fn page_of(reply: Result<Option<Result<Vec<String>, String>>, String>) -> (res: Result<
    Option<Vec<String>>,
    Error,
>)
    ensures
        match reply {
            Err(text) => res matches Err(e) && e@ == ErrorView::RegistryError(text@),
            Ok(None) => res == Ok::<Option<Vec<String>>, Error>(None),
            Ok(Some(Err(text))) => res matches Err(e) && e@ == ErrorView::RegistryError(text@),
            Ok(Some(Ok(names))) => res == Ok::<Option<Vec<String>>, Error>(Some(names)),
        },
{
    match reply {
        Err(text) => Err(Error::RegistryError(text)),
        Ok(None) => Ok(None),
        Ok(Some(Err(text))) => Err(Error::RegistryError(text)),
        Ok(Some(Ok(names))) => Ok(Some(names)),
    }
}

/// The packages of a namespace that were found so far.
pub struct Found {
    pub prefix: Option<String>,
    pub namespace: String,
    pub packages: Vec<PackageRef>,
}

impl Found {
    /// The packages of the namespace are sought in the backend, and nothing was found yet.
    pub open spec fn begins(self, backend: OciBackend, namespace: Seq<char>) -> bool {
        &&& self.prefix == backend.namespace_prefix
        &&& self.namespace@ == namespace
        &&& all_names(self.packages@) == Seq::<PackageNames>::empty()
    }

    /// Nothing was found yet.
    pub fn new(prefix: Option<String>, namespace: String) -> (res: Self)
        ensures
            res.prefix == prefix,
            res.namespace == namespace,
            all_names(res.packages@) == Seq::<PackageNames>::empty(),
    {
        let res = Found { prefix, namespace, packages: Vec::new() };
        assert(all_names(res.packages@) =~= Seq::<PackageNames>::empty());
        res
    }

    /// The package of the namespace that lies in the repository.
    pub fn select(&self, repository: &str) -> (res: Option<PackageRef>)
        ensures
            match (res, package_in(repository@, opt_text(self.prefix), self.namespace@)) {
                (Some(r), Some(names)) => r.names() == names && r.wf(),
                (None, None) => true,
                _ => false,
            },
    {
        let mut start = match &self.prefix {
            Some(prefix) => prefix.clone(),
            None => String::new(),
        };
        start.append(self.namespace.as_str());
        start.append("/");
        match without_prefix(repository, start.as_str()) {
            Some(name) => {
                if contains_char(name, '/') {
                    return None;
                }
                let mut text = self.namespace.clone();
                text.append(":");
                text.append(name);
                match PackageRef::parse(text.as_str()) {
                    Ok(package) => Some(package),
                    Err(_) => None,
                }
            },
            None => None,
        }
    }

    /// Adds the packages that lie in the repositories.
    pub fn add(&mut self, repositories: &Vec<String>)
        ensures
            final(self).prefix == old(self).prefix,
            final(self).namespace == old(self).namespace,
            all_names(final(self).packages@) == all_names(old(self).packages@) + packages_in(
                texts(repositories@),
                opt_text(old(self).prefix),
                old(self).namespace@,
            ),
    {
        let ghost all = texts(repositories@);
        let ghost before = all_names(self.packages@);
        let ghost prefix = opt_text(self.prefix);
        let ghost namespace = self.namespace@;
        let mut i: usize = 0;
        assert(all.take(0) =~= Seq::<Seq<char>>::empty());
        assert(before + packages_in(all.take(0), prefix, namespace) =~= before);
        while i < repositories.len()
            invariant
                i <= repositories.len(),
                all == texts(repositories@),
                self.prefix == old(self).prefix,
                self.namespace == old(self).namespace,
                prefix == opt_text(self.prefix),
                namespace == self.namespace@,
                all_names(self.packages@) == before + packages_in(
                    all.take(i as int),
                    prefix,
                    namespace,
                ),
            decreases repositories.len() - i,
        {
            assert(all.take(i + 1).drop_last() =~= all.take(i as int));
            assert(all.take(i + 1).last() == repositories@[i as int]@);
            if let Some(package) = self.select(repositories[i].as_str()) {
                let ghost packages = self.packages@;
                let ghost names = package.names();
                self.packages.push(package);
                assert(all_names(self.packages@) =~= all_names(packages).push(names));
                assert(all_names(self.packages@) =~= before + packages_in(
                    all.take(i as int),
                    prefix,
                    namespace,
                ).push(names));
            }
            i += 1;
        }
        assert(all.take(i as int) =~= all);
    }
}

// ---------------------------------------------------------------------------
// The catalog of a registry
// ---------------------------------------------------------------------------

/// A walk through the catalog of a registry.
pub struct CatalogListing {
    pub found: Found,
    /// The cursor of the next page; the first page has none.
    pub last: Option<String>,
}

impl CatalogListing {
    /// The walk stands at its start.
    pub open spec fn begins(self, backend: OciBackend, namespace: Seq<char>) -> bool {
        self.found.begins(backend, namespace) && self.last is None
    }

    /// Takes a page. Whether another page is to be asked for is returned.
    pub fn receive(&mut self, page: CatalogPage) -> (res: bool)
        ensures
            res == (page.next_last is Some),
            final(self).last == page.next_last,
            final(self).found.prefix == old(self).found.prefix,
            final(self).found.namespace == old(self).found.namespace,
            all_names(final(self).found.packages@) == all_names(old(self).found.packages@)
                + packages_in(
                texts(page.repositories@),
                opt_text(old(self).found.prefix),
                old(self).found.namespace@,
            ),
    {
        self.found.add(&page.repositories);
        self.last = page.next_last;
        self.last.is_some()
    }
}

// ---------------------------------------------------------------------------
// The packages of an owner at GitHub
// ---------------------------------------------------------------------------

/// The owner whose packages are listed: the first component of the prefix, or else the namespace.
pub open spec fn owner(prefix: Option<Seq<char>>, namespace: Seq<char>) -> Seq<char> {
    match prefix {
        Some(p) => split(trim_end(p, CharClass::Only('/')), '/')[0],
        None => namespace,
    }
}

/// A walk through the packages of an owner at GitHub.
pub struct GithubListing {
    pub found: Found,
    pub org: String,
    /// The number of the page that is asked for.
    pub page: u32,
}

impl GithubListing {
    /// The walk stands at its start.
    pub open spec fn begins(self, backend: OciBackend, namespace: Seq<char>) -> bool {
        &&& self.found.begins(backend, namespace)
        &&& self.org@ == owner(backend.prefix(), namespace)
        &&& self.page == 1
    }

    /// The URL of the page that is asked for.
    pub fn url(&self) -> (res: String)
        ensures
            res@ == "https://api.github.com/orgs/"@ + self.org@
                + "/packages?package_type=container&per_page=100&page="@ + decimal(
                self.page as nat,
            ),
    {
        let mut url = "https://api.github.com/orgs/".to_string();
        url.append(self.org.as_str());
        url.append("/packages?package_type=container&per_page=100&page=");
        url.append(to_decimal(self.page as u64).as_str());
        url
    }

    /// Takes a page: the names of the packages on it, or nothing where there is no such page. Whether
    /// another page is to be asked for is returned: a page that is not full is the last one.
    pub fn receive(&mut self, names: Option<Vec<String>>) -> (res: bool)
        requires
            names matches Some(list) && list@.len() >= PAGE_SIZE ==> old(self).page < u32::MAX,
        ensures
            res == (names matches Some(list) && list@.len() >= PAGE_SIZE),
            res <==> (names matches Some(list) && list@.len() >= 100),
            final(self).page == old(self).page + (if res {
                1int
            } else {
                0
            }),
            final(self).org == old(self).org,
            final(self).found.prefix == old(self).found.prefix,
            final(self).found.namespace == old(self).found.namespace,
            all_names(final(self).found.packages@) == all_names(old(self).found.packages@) + (
            match names {
                Some(list) => packages_in(
                    texts(list@),
                    opt_text(old(self).found.prefix),
                    old(self).found.namespace@,
                ),
                None => Seq::empty(),
            }),
    {
        match names {
            None => false,
            Some(list) => {
                self.found.add(&list);
                if list.len() < PAGE_SIZE {
                    return false;
                }
                self.page = self.page + 1;
                true
            },
        }
    }
}

/// A walk through the packages of a namespace.
pub enum Listing {
    Github(GithubListing),
    Catalog(CatalogListing),
}

impl OciBackend {
    /// Starts a walk through the packages of a namespace. The registry `ghcr.io` does not offer its
    /// catalog; there the packages are listed by the GitHub Packages API.
    pub fn list_packages_in_namespace(&self, namespace: &str) -> (res: Listing)
        ensures
            if trim_end(self.oci_registry@, CharClass::Only('/')) == "ghcr.io"@ {
                res matches Listing::Github(l) && l.begins(*self, namespace@)
            } else {
                res matches Listing::Catalog(l) && l.begins(*self, namespace@)
            },
    {
        let registry = trimmed_end(self.oci_registry.as_str(), CharClass::Only('/'));
        if same_text(registry, "ghcr.io") {
            Listing::Github(self.list_packages_github(namespace))
        } else {
            Listing::Catalog(self.list_packages_catalog(namespace))
        }
    }

    /// Starts a walk through the catalog of the registry.
    pub fn list_packages_catalog(&self, namespace: &str) -> (res: CatalogListing)
        ensures
            res.begins(*self, namespace@),
    {
        CatalogListing {
            found: Found::new(self.namespace_prefix.clone(), namespace.to_string()),
            last: None,
        }
    }

    /// Starts a walk through the packages at GitHub.
    pub fn list_packages_github(&self, namespace: &str) -> (res: GithubListing)
        ensures
            res.begins(*self, namespace@),
    {
        let org = match &self.namespace_prefix {
            Some(prefix) => {
                let pieces = cut(trimmed_end(prefix.as_str(), CharClass::Only('/')), '/');
                assert(slice_texts(pieces@)[0] == pieces@[0]@);
                pieces[0].to_string()
            },
            None => namespace.to_string(),
        };
        GithubListing {
            found: Found::new(self.namespace_prefix.clone(), namespace.to_string()),
            org,
            page: 1,
        }
    }
}

// ---------------------------------------------------------------------------
// Laws
// ---------------------------------------------------------------------------

/// How the repositories are divided into pages does not matter: the packages on two pages are those on
/// the first and then those on the second.
pub proof fn law_pages_add_up(
    first: Seq<Seq<char>>,
    second: Seq<Seq<char>>,
    prefix: Option<Seq<char>>,
    namespace: Seq<char>,
)
    ensures
        packages_in(first + second, prefix, namespace) == packages_in(first, prefix, namespace)
            + packages_in(second, prefix, namespace),
    decreases second.len(),
{
    if second.len() == 0 {
        assert(first + second =~= first);
    } else {
        law_pages_add_up(first, second.drop_last(), prefix, namespace);
        assert((first + second).drop_last() =~= first + second.drop_last());
        assert((first + second).last() == second.last());
    }
}

/// The packages that are found on the pages, one page after the other.
pub open spec fn packages_on_pages(
    pages: Seq<Seq<Seq<char>>>,
    prefix: Option<Seq<char>>,
    namespace: Seq<char>,
) -> Seq<PackageNames>
    decreases pages.len(),
{
    if pages.len() == 0 {
        Seq::empty()
    } else {
        packages_on_pages(pages.drop_last(), prefix, namespace) + packages_in(
            pages.last(),
            prefix,
            namespace,
        )
    }
}

/// A walk over any number of pages finds what lies in the repositories of all of them.
pub proof fn law_walk_finds_what_all_pages_hold(
    pages: Seq<Seq<Seq<char>>>,
    prefix: Option<Seq<char>>,
    namespace: Seq<char>,
)
    ensures
        packages_on_pages(pages, prefix, namespace) == packages_in(
            pages.flatten(),
            prefix,
            namespace,
        ),
    decreases pages.len(),
{
    if pages.len() == 0 {
        assert(pages.flatten() =~= Seq::<Seq<char>>::empty());
    } else {
        let rest = pages.drop_last();
        law_walk_finds_what_all_pages_hold(rest, prefix, namespace);
        rest.lemma_flatten_push(pages.last());
        assert(rest.push(pages.last()) =~= pages);
        law_pages_add_up(rest.flatten(), pages.last(), prefix, namespace);
    }
}

/// The packages that are listed are those that lie in one of the repositories: none is left out and
/// none is added.
pub proof fn law_listed_are_those_in_a_repository(
    repositories: Seq<Seq<char>>,
    prefix: Option<Seq<char>>,
    namespace: Seq<char>,
    names: PackageNames,
)
    ensures
        packages_in(repositories, prefix, namespace).contains(names) <==> exists|i: int|
            0 <= i < repositories.len() && package_in(
                #[trigger] repositories[i],
                prefix,
                namespace,
            ) == Some(names),
    decreases repositories.len(),
{
    let all = packages_in(repositories, prefix, namespace);
    if repositories.len() > 0 {
        let rest = repositories.drop_last();
        let before = packages_in(rest, prefix, namespace);
        law_listed_are_those_in_a_repository(rest, prefix, namespace, names);
        let last = package_in(repositories.last(), prefix, namespace);
        if all.contains(names) {
            let k = choose|k: int| 0 <= k < all.len() && all[k] == names;
            if k < before.len() {
                assert(before[k] == names);
                let i = choose|i: int|
                    0 <= i < rest.len() && package_in(#[trigger] rest[i], prefix, namespace)
                        == Some(names);
                assert(repositories[i] == rest[i]);
            } else {
                assert(repositories[repositories.len() - 1] == repositories.last());
            }
        }
        if exists|i: int|
            0 <= i < repositories.len() && package_in(#[trigger] repositories[i], prefix, namespace)
                == Some(names) {
            let i = choose|i: int|
                0 <= i < repositories.len() && package_in(
                    #[trigger] repositories[i],
                    prefix,
                    namespace,
                ) == Some(names);
            if i < rest.len() {
                assert(rest[i] == repositories[i]);
                let k = choose|k: int| 0 <= k < before.len() && before[k] == names;
                assert(all[k] == names);
            } else {
                assert(all[all.len() - 1] == names);
            }
        }
    }
}

/// A package that is listed is a package of the namespace, its names are labels, and the repository that
/// a reference to it names is the one that it was found in.
pub proof fn law_listed_package_is_there(
    repository: Seq<char>,
    prefix: Option<Seq<char>>,
    namespace: Seq<char>,
)
    ensures
        package_in(repository, prefix, namespace) matches Some(names) ==> {
            &&& names.0 == namespace
            &&& is_label(names.0)
            &&& is_label(names.1)
            &&& repository_of(prefix, names) == repository
        },
{
    if let Some(names) = package_in(repository, prefix, namespace) {
        let start = repository_prefix(prefix, namespace);
        let name = repository.skip(start.len() as int);
        law_package_text_reads_back(namespace, name);
        assert(repository =~= start + name);
    }
}

/// Every package of the namespace is listed, where its repository is.
pub proof fn law_every_package_is_listed(prefix: Option<Seq<char>>, names: PackageNames)
    requires
        is_label(names.0),
        is_label(names.1),
    ensures
        package_in(repository_of(prefix, names), prefix, names.0) == Some(names),
{
    let repository = repository_of(prefix, names);
    let start = repository_prefix(prefix, names.0);
    assert(repository =~= start + names.1);
    assert(start.is_prefix_of(repository));
    assert(repository.skip(start.len() as int) =~= names.1);
    law_package_text_reads_back(names.0, names.1);
    law_label_characters(names.1);
    if names.1.contains('/') {
        let i = choose|i: int| 0 <= i < names.1.len() && names.1[i] == '/';
        assert(!crate::package::is_word_char(names.1[i]));
    }
}

/// A repository holds a package of the namespace exactly if it is named by the prefix, the namespace, a slash and the
/// name of the package, and both the namespace and the name are labels.
pub proof fn law_repository_of_a_package(
    repository: Seq<char>,
    prefix: Option<Seq<char>>,
    namespace: Seq<char>,
    names: PackageNames,
)
    ensures
        package_in(repository, prefix, namespace) == Some(names) <==> is_label(namespace) && is_label(
            names.1,
        ) && names.0 == namespace && repository == (match prefix {
            Some(p) => p,
            None => ""@,
        }) + namespace + "/"@ + names.1,
{
    reveal_strlit("");
    assert(""@ =~= Seq::<char>::empty());
    law_listed_package_is_there(repository, prefix, namespace);
    if is_label(names.0) && is_label(names.1) {
        law_every_package_is_listed(prefix, names);
    }
}

/// One repository gives the package that lies in it, where one does, and nothing else.
pub proof fn law_one_repository(
    repository: Seq<char>,
    prefix: Option<Seq<char>>,
    namespace: Seq<char>,
)
    ensures
        packages_in(seq![repository], prefix, namespace) == (match package_in(
            repository,
            prefix,
            namespace,
        ) {
            Some(names) => seq![names],
            None => Seq::empty(),
        }),
{
    assert(seq![repository].drop_last() =~= Seq::<Seq<char>>::empty());
    assert(packages_in(Seq::<Seq<char>>::empty(), prefix, namespace) =~= Seq::<PackageNames>::empty());
    if let Some(names) = package_in(repository, prefix, namespace) {
        assert(Seq::<PackageNames>::empty().push(names) =~= seq![names]);
    }
}

/// The packages at `ghcr.io` are listed by the GitHub Packages API, those at every other registry by its catalog. Slashes
/// behind the name of the registry do not matter. A walk starts with nothing found, at the first page.
pub proof fn law_listing_starts(backend: &OciBackend, namespace: &str, res: Listing)
    requires
        call_ensures(OciBackend::list_packages_in_namespace, (backend, namespace), res),
    ensures
        res is Github <==> trim_end(backend.oci_registry@, CharClass::Only('/')) == "ghcr.io"@,
        res matches Listing::Catalog(l) ==> l.last is None && l.found.packages@.len() == 0
            && l.found.namespace@ == namespace@ && l.found.prefix == backend.namespace_prefix,
        res matches Listing::Github(l) ==> l.page == 1 && l.found.packages@.len() == 0
            && l.found.namespace@ == namespace@ && l.found.prefix == backend.namespace_prefix,
        res matches Listing::Github(l) ==> (backend.namespace_prefix is None ==> l.org@ == namespace@),
        res matches Listing::Github(l) ==> (backend.namespace_prefix matches Some(p)
            ==> !l.org@.contains('/') && l.org@.push('/').is_prefix_of(p@.push('/'))),
{
    match res {
        Listing::Catalog(l) => {
            assert(all_names(l.found.packages@).len() == l.found.packages@.len());
        },
        Listing::Github(l) => {
            assert(all_names(l.found.packages@).len() == l.found.packages@.len());
            if let Some(p) = backend.namespace_prefix {
                lemma_owner(p@, namespace@);
            }
        },
    }
}

/// The owner is what stands before the first slash of the prefix.
proof fn lemma_owner(prefix: Seq<char>, namespace: Seq<char>)
    ensures
        !owner(Some(prefix), namespace).contains('/'),
        owner(Some(prefix), namespace).push('/').is_prefix_of(prefix.push('/')),
{
    let class = CharClass::Only('/');
    let text = trim_end(prefix, class);
    let first = owner(Some(prefix), namespace);
    law_end_is_taken(prefix, class);
    let cut = choose|b: Seq<char>| #[trigger] all_in(b, class) && text + b == prefix;
    lemma_position(text, '/');
    law_pieces_join_to_the_text(text, '/');
    let p = position(text, '/');
    assert(first =~= text.take(p));
    assert(!split(text, '/')[0].contains('/'));
    let whole = prefix.push('/');
    assert forall|i: int| 0 <= i < first.len() implies first[i] == whole[i] by {
        assert(whole[i] == text[i]);
    }
    if p < text.len() {
        assert(whole[p] == text[p]);
    } else if cut.len() > 0 {
        assert(class.has(cut[0]));
        assert(whole[p] == cut[0]);
    }
    assert(first.push('/') =~= whole.take(p + 1));
}

/// The pages at GitHub have a hundred entries each, and are asked for by their number under the name of the owner.
pub proof fn law_github_page_is_asked_for(listing: &GithubListing, res: String)
    requires
        call_ensures(GithubListing::url, (listing,), res),
    ensures
        ("https://api.github.com/orgs/"@ + listing.org@
            + "/packages?package_type=container&per_page=100&page="@).is_prefix_of(res@),
        res@.skip(
            ("https://api.github.com/orgs/"@ + listing.org@
                + "/packages?package_type=container&per_page=100&page="@).len() as int,
        ) == decimal(listing.page as nat),
        PAGE_SIZE == 100,
{
    let front = "https://api.github.com/orgs/"@ + listing.org@
        + "/packages?package_type=container&per_page=100&page="@;
    assert(res@ =~= front + decimal(listing.page as nat));
    assert(res@.skip(front.len() as int) =~= decimal(listing.page as nat));
}

/// A page of the GitHub API is there exactly if it was answered and its body could be read, or if there is no such page.
pub proof fn law_github_page_is_taken(
    reply: Result<Option<Result<Vec<String>, String>>, String>,
    res: Result<Option<Vec<String>>, Error>,
)
    requires
        call_ensures(page_of, (reply,), res),
    ensures
        res is Ok <==> (reply matches Ok(r) && !(r matches Some(Err(_)))),
        res matches Ok(Some(names)) ==> reply == Ok::<Option<Result<Vec<String>, String>>, String>(
            Some(Ok(names)),
        ),
        res matches Ok(None) ==> reply == Ok::<Option<Result<Vec<String>, String>>, String>(None),
        res matches Err(e) ==> e@ is RegistryError,
{
}

/// Whether the name is that of the repository of the package.
pub open spec fn lies_in(names: PackageNames, prefix: Option<String>, repository: Seq<char>) -> bool {
    is_label(names.0) && is_label(names.1) && repository == (match prefix {
        Some(p) => p@,
        None => ""@,
    }) + names.0 + "/"@ + names.1
}

/// A page of the catalog adds the packages of the namespace whose repositories it lists, and no others, to those that were
/// found. The walk goes on at the cursor of the page, where it has one, and is over where it has none.
pub proof fn law_page_of_the_catalog_is_taken(
    listing: &mut CatalogListing,
    page: CatalogPage,
    res: bool,
    names: PackageNames,
)
    requires
        call_ensures(CatalogListing::receive, (listing, page), res),
    ensures
        res <==> page.next_last is Some,
        final(listing).last == page.next_last,
        final(listing).found.prefix == old(listing).found.prefix,
        final(listing).found.namespace == old(listing).found.namespace,
        all_names(final(listing).found.packages@) == all_names(old(listing).found.packages@)
            + packages_in(
            texts(page.repositories@),
            opt_text(old(listing).found.prefix),
            old(listing).found.namespace@,
        ),
        all_names(old(listing).found.packages@).is_prefix_of(all_names(final(listing).found.packages@)),
        all_names(final(listing).found.packages@).contains(names) <==> all_names(
            old(listing).found.packages@,
        ).contains(names) || (names.0 == old(listing).found.namespace@ && exists|i: int|
            0 <= i < page.repositories@.len() && lies_in(
                names,
                old(listing).found.prefix,
                (#[trigger] page.repositories@[i])@,
            )),
{
    lemma_added(
        all_names(old(listing).found.packages@),
        page.repositories@,
        old(listing).found.prefix,
        old(listing).found.namespace@,
        names,
    );
}

/// A page of the GitHub API adds the packages of the namespace whose repositories it lists, and no others, to those that
/// were found. The walk goes on at the next page exactly where the page is full, with a hundred entries.
pub proof fn law_page_at_github_is_taken(
    listing: &mut GithubListing,
    page: Option<Vec<String>>,
    res: bool,
    names: PackageNames,
)
    requires
        call_ensures(GithubListing::receive, (listing, page), res),
    ensures
        res <==> (page matches Some(list) && list@.len() >= 100),
        res ==> final(listing).page == old(listing).page + 1,
        !res ==> final(listing).page == old(listing).page,
        final(listing).org == old(listing).org,
        final(listing).found.prefix == old(listing).found.prefix,
        final(listing).found.namespace == old(listing).found.namespace,
        all_names(old(listing).found.packages@).is_prefix_of(all_names(final(listing).found.packages@)),
        all_names(final(listing).found.packages@).contains(names) <==> all_names(
            old(listing).found.packages@,
        ).contains(names) || (names.0 == old(listing).found.namespace@ && (page matches Some(list)
            && exists|i: int|
            0 <= i < list@.len() && lies_in(names, old(listing).found.prefix, (#[trigger] list@[i])@))),
{
    let before = all_names(old(listing).found.packages@);
    match page {
        Some(list) => {
            lemma_added(
                before,
                list@,
                old(listing).found.prefix,
                old(listing).found.namespace@,
                names,
            );
        },
        None => {
            assert(before + Seq::<PackageNames>::empty() =~= before);
        },
    }
}

/// The packages that lie in repositories are added to those that were found.
proof fn lemma_added(
    before: Seq<PackageNames>,
    repositories: Seq<String>,
    prefix: Option<String>,
    namespace: Seq<char>,
    names: PackageNames,
)
    ensures
        ({
            let after = before + packages_in(texts(repositories), opt_text(prefix), namespace);
            &&& before.is_prefix_of(after)
            &&& after.contains(names) <==> before.contains(names) || (names.0 == namespace && exists|
                i: int,
            |
                0 <= i < repositories.len() && lies_in(names, prefix, (#[trigger] repositories[i])@))
        }),
{
    let all = texts(repositories);
    let found = packages_in(all, opt_text(prefix), namespace);
    let after = before + found;
    law_listed_are_those_in_a_repository(all, opt_text(prefix), namespace, names);
    assert(before =~= after.take(before.len() as int));
    assert(after.contains(names) <==> before.contains(names) || found.contains(names)) by {
        if after.contains(names) {
            let k = choose|k: int| 0 <= k < after.len() && after[k] == names;
            if k < before.len() {
                assert(before[k] == names);
            } else {
                assert(found[k - before.len()] == names);
            }
        }
        if before.contains(names) {
            let k = choose|k: int| 0 <= k < before.len() && before[k] == names;
            assert(after[k] == names);
        }
        if found.contains(names) {
            let k = choose|k: int| 0 <= k < found.len() && found[k] == names;
            assert(after[before.len() + k] == names);
        }
    }
    if found.contains(names) {
        let i = choose|i: int|
            0 <= i < all.len() && package_in(#[trigger] all[i], opt_text(prefix), namespace) == Some(
                names,
            );
        law_repository_of_a_package(all[i], opt_text(prefix), namespace, names);
        assert(lies_in(names, prefix, repositories[i]@));
    }
    if names.0 == namespace && exists|i: int|
        0 <= i < repositories.len() && lies_in(names, prefix, (#[trigger] repositories[i])@) {
        let i = choose|i: int|
            0 <= i < repositories.len() && lies_in(names, prefix, (#[trigger] repositories[i])@);
        law_repository_of_a_package(all[i], opt_text(prefix), namespace, names);
        assert(all[i] == repositories[i]@);
    }
}

/// A repository is one of a package of the namespace exactly if it is named by the prefix, the namespace, a slash and the
/// name of the package, and both the namespace and the name are labels.
pub proof fn law_package_is_selected(found: &Found, repository: &str, res: Option<PackageRef>)
    requires
        call_ensures(Found::select, (found, repository), res),
    ensures
        res matches Some(package) ==> package.namespace@ == found.namespace@ && lies_in(
            package.names(),
            found.prefix,
            repository@,
        ),
        res is None ==> forall|name: Seq<char>|
            !#[trigger] lies_in((found.namespace@, name), found.prefix, repository@),
{
    match res {
        Some(package) => {
            law_repository_of_a_package(
                repository@,
                opt_text(found.prefix),
                found.namespace@,
                package.names(),
            );
        },
        None => {
            assert forall|name: Seq<char>| !#[trigger] lies_in(
                (found.namespace@, name),
                found.prefix,
                repository@,
            ) by {
                law_repository_of_a_package(
                    repository@,
                    opt_text(found.prefix),
                    found.namespace@,
                    (found.namespace@, name),
                );
            }
        },
    }
}

} // verus!
