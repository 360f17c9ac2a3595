use vstd::prelude::*;

use crate::reverse_dependency::{views_of, ReverseDependency, ReverseDependencyView};

verus! {

/// How many reverse dependencies one page of the crates.io answer holds at most.
pub const PER_PAGE: usize = 100;

/// Whether `semver::Version::parse` accepts `text`.
pub uninterp spec fn semver_version_parses(text: Seq<char>) -> bool;

/// Whether `semver::VersionReq::parse` accepts `text`.
pub uninterp spec fn semver_requirement_parses(text: Seq<char>) -> bool;

/// What `semver::VersionReq::matches` answers for the requirement `requirement`
/// and the version `version`, both parsed from text.
pub uninterp spec fn semver_requirement_matches(requirement: Seq<char>, version: Seq<char>) -> bool;

/// The text of the URL that `url::Url::parse_with_params` builds from `base`
/// and the query pairs `query`, or `None` where it refuses `base`.
pub uninterp spec fn url_with_query(base: Seq<char>, query: Seq<(Seq<char>, Seq<char>)>) -> Option<
    Seq<char>,
>;

/// Calls `semver::Version::parse`; the contract claims only that its success
/// is the named fact `semver_version_parses` of the text.
#[verifier::external_body]
fn version_parses(text: &str) -> (parses: bool)
    ensures
        parses == semver_version_parses(text@),
{
    semver::Version::parse(text).is_ok()
}

/// Calls `semver::VersionReq::parse`; the contract claims only that its success
/// is the named fact `semver_requirement_parses` of the text.
#[verifier::external_body]
fn requirement_parses(text: &str) -> (parses: bool)
    ensures
        parses == semver_requirement_parses(text@),
{
    semver::VersionReq::parse(text).is_ok()
}

/// Calls `semver::VersionReq::matches` on the requirement and the version that
/// the two texts parse to; the contract claims that the answer is the named
/// result `semver_requirement_matches` of the two texts.
#[verifier::external_body]
fn requirement_matches(requirement: &str, version: &str) -> (matches: bool)
    requires
        semver_requirement_parses(requirement@),
        semver_version_parses(version@),
    ensures
        matches == semver_requirement_matches(requirement@, version@),
{
    match (semver::VersionReq::parse(requirement), semver::Version::parse(version)) {
        (Ok(requirement), Ok(version)) => requirement.matches(&version),
        _ => false,
    }
}

/// The query pairs as plain text.
pub open spec fn query_view(query: Seq<(String, String)>) -> Seq<(Seq<char>, Seq<char>)> {
    query.map_values(|pair: (String, String)| (pair.0@, pair.1@))
}

/// Calls `url::Url::parse_with_params` and serialises the URL it gives; the
/// contract claims that the text is the named result `url_with_query` of the
/// base and the query pairs.
#[verifier::external_body]
fn parse_with_params(base: &str, query: &Vec<(String, String)>) -> (url: Option<String>)
    ensures
        match url {
            Some(url) => url_with_query(base@, query_view(query@)) == Some(url@),
            None => url_with_query(base@, query_view(query@)) is None,
        },
{
    match url::Url::parse_with_params(base, query.iter()) {
        Ok(url) => Some(url.to_string()),
        Err(_) => None,
    }
}

/// The decimal digit `d`.
pub open spec fn digit_char(d: nat) -> char {
    seq!['0', '1', '2', '3', '4', '5', '6', '7', '8', '9'][d as int]
}

/// `n` written in decimal, without leading zeros.
pub open spec fn decimal(n: nat) -> Seq<char>
    decreases n,
{
    if n < 10 {
        seq![digit_char(n)]
    } else {
        decimal(n / 10).push(digit_char(n % 10))
    }
}

fn digit_text(d: u64) -> (text: &'static str)
    requires
        d < 10,
    ensures
        text@ == seq![digit_char(d as nat)],
{
    let text = match d {
        0 => "0",
        1 => "1",
        2 => "2",
        3 => "3",
        4 => "4",
        5 => "5",
        6 => "6",
        7 => "7",
        8 => "8",
        _ => "9",
    };
    proof {
        reveal_strlit("0");
        reveal_strlit("1");
        reveal_strlit("2");
        reveal_strlit("3");
        reveal_strlit("4");
        reveal_strlit("5");
        reveal_strlit("6");
        reveal_strlit("7");
        reveal_strlit("8");
        reveal_strlit("9");
        assert(text@ =~= seq![digit_char(d as nat)]);
    }
    text
}

/// Appends `n` in decimal to `out`.
fn append_decimal(out: &mut String, n: u64)
    ensures
        final(out)@ == old(out)@ + decimal(n as nat),
    decreases n,
{
    if n >= 10 {
        append_decimal(out, n / 10);
    }
    out.append(digit_text(n % 10));
    assert(final(out)@ =~= old(out)@ + decimal(n as nat));
}

/// `n` in decimal, as `to_string` writes it.
pub fn decimal_string(n: u64) -> (text: String)
    ensures
        text@ == decimal(n as nat),
{
    let mut text = String::new();
    append_decimal(&mut text, n);
    assert(text@ =~= decimal(n as nat));
    text
}

/// The number that a text of decimal digits stands for.
pub open spec fn digits_value(text: Seq<char>) -> nat
    decreases text.len(),
{
    if text.len() == 0 {
        0
    } else {
        digits_value(text.drop_last()) * 10 + ((text.last() as int - '0' as int) as nat)
    }
}

/// Whether every character of `text` is a decimal digit.
pub open spec fn all_digits(text: Seq<char>) -> bool {
    forall|i: int| 0 <= i < text.len() ==> '0' <= #[trigger] text[i] <= '9'
}

proof fn lemma_digit_char(d: nat)
    requires
        d < 10,
    ensures
        '0' <= digit_char(d) <= '9',
        digit_char(d) as int - '0' as int == d,
{
    assert(d == 0 || d == 1 || d == 2 || d == 3 || d == 4 || d == 5 || d == 6 || d == 7 || d == 8
        || d == 9);
}

/// `decimal(n)` is a non-empty text of digits without a leading zero (but for
/// `0` itself) that reads back as `n`.
pub proof fn lemma_decimal_reads_back(n: nat)
    ensures
        decimal(n).len() > 0,
        all_digits(decimal(n)),
        digits_value(decimal(n)) == n,
        n > 0 ==> decimal(n)[0] != '0',
    decreases n,
{
    if n < 10 {
        lemma_digit_char(n);
        assert(decimal(n).drop_last() =~= Seq::<char>::empty());
        assert(digits_value(decimal(n).drop_last()) == 0);
    } else {
        lemma_decimal_reads_back(n / 10);
        lemma_digit_char(n % 10);
        let text = decimal(n);
        assert(text.drop_last() =~= decimal(n / 10));
        assert(text.last() == digit_char(n % 10));
        assert(n == (n / 10) * 10 + n % 10) by (nonlinear_arith);
        assert(digits_value(text) == digits_value(decimal(n / 10)) * 10 + (n % 10));
        assert(text[0] == decimal(n / 10)[0]);
        assert forall|i: int| 0 <= i < text.len() implies '0' <= #[trigger] text[i] <= '9' by {
            if i < text.len() - 1 {
                assert(text[i] == decimal(n / 10)[i]);
            }
        }
    }
}

/// The request for page `p` asks for 100 reverse dependencies per page and
/// for page `p` itself: its query has exactly the pairs `per_page` and `page`,
/// whose values are texts of digits that read as 100 and as `p`.
pub proof fn lemma_page_query_asks_for_the_page(p: nat)
    ensures
        page_query(p).len() == 2,
        page_query(p)[0].0 == "per_page"@,
        page_query(p)[1].0 == "page"@,
        all_digits(page_query(p)[0].1),
        digits_value(page_query(p)[0].1) == 100,
        all_digits(page_query(p)[1].1),
        digits_value(page_query(p)[1].1) == p,
        p > 0 ==> page_query(p)[1].1[0] != '0',
{
    lemma_decimal_reads_back(p);
    lemma_decimal_reads_back(100);
}

/// The query pairs of the request for page `page`.
pub open spec fn page_query(page: nat) -> Seq<(Seq<char>, Seq<char>)> {
    seq![("per_page"@, decimal(PER_PAGE as nat)), ("page"@, decimal(page))]
}

/// The reverse dependencies of `found`, in order, whose requirement is met by
/// `version`.
pub open spec fn compatible(found: Seq<ReverseDependencyView>, version: Seq<char>) -> Seq<ReverseDependencyView>
    decreases found.len(),
{
    if found.len() == 0 {
        Seq::empty()
    } else {
        let rest = compatible(found.drop_last(), version);
        if semver_requirement_matches(found.last().version_required, version) {
            rest.push(found.last())
        } else {
            rest
        }
    }
}

/// What the version filter keeps: a reverse dependency is kept exactly where
/// its requirement is met by `version`, and the kept ones come in the order
/// in which they were found.
pub proof fn lemma_compatible_keeps_exactly_the_matching(found: Seq<ReverseDependencyView>, version: Seq<char>)
    ensures
        forall|i: int|
            0 <= i < compatible(found, version).len() ==> semver_requirement_matches(
                #[trigger] compatible(found, version)[i].version_required,
                version,
            ),
        forall|i: int|
            0 <= i < found.len() && semver_requirement_matches(found[i].version_required, version)
                ==> compatible(found, version).contains(#[trigger] found[i]),
        forall|d: ReverseDependencyView| #[trigger]
            compatible(found, version).contains(d) ==> found.contains(d),
        compatible(found, version).len() <= found.len(),
    decreases found.len(),
{
    if found.len() > 0 {
        let rest = found.drop_last();
        lemma_compatible_keeps_exactly_the_matching(rest, version);
        assert forall|i: int|
            0 <= i < found.len() && semver_requirement_matches(found[i].version_required, version)
                implies compatible(found, version).contains(#[trigger] found[i]) by {
            if i < rest.len() {
                assert(rest[i] == found[i]);
                let j: int = choose|j: int|
                    0 <= j < compatible(rest, version).len() && compatible(rest, version)[j]
                        == rest[i];
                if semver_requirement_matches(found.last().version_required, version) {
                    assert(compatible(found, version)[j] == rest[i]);
                }
            } else {
                assert(compatible(found, version).last() == found[i]);
                assert(compatible(found, version)[compatible(found, version).len() - 1]
                    == found[i]);
            }
        }
        assert forall|d: ReverseDependencyView| #[trigger]
            compatible(found, version).contains(d) implies found.contains(d) by {
            let j: int = choose|j: int|
                0 <= j < compatible(found, version).len() && compatible(found, version)[j] == d;
            if j < compatible(rest, version).len() {
                assert(compatible(rest, version)[j] == d);
                assert(compatible(rest, version).contains(d));
                let k: int = choose|k: int| 0 <= k < rest.len() && rest[k] == d;
                assert(found[k] == d);
            } else {
                assert(found[found.len() - 1] == d);
            }
        }
    }
}

/// Whether every requirement in `found` parses.
pub open spec fn requirements_parse(found: Seq<ReverseDependencyView>) -> bool {
    forall|i: int| 0 <= i < found.len() ==> semver_requirement_parses(#[trigger] found[i].version_required)
}

/// The paging through the crates.io answer for the reverse dependencies of a
/// crate at a given version: the next page to ask for, whether to ask for it,
/// and what the pages read so far hold.
pub struct ReverseDependencies {
    local_version: String,
    page: u64,
    fetch_next_page: bool,
    found: Vec<ReverseDependency>,
}

/// The plain state of a [`ReverseDependencies`].
pub struct ReverseDependenciesView {
    pub local_version: Seq<char>,
    pub page: nat,
    pub fetch_next_page: bool,
    pub found: Seq<ReverseDependencyView>,
}

impl View for ReverseDependencies {
    type V = ReverseDependenciesView;

    closed spec fn view(&self) -> ReverseDependenciesView {
        ReverseDependenciesView {
            local_version: self.local_version@,
            page: self.page as nat,
            fetch_next_page: self.fetch_next_page,
            found: views_of(self.found@),
        }
    }
}

impl ReverseDependencies {
    #[verifier::type_invariant]
    spec fn paging_invariant(self) -> bool {
        &&& semver_version_parses(self.local_version@)
        &&& self.page >= 1
    }

    /// Starts at page one, nothing found yet; `Err` where `local_crate_version`
    /// is no semantic version.
    pub fn new(local_crate_version: &str) -> (paging: Result<Self, ()>)
        ensures
            match paging {
                Ok(paging) => {
                    &&& semver_version_parses(local_crate_version@)
                    &&& paging@.local_version == local_crate_version@
                    &&& paging@.page == 1
                    &&& paging@.fetch_next_page
                    &&& paging@.found == Seq::<ReverseDependencyView>::empty()
                },
                Err(_) => !semver_version_parses(local_crate_version@),
            },
    {
        if !version_parses(local_crate_version) {
            return Err(());
        }
        let paging = ReverseDependencies {
            local_version: String::from_str(local_crate_version),
            page: 1,
            fetch_next_page: true,
            found: Vec::new(),
        };
        assert(paging@.found =~= Seq::<ReverseDependencyView>::empty());
        Ok(paging)
    }

    /// Whether another page is to be asked for.
    pub fn wants_next_page(&self) -> (wants: bool)
        ensures
            wants == self@.fetch_next_page,
    {
        self.fetch_next_page
    }

    /// The number of the page to ask for next.
    pub fn current_page(&self) -> (page: u64)
        ensures
            page == self@.page,
    {
        self.page
    }

    /// The URL of the next page: `base_url` with the query `per_page=100` and
    /// `page=` the page number; `Err` where the URL cannot be built.
    pub fn next_page_url(&self, base_url: &str) -> (url: Result<String, ()>)
        ensures
            match url {
                Ok(url) => url_with_query(base_url@, page_query(self@.page)) == Some(url@),
                Err(_) => url_with_query(base_url@, page_query(self@.page)) is None,
            },
    {
        let mut query: Vec<(String, String)> = Vec::new();
        query.push((String::from_str("per_page"), decimal_string(PER_PAGE as u64)));
        query.push((String::from_str("page"), decimal_string(self.page)));
        assert(query_view(query@) =~= page_query(self@.page));
        match parse_with_params(base_url, &query) {
            Some(url) => Ok(url),
            None => Err(()),
        }
    }

    /// Takes in the reverse dependencies read from the current page: they are
    /// added after those found so far, the page number moves on, and the next
    /// page is wanted only where this one was full.
    pub fn receive_page(&mut self, page: Vec<ReverseDependency>)
        requires
            old(self)@.page < u64::MAX,
        ensures
            final(self)@.local_version == old(self)@.local_version,
            final(self)@.page == old(self)@.page + 1,
            final(self)@.fetch_next_page == (page@.len() == PER_PAGE),
            final(self)@.found == old(self)@.found + views_of(page@),
    {
        proof {
            use_type_invariant(&*self);
        }
        let full: bool = page.len() == PER_PAGE;
        let mut page = page;
        let ghost before = views_of(self.found@);
        let ghost added = views_of(page@);
        let mut found: Vec<ReverseDependency> = Vec::new();
        std::mem::swap(&mut found, &mut self.found);
        found.append(&mut page);
        self.found = found;
        self.page = self.page + 1;
        self.fetch_next_page = full;
        assert(views_of(self.found@) =~= before + added);
    }

    /// Takes in what fetching and reading the current page gave: `Err` where the
    /// page could not be fetched or read, which ends the paging with `Err` and
    /// leaves the state as it was; otherwise as [`ReverseDependencies::receive_page`].
    pub fn receive_page_result(&mut self, page: Result<Vec<ReverseDependency>, ()>) -> (received: Result<(), ()>)
        requires
            page is Ok ==> old(self)@.page < u64::MAX,
        ensures
            match page {
                Err(_) => received is Err && final(self)@ == old(self)@,
                Ok(page) => {
                    &&& received is Ok
                    &&& final(self)@.local_version == old(self)@.local_version
                    &&& final(self)@.page == old(self)@.page + 1
                    &&& final(self)@.fetch_next_page == (page@.len() == PER_PAGE)
                    &&& final(self)@.found == old(self)@.found + views_of(page@)
                },
            },
    {
        match page {
            Ok(page) => {
                self.receive_page(page);
                Ok(())
            },
            Err(()) => Err(()),
        }
    }

    /// Keeps, in order, the reverse dependencies whose requirement is met by
    /// `local_version`.
    pub fn filter_compatible(dependencies: Vec<ReverseDependency>, local_version: &str) -> (kept: Vec<
        ReverseDependency,
    >)
        requires
            semver_version_parses(local_version@),
            requirements_parse(views_of(dependencies@)),
        ensures
            views_of(kept@) == compatible(views_of(dependencies@), local_version@),
    {
        let ghost all = views_of(dependencies@);
        let mut dependencies = dependencies;
        let mut kept: Vec<ReverseDependency> = Vec::new();
        let mut i: usize = 0;
        assert(all.take(0) =~= Seq::<ReverseDependencyView>::empty());
        assert(views_of(kept@) =~= Seq::<ReverseDependencyView>::empty());
        while i < dependencies.len()
            invariant
                i <= dependencies@.len() == all.len(),
                semver_version_parses(local_version@),
                requirements_parse(all),
                forall|j: int| i <= j < all.len() ==> #[trigger] dependencies@[j]@ == all[j],
                views_of(kept@) == compatible(all.take(i as int), local_version@),
            decreases all.len() - i,
        {
            let mut taken = ReverseDependency::new(String::new(), String::new(), String::new());
            std::mem::swap(&mut dependencies[i], &mut taken);
            assert(taken@ == all[i as int]);
            assert(all.take(i + 1).drop_last() =~= all.take(i as int));
            assert(all.take(i + 1).last() == all[i as int]);
            assert(semver_requirement_parses(all[i as int].version_required));
            let ghost before = views_of(kept@);
            if requirement_matches(taken.get_version_required(), local_version) {
                kept.push(taken);
                assert(views_of(kept@) =~= before.push(all[i as int]));
            }
            i = i + 1;
        }
        assert(all.take(all.len() as int) =~= all);
        kept
    }

    /// The reverse dependencies found on all pages whose requirement is met by
    /// the local crate's version, in order; `None` where one of them states a
    /// requirement that is no semantic version requirement.
    pub fn into_compatible(self) -> (kept: Option<Vec<ReverseDependency>>)
        ensures
            match kept {
                Some(kept) => requirements_parse(self@.found) && views_of(kept@) == compatible(
                    self@.found,
                    self@.local_version,
                ),
                None => !requirements_parse(self@.found),
            },
    {
        proof {
            use_type_invariant(&self);
        }
        let ghost found = self@.found;
        let mut i: usize = 0;
        while i < self.found.len()
            invariant
                i <= self.found@.len(),
                found == views_of(self.found@),
                forall|j: int| 0 <= j < i ==> semver_requirement_parses(
                    #[trigger] found[j].version_required,
                ),
            decreases self.found@.len() - i,
        {
            assert(found[i as int] == self.found@[i as int]@);
            if !requirement_parses(self.found[i].get_version_required()) {
                return None;
            }
            i = i + 1;
        }
        let ReverseDependencies { local_version, found: dependencies, .. } = self;
        Some(Self::filter_compatible(dependencies, local_version.as_str()))
    }
}

} // verus!
