//! The release catalog: extracting interpreter versions from archive
//! names, filtering by platform suffix, and resolving a requested version
//! to the highest cataloged match.

use vstd::prelude::*;

use crate::errors::YenError;
use crate::strutil::{ends_with_str, is_digit, is_prefix, is_suffix, occurs_at, occurs_at_exec};
use crate::version::{lemma_version_lt_trans, lemma_version_trichotomy, Version};

verus! {

/// One entry of the release metadata: a downloadable archive.
#[derive(Clone, Debug)]
pub struct Asset {
    pub browser_download_url: String,
}

/// The release metadata document: its list of downloadable archives.
#[derive(Clone, Debug)]
pub struct GithubResp {
    pub assets: Vec<Asset>,
}

impl GithubResp {
    /// The download URLs of all assets, in document order.
    pub fn into_urls(self) -> (r: Vec<String>)
        ensures
            r.deep_view() =~~= Seq::new(
                self.assets@.len(),
                |i: int| self.assets@[i].browser_download_url@,
            ),
    {
        let mut urls: Vec<String> = Vec::new();
        let n = self.assets.len();
        let mut i: usize = 0;
        while i < n
            invariant
                n == self.assets@.len(),
                0 <= i <= n,
                urls@.len() == i,
                forall|k: int|
                    0 <= k < i ==> urls@[k]@ == #[trigger] self.assets@[k].browser_download_url@,
            decreases n - i,
        {
            let url = self.assets[i].browser_download_url.clone();
            urls.push(url);
            i = i + 1;
        }
        proof {
            assert(urls.deep_view() =~~= Seq::new(
                self.assets@.len(),
                |i: int| self.assets@[i].browser_download_url@,
            ));
        }
        urls
    }
}

/// What the release metadata denotes: the asset URLs when the document is
/// a well-formed catalog (an `assets` array whose members each carry a
/// string `browser_download_url`), and nothing otherwise. Determined by
/// the document text alone.
pub uninterp spec fn assets_of(json: Seq<char>) -> Option<Seq<Seq<char>>>;

/// Relies on `serde_json::from_str` and the accessors of
/// `serde_json::Value` (`get`, `as_array`, `as_str`): parses the release
/// metadata and hands out each asset's download URL. Any malformed
/// document yields `None`.
#[verifier::external_body]
pub(crate) fn parse_github_resp(json: &str) -> (r: Option<GithubResp>)
    ensures
        match r {
            Some(resp) => assets_of(json@) == Some(
                Seq::new(resp.assets@.len(), |i: int| resp.assets@[i].browser_download_url@),
            ),
            None => assets_of(json@) is None,
        },
{
    let doc: serde_json::Value = serde_json::from_str(json).ok()?;
    let arr = doc.get("assets")?.as_array()?;
    let mut assets: Vec<Asset> = Vec::new();
    for a in arr {
        assets.push(Asset { browser_download_url: a.get("browser_download_url")?.as_str()?.to_owned() });
    }
    Some(GithubResp { assets })
}

/// The end of the maximal digit run that starts at `i`.
pub open spec fn digit_run_end(s: Seq<char>, i: int) -> int
    decreases s.len() - i,
    when 0 <= i <= s.len()
{
    if i < s.len() && is_digit(s[i]) {
        digit_run_end(s, i + 1)
    } else {
        i
    }
}

/// The pattern anchored at position `i`: the marker `cpython-` followed by
/// three maximal digit runs separated by dots. Yields the dotted version
/// text it captures.
pub open spec fn spec_match_at(s: Seq<char>, i: int) -> Option<Seq<char>> {
    if !occurs_at(s, "cpython-"@, i) {
        None
    } else {
        let j0 = i + "cpython-"@.len();
        let e1 = digit_run_end(s, j0);
        if e1 == j0 || e1 >= s.len() || s[e1] != '.' {
            None
        } else {
            let e2 = digit_run_end(s, e1 + 1);
            if e2 == e1 + 1 || e2 >= s.len() || s[e2] != '.' {
                None
            } else {
                let e3 = digit_run_end(s, e2 + 1);
                if e3 == e2 + 1 {
                    None
                } else {
                    Some(s.subrange(j0, e3))
                }
            }
        }
    }
}

/// The leftmost match of the pattern at or after position `i`.
pub open spec fn spec_capture_from(s: Seq<char>, i: int) -> Option<Seq<char>>
    decreases s.len() - i,
    when 0 <= i <= s.len()
{
    if i >= s.len() {
        None
    } else if spec_match_at(s, i) is Some {
        spec_match_at(s, i)
    } else {
        spec_capture_from(s, i + 1)
    }
}

/// The leftmost `cpython-<major>.<minor>.<patch>` capture in `s`, if any.
pub open spec fn spec_capture(s: Seq<char>) -> Option<Seq<char>> {
    spec_capture_from(s, 0)
}

/// The end of the maximal digit run that starts at `i`.
fn digit_run_end_exec(s: &str, i: usize) -> (e: usize)
    requires
        i <= s@.len(),
    ensures
        e == digit_run_end(s@, i as int),
        i <= e <= s@.len(),
{
    let len = s.unicode_len();
    let mut e = i;
    while e < len && s.get_char(e) >= '0' && s.get_char(e) <= '9'
        invariant
            len == s@.len(),
            i <= e <= len,
            digit_run_end(s@, i as int) == digit_run_end(s@, e as int),
        decreases len - e,
    {
        e = e + 1;
    }
    e
}

/// The pattern anchored at position `i`, as `spec_match_at` lays it out.
fn match_at_exec(s: &str, i: usize) -> (r: Option<String>)
    requires
        i <= s@.len(),
    ensures
        match r {
            Some(cap) => spec_match_at(s@, i as int) == Some(cap@),
            None => spec_match_at(s@, i as int) is None,
        },
{
    let marker = "cpython-";
    let len = s.unicode_len();
    let mlen = marker.unicode_len();
    if mlen > len || i > len - mlen {
        proof {
            assert(!occurs_at(s@, "cpython-"@, i as int));
        }
        return None;
    }
    if !occurs_at_exec(s, marker, i) {
        return None;
    }
    let j0 = i + mlen;
    let e1 = digit_run_end_exec(s, j0);
    if e1 == j0 || e1 >= len {
        return None;
    }
    if s.get_char(e1) != '.' {
        return None;
    }
    let e2 = digit_run_end_exec(s, e1 + 1);
    if e2 == e1 + 1 || e2 >= len {
        return None;
    }
    if s.get_char(e2) != '.' {
        return None;
    }
    let e3 = digit_run_end_exec(s, e2 + 1);
    if e3 == e2 + 1 {
        return None;
    }
    let cap = s.substring_char(j0, e3);
    Some(cap.to_owned())
}

/// The leftmost `cpython-<major>.<minor>.<patch>` capture in `s`: the
/// version text the catalog reads out of an archive name.
pub fn capture_cpython_version(s: &str) -> (r: Option<String>)
    ensures
        match r {
            Some(cap) => spec_capture(s@) == Some(cap@),
            None => spec_capture(s@) is None,
        },
{
    let len = s.unicode_len();
    let mut i: usize = 0;
    while i < len
        invariant
            len == s@.len(),
            0 <= i <= len,
            spec_capture(s@) == spec_capture_from(s@, i as int),
        decreases len - i,
    {
        let m = match_at_exec(s, i);
        if let Some(cap) = m {
            return Some(cap);
        }
        i = i + 1;
    }
    None
}

/// The first (most preferred) suffix that `release` ends with, scanning
/// from position `j` on.
pub open spec fn spec_match_suffix_from(release: Seq<char>, suffixes: Seq<Seq<char>>, j: int) -> Option<int>
    decreases suffixes.len() - j,
    when 0 <= j <= suffixes.len()
{
    if j >= suffixes.len() {
        None
    } else if is_suffix(suffixes[j], release) {
        Some(j)
    } else {
        spec_match_suffix_from(release, suffixes, j + 1)
    }
}

/// The first (most preferred) suffix that `release` ends with.
pub open spec fn spec_match_suffix(release: Seq<char>, suffixes: Seq<Seq<char>>) -> Option<int> {
    spec_match_suffix_from(release, suffixes, 0)
}

/// Scans the suffix table in priority order for one that ends `release`.
pub fn match_suffix(release: &str, suffixes: &Vec<String>) -> (r: Option<usize>)
    ensures
        match r {
            Some(j) => spec_match_suffix(release@, suffixes.deep_view()) == Some(j as int),
            None => spec_match_suffix(release@, suffixes.deep_view()) is None,
        },
{
    let n = suffixes.len();
    let ghost sufs = suffixes.deep_view();
    proof {
        assert(forall|k: int| 0 <= k < n ==> sufs[k] == #[trigger] suffixes@[k]@);
    }
    let mut j: usize = 0;
    while j < n
        invariant
            n == sufs.len(),
            n == suffixes@.len(),
            sufs == suffixes.deep_view(),
            forall|k: int| 0 <= k < n ==> sufs[k] == #[trigger] suffixes@[k]@,
            0 <= j <= n,
            spec_match_suffix(release@, sufs) == spec_match_suffix_from(release@, sufs, j as int),
        decreases n - j,
    {
        if ends_with_str(release, suffixes[j].as_str()) {
            return Some(j);
        }
        j = j + 1;
    }
    None
}

/// Builds the catalog out of the raw release metadata text: an
/// undecodable document is a catalog failure; otherwise the asset URLs
/// feed the catalog build.
pub fn catalog_from_json(json: &str, suffixes: &Vec<String>) -> (r: Result<Catalog, YenError>)
    ensures
        match r {
            Ok(c) => {
                &&& c.inv()
                &&& assets_of(json@) is Some
                &&& Some(c@) == spec_build(assets_of(json@)->0, suffixes.deep_view())
            },
            Err(e) => (e@ is CatalogUnavailable && assets_of(json@) is None) || (e@ is Parse
                && assets_of(json@) is Some && spec_build(
                assets_of(json@)->0,
                suffixes.deep_view(),
            ) is None),
        },
{
    match parse_github_resp(json) {
        None => Err(YenError::CatalogUnavailable),
        Some(resp) => {
            let ghost asset_urls = Seq::new(
                resp.assets@.len(),
                |i: int| resp.assets@[i].browser_download_url@,
            );
            let urls = resp.into_urls();
            proof {
                assert(urls.deep_view() =~~= asset_urls);
                assert(assets_of(json@) == Some(urls.deep_view()));
            }
            list_pythons(&urls, suffixes)
        },
    }
}

/// A catalog line as the specification sees it.
pub struct SpecEntry {
    pub version: Version,
    pub url: Seq<char>,
    pub priority: int,
}

/// One catalog line: a resolved version, the archive URL it is served
/// from, and the priority of the suffix that matched it (lower is more
/// preferred).
#[derive(Clone, Debug)]
pub struct CatalogEntry {
    pub version: Version,
    pub url: String,
    pub priority: usize,
}

impl View for CatalogEntry {
    type V = SpecEntry;

    open spec fn view(&self) -> SpecEntry {
        SpecEntry { version: self.version, url: self.url@, priority: self.priority as int }
    }
}

/// Entries in strictly ascending version order.
pub open spec fn entries_sorted(es: Seq<SpecEntry>) -> bool {
    forall|i: int, j: int|
        0 <= i < j < es.len() ==> (#[trigger] es[i]).version.spec_lt(#[trigger] es[j].version)
}

/// Every entry holds a well-formed version.
pub open spec fn entries_wf(es: Seq<SpecEntry>) -> bool {
    forall|i: int| 0 <= i < es.len() ==> (#[trigger] es[i]).version.wf()
}

/// The release catalog: resolved versions mapped to download URLs,
/// ascending by version.
pub struct Catalog {
    pub entries: Vec<CatalogEntry>,
}

impl View for Catalog {
    type V = Seq<SpecEntry>;

    open spec fn view(&self) -> Seq<SpecEntry> {
        Seq::new(self.entries@.len(), |i: int| self.entries@[i]@)
    }
}

impl Catalog {
    pub open spec fn inv(self) -> bool {
        entries_sorted(self@) && entries_wf(self@)
    }
}

/// Upserting one line into a sorted catalog: placed at its version's
/// position; where the version is already present, the line with the more
/// preferred (lower) suffix priority wins, a tie going to the newcomer.
pub open spec fn spec_sorted_upsert(es: Seq<SpecEntry>, e: SpecEntry) -> Seq<SpecEntry>
    decreases es.len(),
{
    if es.len() == 0 {
        seq![e]
    } else if es.first().version.spec_lt(e.version) {
        seq![es.first()] + spec_sorted_upsert(es.drop_first(), e)
    } else if es.first().version == e.version {
        if e.priority <= es.first().priority {
            seq![e] + es.drop_first()
        } else {
            es
        }
    } else {
        seq![e] + es
    }
}

/// What one release contributes to the catalog: nothing when no suffix
/// fits or no version is captured; a failure when the captured version
/// does not parse; an upsert otherwise.
pub open spec fn spec_step(es: Seq<SpecEntry>, release: Seq<char>, suffixes: Seq<Seq<char>>) -> Option<
    Seq<SpecEntry>,
> {
    match spec_match_suffix(release, suffixes) {
        None => Some(es),
        Some(j) => match spec_capture(release) {
            None => Some(es),
            Some(cap) => match Version::spec_parse(cap) {
                None => None,
                Some(v) => Some(
                    spec_sorted_upsert(es, SpecEntry { version: v, url: release, priority: j }),
                ),
            },
        },
    }
}

/// The catalog built from a list of releases, in order.
pub open spec fn spec_build(releases: Seq<Seq<char>>, suffixes: Seq<Seq<char>>) -> Option<
    Seq<SpecEntry>,
>
    decreases releases.len(),
{
    if releases.len() == 0 {
        Some(Seq::<SpecEntry>::empty())
    } else {
        match spec_build(releases.drop_last(), suffixes) {
            None => None,
            Some(es) => spec_step(es, releases.last(), suffixes),
        }
    }
}

/// The upsert lands at the first position whose version is not below the
/// newcomer's, and preserves sortedness and well-formedness.
proof fn lemma_sorted_upsert_at(es: Seq<SpecEntry>, e: SpecEntry, k: int)
    requires
        entries_sorted(es),
        0 <= k <= es.len(),
        forall|i: int| 0 <= i < k ==> (#[trigger] es[i]).version.spec_lt(e.version),
        k < es.len() ==> !es[k].version.spec_lt(e.version),
    ensures
        spec_sorted_upsert(es, e) == if k < es.len() && es[k].version == e.version {
            if e.priority <= es[k].priority {
                es.update(k, e)
            } else {
                es
            }
        } else {
            es.insert(k, e)
        },
        entries_sorted(spec_sorted_upsert(es, e)),
        entries_wf(es) && e.version.wf() ==> entries_wf(spec_sorted_upsert(es, e)),
    decreases es.len(),
{
    let r = spec_sorted_upsert(es, e);
    if k == 0 {
        if es.len() == 0 {
            assert(r =~= es.insert(0, e));
        } else if es[0].version == e.version {
            assert(!es.first().version.spec_lt(e.version));
            if e.priority <= es[0].priority {
                assert(r =~= es.update(0, e));
            } else {
                assert(r =~= es);
            }
        } else {
            lemma_version_trichotomy(es[0].version, e.version);
            assert(e.version.spec_lt(es[0].version));
            assert(r =~= es.insert(0, e));
        }
    } else {
        assert(es.first().version.spec_lt(e.version));
        assert(forall|i: int|
            0 <= i < k - 1 ==> (#[trigger] es.drop_first()[i]).version.spec_lt(e.version)) by {
            assert(forall|i: int| 0 <= i < k - 1 ==> es.drop_first()[i] == es[i + 1]);
        }
        lemma_sorted_upsert_at(es.drop_first(), e, k - 1);
        let rr = spec_sorted_upsert(es.drop_first(), e);
        if k < es.len() && es[k].version == e.version {
            assert(es.drop_first()[k - 1] == es[k]);
            if e.priority <= es[k].priority {
                assert(rr == es.drop_first().update(k - 1, e));
                assert(r =~= es.update(k, e));
            } else {
                assert(r =~= es);
            }
        } else {
            assert(rr == es.drop_first().insert(k - 1, e));
            assert(r =~= es.insert(k, e));
        }
    }
    if k < es.len() && es[k].version == e.version {
        assert forall|i: int, j: int| 0 <= i < j < r.len() implies (#[trigger] r[i]).version.spec_lt(
            (#[trigger] r[j]).version,
        ) by {
            assert(r[i].version == es[i].version);
            assert(r[j].version == es[j].version);
        }
        assert forall|i: int| 0 <= i < r.len() implies entries_wf(es) && e.version.wf()
            ==> (#[trigger] r[i]).version.wf() by {
            if i != k {
                assert(r[i] == es[i]);
            }
        }
    } else {
        assert(r == es.insert(k, e));
        if k < es.len() {
            lemma_version_trichotomy(es[k].version, e.version);
            assert(e.version.spec_lt(es[k].version));
        }
        assert forall|i: int, j: int| 0 <= i < j < r.len() implies (#[trigger] r[i]).version.spec_lt(
            (#[trigger] r[j]).version,
        ) by {
            assert(forall|m: int| 0 <= m < k ==> r[m] == es[m]);
            assert(r[k] == e);
            assert(forall|m: int| k < m < r.len() ==> r[m] == es[m - 1]);
            if j < k {
                assert(es[i].version.spec_lt(es[j].version));
            } else if i < k && j == k {
                assert(es[i].version.spec_lt(e.version));
            } else if i < k && j > k {
                assert(es[i].version.spec_lt(es[j - 1].version));
            } else if i == k {
                assert(j > k);
                assert(k < es.len());
                if j - 1 == k {
                    assert(e.version.spec_lt(es[k].version));
                } else {
                    assert(es[k].version.spec_lt(es[j - 1].version));
                    lemma_version_lt_trans(e.version, es[k].version, es[j - 1].version);
                }
            } else {
                assert(es[i - 1].version.spec_lt(es[j - 1].version));
            }
        }
        assert forall|i: int| 0 <= i < r.len() implies entries_wf(es) && e.version.wf()
            ==> (#[trigger] r[i]).version.wf() by {
            if i < k {
                assert(r[i] == es[i]);
            } else if i > k {
                assert(r[i] == es[i - 1]);
            }
        }
    }
}

/// Places one line into the sorted entry list.
fn upsert_entry(entries: &mut Vec<CatalogEntry>, version: Version, url: String, priority: usize)
    requires
        entries_sorted(old(entries).deep_view_entries()),
    ensures
        final(entries).deep_view_entries() == spec_sorted_upsert(
            old(entries).deep_view_entries(),
            SpecEntry { version, url: url@, priority: priority as int },
        ),
{
    let ghost es = entries.deep_view_entries();
    let ghost e = SpecEntry { version, url: url@, priority: priority as int };
    let n = entries.len();
    let mut k: usize = 0;
    while k < n && entries[k].version.lt(&version)
        invariant
            n == entries@.len(),
            es == entries.deep_view_entries(),
            0 <= k <= n,
            forall|i: int| 0 <= i < k ==> (#[trigger] es[i]).version.spec_lt(version),
        decreases n - k,
    {
        k = k + 1;
    }
    proof {
        lemma_sorted_upsert_at(es, e, k as int);
    }
    if k < n && entries[k].version.eq(&version) {
        if priority <= entries[k].priority {
            entries.set(k, CatalogEntry { version, url, priority });
            proof {
                assert(entries.deep_view_entries() =~= es.update(k as int, e));
            }
        }
    } else {
        entries.insert(k, CatalogEntry { version, url, priority });
        proof {
            assert(entries.deep_view_entries() =~= es.insert(k as int, e));
        }
    }
}

/// Builds the catalog for one platform: each release whose name ends with
/// an acceptable suffix and carries a `cpython-<version>` marker is
/// entered under its version, a more preferred suffix displacing a less
/// preferred one. A captured version that overflows fails the build.
pub fn list_pythons(releases: &Vec<String>, suffixes: &Vec<String>) -> (r: Result<
    Catalog,
    YenError,
>)
    ensures
        match r {
            Ok(c) => c.inv() && Some(c@) == spec_build(releases.deep_view(), suffixes.deep_view()),
            Err(e) => e@ is Parse && spec_build(releases.deep_view(), suffixes.deep_view()) is None,
        },
{
    let ghost rels = releases.deep_view();
    let ghost sufs = suffixes.deep_view();
    proof {
        assert(forall|k: int| 0 <= k < rels.len() ==> rels[k] == #[trigger] releases@[k]@);
    }
    let n = releases.len();
    let mut entries: Vec<CatalogEntry> = Vec::new();
    let mut i: usize = 0;
    while i < n
        invariant
            n == rels.len(),
            n == releases@.len(),
            rels == releases.deep_view(),
            sufs == suffixes.deep_view(),
            forall|k: int| 0 <= k < rels.len() ==> rels[k] == #[trigger] releases@[k]@,
            0 <= i <= n,
            Some(entries.deep_view_entries()) == spec_build(rels.take(i as int), sufs),
            entries_sorted(entries.deep_view_entries()),
            entries_wf(entries.deep_view_entries()),
        decreases n - i,
    {
        let ghost before = entries.deep_view_entries();
        proof {
            assert(rels.take(i + 1).drop_last() =~= rels.take(i as int));
            assert(rels.take(i + 1).last() == rels[i as int]);
        }
        let release = &releases[i];
        if let Some(j) = match_suffix(release.as_str(), suffixes) {
            if let Some(cap) = capture_cpython_version(release.as_str()) {
                match Version::parse(cap.as_str()) {
                    Ok(v) => {
                        proof {
                            lemma_sorted_upsert_at_position_exists(before, SpecEntry {
                                version: v,
                                url: release@,
                                priority: j as int,
                            });
                        }
                        upsert_entry(&mut entries, v, release.clone(), j);
                    },
                    Err(_) => {
                        proof {
                            assert(spec_build(rels.take(i + 1), sufs) is None);
                            lemma_build_none_extends(rels, sufs, i + 1, rels.len() as int);
                            assert(rels.take(rels.len() as int) =~= rels);
                        }
                        return Err(YenError::Parse);
                    },
                }
            }
        }
        i = i + 1;
    }
    proof {
        assert(rels.take(n as int) =~= rels);
    }
    Ok(Catalog { entries })
}

/// The entry that holds `v`, where the catalog has one.
pub open spec fn spec_lookup(es: Seq<SpecEntry>, v: Version) -> Option<SpecEntry>
    decreases es.len(),
{
    if es.len() == 0 {
        None
    } else if es.first().version == v {
        Some(es.first())
    } else {
        spec_lookup(es.drop_first(), v)
    }
}

/// A version held by no entry is not found.
proof fn lemma_lookup_none(es: Seq<SpecEntry>, v: Version)
    requires
        forall|i: int| 0 <= i < es.len() ==> (#[trigger] es[i]).version != v,
    ensures
        spec_lookup(es, v) is None,
    decreases es.len(),
{
    if es.len() > 0 {
        assert(es[0].version != v);
        assert(forall|i: int|
            0 <= i < es.drop_first().len() ==> (#[trigger] es.drop_first()[i]).version != v) by {
            assert(forall|i: int|
                0 <= i < es.drop_first().len() ==> es.drop_first()[i] == es[i + 1]);
        }
        lemma_lookup_none(es.drop_first(), v);
    }
}

/// What one upsert does to each version's line: the upserted version
/// keeps whichever line carries the more preferred (lower) suffix
/// priority, a tie going to the newcomer; every other version is
/// untouched.
pub proof fn lemma_upsert_lookup(es: Seq<SpecEntry>, e: SpecEntry)
    requires
        entries_sorted(es),
    ensures
        spec_lookup(spec_sorted_upsert(es, e), e.version) == Some(
            match spec_lookup(es, e.version) {
                Some(held) => if e.priority <= held.priority {
                    e
                } else {
                    held
                },
                None => e,
            },
        ),
        forall|w: Version|
            w != e.version ==> spec_lookup(spec_sorted_upsert(es, e), w) == spec_lookup(es, w),
    decreases es.len(),
{
    let r = spec_sorted_upsert(es, e);
    if es.len() == 0 {
        assert(r == seq![e]);
        assert(r.first() == e);
        assert(r.drop_first() =~= Seq::<SpecEntry>::empty());
    } else if es.first().version.spec_lt(e.version) {
        assert(es.first().version != e.version);
        assert(forall|i: int, j: int|
            0 <= i < j < es.drop_first().len() ==> (#[trigger] es.drop_first()[i]).version.spec_lt(
                (#[trigger] es.drop_first()[j]).version,
            )) by {
            assert(forall|i: int|
                0 <= i < es.drop_first().len() ==> es.drop_first()[i] == es[i + 1]);
        }
        lemma_upsert_lookup(es.drop_first(), e);
        assert(r == seq![es.first()] + spec_sorted_upsert(es.drop_first(), e));
        assert(r.first() == es.first());
        assert(r.drop_first() =~= spec_sorted_upsert(es.drop_first(), e));
    } else if es.first().version == e.version {
        if e.priority <= es.first().priority {
            assert(r == seq![e] + es.drop_first());
            assert(r.first() == e);
            assert(r.drop_first() =~= es.drop_first());
        }
    } else {
        lemma_version_trichotomy(es.first().version, e.version);
        assert(e.version.spec_lt(es.first().version));
        assert(forall|i: int| 0 <= i < es.len() ==> (#[trigger] es[i]).version != e.version) by {
            assert forall|i: int| 0 <= i < es.len() implies (#[trigger] es[i]).version
                != e.version by {
                if i > 0 {
                    assert(es[0].version.spec_lt(es[i].version));
                    lemma_version_lt_trans(e.version, es[0].version, es[i].version);
                }
            }
        }
        lemma_lookup_none(es, e.version);
        assert(r == seq![e] + es);
        assert(r.first() == e);
        assert(r.drop_first() =~= es);
    }
    assert forall|w: Version| w != e.version implies spec_lookup(r, w) == spec_lookup(es, w) by {
        if es.len() == 0 {
            assert(spec_lookup(r, w) is None);
        } else if es.first().version.spec_lt(e.version) {
            if w != es.first().version {
                assert(spec_lookup(r, w) == spec_lookup(r.drop_first(), w));
                assert(spec_lookup(spec_sorted_upsert(es.drop_first(), e), w) == spec_lookup(
                    es.drop_first(),
                    w,
                ));
            }
        } else if es.first().version == e.version {
            if e.priority <= es.first().priority {
                assert(spec_lookup(r, w) == spec_lookup(es.drop_first(), w));
                assert(spec_lookup(es, w) == spec_lookup(es.drop_first(), w));
            }
        } else {
            assert(spec_lookup(r, w) == spec_lookup(es, w));
        }
    }
}

/// When one release version is published under two acceptable suffixes,
/// the build keeps the line whose suffix stands earlier in the priority
/// table — whichever order the two archives are listed in.
pub proof fn lemma_preferred_suffix_wins(es: Seq<SpecEntry>, a: SpecEntry, b: SpecEntry)
    requires
        entries_sorted(es),
        a.version == b.version,
        a.priority < b.priority,
        spec_lookup(es, a.version) is None,
    ensures
        spec_lookup(spec_sorted_upsert(spec_sorted_upsert(es, a), b), a.version) == Some(a),
        spec_lookup(spec_sorted_upsert(spec_sorted_upsert(es, b), a), a.version) == Some(a),
{
    lemma_upsert_lookup(es, a);
    lemma_sorted_upsert_at_position_exists(es, a);
    lemma_upsert_lookup(spec_sorted_upsert(es, a), b);
    lemma_upsert_lookup(es, b);
    lemma_sorted_upsert_at_position_exists(es, b);
    lemma_upsert_lookup(spec_sorted_upsert(es, b), a);
}

/// A failed build prefix fails the whole build.
proof fn lemma_build_none_extends(rels: Seq<Seq<char>>, sufs: Seq<Seq<char>>, m: int, l: int)
    requires
        0 <= m <= l <= rels.len(),
        spec_build(rels.take(m), sufs) is None,
    ensures
        spec_build(rels.take(l), sufs) is None,
    decreases l - m,
{
    if l > m {
        lemma_build_none_extends(rels, sufs, m, l - 1);
        assert(rels.take(l).drop_last() =~= rels.take(l - 1));
    } else {
        assert(rels.take(l) == rels.take(m));
    }
}

/// Some landing position exists for any upsert into a sorted list; used to
/// carry sortedness and well-formedness across an upsert.
proof fn lemma_sorted_upsert_at_position_exists(es: Seq<SpecEntry>, e: SpecEntry)
    requires
        entries_sorted(es),
    ensures
        entries_sorted(spec_sorted_upsert(es, e)),
        entries_wf(es) && e.version.wf() ==> entries_wf(spec_sorted_upsert(es, e)),
    decreases es.len(),
{
    if exists|k: int| first_not_below(es, e, k) {
        let k = choose|k: int| first_not_below(es, e, k);
        lemma_sorted_upsert_at(es, e, k);
    } else {
        lemma_all_below(es, e);
        lemma_sorted_upsert_at(es, e, es.len() as int);
    }
}

/// Position `k` is the first whose version is not below `e`'s.
spec fn first_not_below(es: Seq<SpecEntry>, e: SpecEntry, k: int) -> bool {
    0 <= k < es.len() && !es[k].version.spec_lt(e.version) && (forall|i: int|
        0 <= i < k ==> (#[trigger] es[i]).version.spec_lt(e.version))
}

/// When no position qualifies as the first not-below one, every version
/// lies below `e`'s.
proof fn lemma_all_below(es: Seq<SpecEntry>, e: SpecEntry)
    requires
        entries_sorted(es),
        !(exists|k: int| first_not_below(es, e, k)),
    ensures
        forall|i: int| 0 <= i < es.len() ==> (#[trigger] es[i]).version.spec_lt(e.version),
    decreases es.len(),
{
    assert forall|i: int| 0 <= i < es.len() implies (#[trigger] es[i]).version.spec_lt(e.version) by {
        if !es[i].version.spec_lt(e.version) {
            lemma_first_not_below_exists(es, e, i);
        }
    }
}

/// If some position is not below `e`, a first such position exists.
proof fn lemma_first_not_below_exists(es: Seq<SpecEntry>, e: SpecEntry, i: int)
    requires
        0 <= i < es.len(),
        !es[i].version.spec_lt(e.version),
    ensures
        exists|k: int| first_not_below(es, e, k),
    decreases i,
{
    if forall|j: int| 0 <= j < i ==> (#[trigger] es[j]).version.spec_lt(e.version) {
        assert(first_not_below(es, e, i));
    } else {
        let j = choose|j: int| 0 <= j < i && !(#[trigger] es[j]).version.spec_lt(e.version);
        lemma_first_not_below_exists(es, e, j);
    }
}

/// The entry list seen through each entry's view.
pub trait CatalogEntriesDeepView {
    spec fn deep_view_entries(&self) -> Seq<SpecEntry>;
}

impl CatalogEntriesDeepView for Vec<CatalogEntry> {
    open spec fn deep_view_entries(&self) -> Seq<SpecEntry> {
        Seq::new(self@.len(), |i: int| self@[i]@)
    }
}

/// What resolution yields: scanning from the highest version down, the
/// first entry whose rendering starts with the requested rendering.
pub open spec fn spec_resolve(es: Seq<SpecEntry>, requested: Version) -> Option<(Version, Seq<char>)>
    decreases es.len(),
{
    if es.len() == 0 {
        None
    } else if is_prefix(requested.spec_str(), es.last().version.spec_str()) {
        Some((es.last().version, es.last().url))
    } else {
        spec_resolve(es.drop_last(), requested)
    }
}

/// A resolved version matches the request and stands in the catalog.
pub proof fn lemma_spec_resolve_props(es: Seq<SpecEntry>, requested: Version)
    ensures
        match spec_resolve(es, requested) {
            Some((v, u)) => is_prefix(requested.spec_str(), v.spec_str()) && exists|i: int|
                0 <= i < es.len() && (#[trigger] es[i]).version == v && es[i].url == u,
            None => true,
        },
    decreases es.len(),
{
    if es.len() > 0 {
        if is_prefix(requested.spec_str(), es.last().version.spec_str()) {
            assert(es[es.len() - 1].version == es.last().version);
        } else {
            lemma_spec_resolve_props(es.drop_last(), requested);
            if spec_resolve(es.drop_last(), requested) is Some {
                let (v, u) = spec_resolve(es.drop_last(), requested)->0;
                let i = choose|i: int|
                    0 <= i < es.drop_last().len() && (#[trigger] es.drop_last()[i]).version == v
                        && es.drop_last()[i].url == u;
                assert(es[i].version == v && es[i].url == u);
            }
        }
    }
}

/// Resolves a requested, possibly partial version against the catalog:
/// the highest cataloged version whose rendering starts with the
/// requested one's rendering wins; with no match the version is not
/// available.
pub fn resolve_python_version(catalog: &Catalog, requested: &Version) -> (r: Result<
    (Version, String),
    YenError,
>)
    requires
        catalog.inv(),
    ensures
        match r {
            Ok((v, url)) => {
                &&& exists|i: int|
                    0 <= i < catalog@.len() && (#[trigger] catalog@[i]).version == v
                        && catalog@[i].url == url@
                &&& is_prefix(requested.spec_str(), v.spec_str())
                &&& v.wf()
                &&& forall|i: int|
                    0 <= i < catalog@.len() && is_prefix(
                        requested.spec_str(),
                        (#[trigger] catalog@[i]).version.spec_str(),
                    ) ==> catalog@[i].version.spec_le(v)
            },
            Err(e) => e@ is VersionNotFound && forall|i: int|
                0 <= i < catalog@.len() ==> !is_prefix(
                    requested.spec_str(),
                    (#[trigger] catalog@[i]).version.spec_str(),
                ),
        },
        match r {
            Ok((v, url)) => spec_resolve(catalog@, *requested) == Some((v, url@)),
            Err(_) => spec_resolve(catalog@, *requested) is None,
        },
{
    let n = catalog.entries.len();
    let mut i: usize = n;
    proof {
        assert(catalog@.take(n as int) =~= catalog@);
    }
    while i > 0
        invariant
            n == catalog.entries@.len(),
            catalog.inv(),
            0 <= i <= n,
            forall|j: int|
                i <= j < n ==> !is_prefix(
                    requested.spec_str(),
                    (#[trigger] catalog@[j]).version.spec_str(),
                ),
            spec_resolve(catalog@, *requested) == spec_resolve(
                catalog@.take(i as int),
                *requested,
            ),
        decreases i,
    {
        i = i - 1;
        proof {
            assert(catalog@.take(i + 1).drop_last() =~= catalog@.take(i as int));
            assert(catalog@.take(i + 1).last() == catalog@[i as int]);
        }
        let entry = &catalog.entries[i];
        if entry.version.matches_prefix(requested) {
            let v = entry.version;
            let url = entry.url.clone();
            proof {
                assert(catalog@[i as int].version == v && catalog@[i as int].url == url@);
                assert forall|j: int|
                    0 <= j < catalog@.len() && is_prefix(
                        requested.spec_str(),
                        (#[trigger] catalog@[j]).version.spec_str(),
                    ) implies catalog@[j].version.spec_le(v) by {
                    if j < i as int {
                        assert(catalog@[j].version.spec_lt(catalog@[i as int].version));
                    }
                }
            }
            return Ok((v, url));
        }
    }
    Err(YenError::VersionNotFound)
}

} // verus!
