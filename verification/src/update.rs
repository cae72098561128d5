//! Update check decisions: semantic-version comparison of the running
//! build against a release tag, the pick of the newest release of a
//! listing, and the verdict offered to the user. Fetching the releases is
//! the caller's I/O; everything decided from what came back is here.

use vstd::prelude::*;

use crate::text::{append_str, lemma_lead_char_unique, owned, string_of, strip_leading, strip_leading_str, trim, trim_str};

verus! {

#[verifier::external_type_specification]
#[verifier::external_body]
pub struct ExSemverVersion(semver::Version);

/// Whether `semver::Version::parse` accepts the text.
pub uninterp spec fn semver_accepts(text: Seq<char>) -> bool;

/// The order of two versions as `semver::Version`'s `Ord` puts them,
/// each version given by the text it was parsed from.
pub uninterp spec fn semver_order(a: Seq<char>, b: Seq<char>) -> Precedence;

/// Result of comparing one version against another.
#[derive(Debug, Clone, Copy, PartialEq, Eq, Structural)]
pub enum Precedence {
    Less,
    Equal,
    Greater,
}

impl Precedence {
    pub open spec fn reversed(self) -> Precedence {
        match self {
            Precedence::Less => Precedence::Greater,
            Precedence::Equal => Precedence::Equal,
            Precedence::Greater => Precedence::Less,
        }
    }
}

/// A parsed semantic version together with the text it came from.
pub struct SemVersion {
    version: semver::Version,
    text: String,
}

impl View for SemVersion {
    type V = Seq<char>;

    closed spec fn view(&self) -> Seq<char> {
        self.text@
    }
}

/// `semver::Version::parse`: `Some` exactly when semver accepts the text.
#[verifier::external_body]
fn parse_version(text: &str) -> (r: Option<SemVersion>)
    ensures
        r is Some <==> semver_accepts(text@),
        r matches Some(v) ==> v@ == text@,
{
    match semver::Version::parse(text) {
        Ok(version) => Some(SemVersion { version, text: text.to_owned() }),
        Err(_) => None,
    }
}

/// `Ord::cmp` on two parsed versions. Besides naming the result, the
/// contract states the total-order facts that `Ord` documents and that
/// the derived order of `semver::Version` has: swapping the operands
/// reverses the result, and `<=`, `<` chain through the compared pair.
#[verifier::external_body]
fn compare_parsed(a: &SemVersion, b: &SemVersion) -> (r: Precedence)
    ensures
        r == semver_order(a@, b@),
        semver_order(b@, a@) == r.reversed(),
        forall|c: Seq<char>|
            #![trigger semver_order(c, b@)]
            semver_accepts(c) && r != Precedence::Greater ==> (semver_order(c, a@)
                != Precedence::Greater ==> semver_order(c, b@) != Precedence::Greater) && (
            semver_order(c, a@) == Precedence::Less ==> semver_order(c, b@) == Precedence::Less),
        forall|c: Seq<char>|
            #![trigger semver_order(b@, c)]
            semver_accepts(c) && r != Precedence::Greater ==> (semver_order(a@, c)
                != Precedence::Less ==> semver_order(b@, c) != Precedence::Less) && (semver_order(
                a@,
                c,
            ) == Precedence::Greater ==> semver_order(b@, c) == Precedence::Greater),
{
    match a.version.cmp(&b.version) {
        std::cmp::Ordering::Less => Precedence::Less,
        std::cmp::Ordering::Equal => Precedence::Equal,
        std::cmp::Ordering::Greater => Precedence::Greater,
    }
}

/// A tag as compared: every leading `v` stripped.
pub open spec fn tag_text(tag: Seq<char>) -> Seq<char> {
    strip_leading(tag, 'v')
}

/// The order of the tag's version against the running one; `None` when
/// either side does not parse.
pub open spec fn tag_precedence(current: Seq<char>, tag: Seq<char>) -> Option<Precedence> {
    if semver_accepts(current) && semver_accepts(tag_text(tag)) {
        Some(semver_order(tag_text(tag), current))
    } else {
        None
    }
}

/// Outcome of an update check.
#[derive(Debug, PartialEq, Eq)]
pub enum Verdict {
    UpToDate,
    /// Stable channel, but no stable release exists yet.
    NoRelease,
    /// The newer version plus its release notes.
    UpdateAvailable { version: String, notes: Option<String> },
}

/// What a verdict says, with its strings as character sequences.
pub enum VerdictView {
    UpToDate,
    NoRelease,
    UpdateAvailable { version: Seq<char>, notes: Option<Seq<char>> },
}

pub open spec fn opt_view(o: Option<String>) -> Option<Seq<char>> {
    match o {
        Some(s) => Some(s@),
        None => None,
    }
}

impl View for Verdict {
    type V = VerdictView;

    open spec fn view(&self) -> VerdictView {
        match self {
            Verdict::UpToDate => VerdictView::UpToDate,
            Verdict::NoRelease => VerdictView::NoRelease,
            Verdict::UpdateAvailable { version, notes } => VerdictView::UpdateAvailable {
                version: version@,
                notes: opt_view(*notes),
            },
        }
    }
}

/// The verdict for a tag whose version compares as `p` against the
/// running one: newer offers the update, anything else is up to date.
pub open spec fn verdict_for(p: Precedence, tag: Seq<char>, notes: Option<Seq<char>>) -> VerdictView {
    if p == Precedence::Greater {
        VerdictView::UpdateAvailable { version: tag_text(tag), notes }
    } else {
        VerdictView::UpToDate
    }
}

/// Order of the tag's version against the running one.
fn compare_versions(current: &str, latest_tag: &str) -> (r: Option<Precedence>)
    ensures
        r == tag_precedence(current@, latest_tag@),
        r matches Some(p) ==> semver_order(current@, tag_text(latest_tag@)) == p.reversed(),
{
    let current = parse_version(current)?;
    let stripped = strip_leading_str(latest_tag, 'v');
    let latest = parse_version(stripped.as_str())?;
    Some(compare_parsed(&latest, &current))
}

pub open spec fn verdict_opt_view(r: Option<Verdict>) -> Option<VerdictView> {
    match r {
        Some(v) => Some(v@),
        None => None,
    }
}

/// What comparing `current` against `tag` gives: `None` when either side
/// does not parse, else the verdict for the tag's order against the
/// running version; and in that case the two versions, taken the other
/// way round, are in the reverse order.
pub open spec fn compare_outcome(current: Seq<char>, tag: Seq<char>, r: Option<VerdictView>) -> bool {
    &&& r is None <==> tag_precedence(current, tag) is None
    &&& r matches Some(v) ==> v == verdict_for(tag_precedence(current, tag)->0, tag, None)
    &&& r is Some ==> semver_order(current, tag_text(tag)) == semver_order(tag_text(tag), current).reversed()
}

/// Pure comparison, no network: `None` when either side won't parse,
/// an update when the tag is newer, up to date otherwise.
pub fn compare(current: &str, latest_tag: &str) -> (r: Option<Verdict>)
    ensures
        compare_outcome(current@, latest_tag@, verdict_opt_view(r)),
{
    match compare_versions(current, latest_tag) {
        Some(p) => Some(verdict_of(p, latest_tag, None)),
        None => None,
    }
}

/// The text does not start with `v`, so a tag written that way compares
/// as the text itself.
pub open spec fn no_lead_v(s: Seq<char>) -> bool {
    s.len() == 0 || s[0] != 'v'
}

proof fn lemma_tag_text_plain(s: Seq<char>)
    requires
        no_lead_v(s),
    ensures
        tag_text(s) == s,
{
    lemma_lead_char_unique(s, 'v', 0);
    assert(s.skip(0) =~= s);
}

/// A version compared with itself is up to date.
pub proof fn law_compare_self(a: Seq<char>, aa: Option<VerdictView>)
    requires
        semver_accepts(a),
        no_lead_v(a),
        compare_outcome(a, a, aa),
    ensures
        aa == Some(VerdictView::UpToDate),
{
    lemma_tag_text_plain(a);
}

/// Two versions compared both ways round: an update one way is up to
/// date the other way, and up to date both ways means semver orders the
/// two versions as equal.
pub proof fn law_compare_swapped(a: Seq<char>, b: Seq<char>, ab: Option<VerdictView>, ba: Option<VerdictView>)
    requires
        semver_accepts(a),
        semver_accepts(b),
        no_lead_v(a),
        no_lead_v(b),
        compare_outcome(a, b, ab),
        compare_outcome(b, a, ba),
    ensures
        ab is Some && ba is Some,
        ab matches Some(VerdictView::UpdateAvailable { .. }) ==> ba == Some(VerdictView::UpToDate),
        ab == Some(VerdictView::UpToDate) && ba == Some(VerdictView::UpToDate) ==> semver_order(a, b)
            == Precedence::Equal,
{
    lemma_tag_text_plain(a);
    lemma_tag_text_plain(b);
}

fn verdict_of(p: Precedence, tag: &str, notes: Option<String>) -> (v: Verdict)
    ensures
        v@ == verdict_for(p, tag@, opt_view(notes)),
{
    match p {
        Precedence::Greater => Verdict::UpdateAvailable {
            version: strip_leading_str(tag, 'v'),
            notes,
        },
        _ => Verdict::UpToDate,
    }
}

/// One published release as the listing reports it.
#[derive(Debug, Clone, PartialEq, Eq)]
pub struct Release {
    pub tag_name: String,
    pub body: Option<String>,
}

/// The tag of the `i`-th release parses.
pub open spec fn parses_at(releases: Seq<Release>, i: int) -> bool {
    semver_accepts(tag_text(releases[i].tag_name@))
}

/// Order of the versions of the `i`-th and `j`-th release.
pub open spec fn order_at(releases: Seq<Release>, i: int, j: int) -> Precedence {
    semver_order(tag_text(releases[i].tag_name@), tag_text(releases[j].tag_name@))
}

/// Release `i` is the newest among the first `n`: its tag parses, no
/// earlier parseable release is newer, and every later one is older
/// (among equal versions the last listed wins).
pub open spec fn newest_within(releases: Seq<Release>, n: int, i: int) -> bool {
    &&& 0 <= i < n <= releases.len()
    &&& parses_at(releases, i)
    &&& forall|j: int|
        #![trigger releases[j]]
        0 <= j < n && j != i && parses_at(releases, j) ==> (j < i ==> order_at(releases, j, i)
            != Precedence::Greater && order_at(releases, i, j) != Precedence::Less) && (i < j
            ==> order_at(releases, j, i) == Precedence::Less && order_at(releases, i, j)
            == Precedence::Greater)
}

/// Whether any of the first `n` releases has a parseable tag.
pub open spec fn any_parses(releases: Seq<Release>, n: int) -> bool {
    exists|j: int| 0 <= j < n && #[trigger] parses_at(releases, j)
}

/// Index of the newest release: the highest version, the later one of
/// equal versions; `None` when no tag parses.
fn newest_index(releases: &Vec<Release>) -> (r: Option<usize>)
    ensures
        r is None <==> !any_parses(releases@, releases@.len() as int),
        r matches Some(i) ==> newest_within(releases@, releases@.len() as int, i as int),
{
    let mut best: Option<(usize, SemVersion)> = None;
    let mut j: usize = 0;
    while j < releases.len()
        invariant
            j <= releases.len(),
            best is None <==> !any_parses(releases@, j as int),
            best matches Some(b) ==> newest_within(releases@, j as int, b.0 as int) && b.1@
                == tag_text(releases@[b.0 as int].tag_name@),
        decreases releases.len() - j,
    {
        let stripped = strip_leading_str(releases[j].tag_name.as_str(), 'v');
        match parse_version(stripped.as_str()) {
            None => {
                assert(!parses_at(releases@, j as int));
                assert(any_parses(releases@, j as int) == any_parses(releases@, j + 1)) by {
                    if any_parses(releases@, j + 1) {
                        let w = choose|w: int| 0 <= w < j + 1 && #[trigger] parses_at(releases@, w);
                        assert(w < j);
                    }
                }
            },
            Some(version) => {
                assert(parses_at(releases@, j as int));
                match best {
                    None => {
                        best = Some((j, version));
                    },
                    Some((b, best_version)) => {
                        let p = compare_parsed(&best_version, &version);
                        if p == Precedence::Greater {
                            best = Some((b, best_version));
                        } else {
                            best = Some((j, version));
                        }
                    },
                }
            },
        }
        j = j + 1;
    }
    match best {
        Some((b, _)) => Some(b),
        None => None,
    }
}

/// The release with the highest version; the listing is ordered by date,
/// so a beta published after a stable would otherwise win. Unparseable
/// tags are ignored.
pub fn newest(releases: Vec<Release>) -> (r: Option<Release>)
    ensures
        r is None <==> !any_parses(releases@, releases@.len() as int),
        r matches Some(x) ==> exists|i: int|
            newest_within(releases@, releases@.len() as int, i) && x == releases@[i],
{
    let mut releases = releases;
    match newest_index(&releases) {
        Some(i) => Some(releases.swap_remove(i)),
        None => None,
    }
}

/// What the release query answered.
pub enum Fetched {
    /// The Pre-release channel's listing: `Ok(None)` is a 404.
    Releases(Result<Option<Vec<Release>>, String>),
    /// The Stable channel's "latest": `Ok(None)` is a 404, which GitHub
    /// answers until the first stable release.
    Latest(Result<Option<Release>, String>),
}

/// Release notes: the trimmed body, when anything remains.
pub open spec fn notes_of(body: Option<String>) -> Option<Seq<char>> {
    match body {
        Some(b) => if trim(b@).len() > 0 {
            Some(trim(b@))
        } else {
            None
        },
        None => None,
    }
}

pub open spec fn no_releases_message() -> Seq<char> {
    "no releases published yet"@
}

pub open spec fn unparseable_message(tag: Seq<char>) -> Seq<char> {
    "unparseable version '"@ + tag + "'"@
}

/// The verdict on one release against the running version.
pub open spec fn release_verdict(current: Seq<char>, release: Release) -> Result<VerdictView, Seq<char>> {
    match tag_precedence(current, release.tag_name@) {
        Some(p) => Ok(verdict_for(p, release.tag_name@, notes_of(release.body))),
        None => Err(unparseable_message(release.tag_name@)),
    }
}

/// The newest release of a listing, when one has a parseable tag.
pub open spec fn listing_pick(releases: Seq<Release>) -> Option<Release> {
    if any_parses(releases, releases.len() as int) {
        Some(releases[choose|i: int| newest_within(releases, releases.len() as int, i)])
    } else {
        None
    }
}

/// The whole check, from what the query answered.
pub open spec fn check_outcome(current: Seq<char>, fetched: Fetched) -> Result<VerdictView, Seq<char>> {
    match fetched {
        Fetched::Releases(Err(e)) => Err(e@),
        Fetched::Releases(Ok(None)) => Err(no_releases_message()),
        Fetched::Releases(Ok(Some(list))) => match listing_pick(list@) {
            Some(r) => release_verdict(current, r),
            None => Err(no_releases_message()),
        },
        Fetched::Latest(Err(e)) => Err(e@),
        Fetched::Latest(Ok(None)) => Ok(VerdictView::NoRelease),
        Fetched::Latest(Ok(Some(r))) => release_verdict(current, r),
    }
}

pub open spec fn result_view(r: Result<Verdict, String>) -> Result<VerdictView, Seq<char>> {
    match r {
        Ok(v) => Ok(v@),
        Err(e) => Err(e@),
    }
}

/// At most one release of a listing is the newest.
pub proof fn lemma_newest_unique(releases: Seq<Release>, i: int, k: int)
    requires
        newest_within(releases, releases.len() as int, i),
        newest_within(releases, releases.len() as int, k),
    ensures
        i == k,
{
    if i < k {
        assert(releases[k] == releases[k]);
        assert(releases[i] == releases[i]);
        assert(order_at(releases, i, k) != Precedence::Greater);
        assert(order_at(releases, k, i) == Precedence::Less);
    } else if k < i {
        assert(releases[k] == releases[k]);
        assert(releases[i] == releases[i]);
        assert(order_at(releases, k, i) != Precedence::Greater);
        assert(order_at(releases, i, k) == Precedence::Less);
    }
}

fn trimmed_notes(body: &Option<String>) -> (r: Option<String>)
    ensures
        opt_view(r) == notes_of(*body),
{
    match body {
        Some(b) => {
            let t = trim_str(b.as_str());
            if t.as_str().is_empty() {
                None
            } else {
                Some(t)
            }
        },
        None => None,
    }
}

fn verdict_of_release(current: &str, release: Release) -> (r: Result<Verdict, String>)
    ensures
        result_view(r) == release_verdict(current@, release),
{
    let notes = trimmed_notes(&release.body);
    match compare_versions(current, release.tag_name.as_str()) {
        Some(p) => Ok(verdict_of(p, release.tag_name.as_str(), notes)),
        None => {
            let mut msg: Vec<char> = Vec::new();
            append_str(&mut msg, "unparseable version '");
            append_str(&mut msg, release.tag_name.as_str());
            append_str(&mut msg, "'");
            Err(string_of(&msg))
        },
    }
}

/// The update check's decision from the query's answer. The Pre-release
/// channel takes the newest listed release, the Stable channel GitHub's
/// "latest"; either way an update is offered only when the release is
/// newer than the running build, so no downgrade is ever proposed.
pub fn check(current: &str, fetched: Fetched) -> (r: Result<Verdict, String>)
    ensures
        result_view(r) == check_outcome(current@, fetched),
{
    match fetched {
        Fetched::Releases(Err(e)) => Err(e),
        Fetched::Releases(Ok(None)) => Err(owned("no releases published yet")),
        Fetched::Releases(Ok(Some(list))) => {
            let ghost listing = list@;
            match newest(list) {
                Some(release) => {
                    proof {
                        let i = choose|i: int|
                            newest_within(listing, listing.len() as int, i) && release
                                == listing[i];
                        let k = choose|k: int| newest_within(listing, listing.len() as int, k);
                        lemma_newest_unique(listing, i, k);
                    }
                    verdict_of_release(current, release)
                },
                None => Err(owned("no releases published yet")),
            }
        },
        Fetched::Latest(Err(e)) => Err(e),
        Fetched::Latest(Ok(None)) => Ok(Verdict::NoRelease),
        Fetched::Latest(Ok(Some(release))) => verdict_of_release(current, release),
    }
}

/// The Settings page's line after a check: up to date, no stable release
/// yet, the version on offer, or why the check failed.
pub open spec fn spec_update_note(r: Result<VerdictView, Seq<char>>) -> Seq<char> {
    match r {
        Ok(VerdictView::UpToDate) => "Up to date."@,
        Ok(VerdictView::NoRelease) => "No stable release yet. You'll get the first one when it ships."@,
        Ok(VerdictView::UpdateAvailable { version, notes }) => "Version "@ + version + " available."@,
        Err(e) => "Couldn't check: "@ + e,
    }
}

pub fn update_note(result: &Result<Verdict, String>) -> (r: String)
    ensures
        r@ == spec_update_note(result_view(*result)),
{
    let mut out: Vec<char> = Vec::new();
    match result {
        Ok(Verdict::UpToDate) => crate::text::append_str(&mut out, "Up to date."),
        Ok(Verdict::NoRelease) => crate::text::append_str(
            &mut out,
            "No stable release yet. You'll get the first one when it ships.",
        ),
        Ok(Verdict::UpdateAvailable { version, notes }) => {
            crate::text::append_str(&mut out, "Version ");
            crate::text::append_str(&mut out, version.as_str());
            crate::text::append_str(&mut out, " available.");
        },
        Err(e) => {
            crate::text::append_str(&mut out, "Couldn't check: ");
            crate::text::append_str(&mut out, e.as_str());
        },
    }
    string_of(&out)
}

/// The update check never offers a downgrade or the running version: an
/// update is offered only for a release whose tag (without its leading
/// `v`s) parses and is strictly newer than the running version, and it
/// names that version. On the Stable channel a parseable "latest" release
/// is offered exactly when it is strictly newer; otherwise (the same
/// version, or an older one) the build is up to date.
pub proof fn law_check_offers_only_newer(current: Seq<char>, fetched: Fetched)
    ensures
        check_outcome(current, fetched) matches Ok(VerdictView::UpdateAvailable { version, notes }) ==> semver_accepts(
            current,
        ) && semver_accepts(version) && semver_order(version, current) == Precedence::Greater,
        fetched matches Fetched::Latest(Ok(Some(r))) ==> (semver_accepts(current) && semver_accepts(
            tag_text(r.tag_name@),
        ) ==> (semver_order(tag_text(r.tag_name@), current) == Precedence::Greater ==> check_outcome(
            current,
            fetched,
        ) == Ok::<VerdictView, Seq<char>>(
            VerdictView::UpdateAvailable { version: tag_text(r.tag_name@), notes: notes_of(r.body) },
        )) && (semver_order(tag_text(r.tag_name@), current) != Precedence::Greater ==> check_outcome(
            current,
            fetched,
        ) == Ok::<VerdictView, Seq<char>>(VerdictView::UpToDate))),
{
}

} // verus!
