//! A local, searchable index of extensions.
//!
//! The index works offline: it starts from a bundled seed, and a cache that cannot be read never
//! stands in the way of discovery.

use crate::decimal;
use crate::error::Error;
use crate::error::ErrorText;
use crate::order;
use crate::order::SortKey;
use crate::paths;
use crate::paths::Platform;
use crate::text;
use crate::time;
use crate::time::Duration;
use crate::time::UtcInstant;
use vstd::prelude::*;

verus! {

broadcast use vstd::string::group_string_axioms;

/// The schema of the indexes that this version reads and writes.
pub const EXTENSION_INDEX_SCHEMA: &'static str = "pi.ext.index.v1";

/// The version of the indexes that this version reads and writes.
pub const EXTENSION_INDEX_VERSION: u32 = 1;

/// How many seconds old an index may become before it is refreshed: those of one day.
pub const DEFAULT_INDEX_MAX_AGE: u64 = 60 * 60 * 24;

/// An index of extensions.
#[derive(Debug, Clone)]
pub struct ExtensionIndex {
    /// The schema of the index.
    pub schema: String,
    /// The version of the index.
    pub version: u32,
    /// When the index was made.
    pub generated_at: Option<String>,
    /// When the index was last brought up to date.
    pub last_refreshed_at: Option<String>,
    /// The extensions.
    pub entries: Vec<ExtensionIndexEntry>,
}

/// An extension in the index.
#[derive(Debug, Clone)]
pub struct ExtensionIndexEntry {
    /// Globally unique id within the index (stable key).
    pub id: String,
    /// Primary display name (often npm package name or repo name).
    pub name: String,
    /// What the extension does.
    pub description: Option<String>,
    /// Tags to find the extension by.
    pub tags: Vec<String>,
    /// The license.
    pub license: Option<String>,
    /// Where the extension comes from.
    pub source: Option<ExtensionIndexSource>,
    /// What to hand to the package manager to install it (e.g. `npm:pkg@ver`).
    pub install_source: Option<String>,
}

/// Where an extension comes from.
#[derive(Debug, Clone)]
pub enum ExtensionIndexSource {
    /// A package of the npm registry.
    Npm {
        /// The package.
        package: String,
        /// The version.
        version: Option<String>,
        /// Where the package can be downloaded.
        url: Option<String>,
    },
    /// A git repository.
    Git {
        /// The repository.
        repo: String,
        /// The path within the repository.
        path: Option<String>,
        /// The branch, tag or commit.
        reference: Option<String>,
    },
    /// A file to download.
    Url {
        /// Where the file can be downloaded.
        url: String,
    },
}

/// An extension that a search has found.
#[derive(Debug, Clone)]
pub struct ExtensionSearchHit {
    /// The extension.
    pub entry: ExtensionIndexEntry,
    /// How well it fits.
    pub score: i64,
}

/// What an index says.
#[verifier::ext_equal]
pub struct IndexModel {
    /// The schema of the index.
    pub schema: Seq<char>,
    /// The version of the index.
    pub version: u32,
    /// When the index was made.
    pub generated_at: Option<Seq<char>>,
    /// When the index was last brought up to date.
    pub last_refreshed_at: Option<Seq<char>>,
    /// The extensions.
    pub entries: Seq<EntryModel>,
}

/// What an entry says.
#[verifier::ext_equal]
pub struct EntryModel {
    /// The id.
    pub id: Seq<char>,
    /// The display name.
    pub name: Seq<char>,
    /// What the extension does.
    pub description: Option<Seq<char>>,
    /// Tags to find the extension by.
    pub tags: Seq<Seq<char>>,
    /// The license.
    pub license: Option<Seq<char>>,
    /// Where the extension comes from.
    pub source: Option<SourceModel>,
    /// What to hand to the package manager to install it.
    pub install_source: Option<Seq<char>>,
}

/// What the source of an extension says.
#[verifier::ext_equal]
pub enum SourceModel {
    /// A package of the npm registry.
    Npm {
        /// The package.
        package: Seq<char>,
        /// The version.
        version: Option<Seq<char>>,
        /// Where the package can be downloaded.
        url: Option<Seq<char>>,
    },
    /// A git repository.
    Git {
        /// The repository.
        repo: Seq<char>,
        /// The path within the repository.
        path: Option<Seq<char>>,
        /// The branch, tag or commit.
        reference: Option<Seq<char>>,
    },
    /// A file to download.
    Url {
        /// Where the file can be downloaded.
        url: Seq<char>,
    },
}

/// What a search hit says.
#[verifier::ext_equal]
pub struct HitModel {
    /// The extension.
    pub entry: EntryModel,
    /// How well it fits.
    pub score: int,
}

impl View for ExtensionIndexSource {
    type V = SourceModel;

    open spec fn view(&self) -> SourceModel {
        match *self {
            ExtensionIndexSource::Npm { package, version, url } => SourceModel::Npm {
                package: package@,
                version: text::opt_text(version),
                url: text::opt_text(url),
            },
            ExtensionIndexSource::Git { repo, path, reference } => SourceModel::Git {
                repo: repo@,
                path: text::opt_text(path),
                reference: text::opt_text(reference),
            },
            ExtensionIndexSource::Url { url } => SourceModel::Url { url: url@ },
        }
    }
}

/// What a source that may be absent says.
pub open spec fn source_view(o: Option<ExtensionIndexSource>) -> Option<SourceModel> {
    match o {
        Some(s) => Some(s@),
        None => None,
    }
}

impl View for ExtensionIndexEntry {
    type V = EntryModel;

    open spec fn view(&self) -> EntryModel {
        EntryModel {
            id: self.id@,
            name: self.name@,
            description: text::opt_text(self.description),
            tags: text::texts(self.tags@),
            license: text::opt_text(self.license),
            source: source_view(self.source),
            install_source: text::opt_text(self.install_source),
        }
    }
}

/// What each entry of a sequence says.
pub open spec fn entry_views(entries: Seq<ExtensionIndexEntry>) -> Seq<EntryModel> {
    Seq::new(entries.len(), |i: int| entries[i]@)
}

impl View for ExtensionIndex {
    type V = IndexModel;

    open spec fn view(&self) -> IndexModel {
        IndexModel {
            schema: self.schema@,
            version: self.version,
            generated_at: text::opt_text(self.generated_at),
            last_refreshed_at: text::opt_text(self.last_refreshed_at),
            entries: entry_views(self.entries@),
        }
    }
}

impl View for ExtensionSearchHit {
    type V = HitModel;

    open spec fn view(&self) -> HitModel {
        HitModel { entry: self.entry@, score: self.score as int }
    }
}

/// What each hit of a sequence says.
pub open spec fn hit_views(hits: Seq<ExtensionSearchHit>) -> Seq<HitModel> {
    Seq::new(hits.len(), |i: int| hits[i]@)
}

impl ExtensionIndexSource {
    /// Another source that says the same.
    pub fn duplicate(&self) -> (r: ExtensionIndexSource)
        ensures
            r@ == self@,
    {
        match self {
            ExtensionIndexSource::Npm { package, version, url } => ExtensionIndexSource::Npm {
                package: package.clone(),
                version: text::copy_opt(version),
                url: text::copy_opt(url),
            },
            ExtensionIndexSource::Git { repo, path, reference } => ExtensionIndexSource::Git {
                repo: repo.clone(),
                path: text::copy_opt(path),
                reference: text::copy_opt(reference),
            },
            ExtensionIndexSource::Url { url } => ExtensionIndexSource::Url { url: url.clone() },
        }
    }
}

impl ExtensionIndexEntry {
    /// Another entry that says the same.
    pub fn duplicate(&self) -> (r: ExtensionIndexEntry)
        ensures
            r@ == self@,
    {
        ExtensionIndexEntry {
            id: self.id.clone(),
            name: self.name.clone(),
            description: text::copy_opt(&self.description),
            tags: text::copy_strings(&self.tags),
            license: text::copy_opt(&self.license),
            source: match &self.source {
                Some(s) => Some(s.duplicate()),
                None => None,
            },
            install_source: text::copy_opt(&self.install_source),
        }
    }
}

// ----------------------------------------------------------------------------
// Validity and age
// ----------------------------------------------------------------------------

/// An index without entries, made at a given time.
pub open spec fn empty_index(generated_at: Seq<char>) -> IndexModel {
    IndexModel {
        schema: EXTENSION_INDEX_SCHEMA@,
        version: EXTENSION_INDEX_VERSION,
        generated_at: Some(generated_at),
        last_refreshed_at: None,
        entries: Seq::empty(),
    }
}

/// Why an index cannot be used, if it cannot.
pub open spec fn invalidity(index: IndexModel) -> Option<ErrorText> {
    if index.schema != EXTENSION_INDEX_SCHEMA@ {
        Some(ErrorText::Validation("Unsupported extension index schema: "@ + index.schema))
    } else if index.version != EXTENSION_INDEX_VERSION {
        Some(
            ErrorText::Validation(
                "Unsupported extension index version: "@ + decimal::numeral(index.version as nat),
            ),
        )
    } else {
        None
    }
}

/// Whether an index needs to be brought up to date, given when it last was.
pub open spec fn stale(refreshed: Option<UtcInstant>, now: UtcInstant, max_age: Duration) -> bool {
    match refreshed {
        Some(then) => time::older_than(now, then, max_age),
        None => true,
    }
}

/// The instant that a timestamp names, if there is a timestamp and it is well formed.
pub open spec fn refresh_instant(timestamp: Option<Seq<char>>) -> Option<UtcInstant> {
    match timestamp {
        Some(ts) => time::rfc3339_instant(ts),
        None => None,
    }
}

/// Whether an index that was last brought up to date at `refreshed` needs to be so again.
///
/// It does if it never was, if the timestamp lies in the future, and if it is older than
/// `max_age`.
pub fn is_stale_since(refreshed: Option<UtcInstant>, now: UtcInstant, max_age: Duration) -> (r:
    bool)
    ensures
        r == stale(refreshed, now, max_age),
{
    match refreshed {
        Some(then) => time::is_older_than(now, then, max_age),
        None => true,
    }
}

impl ExtensionIndex {
    /// An index without entries, made now.
    #[must_use]
    pub fn new_empty() -> (r: ExtensionIndex)
        ensures
            r.generated_at is Some,
            r@ == empty_index(r.generated_at->0@),
    {
        ExtensionIndex::empty_at(time::utc_now_rfc3339())
    }

    /// An index without entries, made at `generated_at`.
    #[must_use]
    pub fn empty_at(generated_at: String) -> (r: ExtensionIndex)
        ensures
            r@ == empty_index(generated_at@),
    {
        let r = ExtensionIndex {
            schema: EXTENSION_INDEX_SCHEMA.to_owned(),
            version: EXTENSION_INDEX_VERSION,
            generated_at: Some(generated_at),
            last_refreshed_at: None,
            entries: Vec::new(),
        };
        r
    }

    /// Checks that the index has the schema and the version of this library.
    pub fn validate(&self) -> (r: Result<(), Error>)
        ensures
            match r {
                Ok(()) => invalidity(self@) is None,
                Err(e) => invalidity(self@) == Some(e@),
            },
    {
        if !text::same_str(self.schema.as_str(), EXTENSION_INDEX_SCHEMA) {
            return Err(
                Error::Validation(
                    text::concat2("Unsupported extension index schema: ", self.schema.as_str()),
                ),
            );
        }
        if self.version != EXTENSION_INDEX_VERSION {
            let mut message = "Unsupported extension index version: ".to_owned();
            decimal::push_decimal(&mut message, self.version as u64);
            return Err(Error::Validation(message));
        }
        Ok(())
    }

    /// Whether the index needs to be brought up to date.
    #[must_use]
    pub fn is_stale(&self, now: UtcInstant, max_age: Duration) -> (r: bool)
        ensures
            r == stale(refresh_instant(self@.last_refreshed_at), now, max_age),
    {
        let refreshed = match &self.last_refreshed_at {
            Some(ts) => time::parse_rfc3339(ts.as_str()),
            None => None,
        };
        is_stale_since(refreshed, now, max_age)
    }
}

// ----------------------------------------------------------------------------
// Search
// ----------------------------------------------------------------------------

/// The lower-case forms of texts.
pub open spec fn lowered_texts(v: Seq<Seq<char>>) -> Seq<Seq<char>> {
    Seq::new(v.len(), |i: int| text::ascii_lower(v[i]))
}

/// What a query asks for: its words, in lower case.
pub open spec fn query_tokens(query: Seq<char>) -> Seq<Seq<char>> {
    lowered_texts(text::words(query))
}

/// Whether a token occurs in the lower-case form of a text.
pub open spec fn mentions(s: Seq<char>, token: Seq<char>) -> bool {
    text::contains(text::ascii_lower(s), token)
}

/// Whether a token occurs in the lower-case form of the description. An entry without one is
/// taken to have an empty one.
pub open spec fn described_by(description: Option<Seq<char>>, token: Seq<char>) -> bool {
    match description {
        Some(d) => mentions(d, token),
        None => mentions(Seq::empty(), token),
    }
}

/// Whether a token occurs in the lower-case form of some tag.
pub open spec fn tagged_with(tags: Seq<Seq<char>>, token: Seq<char>) -> bool {
    exists|i: int| 0 <= i < tags.len() && mentions(#[trigger] tags[i], token)
}

/// What one token adds to the score of an entry.
pub open spec fn token_score(entry: EntryModel, token: Seq<char>) -> int {
    (if mentions(entry.name, token) {
        300int
    } else {
        0
    }) + (if mentions(entry.id, token) {
        120int
    } else {
        0
    }) + (if described_by(entry.description, token) {
        60int
    } else {
        0
    }) + (if tagged_with(entry.tags, token) {
        180int
    } else {
        0
    })
}

/// The score of an entry: what the tokens add up to.
pub open spec fn score(entry: EntryModel, tokens: Seq<Seq<char>>) -> int
    decreases tokens.len(),
{
    if tokens.len() == 0 {
        0
    } else {
        score(entry, tokens.drop_last()) + token_score(entry, tokens.last())
    }
}

/// The indices of the entries that some token fits, in order.
pub open spec fn matching(entries: Seq<EntryModel>, tokens: Seq<Seq<char>>) -> Seq<int>
    decreases entries.len(),
{
    if entries.len() == 0 {
        Seq::empty()
    } else {
        let before = matching(entries.drop_last(), tokens);
        if score(entries.last(), tokens) > 0 {
            before.push(entries.len() - 1)
        } else {
            before
        }
    }
}

/// What decides the rank of an entry: its score, then whether it can be installed, then its name
/// and its id without regard to case.
pub open spec fn rank_key(entry: EntryModel, tokens: Seq<Seq<char>>) -> order::Key {
    order::Key {
        score: score(entry, tokens),
        preferred: entry.install_source is Some,
        first: text::ascii_lower(entry.name),
        second: text::ascii_lower(entry.id),
    }
}

/// The rank keys of the entries that some token fits.
pub open spec fn rank_keys(entries: Seq<EntryModel>, tokens: Seq<Seq<char>>) -> Seq<order::Key> {
    let found = matching(entries, tokens);
    Seq::new(found.len(), |k: int| rank_key(entries[found[k]], tokens))
}

/// The entries that some token fits, best first.
pub open spec fn ranked(entries: Seq<EntryModel>, tokens: Seq<Seq<char>>) -> Seq<HitModel> {
    let found = matching(entries, tokens);
    let by_rank = order::stable_order(rank_keys(entries, tokens));
    Seq::new(
        by_rank.len(),
        |p: int|
            {
                let entry = entries[found[by_rank[p] as int]];
                HitModel { entry, score: score(entry, tokens) }
            },
    )
}

/// What a search finds: the best `limit` of the entries that some word of the query fits.
pub open spec fn search_hits(
    entries: Seq<EntryModel>,
    query: Seq<char>,
    limit: nat,
) -> Seq<HitModel> {
    let all = ranked(entries, query_tokens(query));
    if all.len() <= limit {
        all
    } else {
        all.take(limit as int)
    }
}

fn lowered_words(query: &str) -> (r: Vec<String>)
    ensures
        text::texts(r@) == query_tokens(query@),
{
    let cs = text::chars_of(query);
    let words = text::words_of(cs.as_slice());
    let mut out: Vec<String> = Vec::new();
    let mut i: usize = 0;
    while i < words.len()
        invariant
            i <= words.len(),
            out@.len() == i,
            forall|j: int|
                0 <= j < i ==> (#[trigger] out@[j])@ == text::ascii_lower(words@[j]@),
        decreases words.len() - i,
    {
        let low = text::lowered(words[i].as_slice());
        out.push(text::string_of(low.as_slice()));
        i = i + 1;
    }
    out
}

fn mentioned(s: &str, token: &[char]) -> (r: bool)
    ensures
        r == mentions(s@, token@),
{
    let cs = text::chars_of(s);
    let low = text::lowered(cs.as_slice());
    text::contains_chars(low.as_slice(), token)
}

fn some_tag_mentions(tags: &Vec<String>, token: &[char]) -> (r: bool)
    ensures
        r == tagged_with(text::texts(tags@), token@),
{
    let mut i: usize = 0;
    while i < tags.len()
        invariant
            i <= tags.len(),
            forall|j: int| 0 <= j < i ==> !mentions(#[trigger] tags@[j]@, token@),
        decreases tags.len() - i,
    {
        if mentioned(tags[i].as_str(), token) {
            assert(mentions(text::texts(tags@)[i as int], token@));
            return true;
        }
        i = i + 1;
    }
    false
}

/// The score of an entry for tokens in lower case.
///
/// A token adds 300 where it occurs in the name, 120 in the id, 60 in the description and 180 in
/// some tag.
pub fn score_entry(entry: &ExtensionIndexEntry, tokens: &[String]) -> (r: i64)
    requires
        660 * tokens@.len() <= i64::MAX,
    ensures
        r == score(entry@, text::texts(tokens@)),
        0 <= r <= 660 * tokens@.len(),
{
    let ghost all = text::texts(tokens@);
    let mut total: i64 = 0;
    let mut i: usize = 0;
    while i < tokens.len()
        invariant
            i <= tokens@.len(),
            all == text::texts(tokens@),
            660 * tokens@.len() <= i64::MAX,
            0 <= total <= 660 * i,
            total == score(entry@, all.take(i as int)),
        decreases tokens@.len() - i,
    {
        let token = text::chars_of(tokens[i].as_str());
        if mentioned(entry.name.as_str(), token.as_slice()) {
            total = total + 300;
        }
        if mentioned(entry.id.as_str(), token.as_slice()) {
            total = total + 120;
        }
        let described = match &entry.description {
            Some(d) => mentioned(d.as_str(), token.as_slice()),
            None => {
                proof {
                    reveal_strlit("");
                    assert(""@ =~= Seq::<char>::empty());
                }
                mentioned("", token.as_slice())
            },
        };
        if described {
            total = total + 60;
        }
        if some_tag_mentions(&entry.tags, token.as_slice()) {
            total = total + 180;
        }
        assert(all.take(i + 1).drop_last() =~= all.take(i as int));
        i = i + 1;
    }
    assert(all.take(tokens@.len() as int) =~= all);
    total
}

proof fn lemma_words_count(s: Seq<char>)
    ensures
        text::words(s).len() <= s.len(),
    decreases s.len(),
{
    text::lemma_word_len(s);
    if s.len() > 0 {
        if text::white_space(s[0]) {
            lemma_words_count(s.drop_first());
        } else {
            lemma_words_count(s.skip(text::word_len(s)));
        }
    }
}

impl ExtensionIndex {
    /// Finds the best `limit` entries for a query.
    ///
    /// The query is taken word by word, without regard to ASCII case. The hits are sorted by
    /// score, then entries that can be installed come before those that cannot, then they are
    /// sorted by name and by id.
    #[must_use]
    pub fn search(&self, query: &str, limit: usize) -> (r: Vec<ExtensionSearchHit>)
        requires
            660 * query@.len() <= i64::MAX,
        ensures
            hit_views(r@) == search_hits(self@.entries, query@, limit as nat),
    {
        let tokens = lowered_words(query);
        let ghost ts = query_tokens(query@);
        let ghost es = self@.entries;
        proof {
            lemma_words_count(query@);
            assert(text::texts(tokens@).len() == ts.len());
        }
        let mut found: Vec<usize> = Vec::new();
        let mut scores: Vec<i64> = Vec::new();
        let mut keys: Vec<SortKey> = Vec::new();
        let mut i: usize = 0;
        while i < self.entries.len()
            invariant
                i <= self.entries.len(),
                es == self@.entries,
                text::texts(tokens@) == ts,
                660 * tokens@.len() <= i64::MAX,
                found@.len() == matching(es.take(i as int), ts).len(),
                scores@.len() == found@.len(),
                keys@.len() == found@.len(),
                forall|k: int|
                    0 <= k < found@.len() ==> {
                        &&& (#[trigger] found@[k]) == matching(es.take(i as int), ts)[k]
                        &&& found@[k] < i
                        &&& scores@[k] == score(es[found@[k] as int], ts)
                        &&& keys@[k]@ == rank_key(es[found@[k] as int], ts)
                    },
            decreases self.entries.len() - i,
        {
            let entry = &self.entries[i];
            let points = score_entry(entry, tokens.as_slice());
            assert(es.take(i + 1).drop_last() =~= es.take(i as int));
            if points > 0 {
                let name = text::chars_of(entry.name.as_str());
                let id = text::chars_of(entry.id.as_str());
                keys.push(
                    SortKey {
                        score: points,
                        preferred: entry.install_source.is_some(),
                        first: text::lowered(name.as_slice()),
                        second: text::lowered(id.as_slice()),
                    },
                );
                found.push(i);
                scores.push(points);
            }
            i = i + 1;
        }
        assert(es.take(es.len() as int) =~= es);
        assert(order::key_views(keys@) =~= rank_keys(es, ts)) by {
            assert forall|k: int| 0 <= k < keys@.len() implies keys@[k]@ == rank_keys(
                es,
                ts,
            )[k] by {
                assert(found@[k] == matching(es, ts)[k]);
            }
        }
        let by_rank = order::sort_indices(&keys);
        let ghost all = ranked(es, ts);
        let mut hits: Vec<ExtensionSearchHit> = Vec::new();
        let mut p: usize = 0;
        while p < by_rank.len() && p < limit
            invariant
                p <= by_rank.len(),
                p <= limit,
                es == self@.entries,
                all == ranked(es, ts),
                by_rank@ == order::stable_order(rank_keys(es, ts)),
                all.len() == by_rank@.len(),
                found@.len() == matching(es, ts).len(),
                scores@.len() == found@.len(),
                rank_keys(es, ts).len() == found@.len(),
                order::is_stable_order(rank_keys(es, ts), by_rank@),
                forall|k: int|
                    0 <= k < found@.len() ==> {
                        &&& (#[trigger] found@[k]) == matching(es, ts)[k]
                        &&& found@[k] < self.entries@.len()
                        &&& scores@[k] == score(es[found@[k] as int], ts)
                    },
                hits@.len() == p,
                forall|j: int| 0 <= j < p ==> (#[trigger] hits@[j])@ == all[j],
            decreases by_rank.len() - p,
        {
            let k: usize = by_rank[p];
            let at: usize = found[k];
            let entry = self.entries[at].duplicate();
            hits.push(ExtensionSearchHit { entry, score: scores[k] });
            p = p + 1;
        }
        hits
    }
}

// ----------------------------------------------------------------------------
// Install sources
// ----------------------------------------------------------------------------

/// Whether an id is that of the npm package `name`, without regard to case.
pub open spec fn npm_id_of(id: Seq<char>, name: Seq<char>) -> bool {
    &&& text::starts_with(id, "npm/"@)
    &&& text::same_ignoring_case(id.skip(4), name)
}

/// Whether `name` names an entry: by its name, its id or its npm package, without regard to case.
pub open spec fn named(entry: EntryModel, name: Seq<char>) -> bool {
    ||| text::same_ignoring_case(entry.name, name)
    ||| text::same_ignoring_case(entry.id, name)
    ||| match entry.source {
        Some(SourceModel::Npm { package, .. }) => text::same_ignoring_case(package, name),
        _ => false,
    }
    ||| npm_id_of(entry.id, name)
}

/// Whether `name` names an entry that can be installed from `source`.
pub open spec fn offers(entry: EntryModel, name: Seq<char>, source: Seq<char>) -> bool {
    named(entry, name) && entry.install_source == Some(source)
}

/// Whether `source` is the only source from which entries that `name` names can be installed.
pub open spec fn sole_source(
    entries: Seq<EntryModel>,
    name: Seq<char>,
    source: Seq<char>,
) -> bool {
    &&& exists|i: int| 0 <= i < entries.len() && offers(#[trigger] entries[i], name, source)
    &&& forall|i: int|
        0 <= i < entries.len() && named(#[trigger] entries[i], name)
            && entries[i].install_source is Some ==> entries[i].install_source == Some(source)
}

/// Whether a query resolves to an install source.
pub open spec fn resolves_to(
    entries: Seq<EntryModel>,
    query: Seq<char>,
    source: Seq<char>,
) -> bool {
    &&& text::trim(query).len() > 0
    &&& sole_source(entries, text::trim(query), source)
}

fn is_npm_id_of(id: &str, name: &str) -> (r: bool)
    ensures
        r == npm_id_of(id@, name@),
{
    proof {
        reveal_strlit("npm/");
    }
    let cs = text::chars_of(id);
    if text::starts_with_str(cs.as_slice(), "npm/") {
        let rest = vstd::slice::slice_subrange(cs.as_slice(), 4, cs.len());
        let lower_rest = text::lowered(rest);
        let wanted = text::chars_of(name);
        let lower_wanted = text::lowered(wanted.as_slice());
        text::same_chars(lower_rest.as_slice(), lower_wanted.as_slice())
    } else {
        false
    }
}

impl ExtensionIndexEntry {
    /// Whether `name` names this entry: by its name, its id or its npm package.
    pub fn is_named(&self, name: &str) -> (r: bool)
        ensures
            r == named(self@, name@),
    {
        if text::eq_ignore_ascii_case(self.name.as_str(), name) || text::eq_ignore_ascii_case(
            self.id.as_str(),
            name,
        ) {
            return true;
        }
        match &self.source {
            Some(ExtensionIndexSource::Npm { package, .. }) => {
                if text::eq_ignore_ascii_case(package.as_str(), name) {
                    return true;
                }
            },
            _ => {},
        }
        is_npm_id_of(self.id.as_str(), name)
    }
}

impl ExtensionIndex {
    /// Resolves the unique install source for an id or a name.
    ///
    /// This is what allows `pi install checkpoint-pi` without an `npm:` or `git:` prefix. Where
    /// the name is ambiguous there is no result.
    #[must_use]
    pub fn resolve_install_source(&self, query: &str) -> (r: Option<String>)
        ensures
            match r {
                Some(source) => resolves_to(self@.entries, query@, source@),
                None => forall|source: Seq<char>|
                    !#[trigger] resolves_to(self@.entries, query@, source),
            },
    {
        let q = text::trim_str(query);
        let chars = text::chars_of(q.as_str());
        if chars.len() == 0 {
            return None;
        }
        let ghost es = self@.entries;
        let mut sole: Option<String> = None;
        let mut i: usize = 0;
        while i < self.entries.len()
            invariant
                i <= self.entries.len(),
                es == self@.entries,
                q@ == text::trim(query@),
                q@.len() > 0,
                match sole {
                    Some(s) => {
                        &&& exists|j: int| 0 <= j < i && offers(#[trigger] es[j], q@, s@)
                        &&& forall|j: int|
                            0 <= j < i && named(#[trigger] es[j], q@)
                                && es[j].install_source is Some ==> es[j].install_source
                                == Some(s@)
                    },
                    None => forall|j: int|
                        0 <= j < i && named(#[trigger] es[j], q@) ==> es[j].install_source is None,
                },
            decreases self.entries.len() - i,
        {
            let entry = &self.entries[i];
            match &entry.install_source {
                Some(install) => {
                    if entry.is_named(q.as_str()) {
                        assert(offers(es[i as int], q@, install@));
                        let differs = match &sole {
                            Some(s) => !text::same_str(s.as_str(), install.as_str()),
                            None => false,
                        };
                        if differs {
                            return None;
                        }
                        sole = Some(install.clone());
                    }
                },
                None => {},
            }
            i = i + 1;
        }
        sole
    }
}

// ----------------------------------------------------------------------------
// The cache
// ----------------------------------------------------------------------------

/// What was found where the cached index is kept.
#[derive(Debug, Clone)]
pub enum CacheRead {
    /// There is no file.
    Missing,
    /// The file cannot be read, or does not hold an index.
    Unreadable(Error),
    /// The file holds an index.
    Parsed(ExtensionIndex),
}

/// Where the cached index is kept.
#[derive(Debug, Clone)]
pub struct ExtensionIndexStore {
    path: String,
}

impl View for ExtensionIndexStore {
    type V = Seq<char>;

    closed spec fn view(&self) -> Seq<char> {
        self.path@
    }
}

/// Whether `r` is what loading the cache gives.
pub open spec fn loaded(read: CacheRead, r: Result<Option<ExtensionIndex>, Error>) -> bool {
    match read {
        CacheRead::Missing => r == Ok::<Option<ExtensionIndex>, Error>(None),
        CacheRead::Unreadable(e) => r == Err::<Option<ExtensionIndex>, Error>(e),
        CacheRead::Parsed(index) => match r {
            Ok(found) => invalidity(index@) is None && found == Some(index),
            Err(e) => invalidity(index@) == Some(e@),
        },
    }
}

/// The cached index, where it can be used.
pub open spec fn usable(read: CacheRead) -> Option<IndexModel> {
    match read {
        CacheRead::Parsed(index) => if invalidity(index@) is None {
            Some(index@)
        } else {
            None
        },
        _ => None,
    }
}

impl ExtensionIndexStore {
    /// A store that keeps the index at `path`.
    #[must_use]
    pub fn new(path: String) -> (r: ExtensionIndexStore)
        ensures
            r@ == path@,
    {
        ExtensionIndexStore { path }
    }

    /// Where the index is kept by default: where the configuration says.
    #[must_use]
    pub fn default_path(configured: &str) -> (r: String)
        ensures
            r@ == configured@,
    {
        configured.to_owned()
    }

    /// The store at the default path.
    #[must_use]
    pub fn default_store(configured: &str) -> (r: ExtensionIndexStore)
        ensures
            r@ == configured@,
    {
        ExtensionIndexStore::new(ExtensionIndexStore::default_path(configured))
    }

    /// Where the index is kept.
    #[must_use]
    pub fn path(&self) -> (r: &str)
        ensures
            r@ == self@,
    {
        self.path.as_str()
    }

    /// The cached index, given what was found at the path of the store.
    ///
    /// There is none if there is no file. A file that does not hold a valid index is an error.
    pub fn load(&self, read: CacheRead) -> (r: Result<Option<ExtensionIndex>, Error>)
        ensures
            loaded(read, r),
    {
        match read {
            CacheRead::Missing => Ok(None),
            CacheRead::Unreadable(e) => Err(e),
            CacheRead::Parsed(index) => match index.validate() {
                Ok(()) => Ok(Some(index)),
                Err(e) => Err(e),
            },
        }
    }

    /// The cached index, or the bundled one where there is no cached one that can be used.
    ///
    /// A cache that cannot be used is never an error: only the bundled data can be at fault.
    pub fn load_or_seed(
        &self,
        read: CacheRead,
        provenance: Result<ArtifactProvenance, Error>,
    ) -> (r: Result<ExtensionIndex, Error>)
        ensures
            match usable(read) {
                Some(cached) => r is Ok && r->Ok_0@ == cached,
                None => match provenance {
                    Ok(p) => r is Ok && r->Ok_0@ == seeded(p@),
                    Err(e) => r == Err::<ExtensionIndex, Error>(e),
                },
            },
    {
        match self.load(read) {
            Ok(Some(index)) => Ok(index),
            Ok(None) => seed_index(provenance),
            Err(_) => seed_index(provenance),
        }
    }

    /// Decides whether an index can be saved, and in which directory.
    ///
    /// The index must be valid, and the path of the store must have a parent. The file is to be
    /// written to that directory under a temporary name, and then moved to the path.
    pub fn save(&self, index: &ExtensionIndex, platform: Platform) -> (r: Result<String, Error>)
        ensures
            match invalidity(index@) {
                Some(e) => r is Err && r->Err_0@ == e,
                None => match paths::parent(self@, platform) {
                    Some(dir) => r is Ok && r->Ok_0@ == dir,
                    None => r is Err && r->Err_0@ == ErrorText::Config(
                        "Invalid extension index path: "@ + self@,
                    ),
                },
            },
    {
        match index.validate() {
            Ok(()) => {},
            Err(e) => {
                return Err(e);
            },
        }
        match paths::parent_of(self.path.as_str(), platform) {
            Some(dir) => Ok(dir),
            None => Err(
                Error::Config(
                    text::concat2("Invalid extension index path: ", self.path.as_str()),
                ),
            ),
        }
    }

    /// Resolves the unique install source for an id or a name, with the cached index or the
    /// bundled one.
    pub fn resolve_install_source(
        &self,
        read: CacheRead,
        provenance: Result<ArtifactProvenance, Error>,
        query: &str,
    ) -> (r: Result<Option<String>, Error>)
        ensures
            match r {
                Ok(found) => {
                    let index = match usable(read) {
                        Some(cached) => cached,
                        None => seeded(provenance->Ok_0@),
                    };
                    &&& usable(read) is Some || provenance is Ok
                    &&& match found {
                        Some(source) => resolves_to(index.entries, query@, source@),
                        None => forall|source: Seq<char>|
                            !#[trigger] resolves_to(index.entries, query@, source),
                    }
                },
                Err(e) => usable(read) is None && provenance == Err::<ArtifactProvenance, Error>(e),
            },
    {
        match self.load_or_seed(read, provenance) {
            Ok(index) => Ok(index.resolve_install_source(query)),
            Err(e) => Err(e),
        }
    }
}

// ----------------------------------------------------------------------------
// The bundled index
// ----------------------------------------------------------------------------

/// The bundled list of extensions, with where each was found.
#[derive(Debug, Clone)]
pub struct ArtifactProvenance {
    /// When the list was made.
    pub generated: Option<String>,
    /// The extensions.
    pub items: Vec<ArtifactProvenanceItem>,
}

/// An extension of the bundled list.
#[derive(Debug, Clone)]
pub struct ArtifactProvenanceItem {
    /// The id.
    pub id: String,
    /// The name.
    pub name: String,
    /// The license.
    pub license: Option<String>,
    /// Where the extension was found.
    pub source: ArtifactProvenanceSource,
}

/// Where an extension of the bundled list was found.
#[derive(Debug, Clone)]
pub enum ArtifactProvenanceSource {
    /// A git repository.
    Git {
        /// The repository.
        repo: String,
        /// The path within the repository.
        path: Option<String>,
    },
    /// A package of the npm registry.
    Npm {
        /// The package.
        package: String,
        /// The version.
        version: Option<String>,
        /// Where the package can be downloaded.
        url: Option<String>,
    },
    /// A file to download.
    Url {
        /// Where the file can be downloaded.
        url: String,
    },
}

/// What an extension of the bundled list says.
#[verifier::ext_equal]
pub struct ItemModel {
    /// The id.
    pub id: Seq<char>,
    /// The name.
    pub name: Seq<char>,
    /// The license.
    pub license: Option<Seq<char>>,
    /// Where the extension was found.
    pub source: SourceModel,
}

/// What the bundled list says.
#[verifier::ext_equal]
pub struct ProvenanceModel {
    /// When the list was made.
    pub generated: Option<Seq<char>>,
    /// The extensions.
    pub items: Seq<ItemModel>,
}

impl View for ArtifactProvenanceSource {
    type V = SourceModel;

    open spec fn view(&self) -> SourceModel {
        match *self {
            ArtifactProvenanceSource::Git { repo, path } => SourceModel::Git {
                repo: repo@,
                path: text::opt_text(path),
                reference: None,
            },
            ArtifactProvenanceSource::Npm { package, version, url } => SourceModel::Npm {
                package: package@,
                version: text::opt_text(version),
                url: text::opt_text(url),
            },
            ArtifactProvenanceSource::Url { url } => SourceModel::Url { url: url@ },
        }
    }
}

impl View for ArtifactProvenanceItem {
    type V = ItemModel;

    open spec fn view(&self) -> ItemModel {
        ItemModel {
            id: self.id@,
            name: self.name@,
            license: text::opt_text(self.license),
            source: self.source@,
        }
    }
}

impl View for ArtifactProvenance {
    type V = ProvenanceModel;

    open spec fn view(&self) -> ProvenanceModel {
        ProvenanceModel {
            generated: text::opt_text(self.generated),
            items: Seq::new(self.items@.len(), |i: int| self.items@[i]@),
        }
    }
}

/// The license that is kept of one that the bundled list gives: none that is blank or unknown.
pub open spec fn known_license(license: Option<Seq<char>>) -> Option<Seq<char>> {
    match license {
        Some(l) => if text::trim(l).len() > 0 && !text::same_ignoring_case(l, "unknown"@) {
            Some(l)
        } else {
            None
        },
        None => None,
    }
}

/// The source of the entry for an extension of the bundled list. An npm package goes by the name
/// of the extension.
pub open spec fn seeded_source(item: ItemModel) -> SourceModel {
    match item.source {
        SourceModel::Npm { package, version, url } => SourceModel::Npm {
            package: item.name,
            version,
            url,
        },
        SourceModel::Git { repo, path, reference } => SourceModel::Git {
            repo,
            path,
            reference: None,
        },
        SourceModel::Url { url } => SourceModel::Url { url },
    }
}

/// The install source of the entry for an extension of the bundled list.
///
/// A path within a git repository, and a file to download, cannot be installed by themselves.
pub open spec fn seeded_install_source(item: ItemModel) -> Option<Seq<char>> {
    match item.source {
        SourceModel::Npm { version: Some(v), .. } => Some(
            "npm:"@ + item.name + "@"@ + text::trim(v),
        ),
        SourceModel::Npm { version: None, .. } => Some("npm:"@ + item.name),
        SourceModel::Git { repo, path: None, .. } => Some("git:"@ + repo),
        SourceModel::Git { path: Some(_), .. } => None,
        SourceModel::Url { .. } => None,
    }
}

/// The tags of the entry for an extension of the bundled list.
pub open spec fn seeded_tags(item: ItemModel) -> Seq<Seq<char>> {
    let kind = match item.source {
        SourceModel::Npm { .. } => "npm"@,
        SourceModel::Git { .. } => "git"@,
        SourceModel::Url { .. } => "url"@,
    };
    seq![kind, "extension"@]
}

/// The entry for an extension of the bundled list.
pub open spec fn seeded_entry(item: ItemModel) -> EntryModel {
    EntryModel {
        id: item.id,
        name: item.name,
        description: None,
        tags: seeded_tags(item),
        license: known_license(item.license),
        source: Some(seeded_source(item)),
        install_source: seeded_install_source(item),
    }
}

/// What decides the place of an extension of the bundled list: its id, without regard to case.
pub open spec fn seed_key(item: ItemModel) -> order::Key {
    order::Key {
        score: 0,
        preferred: false,
        first: text::ascii_lower(item.id),
        second: Seq::empty(),
    }
}

/// The keys of extensions of the bundled list.
pub open spec fn seed_keys(items: Seq<ItemModel>) -> Seq<order::Key> {
    Seq::new(items.len(), |i: int| seed_key(items[i]))
}

/// The entries for the bundled list, sorted by id without regard to case.
pub open spec fn seeded_entries(items: Seq<ItemModel>) -> Seq<EntryModel> {
    let by_id = order::stable_order(seed_keys(items));
    Seq::new(by_id.len(), |p: int| seeded_entry(items[by_id[p] as int]))
}

/// The index for the bundled list.
pub open spec fn seeded(provenance: ProvenanceModel) -> IndexModel {
    IndexModel {
        schema: EXTENSION_INDEX_SCHEMA@,
        version: EXTENSION_INDEX_VERSION,
        generated_at: provenance.generated,
        last_refreshed_at: None,
        entries: seeded_entries(provenance.items),
    }
}

fn keep_known_license(license: &Option<String>) -> (r: Option<String>)
    ensures
        text::opt_text(r) == known_license(text::opt_text(*license)),
{
    match license {
        Some(l) => {
            let cs = text::chars_of(l.as_str());
            let core = text::trimmed(cs.as_slice());
            if core.len() > 0 && !text::eq_ignore_ascii_case(l.as_str(), "unknown") {
                Some(l.clone())
            } else {
                None
            }
        },
        None => None,
    }
}

fn kind_tags(kind: &str) -> (r: Vec<String>)
    ensures
        text::texts(r@) == seq![kind@, "extension"@],
{
    let mut tags: Vec<String> = Vec::new();
    tags.push(kind.to_owned());
    tags.push("extension".to_owned());
    tags
}

/// The entry for an extension of the bundled list.
pub fn entry_for(item: &ArtifactProvenanceItem) -> (r: ExtensionIndexEntry)
    ensures
        r@ == seeded_entry(item@),
{
    let name = item.name.as_str();
    let (source, install_source, tags) = match &item.source {
        ArtifactProvenanceSource::Npm { version, url, .. } => {
            let install = match version {
                Some(v) => {
                    let mut s = text::concat3("npm:", name, "@");
                    s.append(text::trim_str(v.as_str()).as_str());
                    s
                },
                None => text::concat2("npm:", name),
            };
            (
                ExtensionIndexSource::Npm {
                    package: item.name.clone(),
                    version: text::copy_opt(version),
                    url: text::copy_opt(url),
                },
                Some(install),
                kind_tags("npm"),
            )
        },
        ArtifactProvenanceSource::Git { repo, path } => {
            let install = match path {
                Some(_) => None,
                None => Some(text::concat2("git:", repo.as_str())),
            };
            (
                ExtensionIndexSource::Git {
                    repo: repo.clone(),
                    path: text::copy_opt(path),
                    reference: None,
                },
                install,
                kind_tags("git"),
            )
        },
        ArtifactProvenanceSource::Url { url } => {
            (ExtensionIndexSource::Url { url: url.clone() }, None, kind_tags("url"))
        },
    };
    ExtensionIndexEntry {
        id: item.id.clone(),
        name: item.name.clone(),
        description: None,
        tags,
        license: keep_known_license(&item.license),
        source: Some(source),
        install_source,
    }
}

/// The index for the bundled list, given what reading the list gave.
pub fn seed_index(provenance: Result<ArtifactProvenance, Error>) -> (r: Result<
    ExtensionIndex,
    Error,
>)
    ensures
        match provenance {
            Ok(p) => r is Ok && r->Ok_0@ == seeded(p@),
            Err(e) => r == Err::<ExtensionIndex, Error>(e),
        },
{
    let provenance = match provenance {
        Ok(p) => p,
        Err(e) => {
            return Err(e);
        },
    };
    let ghost items = provenance@.items;
    let mut keys: Vec<SortKey> = Vec::new();
    let mut i: usize = 0;
    while i < provenance.items.len()
        invariant
            i <= provenance.items.len(),
            items == provenance@.items,
            keys@.len() == i,
            forall|k: int| 0 <= k < i ==> (#[trigger] keys@[k])@ == seed_key(items[k]),
        decreases provenance.items.len() - i,
    {
        let id = text::chars_of(provenance.items[i].id.as_str());
        keys.push(
            SortKey {
                score: 0,
                preferred: false,
                first: text::lowered(id.as_slice()),
                second: Vec::new(),
            },
        );
        i = i + 1;
    }
    assert(order::key_views(keys@) =~= seed_keys(items));
    let by_id = order::sort_indices(&keys);
    let ghost all = seeded_entries(items);
    let mut entries: Vec<ExtensionIndexEntry> = Vec::new();
    let mut p: usize = 0;
    while p < by_id.len()
        invariant
            p <= by_id.len(),
            items == provenance@.items,
            all == seeded_entries(items),
            by_id@ == order::stable_order(seed_keys(items)),
            order::is_stable_order(seed_keys(items), by_id@),
            entries@.len() == p,
            forall|j: int| 0 <= j < p ==> (#[trigger] entries@[j])@ == all[j],
        decreases by_id.len() - p,
    {
        let k: usize = by_id[p];
        entries.push(entry_for(&provenance.items[k]));
        p = p + 1;
    }
    Ok(
        ExtensionIndex {
            schema: EXTENSION_INDEX_SCHEMA.to_owned(),
            version: EXTENSION_INDEX_VERSION,
            generated_at: provenance.generated,
            last_refreshed_at: None,
            entries,
        },
    )
}

// ----------------------------------------------------------------------------
// Laws
// ----------------------------------------------------------------------------

/// An index without entries is valid, whenever it was made.
pub proof fn law_empty_index_is_valid(generated_at: Seq<char>)
    ensures
        invalidity(empty_index(generated_at)) is None,
{
}

/// The index for the bundled list is valid, whatever the list holds.
pub proof fn law_bundled_index_is_valid(provenance: ProvenanceModel)
    ensures
        invalidity(seeded(provenance)) is None,
{
}

/// What can be saved is what can be used when it is read back.
pub proof fn law_saved_index_can_be_used(index: ExtensionIndex)
    ensures
        invalidity(index@) is None <==> usable(CacheRead::Parsed(index)) == Some(index@),
{
}

/// The index for the bundled list has one entry for each extension of the list, and the entries
/// are sorted by id without regard to case.
pub proof fn law_bundled_index_is_sorted(provenance: ProvenanceModel)
    requires
        provenance.items.len() <= usize::MAX,
    ensures
        seeded(provenance).entries.len() == provenance.items.len(),
        forall|i: int|
            0 <= i < provenance.items.len() ==> seeded(provenance).entries.contains(
                #[trigger] seeded_entry(provenance.items[i]),
            ),
        forall|p: int, q: int|
            0 <= p < q < provenance.items.len() ==> !order::text_less(
                text::ascii_lower((#[trigger] seeded(provenance).entries[q]).id),
                text::ascii_lower((#[trigger] seeded(provenance).entries[p]).id),
            ),
{
    let items = provenance.items;
    let keys = seed_keys(items);
    let by_id = order::stable_order(keys);
    let entries = seeded(provenance).entries;
    order::law_stable_order_exists(keys);
    assert forall|i: int| 0 <= i < items.len() implies entries.contains(
        #[trigger] seeded_entry(items[i]),
    ) by {
        assert(by_id.contains(i as usize));
        let p = choose|p: int| 0 <= p < by_id.len() && by_id[p] == i as usize;
        assert(entries[p] == seeded_entry(items[i]));
    }
    assert forall|p: int, q: int| 0 <= p < q < items.len() implies !order::text_less(
        text::ascii_lower((#[trigger] entries[q]).id),
        text::ascii_lower((#[trigger] entries[p]).id),
    ) by {
        let a = keys[by_id[p] as int];
        let b = keys[by_id[q] as int];
        assert(order::item_leq(keys, by_id[p], by_id[q]));
        order::lemma_text_less_irreflexive(a.first);
        if order::text_less(b.first, a.first) && order::text_less(a.first, b.first) {
            order::lemma_text_less_transitive(a.first, b.first, a.first);
        }
    }
}

proof fn lemma_matching(entries: Seq<EntryModel>, tokens: Seq<Seq<char>>)
    ensures
        matching(entries, tokens).len() <= entries.len(),
        forall|k: int|
            0 <= k < matching(entries, tokens).len() ==> {
                &&& 0 <= #[trigger] matching(entries, tokens)[k] < entries.len()
                &&& score(entries[matching(entries, tokens)[k]], tokens) > 0
            },
        forall|i: int|
            0 <= i < entries.len() && score(#[trigger] entries[i], tokens) > 0 ==> matching(
                entries,
                tokens,
            ).contains(i),
    decreases entries.len(),
{
    if entries.len() > 0 {
        let before = entries.drop_last();
        let found = matching(entries, tokens);
        lemma_matching(before, tokens);
        assert forall|i: int|
            0 <= i < entries.len() && score(#[trigger] entries[i], tokens)
                > 0 implies found.contains(i) by {
            if i < before.len() {
                assert(before[i] == entries[i]);
                let k = choose|k: int|
                    0 <= k < matching(before, tokens).len() && matching(before, tokens)[k] == i;
                assert(found[k] == i);
            } else {
                assert(found.last() == i);
            }
        }
    }
}

/// Everything that a search finds is an entry of the index, with its score, and some word of the
/// query fits it.
pub proof fn law_hits_fit_the_query(
    entries: Seq<EntryModel>,
    query: Seq<char>,
    limit: nat,
    p: int,
)
    requires
        entries.len() <= usize::MAX,
        0 <= p < search_hits(entries, query, limit).len(),
    ensures
        entries.contains(search_hits(entries, query, limit)[p].entry),
        search_hits(entries, query, limit)[p].score == score(
            search_hits(entries, query, limit)[p].entry,
            query_tokens(query),
        ),
        search_hits(entries, query, limit)[p].score > 0,
{
    let tokens = query_tokens(query);
    lemma_matching(entries, tokens);
    order::law_stable_order_exists(rank_keys(entries, tokens));
    let by_rank = order::stable_order(rank_keys(entries, tokens));
    let at = matching(entries, tokens)[by_rank[p] as int];
    assert(search_hits(entries, query, limit)[p] == ranked(entries, tokens)[p]);
    assert(entries[at] == search_hits(entries, query, limit)[p].entry);
}

/// A search finds every entry that some word of the query fits, unless the limit cuts it off.
pub proof fn law_search_is_complete(
    entries: Seq<EntryModel>,
    query: Seq<char>,
    limit: nat,
    i: int,
)
    requires
        entries.len() <= usize::MAX,
        limit >= entries.len(),
        0 <= i < entries.len(),
        score(entries[i], query_tokens(query)) > 0,
    ensures
        search_hits(entries, query, limit).contains(
            (HitModel { entry: entries[i], score: score(entries[i], query_tokens(query)) }),
        ),
{
    let tokens = query_tokens(query);
    let keys = rank_keys(entries, tokens);
    let found = matching(entries, tokens);
    lemma_matching(entries, tokens);
    order::law_stable_order_exists(keys);
    let by_rank = order::stable_order(keys);
    let k = choose|k: int| 0 <= k < found.len() && found[k] == i;
    assert(by_rank.contains(k as usize));
    let p = choose|p: int| 0 <= p < by_rank.len() && by_rank[p] == k as usize;
    assert(search_hits(entries, query, limit)[p] == (HitModel {
        entry: entries[i],
        score: score(entries[i], tokens),
    }));
}

/// No hit is followed by one that ranks before it.
pub proof fn law_hits_are_ranked(
    entries: Seq<EntryModel>,
    query: Seq<char>,
    limit: nat,
    p: int,
    q: int,
)
    requires
        entries.len() <= usize::MAX,
        0 <= p < q < search_hits(entries, query, limit).len(),
    ensures
        !order::key_before(
            rank_key(search_hits(entries, query, limit)[q].entry, query_tokens(query)),
            rank_key(search_hits(entries, query, limit)[p].entry, query_tokens(query)),
        ),
{
    let tokens = query_tokens(query);
    let keys = rank_keys(entries, tokens);
    lemma_matching(entries, tokens);
    order::law_stable_order_exists(keys);
    let by_rank = order::stable_order(keys);
    assert(order::item_leq(keys, by_rank[p], by_rank[q]));
    let a = keys[by_rank[p] as int];
    let b = keys[by_rank[q] as int];
    order::lemma_key_before_irreflexive(a);
    if order::key_before(a, b) && order::key_before(b, a) {
        order::lemma_key_before_transitive(a, b, a);
    }
}

/// The score for two lists of tokens, one after the other, is the sum of the scores for each.
pub proof fn law_scores_add_up(entry: EntryModel, a: Seq<Seq<char>>, b: Seq<Seq<char>>)
    ensures
        score(entry, a + b) == score(entry, a) + score(entry, b),
    decreases b.len(),
{
    if b.len() > 0 {
        assert((a + b).drop_last() =~= a + b.drop_last());
        law_scores_add_up(entry, a, b.drop_last());
    }
}

/// A score is never negative, a token adds 660 at most, and no token adds nothing.
pub proof fn law_score_is_bounded(entry: EntryModel, tokens: Seq<Seq<char>>)
    ensures
        0 <= score(entry, tokens) <= 660 * tokens.len(),
        tokens.len() == 0 ==> score(entry, tokens) == 0,
    decreases tokens.len(),
{
    if tokens.len() > 0 {
        law_score_is_bounded(entry, tokens.drop_last());
    }
}

/// A limit keeps the best hits of the whole index: it cuts off the list of all hits, and never
/// the entries that are looked at.
pub proof fn law_limit_keeps_the_best(entries: Seq<EntryModel>, query: Seq<char>, limit: nat)
    requires
        entries.len() <= usize::MAX,
    ensures
        ({
            let all = search_hits(entries, query, entries.len());
            let cut = search_hits(entries, query, limit);
            &&& cut == all.take(if limit < all.len() {
                limit as int
            } else {
                all.len() as int
            })
            &&& cut.len() <= limit
            &&& limit == 0 ==> cut == Seq::<HitModel>::empty()
        }),
{
    let tokens = query_tokens(query);
    let all = ranked(entries, tokens);
    lemma_matching(entries, tokens);
    order::law_stable_order_exists(rank_keys(entries, tokens));
}

/// A smaller limit cuts the same list off earlier.
pub proof fn law_limit_cuts_the_list(
    entries: Seq<EntryModel>,
    query: Seq<char>,
    fewer: nat,
    more: nat,
)
    requires
        fewer <= more,
    ensures
        search_hits(entries, query, fewer).len() <= fewer,
        search_hits(entries, query, fewer).is_prefix_of(search_hits(entries, query, more)),
{
}

/// A search does not depend on the case of ASCII letters in the query.
pub proof fn law_search_ignores_case(
    entries: Seq<EntryModel>,
    a: Seq<char>,
    b: Seq<char>,
    limit: nat,
)
    requires
        text::same_ignoring_case(a, b),
    ensures
        search_hits(entries, a, limit) == search_hits(entries, b, limit),
{
    text::lemma_words_lower(a);
    text::lemma_words_lower(b);
}

/// A search does not depend on white space around the query.
pub proof fn law_search_ignores_surrounding_space(
    entries: Seq<EntryModel>,
    before: Seq<char>,
    query: Seq<char>,
    after: Seq<char>,
    limit: nat,
)
    requires
        text::blank(before),
        text::blank(after),
    ensures
        search_hits(entries, before + query + after, limit) == search_hits(entries, query, limit),
{
    text::lemma_words_before_blank(before + query, after);
    text::lemma_words_after_blank(before, query);
}

/// A blank query finds nothing.
pub proof fn law_blank_query_finds_nothing(
    entries: Seq<EntryModel>,
    query: Seq<char>,
    limit: nat,
)
    requires
        text::blank(query),
        entries.len() <= usize::MAX,
    ensures
        search_hits(entries, query, limit).len() == 0,
{
    text::lemma_words_after_blank(query, Seq::empty());
    let tokens = query_tokens(query);
    lemma_matching(entries, tokens);
    assert(matching(entries, tokens).len() == 0) by {
        if matching(entries, tokens).len() > 0 {
            assert(score(entries[matching(entries, tokens)[0]], tokens) > 0);
        }
    }
    order::law_stable_order_exists(rank_keys(entries, tokens));
}

/// A query resolves to one install source at most.
pub proof fn law_resolution_is_unique(
    entries: Seq<EntryModel>,
    query: Seq<char>,
    a: Seq<char>,
    b: Seq<char>,
)
    requires
        resolves_to(entries, query, a),
        resolves_to(entries, query, b),
    ensures
        a == b,
{
}

/// A query that names two entries with different install sources resolves to neither.
pub proof fn law_ambiguous_query_does_not_resolve(
    entries: Seq<EntryModel>,
    query: Seq<char>,
    i: int,
    j: int,
    source: Seq<char>,
)
    requires
        0 <= i < entries.len(),
        0 <= j < entries.len(),
        named(entries[i], text::trim(query)),
        named(entries[j], text::trim(query)),
        entries[i].install_source is Some,
        entries[j].install_source is Some,
        entries[i].install_source != entries[j].install_source,
    ensures
        !resolves_to(entries, query, source),
{
}

/// A query that names one entry only resolves to the install source of that entry.
pub proof fn law_unambiguous_query_resolves(
    entries: Seq<EntryModel>,
    query: Seq<char>,
    i: int,
)
    requires
        text::trim(query).len() > 0,
        0 <= i < entries.len(),
        named(entries[i], text::trim(query)),
        entries[i].install_source is Some,
        forall|j: int|
            0 <= j < entries.len() && named(#[trigger] entries[j], text::trim(query)) ==> j == i,
    ensures
        resolves_to(entries, query, entries[i].install_source->0),
{
}

/// Resolution does not depend on the case of ASCII letters, nor on white space around the query.
pub proof fn law_resolution_ignores_case(
    entries: Seq<EntryModel>,
    a: Seq<char>,
    b: Seq<char>,
    source: Seq<char>,
)
    requires
        text::same_ignoring_case(text::trim(a), text::trim(b)),
    ensures
        resolves_to(entries, a, source) == resolves_to(entries, b, source),
{
    let x = text::trim(a);
    let y = text::trim(b);
    assert(text::ascii_lower(x).len() == text::ascii_lower(y).len());
}

/// One more token adds 300 where it occurs in the name in lower case, 120 where in the id, 60 where
/// in the description, and 180 where in some tag. It adds nothing else, and no tokens give nothing.
pub proof fn law_tokens_add_what_they_fit(
    entry: EntryModel,
    tokens: Seq<Seq<char>>,
    token: Seq<char>,
    in_name: bool,
    in_id: bool,
    in_description: bool,
    in_tags: bool,
)
    requires
        in_name == text::contains(text::ascii_lower(entry.name), token),
        in_id == text::contains(text::ascii_lower(entry.id), token),
        entry.description is Some ==> in_description == text::contains(
            text::ascii_lower(entry.description->0),
            token,
        ),
        entry.description is None ==> in_description == (token.len() == 0),
        in_tags == exists|i: int|
            0 <= i < entry.tags.len() && text::contains(
                text::ascii_lower(#[trigger] entry.tags[i]),
                token,
            ),
    ensures
        score(entry, Seq::empty()) == 0,
        score(entry, tokens.push(token)) - score(entry, tokens) == (if in_name {
            300int
        } else {
            0
        }) + (if in_id {
            120int
        } else {
            0
        }) + (if in_description {
            60int
        } else {
            0
        }) + (if in_tags {
            180int
        } else {
            0
        }),
{
    assert(tokens.push(token).drop_last() =~= tokens);
    let none = Seq::<char>::empty();
    assert(text::ascii_lower(none) =~= none);
    if entry.description is None {
        if token.len() == 0 {
            assert(none.subrange(0, 0) =~= token);
            assert(text::occurs_at(none, token, 0));
        }
    }
    if in_tags {
        let i = choose|i: int|
            0 <= i < entry.tags.len() && text::contains(
                text::ascii_lower(#[trigger] entry.tags[i]),
                token,
            );
        assert(mentions(entry.tags[i], token));
    }
    if tagged_with(entry.tags, token) {
        let i = choose|i: int| 0 <= i < entry.tags.len() && mentions(#[trigger] entry.tags[i], token);
        assert(text::contains(text::ascii_lower(entry.tags[i]), token));
    }
}

/// The tokens of a query are its words in lower case, one for each word, in order.
pub proof fn law_tokens_are_words(query: Seq<char>, i: int)
    ensures
        query_tokens(query).len() == text::words(query).len(),
        0 <= i < text::words(query).len() ==> query_tokens(query)[i] == text::ascii_lower(
            text::words(query)[i],
        ),
{
}

/// Whether `places` lists the indices of the entries that some token fits, each once, by score from
/// the highest on, then those that can be installed before those that cannot, then by name and by
/// id without regard to case, and in the order in which they stand last.
pub open spec fn best_first(
    entries: Seq<EntryModel>,
    tokens: Seq<Seq<char>>,
    places: Seq<int>,
) -> bool {
    &&& forall|p: int|
        0 <= p < places.len() ==> 0 <= #[trigger] places[p] < entries.len() && score(
            entries[places[p]],
            tokens,
        ) > 0
    &&& forall|i: int|
        0 <= i < entries.len() && score(#[trigger] entries[i], tokens) > 0 ==> places.contains(i)
    &&& forall|p: int, q: int|
        0 <= p < q < places.len() ==> ranks_before(
            entries,
            tokens,
            #[trigger] places[p],
            #[trigger] places[q],
        )
}

/// Whether the entry at one index is listed before the entry at another.
pub open spec fn ranks_before(
    entries: Seq<EntryModel>,
    tokens: Seq<Seq<char>>,
    i: int,
    j: int,
) -> bool {
    let a = entries[i];
    let b = entries[j];
    let (a_name, b_name) = (text::ascii_lower(a.name), text::ascii_lower(b.name));
    let (a_id, b_id) = (text::ascii_lower(a.id), text::ascii_lower(b.id));
    if score(a, tokens) != score(b, tokens) {
        score(a, tokens) > score(b, tokens)
    } else if a.install_source is Some && b.install_source is None {
        true
    } else if a.install_source is None && b.install_source is Some {
        false
    } else if a_name != b_name {
        order::text_less(a_name, b_name)
    } else if a_id != b_id {
        order::text_less(a_id, b_id)
    } else {
        i < j
    }
}

proof fn lemma_matching_ascends(entries: Seq<EntryModel>, tokens: Seq<Seq<char>>)
    ensures
        forall|k: int, m: int|
            0 <= k < m < matching(entries, tokens).len() ==> #[trigger] matching(entries, tokens)[k]
                < #[trigger] matching(entries, tokens)[m],
    decreases entries.len(),
{
    if entries.len() > 0 {
        lemma_matching(entries.drop_last(), tokens);
        lemma_matching_ascends(entries.drop_last(), tokens);
    }
}

/// Whether hits are the entries at places, each with its score, as many as a limit allows.
pub open spec fn lists(
    hits: Seq<HitModel>,
    entries: Seq<EntryModel>,
    tokens: Seq<Seq<char>>,
    places: Seq<int>,
    limit: nat,
) -> bool {
    &&& places.len() <= limit ==> hits.len() == places.len()
    &&& places.len() > limit ==> hits.len() == limit
    &&& forall|p: int|
        0 <= p < hits.len() ==> (#[trigger] hits[p]).entry == entries[places[p]] && hits[p].score
            == score(entries[places[p]], tokens)
}

/// A search lists every entry that some word of the query fits, once and with its score, the best
/// first, up to the limit.
pub proof fn law_search_lists_the_best_first(
    entries: Seq<EntryModel>,
    query: Seq<char>,
    limit: nat,
)
    requires
        entries.len() <= usize::MAX,
    ensures
        exists|places: Seq<int>| #[trigger]
            best_first(entries, query_tokens(query), places) && lists(
                search_hits(entries, query, limit),
                entries,
                query_tokens(query),
                places,
                limit,
            ),
{
    let tokens = query_tokens(query);
    let keys = rank_keys(entries, tokens);
    let found = matching(entries, tokens);
    lemma_matching(entries, tokens);
    lemma_matching_ascends(entries, tokens);
    order::law_stable_order_exists(keys);
    let by_rank = order::stable_order(keys);
    let places = Seq::new(by_rank.len(), |p: int| found[by_rank[p] as int]);
    assert forall|i: int|
        0 <= i < entries.len() && score(#[trigger] entries[i], tokens) > 0 implies places.contains(
        i,
    ) by {
        let k = choose|k: int| 0 <= k < found.len() && found[k] == i;
        assert(by_rank.contains(k as usize));
        let p = choose|p: int| 0 <= p < by_rank.len() && by_rank[p] == k as usize;
        assert(places[p] == i);
    }
    assert forall|p: int, q: int| 0 <= p < q < places.len() implies ranks_before(
        entries,
        tokens,
        #[trigger] places[p],
        #[trigger] places[q],
    ) by {
        let a = by_rank[p];
        let b = by_rank[q];
        assert(a != b);
        assert(order::item_leq(keys, a, b));
        assert(keys[a as int] == rank_key(entries[places[p]], tokens));
        assert(keys[b as int] == rank_key(entries[places[q]], tokens));
        order::lemma_text_less_irreflexive(keys[a as int].first);
        order::lemma_text_less_irreflexive(keys[a as int].second);
        if a < b {
            assert(found[a as int] < found[b as int]);
        }
    }
    assert(best_first(entries, tokens, places));
    assert(lists(search_hits(entries, query, limit), entries, tokens, places, limit));
}

/// An index is valid exactly where it has this schema and this version. Otherwise what it has
/// instead is named, the schema first.
pub proof fn law_valid_indexes_have_schema_and_version(index: IndexModel)
    ensures
        invalidity(index) is None <==> index.schema == "pi.ext.index.v1"@ && index.version == 1,
        index.schema != "pi.ext.index.v1"@ ==> invalidity(index) == Some(
            ErrorText::Validation("Unsupported extension index schema: "@ + index.schema),
        ),
        index.schema == "pi.ext.index.v1"@ && index.version != 1 ==> invalidity(index) == Some(
            ErrorText::Validation(
                "Unsupported extension index version: "@ + decimal::numeral(index.version as nat),
            ),
        ),
{
}

/// An index without entries has the schema and the version of this library, was made when it says,
/// and was never brought up to date.
pub proof fn law_empty_index_holds_nothing(generated_at: Seq<char>)
    ensures
        empty_index(generated_at).entries.len() == 0,
        empty_index(generated_at).schema == "pi.ext.index.v1"@,
        empty_index(generated_at).version == 1,
        empty_index(generated_at).generated_at == Some(generated_at),
        empty_index(generated_at).last_refreshed_at is None,
{
}

/// An index that was never brought up to date, or not at a time that can be read, is stale. Any
/// other is stale where that time lies in the future, or further back than allowed. By default one
/// day is allowed.
pub proof fn law_stale_indexes_are_old(
    timestamp: Seq<char>,
    then: UtcInstant,
    now: UtcInstant,
    max_age: Duration,
)
    ensures
        stale(refresh_instant(None), now, max_age),
        time::rfc3339_instant(timestamp) is None ==> stale(
            refresh_instant(Some(timestamp)),
            now,
            max_age,
        ),
        time::rfc3339_instant(timestamp) == Some(then) ==> refresh_instant(Some(timestamp)) == Some(
            then,
        ),
        now.nanos < 1_000_000_000 && then.nanos < 1_000_000_000 ==> (stale(Some(then), now, max_age)
            <==> {
            let age = (now.secs * 1_000_000_000 + now.nanos) - (then.secs * 1_000_000_000
                + then.nanos);
            age < 0 || age > max_age.secs * 1_000_000_000 + max_age.nanos
        }),
        stale(Some(then), now, max_age) == time::older_than(now, then, max_age),
        DEFAULT_INDEX_MAX_AGE == 24 * 60 * 60,
{
    if now.nanos < 1_000_000_000 && then.nanos < 1_000_000_000 {
        time::law_age_is_counted_in_nanoseconds(now, then, max_age);
    }
}

/// An entry goes by its name, by its id, by its npm package, and by what follows `npm/` in its id,
/// all without regard to case, and by nothing else.
pub proof fn law_entries_go_by_four_names(entry: EntryModel, name: Seq<char>)
    ensures
        named(entry, name) <==> text::same_ignoring_case(entry.name, name)
            || text::same_ignoring_case(entry.id, name) || (
        entry.source matches Some(SourceModel::Npm { package, .. }) && text::same_ignoring_case(
            package,
            name,
        )) || exists|rest: Seq<char>|
            entry.id == #[trigger] ("npm/"@ + rest) && text::same_ignoring_case(rest, name),
{
    reveal_strlit("npm/");
    let id = entry.id;
    if npm_id_of(id, name) {
        let rest = id.skip(4);
        assert(id =~= id.subrange(0, 4) + rest);
        assert(id == "npm/"@ + rest);
    }
    if exists|rest: Seq<char>|
        id == #[trigger] ("npm/"@ + rest) && text::same_ignoring_case(rest, name) {
        let rest = choose|rest: Seq<char>|
            id == #[trigger] ("npm/"@ + rest) && text::same_ignoring_case(rest, name);
        assert(id.subrange(0, 4) =~= "npm/"@);
        assert(id.skip(4) =~= rest);
    }
}

/// A query resolves to a source exactly where it is not blank, some entry that goes by it can be
/// installed from that source, and none can be installed from another.
pub proof fn law_query_resolves_to_the_only_source(
    entries: Seq<EntryModel>,
    query: Seq<char>,
    source: Seq<char>,
)
    ensures
        text::trim(query).len() == 0 ==> !resolves_to(entries, query, source),
        (forall|i: int|
            0 <= i < entries.len() && named(#[trigger] entries[i], text::trim(query))
                ==> entries[i].install_source is None) ==> !resolves_to(entries, query, source),
        resolves_to(entries, query, source) ==> forall|i: int|
            0 <= i < entries.len() && named(#[trigger] entries[i], text::trim(query))
                ==> entries[i].install_source is None || entries[i].install_source == Some(source),
        text::trim(query).len() > 0 && (exists|i: int|
            0 <= i < entries.len() && named(#[trigger] entries[i], text::trim(query))
                && entries[i].install_source == Some(source)) && (forall|i: int|
            0 <= i < entries.len() && named(#[trigger] entries[i], text::trim(query))
                ==> entries[i].install_source is None || entries[i].install_source == Some(source))
            ==> resolves_to(entries, query, source),
{
    let q = text::trim(query);
    if exists|i: int|
        0 <= i < entries.len() && named(#[trigger] entries[i], q) && entries[i].install_source
            == Some(source) {
        let i = choose|i: int|
            0 <= i < entries.len() && named(#[trigger] entries[i], q) && entries[i].install_source
                == Some(source);
        assert(offers(entries[i], q, source));
    }
    if resolves_to(entries, query, source) {
        let i = choose|i: int| 0 <= i < entries.len() && offers(#[trigger] entries[i], q, source);
        assert(named(entries[i], q));
    }
}

/// What loading a cache gives: nothing where there is no file, the fault where it cannot be read,
/// the index where it is valid, and what is wrong with it where it is not.
pub proof fn law_loading_gives_what_was_cached(
    index: ExtensionIndex,
    fault: Error,
    r: Result<Option<ExtensionIndex>, Error>,
)
    ensures
        loaded(CacheRead::Missing, r) <==> r matches Ok(None),
        loaded(CacheRead::Unreadable(fault), r) <==> (r matches Err(e) && e == fault),
        invalidity(index@) is None ==> (loaded(CacheRead::Parsed(index), r) <==> (
        r matches Ok(Some(found)) && found == index)),
        invalidity(index@) is Some ==> (loaded(CacheRead::Parsed(index), r) <==> (r matches Err(e)
            && Some(e@) == invalidity(index@))),
        usable(CacheRead::Missing) is None,
        usable(CacheRead::Unreadable(fault)) is None,
        invalidity(index@) is None ==> usable(CacheRead::Parsed(index)) == Some(index@),
        invalidity(index@) is Some ==> usable(CacheRead::Parsed(index)) is None,
{
}

/// What the entry of an npm package says: it goes by the name of the extension, and is installed
/// from the registry, in the version that is given, where one is.
pub proof fn law_bundled_npm_packages(
    item: ItemModel,
    package: Seq<char>,
    version: Option<Seq<char>>,
    url: Option<Seq<char>>,
)
    requires
        item.source == (SourceModel::Npm { package, version, url }),
    ensures
        seeded_entry(item).source == Some(SourceModel::Npm { package: item.name, version, url }),
        version is None ==> seeded_entry(item).install_source == Some("npm:"@ + item.name),
        version is Some ==> seeded_entry(item).install_source == Some(
            "npm:"@ + item.name + "@"@ + text::trim(version->0),
        ),
        seeded_entry(item).tags == seq!["npm"@, "extension"@],
{
}

/// What the entry of a git repository says: it can be installed where the extension is the whole
/// repository.
pub proof fn law_bundled_git_repositories(
    item: ItemModel,
    repo: Seq<char>,
    path: Option<Seq<char>>,
    reference: Option<Seq<char>>,
)
    requires
        item.source == (SourceModel::Git { repo, path, reference }),
    ensures
        seeded_entry(item).source == Some(SourceModel::Git { repo, path, reference: None }),
        path is None ==> seeded_entry(item).install_source == Some("git:"@ + repo),
        path is Some ==> seeded_entry(item).install_source is None,
        seeded_entry(item).tags == seq!["git"@, "extension"@],
{
}

/// What the entry of a file to download says: it cannot be installed by itself.
pub proof fn law_bundled_downloads(item: ItemModel, url: Seq<char>)
    requires
        item.source == (SourceModel::Url { url }),
    ensures
        seeded_entry(item).source == Some(SourceModel::Url { url }),
        seeded_entry(item).install_source is None,
        seeded_entry(item).tags == seq!["url"@, "extension"@],
{
}

/// An entry of the bundled list keeps id and name, has no description, and keeps a license that is
/// neither blank nor unknown.
pub proof fn law_bundled_entries_keep_what_is_known(item: ItemModel)
    ensures
        seeded_entry(item).id == item.id,
        seeded_entry(item).name == item.name,
        seeded_entry(item).description is None,
        item.license is None ==> seeded_entry(item).license is None,
        item.license is Some && text::trim(item.license->0).len() == 0 ==> seeded_entry(item).license
            is None,
        item.license is Some && text::same_ignoring_case(item.license->0, "unknown"@)
            ==> seeded_entry(item).license is None,
        item.license is Some && text::trim(item.license->0).len() > 0 && !text::same_ignoring_case(
            item.license->0,
            "unknown"@,
        ) ==> seeded_entry(item).license == item.license,
{
}

/// Whether `places` lists every index of the bundled list once, by id without regard to case, with
/// items of the same id in the order in which they stand.
pub open spec fn placed_by_id(items: Seq<ItemModel>, places: Seq<int>) -> bool {
    &&& places.len() == items.len()
    &&& forall|p: int| 0 <= p < places.len() ==> 0 <= #[trigger] places[p] < items.len()
    &&& forall|i: int| 0 <= i < items.len() ==> #[trigger] places.contains(i)
    &&& forall|p: int, q: int|
        0 <= p < q < places.len() ==> {
            let a = text::ascii_lower(items[#[trigger] places[p]].id);
            let b = text::ascii_lower(items[#[trigger] places[q]].id);
            order::text_less(a, b) || a == b && places[p] < places[q]
        }
}

/// The index for the bundled list holds an entry for every extension of the list, in the order of
/// their ids, says when the list was made, and was never brought up to date.
pub proof fn law_bundled_index_holds_the_list(provenance: ProvenanceModel)
    requires
        provenance.items.len() <= usize::MAX,
    ensures
        seeded(provenance).schema == "pi.ext.index.v1"@,
        seeded(provenance).version == 1,
        seeded(provenance).generated_at == provenance.generated,
        seeded(provenance).last_refreshed_at is None,
        exists|places: Seq<int>| #[trigger]
            placed_by_id(provenance.items, places) && seeded(provenance).entries == Seq::new(
                places.len(),
                |p: int| seeded_entry(provenance.items[places[p]]),
            ),
{
    let items = provenance.items;
    let keys = seed_keys(items);
    let by_id = order::stable_order(keys);
    order::law_stable_order_exists(keys);
    let places = Seq::new(by_id.len(), |p: int| by_id[p] as int);
    assert forall|i: int| 0 <= i < items.len() implies #[trigger] places.contains(i) by {
        assert(by_id.contains(i as usize));
        let p = choose|p: int| 0 <= p < by_id.len() && by_id[p] == i as usize;
        assert(places[p] == i);
    }
    assert forall|p: int, q: int| 0 <= p < q < places.len() implies {
        let a = text::ascii_lower(items[#[trigger] places[p]].id);
        let b = text::ascii_lower(items[#[trigger] places[q]].id);
        order::text_less(a, b) || a == b && places[p] < places[q]
    } by {
        assert(by_id[p] != by_id[q]);
        assert(order::item_leq(keys, by_id[p], by_id[q]));
        order::lemma_text_less_irreflexive(Seq::empty());
    }
    assert(placed_by_id(items, places));
    assert(seeded(provenance).entries =~= Seq::new(
        places.len(),
        |p: int| seeded_entry(items[places[p]]),
    ));
}

/// What an index says is what it holds, each field of it and of its entries.
pub proof fn law_extension_index_says_what_it_holds(index: ExtensionIndex, i: int)
    ensures
        index@.schema == index.schema@,
        index@.version == index.version,
        index@.generated_at == text::opt_text(index.generated_at),
        index@.last_refreshed_at == text::opt_text(index.last_refreshed_at),
        index@.entries.len() == index.entries@.len(),
        0 <= i < index.entries@.len() ==> {
            let e = index.entries@[i];
            let said = index@.entries[i];
            &&& said.id == e.id@
            &&& said.name == e.name@
            &&& said.description == text::opt_text(e.description)
            &&& said.tags == text::texts(e.tags@)
            &&& said.license == text::opt_text(e.license)
            &&& said.install_source == text::opt_text(e.install_source)
            &&& e.source is Some ==> said.source == Some(e.source->0@)
            &&& e.source is None ==> said.source is None
        },
{
}

/// What a source says is what it holds, in the index and in the bundled list, and so does a hit of
/// a search.
pub proof fn law_sources_say_what_they_hold(
    a: String,
    b: Option<String>,
    c: Option<String>,
    hits: Seq<ExtensionSearchHit>,
    i: int,
)
    ensures
        (ExtensionIndexSource::Npm { package: a, version: b, url: c })@ == (SourceModel::Npm {
            package: a@,
            version: text::opt_text(b),
            url: text::opt_text(c),
        }),
        (ExtensionIndexSource::Git { repo: a, path: b, reference: c })@ == (SourceModel::Git {
            repo: a@,
            path: text::opt_text(b),
            reference: text::opt_text(c),
        }),
        (ExtensionIndexSource::Url { url: a })@ == (SourceModel::Url { url: a@ }),
        (ArtifactProvenanceSource::Npm { package: a, version: b, url: c })@ == (SourceModel::Npm {
            package: a@,
            version: text::opt_text(b),
            url: text::opt_text(c),
        }),
        (ArtifactProvenanceSource::Git { repo: a, path: b })@ == (SourceModel::Git {
            repo: a@,
            path: text::opt_text(b),
            reference: None,
        }),
        (ArtifactProvenanceSource::Url { url: a })@ == (SourceModel::Url { url: a@ }),
        hit_views(hits).len() == hits.len(),
        0 <= i < hits.len() ==> hit_views(hits)[i].entry == hits[i].entry@ && hit_views(hits)[i].score
            == hits[i].score,
{
}

/// What the bundled list says is what it holds.
pub proof fn law_bundled_list_says_what_it_holds(list: ArtifactProvenance, i: int)
    ensures
        list@.generated == text::opt_text(list.generated),
        list@.items.len() == list.items@.len(),
        0 <= i < list.items@.len() ==> {
            let item = list.items@[i];
            let said = list@.items[i];
            &&& said.id == item.id@
            &&& said.name == item.name@
            &&& said.license == text::opt_text(item.license)
            &&& said.source == item.source@
        },
{
}

} // verus!
