//! Classification of test failures as transient or deterministic.
//!
//! Known transient failures are recognised by phrases in the output of the failed test. The
//! classification drives automatic retries and triage.

use crate::decimal;
use crate::text;
use vstd::prelude::*;

verus! {

broadcast use vstd::string::group_string_axioms;

/// Category of a recognized transient failure.
#[derive(Debug, Clone, Copy, PartialEq, Eq, Hash, Structural)]
pub enum FlakeCategory {
    /// The oracle process timed out.
    OracleTimeout,
    /// The operating system ran out of a resource, such as memory.
    ResourceExhaustion,
    /// A file was locked or busy.
    FsContention,
    /// A TCP port was already in use.
    PortConflict,
    /// A temporary directory disappeared in mid-test.
    TmpdirRace,
    /// The QuickJS runtime ran out of memory.
    JsGcPressure,
}

impl FlakeCategory {
    /// All known categories, in the order of their declaration.
    pub fn all() -> (r: Vec<FlakeCategory>)
        ensures
            r@ == seq![
                FlakeCategory::OracleTimeout,
                FlakeCategory::ResourceExhaustion,
                FlakeCategory::FsContention,
                FlakeCategory::PortConflict,
                FlakeCategory::TmpdirRace,
                FlakeCategory::JsGcPressure,
            ],
    {
        vec![
            FlakeCategory::OracleTimeout,
            FlakeCategory::ResourceExhaustion,
            FlakeCategory::FsContention,
            FlakeCategory::PortConflict,
            FlakeCategory::TmpdirRace,
            FlakeCategory::JsGcPressure,
        ]
    }

    /// The label of a category.
    pub open spec fn label_text(self) -> Seq<char> {
        match self {
            FlakeCategory::OracleTimeout => "TS oracle timeout"@,
            FlakeCategory::ResourceExhaustion => "resource exhaustion"@,
            FlakeCategory::FsContention => "filesystem contention"@,
            FlakeCategory::PortConflict => "port conflict"@,
            FlakeCategory::TmpdirRace => "temp directory race"@,
            FlakeCategory::JsGcPressure => "QuickJS GC pressure"@,
        }
    }

    /// Human-readable label.
    pub fn label(self) -> (r: &'static str)
        ensures
            r@ == self.label_text(),
    {
        match self {
            FlakeCategory::OracleTimeout => "TS oracle timeout",
            FlakeCategory::ResourceExhaustion => "resource exhaustion",
            FlakeCategory::FsContention => "filesystem contention",
            FlakeCategory::PortConflict => "port conflict",
            FlakeCategory::TmpdirRace => "temp directory race",
            FlakeCategory::JsGcPressure => "QuickJS GC pressure",
        }
    }

    /// The label as an owned string.
    pub fn to_string(self) -> (r: String)
        ensures
            r@ == self.label_text(),
    {
        self.label().to_owned()
    }
}

/// Result of classifying a test failure.
#[derive(Debug, Clone, PartialEq, Eq)]
pub enum FlakeClassification {
    /// Matches a known transient pattern and is eligible for retry.
    Transient {
        /// Which pattern matched.
        category: FlakeCategory,
        /// The lowered and trimmed line on which it matched.
        matched_line: String,
    },
    /// No known pattern matched: treat as deterministic.
    Deterministic,
}

impl View for FlakeClassification {
    type V = Option<(FlakeCategory, Seq<char>)>;

    /// The category and the matched line of a transient failure.
    open spec fn view(&self) -> Option<(FlakeCategory, Seq<char>)> {
        match *self {
            FlakeClassification::Transient { category, matched_line } => Some(
                (category, matched_line@),
            ),
            FlakeClassification::Deterministic => None,
        }
    }
}

impl FlakeClassification {
    /// Whether this classification allows automatic retry.
    pub fn is_retriable(&self) -> (r: bool)
        ensures
            r == (self@ is Some),
    {
        match self {
            FlakeClassification::Transient { .. } => true,
            FlakeClassification::Deterministic => false,
        }
    }
}

/// A logged flake event.
#[derive(Debug, Clone)]
pub struct FlakeEvent {
    /// The test target.
    pub target: String,
    /// How its failure was classified.
    pub classification: FlakeClassification,
    /// The number of the attempt, from zero.
    pub attempt: u32,
    /// When the failure was seen.
    pub timestamp: String,
}

/// The category of a trimmed lowercase line, if it shows a known transient failure.
pub open spec fn line_category(t: Seq<char>) -> Option<FlakeCategory> {
    let oracle = text::contains(t, "oracle"@) || text::contains(t, "bun"@);
    let late = text::contains(t, "timed out"@) || text::contains(t, "timeout"@);
    let out_of_memory = text::contains(t, "out of memory"@) || text::contains(t, "enomem"@)
        || text::contains(t, "cannot allocate"@);
    let busy = text::contains(t, "ebusy"@) || text::contains(t, "etxtbsy"@) || text::contains(
        t,
        "resource busy"@,
    );
    let port_taken = text::contains(t, "eaddrinuse"@) || text::contains(
        t,
        "address already in use"@,
    );
    let missing = text::contains(t, "no such file or directory"@) || text::contains(t, "enoent"@);
    let quickjs = text::contains(t, "quickjs"@);
    let failed = text::contains(t, "allocation failed"@);
    if oracle && late {
        Some(FlakeCategory::OracleTimeout)
    } else if out_of_memory {
        if quickjs || failed {
            Some(FlakeCategory::JsGcPressure)
        } else {
            Some(FlakeCategory::ResourceExhaustion)
        }
    } else if busy {
        Some(FlakeCategory::FsContention)
    } else if port_taken {
        Some(FlakeCategory::PortConflict)
    } else if missing && text::contains(t, "tmp"@) {
        Some(FlakeCategory::TmpdirRace)
    } else if quickjs && failed {
        Some(FlakeCategory::JsGcPressure)
    } else {
        None
    }
}

/// The category and the trimmed text of the first line that shows a known transient failure.
pub open spec fn first_flake(ls: Seq<Seq<char>>) -> Option<(FlakeCategory, Seq<char>)>
    decreases ls.len(),
{
    if ls.len() == 0 {
        None
    } else {
        match line_category(text::trim(ls[0])) {
            Some(category) => Some((category, text::trim(ls[0]))),
            None => first_flake(ls.drop_first()),
        }
    }
}

/// The classification of an output: its first line, in lowercase, that shows a known flake.
pub open spec fn classification(output: Seq<char>) -> Option<(FlakeCategory, Seq<char>)> {
    first_flake(text::lines(text::lowercase(output)))
}

fn categorize(t: &[char]) -> (r: Option<FlakeCategory>)
    ensures
        r == line_category(t@),
{
    if (text::contains_str(t, "oracle") || text::contains_str(t, "bun")) && (text::contains_str(
        t,
        "timed out",
    ) || text::contains_str(t, "timeout")) {
        Some(FlakeCategory::OracleTimeout)
    } else if text::contains_str(t, "out of memory") || text::contains_str(t, "enomem")
        || text::contains_str(t, "cannot allocate") {
        if text::contains_str(t, "quickjs") || text::contains_str(t, "allocation failed") {
            Some(FlakeCategory::JsGcPressure)
        } else {
            Some(FlakeCategory::ResourceExhaustion)
        }
    } else if text::contains_str(t, "ebusy") || text::contains_str(t, "etxtbsy")
        || text::contains_str(t, "resource busy") {
        Some(FlakeCategory::FsContention)
    } else if text::contains_str(t, "eaddrinuse") || text::contains_str(
        t,
        "address already in use",
    ) {
        Some(FlakeCategory::PortConflict)
    } else if (text::contains_str(t, "no such file or directory") || text::contains_str(
        t,
        "enoent",
    )) && text::contains_str(t, "tmp") {
        Some(FlakeCategory::TmpdirRace)
    } else if text::contains_str(t, "quickjs") && text::contains_str(t, "allocation failed") {
        Some(FlakeCategory::JsGcPressure)
    } else {
        None
    }
}

/// Classifies a test failure based on the lowercase form of its output.
pub fn classify_lowercase(lower: &str) -> (r: FlakeClassification)
    ensures
        r@ == first_flake(text::lines(lower@)),
{
    let cs = text::chars_of(lower);
    let all = text::lines_of(cs.as_slice());
    let ghost ls = text::lines(lower@);
    let mut i: usize = 0;
    assert(ls.skip(0) =~= ls);
    while i < all.len()
        invariant
            i <= all.len(),
            text::char_texts(all@) == ls,
            all@.len() == ls.len(),
            ls == text::lines(lower@),
            first_flake(ls) == first_flake(ls.skip(i as int)),
        decreases all.len() - i,
    {
        assert(all@[i as int]@ == ls[i as int]);
        let t = text::trimmed(all[i].as_slice());
        if let Some(category) = categorize(t) {
            return FlakeClassification::Transient { category, matched_line: text::string_of(t) };
        }
        assert(ls.skip(i as int).drop_first() =~= ls.skip(i + 1));
        i = i + 1;
    }
    FlakeClassification::Deterministic
}

/// Classifies a test failure based on its output text.
///
/// Scans the output for known transient failure patterns, without regard to case, and returns
/// the first match, or `Deterministic` if no pattern matches.
pub fn classify_failure(output: &str) -> (r: FlakeClassification)
    ensures
        r@ == classification(output@),
{
    let lower = text::to_lowercase(output);
    classify_lowercase(lower.as_str())
}

/// A failure is transient exactly when some line of its output shows a known flake.
pub proof fn law_transient_iff_some_line_matches(ls: Seq<Seq<char>>)
    ensures
        first_flake(ls) is Some <==> exists|i: int|
            0 <= i < ls.len() && line_category(text::trim(#[trigger] ls[i])) is Some,
    decreases ls.len(),
{
    if ls.len() > 0 {
        let rest = ls.drop_first();
        law_transient_iff_some_line_matches(rest);
        if exists|i: int| 0 <= i < ls.len() && line_category(text::trim(#[trigger] ls[i])) is Some {
            let i = choose|i: int|
                0 <= i < ls.len() && line_category(text::trim(#[trigger] ls[i])) is Some;
            if i > 0 {
                assert(rest[i - 1] == ls[i]);
            }
        }
    }
}

/// The first line that shows a known flake decides, whatever follows it.
pub proof fn law_first_match_decides(ls: Seq<Seq<char>>, i: int)
    requires
        0 <= i < ls.len(),
        line_category(text::trim(ls[i])) is Some,
        forall|j: int| 0 <= j < i ==> line_category(text::trim(#[trigger] ls[j])) is None,
    ensures
        first_flake(ls) == Some((line_category(text::trim(ls[i]))->0, text::trim(ls[i]))),
    decreases i,
{
    if i > 0 {
        let rest = ls.drop_first();
        law_first_match_decides(rest, i - 1);
    }
}

proof fn lemma_first_flake_of_both(a: Seq<Seq<char>>, b: Seq<Seq<char>>)
    ensures
        first_flake(a + b) == match first_flake(a) {
            Some(found) => Some(found),
            None => first_flake(b),
        },
    decreases a.len(),
{
    if a.len() > 0 {
        assert((a + b).drop_first() =~= a.drop_first() + b);
        lemma_first_flake_of_both(a.drop_first(), b);
    }
}

proof fn lemma_empty_line_shows_nothing()
    ensures
        line_category(Seq::<char>::empty()) is None,
{
    reveal_strlit("oracle");
    reveal_strlit("bun");
    reveal_strlit("out of memory");
    reveal_strlit("enomem");
    reveal_strlit("cannot allocate");
    reveal_strlit("ebusy");
    reveal_strlit("etxtbsy");
    reveal_strlit("resource busy");
    reveal_strlit("eaddrinuse");
    reveal_strlit("address already in use");
    reveal_strlit("tmp");
    reveal_strlit("quickjs");
}

/// A line ending behind a text changes nothing.
proof fn lemma_final_newline(a: Seq<char>)
    ensures
        first_flake(text::lines(a.push('\n'))) == first_flake(text::lines(a)),
    decreases a.len(),
{
    let s = a.push('\n');
    let k = text::find_char(a, '\n');
    text::lemma_find_char(a, '\n');
    text::lemma_find_char(s, '\n');
    let f = text::find_char(s, '\n');
    assert(f == k) by {
        if k < f {
            assert(s[k] == '\n');
        }
    }
    assert(s.subrange(0, k) =~= a.subrange(0, k));
    let rest = s.subrange(k + 1, s.len() as int);
    if k < a.len() {
        let after = a.subrange(k + 1, a.len() as int);
        assert(rest =~= after.push('\n'));
        lemma_final_newline(after);
        let line = seq![text::strip_cr(a.subrange(0, k))];
        lemma_first_flake_of_both(line, text::lines(after));
        lemma_first_flake_of_both(line, text::lines(rest));
    } else {
        let line = text::strip_cr(a);
        assert(s.subrange(0, k) =~= a);
        assert(text::lines(s) == seq![line] + text::lines(rest));
        assert(seq![line].drop_first() =~= seq![]);
        if a.len() == 0 {
            lemma_empty_line_shows_nothing();
            assert(line =~= seq![]);
        } else {
            text::lemma_trim_cr(a);
            assert(seq![a].drop_first() =~= seq![]);
        }
    }
}

/// The text that is classified for two outputs, one behind the other: the first match of the first
/// decides, and the second counts only where the first shows no known flake. What follows a match
/// never changes the answer, and what precedes it matters only where it matches itself.
pub proof fn law_earlier_output_decides(a: Seq<char>, b: Seq<char>)
    ensures
        first_flake(text::lines(a + "\n"@ + b)) == match first_flake(text::lines(a)) {
            Some(found) => Some(found),
            None => first_flake(text::lines(b)),
        },
{
    reveal_strlit("\n");
    assert(a + "\n"@ =~= a.push('\n'));
    text::lemma_lines_behind_newline(a, b);
    lemma_first_flake_of_both(text::lines(a.push('\n')), text::lines(b));
    lemma_final_newline(a);
}

/// An ASCII output that consists of two outputs, one behind the other, is classified as the first
/// is, unless that is deterministic, and then as the second is.
pub proof fn law_joined_outputs_are_classified_in_order(a: Seq<char>, b: Seq<char>)
    requires
        vstd::utf8::is_ascii_chars(a),
        vstd::utf8::is_ascii_chars(b),
    ensures
        classification(a + "\n"@ + b) == match classification(a) {
            Some(found) => Some(found),
            None => classification(b),
        },
{
    let all = a + "\n"@ + b;
    reveal_strlit("\n");
    assert(text::ascii_lower(all) =~= text::ascii_lower(a) + "\n"@ + text::ascii_lower(b));
    law_earlier_output_decides(text::ascii_lower(a), text::ascii_lower(b));
}

/// The case of ASCII letters has no influence on how an ASCII output is classified.
pub proof fn law_classification_ignores_ascii_case(a: Seq<char>, b: Seq<char>)
    requires
        vstd::utf8::is_ascii_chars(a),
        vstd::utf8::is_ascii_chars(b),
        text::same_ignoring_case(a, b),
    ensures
        classification(a) == classification(b),
{
}

/// An empty output is deterministic.
pub proof fn law_empty_output_is_deterministic()
    ensures
        classification(Seq::<char>::empty()) is None,
{
}

/// Retry policy configuration.
#[derive(Debug, Clone)]
pub struct RetryPolicy {
    /// Maximum automatic retries per target per run.
    pub max_retries: u32,
    /// Delay between retry attempts in seconds.
    pub retry_delay_secs: u32,
    /// Per-target flake budget for thirty days.
    pub flake_budget: u32,
}

/// The number that a setting gives, or `default` where it is absent or no `u32`.
pub open spec fn setting_or(raw: Option<Seq<char>>, default: u32) -> u32 {
    match raw {
        Some(s) => match decimal::parsed(s, u32::MAX as nat) {
            Some(n) => n as u32,
            None => default,
        },
        None => default,
    }
}

fn read_setting(raw: Option<&str>, default: u32) -> (r: u32)
    ensures
        r == setting_or(text::opt_str(raw), default),
{
    match raw {
        Some(s) => match decimal::parse_u32(s) {
            Some(n) => n,
            None => default,
        },
        None => default,
    }
}

impl RetryPolicy {
    /// The policy that the given settings ask for.
    ///
    /// A setting that is absent, or that is no number, takes its default: one retry, a delay of
    /// five seconds, a budget of three flakes.
    pub fn from_settings(
        max_retries: Option<&str>,
        retry_delay_secs: Option<&str>,
        flake_budget: Option<&str>,
    ) -> (r: RetryPolicy)
        ensures
            r.max_retries == setting_or(text::opt_str(max_retries), 1),
            r.retry_delay_secs == setting_or(text::opt_str(retry_delay_secs), 5),
            r.flake_budget == setting_or(text::opt_str(flake_budget), 3),
    {
        RetryPolicy {
            max_retries: read_setting(max_retries, 1),
            retry_delay_secs: read_setting(retry_delay_secs, 5),
            flake_budget: read_setting(flake_budget, 3),
        }
    }

    /// Whether a failure of this classification is retried after the given attempt.
    pub open spec fn retries(
        self,
        classified: Option<(FlakeCategory, Seq<char>)>,
        attempt: u32,
    ) -> bool {
        classified is Some && attempt < self.max_retries
    }

    /// Whether we should retry after this classification.
    pub fn should_retry(&self, classification: &FlakeClassification, attempt: u32) -> (r: bool)
        ensures
            r == self.retries(classification@, attempt),
    {
        classification.is_retriable() && attempt < self.max_retries
    }
}

/// Once an attempt is not retried, no later attempt is.
pub proof fn law_retries_stop_for_good(
    policy: RetryPolicy,
    classified: Option<(FlakeCategory, Seq<char>)>,
    attempt: u32,
    later: u32,
)
    requires
        attempt <= later,
        !policy.retries(classified, attempt),
    ensures
        !policy.retries(classified, later),
{
}

/// A line shows a late oracle exactly where it names the oracle and says that time ran out.
pub proof fn law_oracle_timeout_needs_both_phrases(t: Seq<char>)
    ensures
        line_category(t) == Some(FlakeCategory::OracleTimeout) <==> (text::contains(t, "oracle"@)
            || text::contains(t, "bun"@)) && (text::contains(t, "timed out"@) || text::contains(
            t,
            "timeout"@,
        )),
{
}

/// A line shows a lack of memory outside the script engine only where it says that memory ran out
/// and mentions neither the engine nor a failed allocation. Such a line does, unless the oracle is
/// late.
pub proof fn law_exhaustion_is_outside_the_engine(t: Seq<char>)
    ensures
        line_category(t) == Some(FlakeCategory::ResourceExhaustion) ==> (text::contains(
            t,
            "out of memory"@,
        ) || text::contains(t, "enomem"@) || text::contains(t, "cannot allocate"@))
            && !text::contains(t, "quickjs"@) && !text::contains(t, "allocation failed"@),
        (text::contains(t, "out of memory"@) || text::contains(t, "enomem"@) || text::contains(
            t,
            "cannot allocate"@,
        )) && !text::contains(t, "quickjs"@) && !text::contains(t, "allocation failed"@) ==> (
        line_category(t) == Some(FlakeCategory::ResourceExhaustion) || line_category(t) == Some(
            FlakeCategory::OracleTimeout,
        )),
{
}

/// A line shows a lack of memory in the script engine only where it mentions both the engine and a
/// failed allocation, or one of the two and that memory ran out. A line that says the latter does,
/// unless the oracle is late.
pub proof fn law_engine_pressure_needs_two_phrases(t: Seq<char>)
    ensures
        line_category(t) == Some(FlakeCategory::JsGcPressure) ==> (text::contains(t, "quickjs"@)
            && text::contains(t, "allocation failed"@)) || ((text::contains(t, "quickjs"@)
            || text::contains(t, "allocation failed"@)) && (text::contains(t, "out of memory"@)
            || text::contains(t, "enomem"@) || text::contains(t, "cannot allocate"@))),
        (text::contains(t, "quickjs"@) || text::contains(t, "allocation failed"@)) && (
        text::contains(t, "out of memory"@) || text::contains(t, "enomem"@) || text::contains(
            t,
            "cannot allocate"@,
        )) ==> (line_category(t) == Some(FlakeCategory::JsGcPressure) || line_category(t) == Some(
            FlakeCategory::OracleTimeout,
        )),
        text::contains(t, "quickjs"@) && text::contains(t, "allocation failed"@)
            ==> line_category(t) is Some && line_category(t) != Some(
            FlakeCategory::ResourceExhaustion,
        ),
{
}

/// A line shows a file in use only where it says so. A line that does is not held for a taken
/// port, a lost directory or a deterministic failure.
pub proof fn law_contention_needs_a_busy_file(t: Seq<char>)
    ensures
        line_category(t) == Some(FlakeCategory::FsContention) ==> text::contains(t, "ebusy"@)
            || text::contains(t, "etxtbsy"@) || text::contains(t, "resource busy"@),
        text::contains(t, "ebusy"@) || text::contains(t, "etxtbsy"@) || text::contains(
            t,
            "resource busy"@,
        ) ==> line_category(t) is Some && line_category(t) != Some(FlakeCategory::PortConflict)
            && line_category(t) != Some(FlakeCategory::TmpdirRace),
        (text::contains(t, "ebusy"@) || text::contains(t, "etxtbsy"@) || text::contains(
            t,
            "resource busy"@,
        )) && line_category(t) == Some(FlakeCategory::JsGcPressure) ==> text::contains(
            t,
            "out of memory"@,
        ) || text::contains(t, "enomem"@) || text::contains(t, "cannot allocate"@),
{
}

/// A line shows a taken port only where it says so. A line that does is not held for a lost
/// directory or a deterministic failure.
pub proof fn law_port_conflict_needs_a_taken_port(t: Seq<char>)
    ensures
        line_category(t) == Some(FlakeCategory::PortConflict) ==> text::contains(t, "eaddrinuse"@)
            || text::contains(t, "address already in use"@),
        text::contains(t, "eaddrinuse"@) || text::contains(t, "address already in use"@)
            ==> line_category(t) is Some && line_category(t) != Some(FlakeCategory::TmpdirRace),
        (text::contains(t, "eaddrinuse"@) || text::contains(t, "address already in use"@))
            && line_category(t) == Some(FlakeCategory::JsGcPressure) ==> text::contains(
            t,
            "out of memory"@,
        ) || text::contains(t, "enomem"@) || text::contains(t, "cannot allocate"@),
{
}

/// A line shows a lost directory only where a file is missing and the line mentions `tmp`. A line
/// that says both is never deterministic, and is held for a lack of memory only where it says so.
pub proof fn law_lost_directory_needs_tmp(t: Seq<char>)
    ensures
        line_category(t) == Some(FlakeCategory::TmpdirRace) ==> text::contains(t, "tmp"@) && (
        text::contains(t, "no such file or directory"@) || text::contains(t, "enoent"@)),
        text::contains(t, "tmp"@) && (text::contains(t, "no such file or directory"@)
            || text::contains(t, "enoent"@)) ==> line_category(t) is Some,
        text::contains(t, "tmp"@) && (text::contains(t, "no such file or directory"@)
            || text::contains(t, "enoent"@)) && line_category(t) == Some(
            FlakeCategory::JsGcPressure,
        ) ==> text::contains(t, "out of memory"@) || text::contains(t, "enomem"@)
            || text::contains(t, "cannot allocate"@),
{
}

/// A line in which none of these phrases occurs shows no flake. Neither does one with a missing
/// file and no `tmp`, with the oracle and no word of the time, or with the script engine and no
/// word of memory, where nothing else is said.
pub proof fn law_other_lines_show_no_flake(t: Seq<char>)
    requires
        !text::contains(t, "out of memory"@),
        !text::contains(t, "enomem"@),
        !text::contains(t, "cannot allocate"@),
        !text::contains(t, "ebusy"@),
        !text::contains(t, "etxtbsy"@),
        !text::contains(t, "resource busy"@),
        !text::contains(t, "eaddrinuse"@),
        !text::contains(t, "address already in use"@),
        !text::contains(t, "timed out"@) && !text::contains(t, "timeout"@) || !text::contains(
            t,
            "oracle"@,
        ) && !text::contains(t, "bun"@),
        !text::contains(t, "tmp"@) || !text::contains(t, "no such file or directory"@)
            && !text::contains(t, "enoent"@),
        !text::contains(t, "quickjs"@) || !text::contains(t, "allocation failed"@),
    ensures
        line_category(t) is None,
{
}

/// What a classification holds against an output is said by a line of it: the matched line is a
/// trimmed line of the output in lower case, of the category that is given.
pub proof fn law_matched_line_comes_from_the_output(output: Seq<char>)
    ensures
        classification(output) matches Some((category, line)) ==> line_category(line) == Some(
            category,
        ) && exists|i: int|
            0 <= i < text::lines(text::lowercase(output)).len() && line == text::trim(
                #[trigger] text::lines(text::lowercase(output))[i],
            ),
        classification(output) is None ==> forall|i: int|
            0 <= i < text::lines(text::lowercase(output)).len() ==> line_category(
                text::trim(#[trigger] text::lines(text::lowercase(output))[i]),
            ) is None,
{
    let ls = text::lines(text::lowercase(output));
    law_transient_iff_some_line_matches(ls);
    if classification(output) is Some {
        lemma_flake_is_a_line(ls);
    }
}

proof fn lemma_flake_is_a_line(ls: Seq<Seq<char>>)
    requires
        first_flake(ls) is Some,
    ensures
        line_category((first_flake(ls)->0).1) == Some((first_flake(ls)->0).0),
        exists|i: int|
            0 <= i < ls.len() && (first_flake(ls)->0).1 == text::trim(#[trigger] ls[i]),
    decreases ls.len(),
{
    if line_category(text::trim(ls[0])) is None {
        let rest = ls.drop_first();
        lemma_flake_is_a_line(rest);
        let i = choose|i: int|
            0 <= i < rest.len() && (first_flake(rest)->0).1 == text::trim(#[trigger] rest[i]);
        assert(ls[i + 1] == rest[i]);
    } else {
        assert((first_flake(ls)->0).1 == text::trim(ls[0]));
    }
}

/// An output of one ASCII line is classified by that line, trimmed and in lower case.
pub proof fn law_one_line_is_classified_by_itself(line: Seq<char>)
    requires
        line.len() > 0,
        vstd::utf8::is_ascii_chars(line),
        forall|i: int| 0 <= i < line.len() ==> #[trigger] line[i] != '\n',
    ensures
        classification(line) is Some <==> line_category(text::trim(text::ascii_lower(line)))
            is Some,
        classification(line) matches Some((category, matched)) ==> matched == text::trim(
            text::ascii_lower(line),
        ) && line_category(matched) == Some(category),
{
    let low = text::ascii_lower(line);
    assert forall|i: int| 0 <= i < low.len() implies #[trigger] low[i] != '\n' by {
        assert(line[i] != '\n');
    }
    text::law_last_line_needs_no_break(low);
    law_matched_line_comes_from_the_output(line);
    assert(text::lines(low)[0] == low);
}

/// The labels of the categories.
pub proof fn law_labels_tell_categories_apart(a: FlakeCategory, b: FlakeCategory)
    ensures
        a.label_text() == b.label_text() <==> a == b,
        FlakeCategory::OracleTimeout.label_text() == "TS oracle timeout"@,
        FlakeCategory::ResourceExhaustion.label_text() == "resource exhaustion"@,
        FlakeCategory::FsContention.label_text() == "filesystem contention"@,
        FlakeCategory::PortConflict.label_text() == "port conflict"@,
        FlakeCategory::TmpdirRace.label_text() == "temp directory race"@,
        FlakeCategory::JsGcPressure.label_text() == "QuickJS GC pressure"@,
{
    reveal_strlit("TS oracle timeout");
    reveal_strlit("resource exhaustion");
    reveal_strlit("filesystem contention");
    reveal_strlit("port conflict");
    reveal_strlit("temp directory race");
    reveal_strlit("QuickJS GC pressure");
    assert(a.label_text()[0] == b.label_text()[0] && a.label_text()[1] == b.label_text()[1]
        && a.label_text().len() == b.label_text().len() ==> a == b);
}

/// A classification as transient holds its category and its line, and nothing else is transient.
pub proof fn law_transient_failures_hold_their_line(classified: FlakeClassification)
    ensures
        classified matches FlakeClassification::Transient { category, matched_line }
            ==> classified@ == Some((category, matched_line@)),
        classified is Deterministic ==> classified@ is None,
{
}

/// A transient failure is retried as often as the policy allows, counted from attempt zero, and a
/// deterministic failure never.
pub proof fn law_only_transient_failures_are_retried(
    policy: RetryPolicy,
    classified: FlakeClassification,
    attempt: u32,
)
    ensures
        classified is Deterministic ==> !policy.retries(classified@, attempt),
        classified is Transient ==> (policy.retries(classified@, attempt) <==> attempt
            < policy.max_retries),
{
}

/// A setting that writes a number in range gives it, and any other gives the default.
pub proof fn law_settings_are_read(n: nat, s: Seq<char>, default: u32)
    ensures
        setting_or(None, default) == default,
        n <= u32::MAX ==> setting_or(Some(decimal::numeral(n)), default) == n,
        (forall|m: nat| decimal::parsed(s, u32::MAX as nat) != Some(m)) ==> setting_or(
            Some(s),
            default,
        ) == default,
{
    if n <= u32::MAX {
        decimal::law_parse_reads_what_was_written(n, u32::MAX as nat);
    }
    if decimal::parsed(s, u32::MAX as nat) is Some {
        assert(decimal::parsed(s, u32::MAX as nat) == Some(
            decimal::parsed(s, u32::MAX as nat)->0,
        ));
    }
}

/// The first line of an output, in lower case, that shows a known flake decides how the output is
/// classified.
pub proof fn law_first_line_decides(output: Seq<char>, i: int)
    requires
        0 <= i < text::lines(text::lowercase(output)).len(),
        line_category(text::trim(text::lines(text::lowercase(output))[i])) is Some,
        forall|j: int|
            0 <= j < i ==> line_category(
                text::trim(#[trigger] text::lines(text::lowercase(output))[j]),
            ) is None,
    ensures
        classification(output) matches Some((category, line)) && line == text::trim(
            text::lines(text::lowercase(output))[i],
        ) && line_category(line) == Some(category),
{
    law_first_match_decides(text::lines(text::lowercase(output)), i);
}

} // verus!
