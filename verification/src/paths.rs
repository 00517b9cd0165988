//! Paths as text: components, comparison, parents and prefixes.
//!
//! On Unix, a path is a text whose names are separated by `/`, and which is absolute when it
//! begins with one. On Windows, both `/` and `\` separate names, a drive, a share or a device may
//! stand before the root, and an absolute path has both. Behind the verbatim prefix `\\?\` only
//! `\` separates. Repeated separators and `.` names count for nothing, except for a `.` at the very
//! beginning of a relative path and for one in a verbatim path.

use crate::text;
use vstd::prelude::*;

verus! {

broadcast use vstd::string::group_string_axioms;

/// The family of the operating system.
#[derive(Debug, Clone, Copy, PartialEq, Eq, Structural)]
pub enum Platform {
    /// Unix and its relatives.
    Unix,
    /// Windows.
    Windows,
}

/// The characters that separate the names of a path.
#[derive(Debug, Clone, Copy, PartialEq, Eq, Structural)]
pub enum Separators {
    /// `/` alone.
    Slash,
    /// `\` alone.
    Backslash,
    /// `/` and `\`.
    Both,
}

/// Whether a character is a separator.
pub open spec fn separates(c: char, seps: Separators) -> bool {
    match seps {
        Separators::Slash => c == '/',
        Separators::Backslash => c == '\\',
        Separators::Both => c == '/' || c == '\\',
    }
}

fn is_separator(c: char, seps: Separators) -> (r: bool)
    ensures
        r == separates(c, seps),
{
    match seps {
        Separators::Slash => c == '/',
        Separators::Backslash => c == '\\',
        Separators::Both => c == '/' || c == '\\',
    }
}

/// The separators of the paths of a platform.
pub open spec fn native(platform: Platform) -> Separators {
    match platform {
        Platform::Unix => Separators::Slash,
        Platform::Windows => Separators::Both,
    }
}

fn native_separators(platform: Platform) -> (r: Separators)
    ensures
        r == native(platform),
{
    match platform {
        Platform::Unix => Separators::Slash,
        Platform::Windows => Separators::Both,
    }
}

/// The separator that is put between two names.
pub open spec fn main_separator(platform: Platform) -> char {
    match platform {
        Platform::Unix => '/',
        Platform::Windows => '\\',
    }
}

/// The position of the first separator at or after `from`, or the length where there is none.
pub open spec fn segment_end(s: Seq<char>, from: int, seps: Separators) -> int
    decreases s.len() - from,
{
    if from < 0 || from >= s.len() || separates(s[from], seps) {
        from
    } else {
        segment_end(s, from + 1, seps)
    }
}

/// Where a segment ends.
pub proof fn lemma_segment_end(s: Seq<char>, from: int, seps: Separators)
    requires
        0 <= from <= s.len(),
    ensures
        from <= segment_end(s, from, seps) <= s.len(),
        forall|j: int|
            #![trigger s[j]]
            from <= j < segment_end(s, from, seps) ==> !separates(s[j], seps),
        segment_end(s, from, seps) < s.len() ==> separates(s[segment_end(s, from, seps)], seps),
    decreases s.len() - from,
{
    if from < s.len() && !separates(s[from], seps) {
        lemma_segment_end(s, from + 1, seps);
    }
}

fn find_segment_end(cs: &[char], from: usize, seps: Separators) -> (r: usize)
    requires
        from <= cs@.len(),
    ensures
        r == segment_end(cs@, from as int, seps),
        from <= r <= cs@.len(),
{
    let n = cs.len();
    let mut at: usize = from;
    while at < n
        invariant
            from <= at <= n,
            n == cs@.len(),
            segment_end(cs@, from as int, seps) == segment_end(cs@, at as int, seps),
        decreases n - at,
    {
        if is_separator(cs[at], seps) {
            return at;
        }
        at = at + 1;
    }
    at
}

// ---------------------------------------------------------------------------
// Prefixes
// ---------------------------------------------------------------------------

/// The kinds of prefixes that Windows puts before the root of a path.
#[derive(Debug, Clone, Copy, PartialEq, Eq, Structural)]
pub enum PrefixKind {
    /// `\\?\name`.
    Verbatim,
    /// `\\?\UNC\server\share`.
    VerbatimUnc,
    /// `\\?\C:`.
    VerbatimDisk,
    /// `\\.\device`.
    DeviceNs,
    /// `\\server\share`.
    Unc,
    /// `C:`.
    Disk,
}

/// What a prefix says.
pub struct Prefix {
    /// Its kind.
    pub kind: PrefixKind,
    /// The name, the server, the device, or the letter of the drive in lower case.
    pub first: Seq<char>,
    /// The share.
    pub second: Seq<char>,
    /// How many characters it takes.
    pub end: int,
}

/// Whether paths behind a prefix are taken verbatim.
pub open spec fn verbatim_kind(kind: PrefixKind) -> bool {
    kind is Verbatim || kind is VerbatimUnc || kind is VerbatimDisk
}

/// Whether a letter and a colon stand at a position.
pub open spec fn drive_at(s: Seq<char>, at: int) -> bool {
    &&& 0 <= at
    &&& at + 1 < s.len()
    &&& ('a' <= s[at] <= 'z' || 'A' <= s[at] <= 'Z')
    &&& s[at + 1] == ':'
}

/// The prefix of a text that begins with `\\?\`.
pub open spec fn verbatim_prefix(s: Seq<char>) -> Prefix {
    if s.len() >= 8 && s[4] == 'U' && s[5] == 'N' && s[6] == 'C' && separates(
        s[7],
        Separators::Both,
    ) {
        let server_end = segment_end(s, 8, Separators::Backslash);
        let share_end = segment_end(s, server_end + 1, Separators::Backslash);
        if server_end + 1 < share_end {
            Prefix {
                kind: PrefixKind::VerbatimUnc,
                first: s.subrange(8, server_end),
                second: s.subrange(server_end + 1, share_end),
                end: share_end,
            }
        } else {
            Prefix {
                kind: PrefixKind::VerbatimUnc,
                first: s.subrange(8, server_end),
                second: seq![],
                end: server_end,
            }
        }
    } else if drive_at(s, 4) && (s.len() == 6 || separates(s[6], Separators::Both)) {
        Prefix {
            kind: PrefixKind::VerbatimDisk,
            first: seq![text::lower_char(s[4])],
            second: seq![],
            end: 6,
        }
    } else {
        let end = segment_end(s, 4, Separators::Backslash);
        Prefix {
            kind: PrefixKind::Verbatim,
            first: s.subrange(4, end),
            second: seq![],
            end,
        }
    }
}

/// Whether a text begins with two separators.
pub open spec fn two_separators(s: Seq<char>) -> bool {
    s.len() >= 2 && separates(s[0], Separators::Both) && separates(s[1], Separators::Both)
}

/// Whether a text begins with `\\?\`, written with these very separators.
pub open spec fn verbatim_mark(s: Seq<char>) -> bool {
    s.len() >= 4 && s[0] == '\\' && s[1] == '\\' && s[2] == '?' && s[3] == '\\'
}

/// Whether a text begins with `\\.\`, written with any separators.
pub open spec fn device_mark(s: Seq<char>) -> bool {
    two_separators(s) && s.len() >= 4 && s[2] == '.' && separates(s[3], Separators::Both)
}

/// The prefix of a path on Windows.
pub open spec fn windows_prefix(s: Seq<char>) -> Option<Prefix> {
    if verbatim_mark(s) {
        Some(verbatim_prefix(s))
    } else if device_mark(s) {
        let end = segment_end(s, 4, Separators::Both);
        Some(
            Prefix {
                kind: PrefixKind::DeviceNs,
                first: s.subrange(4, end),
                second: seq![],
                end,
            },
        )
    } else if two_separators(s) {
        let server_end = segment_end(s, 2, Separators::Both);
        let share_end = segment_end(s, server_end + 1, Separators::Both);
        if 2 < server_end && server_end + 1 < share_end {
            Some(
                Prefix {
                    kind: PrefixKind::Unc,
                    first: s.subrange(2, server_end),
                    second: s.subrange(server_end + 1, share_end),
                    end: share_end,
                },
            )
        } else {
            None
        }
    } else if drive_at(s, 0) {
        Some(
            Prefix {
                kind: PrefixKind::Disk,
                first: seq![text::lower_char(s[0])],
                second: seq![],
                end: 2,
            },
        )
    } else {
        None
    }
}

/// A prefix lies within its text.
pub proof fn lemma_prefix_end(s: Seq<char>)
    ensures
        windows_prefix(s) matches Some(q) ==> 2 <= q.end <= s.len(),
{
    if verbatim_mark(s) {
        lemma_segment_end(s, 4, Separators::Backslash);
        if s.len() >= 8 {
            lemma_segment_end(s, 8, Separators::Backslash);
            let e = segment_end(s, 8, Separators::Backslash);
            if e < s.len() {
                lemma_segment_end(s, e + 1, Separators::Backslash);
            }
        }
    } else if device_mark(s) {
        lemma_segment_end(s, 4, Separators::Both);
    } else if two_separators(s) {
        lemma_segment_end(s, 2, Separators::Both);
        let e = segment_end(s, 2, Separators::Both);
        if e < s.len() {
            lemma_segment_end(s, e + 1, Separators::Both);
        }
    }
}

struct PrefixText {
    kind: PrefixKind,
    first: Vec<char>,
    second: Vec<char>,
    end: usize,
}

impl View for PrefixText {
    type V = Prefix;

    closed spec fn view(&self) -> Prefix {
        Prefix {
            kind: self.kind,
            first: self.first@,
            second: self.second@,
            end: self.end as int,
        }
    }
}

fn between(cs: &[char], from: usize, to: usize) -> (r: Vec<char>)
    requires
        from <= to <= cs@.len(),
    ensures
        r@ == cs@.subrange(from as int, to as int),
{
    vstd::slice::slice_to_vec(vstd::slice::slice_subrange(cs, from, to))
}

fn has_drive_at(cs: &[char], at: usize) -> (r: bool)
    ensures
        r == drive_at(cs@, at as int),
{
    let n = cs.len();
    if n < 2 || at > n - 2 {
        return false;
    }
    let c = cs[at];
    (('a' <= c && c <= 'z') || ('A' <= c && c <= 'Z')) && cs[at + 1] == ':'
}

fn drive_letter(c: char) -> (r: Vec<char>)
    ensures
        r@ == seq![text::lower_char(c)],
{
    let mut out: Vec<char> = Vec::new();
    out.push(text::lowered_char(c));
    out
}

fn no_chars() -> (r: Vec<char>)
    ensures
        r@ == Seq::<char>::empty(),
{
    let out: Vec<char> = Vec::new();
    out
}

fn verbatim_prefix_of(cs: &[char]) -> (r: PrefixText)
    requires
        verbatim_mark(cs@),
    ensures
        r@ == verbatim_prefix(cs@),
{
    let n = cs.len();
    if n >= 8 && cs[4] == 'U' && cs[5] == 'N' && cs[6] == 'C' && is_separator(
        cs[7],
        Separators::Both,
    ) {
        let server_end = find_segment_end(cs, 8, Separators::Backslash);
        if server_end < n {
            let share_end = find_segment_end(cs, server_end + 1, Separators::Backslash);
            if server_end + 1 < share_end {
                return PrefixText {
                    kind: PrefixKind::VerbatimUnc,
                    first: between(cs, 8, server_end),
                    second: between(cs, server_end + 1, share_end),
                    end: share_end,
                };
            }
        }
        return PrefixText {
            kind: PrefixKind::VerbatimUnc,
            first: between(cs, 8, server_end),
            second: no_chars(),
            end: server_end,
        };
    }
    if has_drive_at(cs, 4) && (n == 6 || is_separator(cs[6], Separators::Both)) {
        return PrefixText {
            kind: PrefixKind::VerbatimDisk,
            first: drive_letter(cs[4]),
            second: no_chars(),
            end: 6,
        };
    }
    let end = find_segment_end(cs, 4, Separators::Backslash);
    PrefixText {
        kind: PrefixKind::Verbatim,
        first: between(cs, 4, end),
        second: no_chars(),
        end,
    }
}

fn windows_prefix_of(cs: &[char]) -> (r: Option<PrefixText>)
    ensures
        match r {
            Some(q) => windows_prefix(cs@) == Some(q@),
            None => windows_prefix(cs@) is None,
        },
{
    let n = cs.len();
    if n >= 4 && cs[0] == '\\' && cs[1] == '\\' && cs[2] == '?' && cs[3] == '\\' {
        return Some(verbatim_prefix_of(cs));
    }
    if n >= 2 && is_separator(cs[0], Separators::Both) && is_separator(cs[1], Separators::Both) {
        if n >= 4 && cs[2] == '.' && is_separator(cs[3], Separators::Both) {
            let end = find_segment_end(cs, 4, Separators::Both);
            return Some(
                PrefixText {
                    kind: PrefixKind::DeviceNs,
                    first: between(cs, 4, end),
                    second: no_chars(),
                    end,
                },
            );
        }
        let server_end = find_segment_end(cs, 2, Separators::Both);
        if 2 < server_end && server_end < n {
            let share_end = find_segment_end(cs, server_end + 1, Separators::Both);
            if server_end + 1 < share_end {
                return Some(
                    PrefixText {
                        kind: PrefixKind::Unc,
                        first: between(cs, 2, server_end),
                        second: between(cs, server_end + 1, share_end),
                        end: share_end,
                    },
                );
            }
        }
        return None;
    }
    if has_drive_at(cs, 0) {
        return Some(
            PrefixText {
                kind: PrefixKind::Disk,
                first: drive_letter(cs[0]),
                second: no_chars(),
                end: 2,
            },
        );
    }
    None
}

/// The prefix of a path.
pub open spec fn prefix(s: Seq<char>, platform: Platform) -> Option<Prefix> {
    match platform {
        Platform::Unix => None,
        Platform::Windows => windows_prefix(s),
    }
}

/// Where the prefix of a path ends.
pub open spec fn prefix_end(s: Seq<char>, platform: Platform) -> int {
    match prefix(s, platform) {
        Some(q) => q.end,
        None => 0,
    }
}

/// Whether a path has a verbatim prefix.
pub open spec fn verbatim(s: Seq<char>, platform: Platform) -> bool {
    match prefix(s, platform) {
        Some(q) => verbatim_kind(q.kind),
        None => false,
    }
}

/// Whether a root is written in a path.
pub open spec fn written_root(s: Seq<char>, platform: Platform) -> bool {
    let at = prefix_end(s, platform);
    at < s.len() && separates(s[at], native(platform))
}

/// Whether the prefix of a path stands for a root as well, as every prefix but a drive does.
pub open spec fn implied_root(s: Seq<char>, platform: Platform) -> bool {
    match prefix(s, platform) {
        Some(q) => !(q.kind is Disk),
        None => false,
    }
}

/// Whether a path has a root.
pub open spec fn has_root(s: Seq<char>, platform: Platform) -> bool {
    written_root(s, platform) || implied_root(s, platform)
}

/// Whether a path is absolute.
pub open spec fn absolute(s: Seq<char>, platform: Platform) -> bool {
    &&& has_root(s, platform)
    &&& match platform {
        Platform::Unix => true,
        Platform::Windows => prefix(s, platform) is Some,
    }
}

/// Where the names of a path begin.
pub open spec fn body_start(s: Seq<char>, platform: Platform) -> int {
    if written_root(s, platform) {
        prefix_end(s, platform) + 1
    } else {
        prefix_end(s, platform)
    }
}

/// The characters that separate the names of a path.
pub open spec fn body_separators(s: Seq<char>, platform: Platform) -> Separators {
    if verbatim(s, platform) {
        Separators::Backslash
    } else {
        native(platform)
    }
}

/// Whether nothing stands before the names of a path.
pub open spec fn bare(s: Seq<char>, platform: Platform) -> bool {
    prefix(s, platform) is None && !written_root(s, platform)
}

/// Where the part of a path ends that stays when its names are taken away: a prefix, a written
/// root, or a leading `.`.
pub open spec fn lead_end(s: Seq<char>, platform: Platform) -> int {
    let at = body_start(s, platform);
    if !has_root(s, platform) && at < s.len() && s[at] == '.' && (at + 1 == s.len() || separates(
        s[at + 1],
        native(platform),
    )) {
        at + 1
    } else {
        at
    }
}

struct Layout {
    has_prefix: bool,
    prefix_end: usize,
    is_verbatim: bool,
    is_disk: bool,
    written_root: bool,
    body_start: usize,
}

impl Layout {
    spec fn fits(&self, s: Seq<char>, platform: Platform) -> bool {
        &&& self.has_prefix == prefix(s, platform) is Some
        &&& self.prefix_end == prefix_end(s, platform)
        &&& self.is_verbatim == verbatim(s, platform)
        &&& self.is_disk == (prefix(s, platform) is Some && !implied_root(s, platform))
        &&& self.written_root == written_root(s, platform)
        &&& self.body_start == body_start(s, platform)
        &&& self.prefix_end <= self.body_start <= s.len()
    }
}

fn layout_of(cs: &[char], platform: Platform) -> (r: Layout)
    ensures
        r.fits(cs@, platform),
{
    let n = cs.len();
    let found = match platform {
        Platform::Unix => None,
        Platform::Windows => windows_prefix_of(cs),
    };
    proof {
        lemma_prefix_end(cs@);
    }
    let (has_prefix, prefix_end, is_verbatim, is_disk) = match found {
        Some(q) => (
            true,
            q.end,
            match q.kind {
                PrefixKind::Verbatim | PrefixKind::VerbatimUnc | PrefixKind::VerbatimDisk => true,
                _ => false,
            },
            match q.kind {
                PrefixKind::Disk => true,
                _ => false,
            },
        ),
        None => (false, 0, false, false),
    };
    let written_root = prefix_end < n && is_separator(cs[prefix_end], native_separators(platform));
    let body_start = if written_root {
        prefix_end + 1
    } else {
        prefix_end
    };
    Layout { has_prefix, prefix_end, is_verbatim, is_disk, written_root, body_start }
}

fn lead_end_of(cs: &[char], platform: Platform) -> (r: usize)
    ensures
        r == lead_end(cs@, platform),
        r <= cs@.len(),
{
    let n = cs.len();
    let l = layout_of(cs, platform);
    let at = l.body_start;
    let rooted = l.written_root || (l.has_prefix && !l.is_disk);
    if !rooted && at < n && cs[at] == '.' && (at + 1 == n || is_separator(
        cs[at + 1],
        native_separators(platform),
    )) {
        at + 1
    } else {
        at
    }
}

// ---------------------------------------------------------------------------
// Parts
// ---------------------------------------------------------------------------

/// One component of a path.
#[derive(Debug, Clone, PartialEq, Eq)]
pub enum PathComponent {
    /// A prefix such as a drive, as it is written.
    Prefix(String),
    /// The root directory.
    RootDir,
    /// The current directory: a leading `.`.
    CurDir,
    /// The parent directory: `..`.
    ParentDir,
    /// A name.
    Normal(String),
}

/// What a path component says.
pub enum Comp {
    /// A prefix, as it is written.
    Prefix(Seq<char>),
    /// The root directory.
    RootDir,
    /// The current directory.
    CurDir,
    /// The parent directory.
    ParentDir,
    /// A name.
    Normal(Seq<char>),
}

impl View for PathComponent {
    type V = Comp;

    open spec fn view(&self) -> Comp {
        match *self {
            PathComponent::Prefix(s) => Comp::Prefix(s@),
            PathComponent::RootDir => Comp::RootDir,
            PathComponent::CurDir => Comp::CurDir,
            PathComponent::ParentDir => Comp::ParentDir,
            PathComponent::Normal(s) => Comp::Normal(s@),
        }
    }
}

/// What the components of a list say.
pub open spec fn comps(v: Seq<PathComponent>) -> Seq<Comp> {
    Seq::new(v.len(), |i: int| v[i]@)
}

/// A component together with the place where it stands in the text.
pub struct Part {
    /// The component.
    pub comp: Comp,
    /// The position of its first character.
    pub start: int,
    /// The position behind its last character.
    pub end: int,
}

/// The component that a name between two separators stands for, if any.
pub open spec fn segment_comp(seg: Seq<char>, keep_dot: bool) -> Option<Comp> {
    if seg.len() == 0 {
        None
    } else if seg == seq!['.'] {
        if keep_dot {
            Some(Comp::CurDir)
        } else {
            None
        }
    } else if seg == seq!['.', '.'] {
        Some(Comp::ParentDir)
    } else {
        Some(Comp::Normal(seg))
    }
}

/// The parts of `s` from position `from` on, where neither prefix nor root stands. A `.` counts
/// in a verbatim path, and where it is the first of all names.
pub open spec fn body_parts(s: Seq<char>, from: int, seps: Separators, first: bool) -> Seq<Part>
    decreases s.len() - from,
{
    let end = segment_end(s, from, seps);
    if from < 0 || from >= s.len() || end < from {
        seq![]
    } else {
        let rest = if end < s.len() {
            body_parts(s, end + 1, seps, false)
        } else {
            seq![]
        };
        match segment_comp(s.subrange(from, end), first || seps is Backslash) {
            Some(comp) => seq![Part { comp, start: from, end }] + rest,
            None => rest,
        }
    }
}

/// The prefix and the root of a path.
pub open spec fn head_parts(s: Seq<char>, platform: Platform) -> Seq<Part> {
    let at = prefix_end(s, platform);
    let front = if prefix(s, platform) is Some {
        seq![Part { comp: Comp::Prefix(s.take(at)), start: 0, end: at }]
    } else {
        seq![]
    };
    if written_root(s, platform) {
        front.push(Part { comp: Comp::RootDir, start: at, end: at + 1 })
    } else if implied_root(s, platform) && !verbatim(s, platform) {
        front.push(Part { comp: Comp::RootDir, start: at, end: at })
    } else {
        front
    }
}

/// The parts of a path.
pub open spec fn parts(s: Seq<char>, platform: Platform) -> Seq<Part> {
    head_parts(s, platform) + body_parts(
        s,
        body_start(s, platform),
        body_separators(s, platform),
        bare(s, platform),
    )
}

/// The components of a path.
pub open spec fn components(s: Seq<char>, platform: Platform) -> Seq<Comp> {
    Seq::new(parts(s, platform).len(), |i: int| parts(s, platform)[i].comp)
}

/// Whether two components mean the same. A drive means the same in either case.
pub open spec fn same_comp(a: Comp, b: Comp) -> bool {
    match (a, b) {
        (Comp::Prefix(x), Comp::Prefix(y)) => windows_prefix(x) == windows_prefix(y),
        _ => a == b,
    }
}

/// Whether two paths have the same components.
pub open spec fn same_path(a: Seq<char>, b: Seq<char>, platform: Platform) -> bool {
    &&& components(a, platform).len() == components(b, platform).len()
    &&& is_under(components(a, platform), components(b, platform))
}

/// Whether the list of components `a` begins with the list `b`.
pub open spec fn is_under(a: Seq<Comp>, b: Seq<Comp>) -> bool {
    &&& b.len() <= a.len()
    &&& forall|i: int| 0 <= i < b.len() ==> same_comp(#[trigger] a[i], b[i])
}

struct Span {
    comp: PathComponent,
    start: usize,
    end: usize,
}

impl View for Span {
    type V = Part;

    closed spec fn view(&self) -> Part {
        Part { comp: self.comp@, start: self.start as int, end: self.end as int }
    }
}

spec fn span_parts(v: Seq<Span>) -> Seq<Part> {
    Seq::new(v.len(), |i: int| v[i]@)
}

spec fn spans_ordered(v: Seq<Span>, n: int) -> bool {
    &&& forall|i: int| #![trigger v[i]] 0 <= i < v.len() ==> v[i].start <= v[i].end <= n
    &&& forall|i: int, j: int|
        #![trigger v[i], v[j]]
        0 <= i < j < v.len() ==> v[i].end <= v[j].start
}

fn segment_component(seg: &[char], keep_dot: bool) -> (r: Option<PathComponent>)
    ensures
        match r {
            Some(c) => segment_comp(seg@, keep_dot) == Some(c@),
            None => segment_comp(seg@, keep_dot) is None,
        },
{
    let n = seg.len();
    if n == 0 {
        return None;
    }
    if n == 1 && seg[0] == '.' {
        assert(seg@ =~= seq!['.']);
        if keep_dot {
            return Some(PathComponent::CurDir);
        }
        return None;
    }
    if n == 2 && seg[0] == '.' && seg[1] == '.' {
        assert(seg@ =~= seq!['.', '.']);
        return Some(PathComponent::ParentDir);
    }
    Some(PathComponent::Normal(text::string_of(seg)))
}

fn head_spans(cs: &[char], platform: Platform) -> (r: Vec<Span>)
    ensures
        span_parts(r@) == head_parts(cs@, platform),
        spans_ordered(r@, body_start(cs@, platform)),
{
    let l = layout_of(cs, platform);
    let mut out: Vec<Span> = Vec::new();
    if l.has_prefix {
        let raw = text::string_of(vstd::slice::slice_subrange(cs, 0, l.prefix_end));
        out.push(Span { comp: PathComponent::Prefix(raw), start: 0, end: l.prefix_end });
    }
    if l.written_root {
        out.push(Span { comp: PathComponent::RootDir, start: l.prefix_end, end: l.body_start });
    } else if l.has_prefix && !l.is_disk && !l.is_verbatim {
        out.push(Span { comp: PathComponent::RootDir, start: l.prefix_end, end: l.prefix_end });
    }
    out
}

fn spans_of(cs: &[char], platform: Platform) -> (r: Vec<Span>)
    ensures
        span_parts(r@) == parts(cs@, platform),
        spans_ordered(r@, cs@.len() as int),
{
    let n = cs.len();
    let l = layout_of(cs, platform);
    let seps = if l.is_verbatim {
        Separators::Backslash
    } else {
        native_separators(platform)
    };
    let mut out: Vec<Span> = head_spans(cs, platform);
    let mut at: usize = l.body_start;
    let mut first = !l.has_prefix && !l.written_root;
    let is_backslash = match seps {
        Separators::Backslash => true,
        _ => false,
    };
    while at < n
        invariant
            at <= n,
            n == cs@.len(),
            spans_ordered(out@, at as int),
            is_backslash == seps is Backslash,
            span_parts(out@) + body_parts(cs@, at as int, seps, first) == parts(cs@, platform),
        decreases n - at,
    {
        let end = find_segment_end(cs, at, seps);
        if let Some(comp) = segment_component(
            vstd::slice::slice_subrange(cs, at, end),
            first || is_backslash,
        ) {
            out.push(Span { comp, start: at, end });
        }
        first = false;
        if end < n {
            at = end + 1;
        } else {
            at = n;
        }
    }
    out
}

/// Splits a path into its components.
pub fn components_of(path: &str, platform: Platform) -> (r: Vec<PathComponent>)
    ensures
        comps(r@) == components(path@, platform),
{
    let cs = text::chars_of(path);
    let spans = spans_of(cs.as_slice(), platform);
    let mut out: Vec<PathComponent> = Vec::new();
    let mut i: usize = 0;
    while i < spans.len()
        invariant
            i <= spans.len(),
            span_parts(spans@) == parts(path@, platform),
            out@.len() == i,
            forall|j: int|
                0 <= j < i ==> (#[trigger] out@[j])@ == parts(path@, platform)[j].comp,
        decreases spans.len() - i,
    {
        let c = copy_component(&spans[i].comp);
        out.push(c);
        i = i + 1;
    }
    out
}

fn copy_component(c: &PathComponent) -> (r: PathComponent)
    ensures
        r@ == c@,
{
    match c {
        PathComponent::Prefix(s) => PathComponent::Prefix(s.clone()),
        PathComponent::RootDir => PathComponent::RootDir,
        PathComponent::CurDir => PathComponent::CurDir,
        PathComponent::ParentDir => PathComponent::ParentDir,
        PathComponent::Normal(s) => PathComponent::Normal(s.clone()),
    }
}

fn same_prefix(a: &str, b: &str) -> (r: bool)
    ensures
        r == (windows_prefix(a@) == windows_prefix(b@)),
{
    let x = text::chars_of(a);
    let y = text::chars_of(b);
    match (windows_prefix_of(x.as_slice()), windows_prefix_of(y.as_slice())) {
        (Some(p), Some(q)) => p.kind == q.kind && text::same_chars(
            p.first.as_slice(),
            q.first.as_slice(),
        ) && text::same_chars(p.second.as_slice(), q.second.as_slice()) && p.end == q.end,
        (None, None) => true,
        _ => false,
    }
}

fn same_component(a: &PathComponent, b: &PathComponent) -> (r: bool)
    ensures
        r == same_comp(a@, b@),
{
    match (a, b) {
        (PathComponent::Prefix(x), PathComponent::Prefix(y)) => same_prefix(
            x.as_str(),
            y.as_str(),
        ),
        (PathComponent::RootDir, PathComponent::RootDir) => true,
        (PathComponent::CurDir, PathComponent::CurDir) => true,
        (PathComponent::ParentDir, PathComponent::ParentDir) => true,
        (PathComponent::Normal(x), PathComponent::Normal(y)) => text::same_str(
            x.as_str(),
            y.as_str(),
        ),
        _ => false,
    }
}

/// Whether two paths have the same components.
pub fn paths_equal(a: &str, b: &str, platform: Platform) -> (r: bool)
    ensures
        r == same_path(a@, b@, platform),
{
    let x = components_of(a, platform);
    let y = components_of(b, platform);
    x.len() == y.len() && begins_with(&x, &y)
}

fn begins_with(a: &Vec<PathComponent>, b: &Vec<PathComponent>) -> (r: bool)
    ensures
        r == is_under(comps(a@), comps(b@)),
{
    if b.len() > a.len() {
        return false;
    }
    let ghost x = comps(a@);
    let ghost y = comps(b@);
    let mut i: usize = 0;
    while i < b.len()
        invariant
            i <= b.len() <= a.len(),
            x == comps(a@),
            y == comps(b@),
            forall|j: int| 0 <= j < i ==> same_comp(#[trigger] x[j], y[j]),
        decreases b.len() - i,
    {
        if !same_component(&a[i], &b[i]) {
            assert(!same_comp(x[i as int], y[i as int]));
            return false;
        }
        i = i + 1;
    }
    true
}

// ---------------------------------------------------------------------------
// Names
// ---------------------------------------------------------------------------

/// The last component of a path, if it is a name.
pub open spec fn file_name(s: Seq<char>, platform: Platform) -> Option<Seq<char>> {
    let cs = components(s, platform);
    if cs.len() > 0 {
        match cs.last() {
            Comp::Normal(name) => Some(name),
            _ => None,
        }
    } else {
        None
    }
}

/// The position of the last dot of a name, or -1 where there is none.
pub open spec fn last_dot(name: Seq<char>) -> int
    decreases name.len(),
{
    if name.len() == 0 {
        -1
    } else if name.last() == '.' {
        name.len() - 1
    } else {
        last_dot(name.drop_last())
    }
}

/// What follows the last dot of the file name, unless that dot is its first character.
pub open spec fn extension(s: Seq<char>, platform: Platform) -> Option<Seq<char>> {
    match file_name(s, platform) {
        Some(name) => if last_dot(name) > 0 {
            Some(name.skip(last_dot(name) + 1))
        } else {
            None
        },
        None => None,
    }
}

/// What precedes the extension of the file name, or the whole name where it has none.
pub open spec fn file_stem(s: Seq<char>, platform: Platform) -> Option<Seq<char>> {
    match file_name(s, platform) {
        Some(name) => if last_dot(name) > 0 {
            Some(name.take(last_dot(name)))
        } else {
            Some(name)
        },
        None => None,
    }
}

/// The last component of a path, where it is a name.
pub fn name_of(path: &str, platform: Platform) -> (r: Option<Vec<char>>)
    ensures
        match r {
            Some(name) => file_name(path@, platform) == Some(name@),
            None => file_name(path@, platform) is None,
        },
{
    let cs = components_of(path, platform);
    let n = cs.len();
    if n == 0 {
        return None;
    }
    match &cs[n - 1] {
        PathComponent::Normal(name) => Some(text::chars_of(name.as_str())),
        _ => None,
    }
}

/// The number of characters up to and including the last dot of a name.
fn through_last_dot(name: &Vec<char>) -> (r: usize)
    ensures
        r == last_dot(name@) + 1,
        r <= name@.len(),
{
    let mut i: usize = name.len();
    assert(name@.take(i as int) =~= name@);
    while i > 0
        invariant
            i <= name.len(),
            last_dot(name@) == last_dot(name@.take(i as int)),
        decreases i,
    {
        if name[i - 1] == '.' {
            return i;
        }
        assert(name@.take(i as int).drop_last() =~= name@.take(i - 1));
        i = i - 1;
    }
    0
}

/// The extension of a path: what follows the last dot of its file name, unless that dot is the
/// first character of the name.
pub fn extension_of(path: &str, platform: Platform) -> (r: Option<String>)
    ensures
        text::opt_text(r) == extension(path@, platform),
{
    match name_of(path, platform) {
        Some(name) => {
            let k = through_last_dot(&name);
            if k > 1 {
                let n = name.len();
                Some(text::string_of(vstd::slice::slice_subrange(name.as_slice(), k, n)))
            } else {
                None
            }
        },
        None => None,
    }
}

/// The file name of a path without its extension.
pub fn file_stem_of(path: &str, platform: Platform) -> (r: Option<String>)
    ensures
        text::opt_text(r) == file_stem(path@, platform),
{
    match name_of(path, platform) {
        Some(name) => {
            let k = through_last_dot(&name);
            if k > 1 {
                Some(text::string_of(vstd::slice::slice_subrange(name.as_slice(), 0, k - 1)))
            } else {
                Some(text::string_of(name.as_slice()))
            }
        },
        None => None,
    }
}

// ---------------------------------------------------------------------------
// Parents and bases
// ---------------------------------------------------------------------------

/// The larger of two numbers.
pub open spec fn larger(a: int, b: int) -> int {
    if a < b {
        b
    } else {
        a
    }
}

/// The path without its last component, if that is neither the root nor a prefix.
pub open spec fn parent(s: Seq<char>, platform: Platform) -> Option<Seq<char>> {
    let p = parts(s, platform);
    let n = p.len() as int;
    if n == 0 || p[n - 1].comp is RootDir || p[n - 1].comp is Prefix {
        None
    } else if n == 1 {
        Some(seq![])
    } else {
        Some(s.take(larger(p[n - 2].end, lead_end(s, platform))))
    }
}

/// The parent of a path, the parent of that, and so on.
pub open spec fn ancestors(s: Seq<char>, platform: Platform) -> Seq<Seq<char>>
    decreases s.len(),
{
    match parent(s, platform) {
        Some(q) => if q.len() < s.len() {
            seq![q] + ancestors(q, platform)
        } else {
            seq![q]
        },
        None => seq![],
    }
}

/// What remains of a path when the components of `base` are taken from its front.
pub open spec fn strip_prefix(s: Seq<char>, base: Seq<char>, platform: Platform) -> Option<
    Seq<char>,
> {
    let p = parts(s, platform);
    let k = components(base, platform).len() as int;
    if !is_under(components(s, platform), components(base, platform)) {
        None
    } else if k == 1 && p[0].comp is Prefix {
        Some(s.subrange(p[0].end, larger(p.last().end, lead_end(s, platform))))
    } else if k == p.len() {
        Some(seq![])
    } else if k == 0 {
        Some(s.take(larger(p.last().end, lead_end(s, platform))))
    } else {
        Some(s.subrange(p[k].start, p.last().end))
    }
}

/// The path without its last component.
pub fn parent_of(path: &str, platform: Platform) -> (r: Option<String>)
    ensures
        text::opt_text(r) == parent(path@, platform),
{
    let cs = text::chars_of(path);
    let spans = spans_of(cs.as_slice(), platform);
    let n = spans.len();
    if n == 0 {
        return None;
    }
    match &spans[n - 1].comp {
        PathComponent::RootDir => None,
        PathComponent::Prefix(_) => None,
        _ => {
            if n == 1 {
                Some(String::new())
            } else {
                let end = larger_of(spans[n - 2].end, lead_end_of(cs.as_slice(), platform));
                let shorter = vstd::slice::slice_subrange(cs.as_slice(), 0, end);
                Some(text::string_of(shorter))
            }
        },
    }
}

fn larger_of(a: usize, b: usize) -> (r: usize)
    ensures
        r == larger(a as int, b as int),
{
    if a < b {
        b
    } else {
        a
    }
}

/// The parent of a path, the parent of that, and so on.
pub fn ancestors_of(path: &str, platform: Platform) -> (r: Vec<String>)
    ensures
        text::texts(r@) == ancestors(path@, platform),
    decreases path@.len(),
{
    match parent_of(path, platform) {
        Some(q) => {
            let shorter = text::chars_of(q.as_str()).len() < text::chars_of(path).len();
            let mut rest = if shorter {
                ancestors_of(q.as_str(), platform)
            } else {
                let none: Vec<String> = Vec::new();
                none
            };
            rest.insert(0, q);
            rest
        },
        None => {
            let none: Vec<String> = Vec::new();
            none
        },
    }
}

/// What remains of a path when the components of `base` are taken from its front.
pub fn relative_to(path: &str, base: &str, platform: Platform) -> (r: Option<String>)
    ensures
        text::opt_text(r) == strip_prefix(path@, base@, platform),
{
    let whole = components_of(path, platform);
    let front = components_of(base, platform);
    assert(comps(whole@).len() == whole@.len());
    if !begins_with(&whole, &front) {
        return None;
    }
    let k = front.len();
    let cs = text::chars_of(path);
    let spans = spans_of(cs.as_slice(), platform);
    let n = spans.len();
    if n == 0 {
        return Some(String::new());
    }
    let lead = lead_end_of(cs.as_slice(), platform);
    let last = spans[n - 1].end;
    let only_prefix = match &spans[0].comp {
        PathComponent::Prefix(_) => k == 1,
        _ => false,
    };
    if only_prefix {
        let start = spans[0].end;
        let end = larger_of(last, lead);
        return Some(text::string_of(vstd::slice::slice_subrange(cs.as_slice(), start, end)));
    }
    if k == n {
        return Some(String::new());
    }
    if k == 0 {
        let end = larger_of(last, lead);
        let kept = vstd::slice::slice_subrange(cs.as_slice(), 0, end);
        return Some(text::string_of(kept));
    }
    let start = spans[k].start;
    Some(text::string_of(vstd::slice::slice_subrange(cs.as_slice(), start, last)))
}

/// Whether a path is absolute.
pub fn is_absolute(path: &str, platform: Platform) -> (r: bool)
    ensures
        r == absolute(path@, platform),
{
    let cs = text::chars_of(path);
    let l = layout_of(cs.as_slice(), platform);
    match platform {
        Platform::Unix => l.written_root,
        Platform::Windows => l.has_prefix && (l.written_root || !l.is_disk),
    }
}

// ---------------------------------------------------------------------------
// Joining
// ---------------------------------------------------------------------------

/// How one more component changes the components of a verbatim path, in which neither `.` nor
/// `..` may stand.
pub open spec fn pushed(buf: Seq<Comp>, c: Comp) -> Seq<Comp> {
    match c {
        Comp::RootDir => if buf.len() > 1 {
            buf.take(1).push(c)
        } else {
            buf.push(c)
        },
        Comp::CurDir => buf,
        Comp::ParentDir => if buf.len() > 0 && buf.last() is Normal {
            buf.drop_last()
        } else {
            buf
        },
        _ => buf.push(c),
    }
}

/// How more components change the components of a verbatim path.
pub open spec fn pushed_all(buf: Seq<Comp>, cs: Seq<Comp>) -> Seq<Comp>
    decreases cs.len(),
{
    if cs.len() == 0 {
        buf
    } else {
        pushed(pushed_all(buf, cs.drop_last()), cs.last())
    }
}

/// A component as it is written.
pub open spec fn comp_text(c: Comp, platform: Platform) -> Seq<char> {
    match c {
        Comp::Prefix(raw) => raw,
        Comp::RootDir => seq![main_separator(platform)],
        Comp::CurDir => seq!['.'],
        Comp::ParentDir => seq!['.', '.'],
        Comp::Normal(name) => name,
    }
}

/// A component as it is written.
pub fn component_text(c: &PathComponent, platform: Platform) -> (r: String)
    ensures
        r@ == comp_text(c@, platform),
{
    let mut out = String::new();
    match c {
        PathComponent::Prefix(raw) => out.append(raw.as_str()),
        PathComponent::RootDir => {
            out.push(
                match platform {
                    Platform::Unix => '/',
                    Platform::Windows => '\\',
                },
            );
        },
        PathComponent::CurDir => out.push('.'),
        PathComponent::ParentDir => {
            out.push('.');
            out.push('.');
        },
        PathComponent::Normal(name) => out.append(name.as_str()),
    }
    out
}

/// The components of a verbatim path as they are written, with a separator between any two of
/// which neither is the root.
pub open spec fn written(cs: Seq<Comp>) -> Seq<char>
    decreases cs.len(),
{
    if cs.len() == 0 {
        seq![]
    } else {
        let front = written(cs.drop_last());
        let gap = cs.len() > 1 && !(cs[cs.len() - 2] is RootDir) && !(cs.last() is RootDir);
        let text = comp_text(cs.last(), Platform::Windows);
        if gap {
            front.push('\\') + text
        } else {
            front + text
        }
    }
}

/// Whether a path is a drive and nothing else.
pub open spec fn only_drive(s: Seq<char>) -> bool {
    match windows_prefix(s) {
        Some(q) => q.kind is Disk && s.len() == q.end,
        None => false,
    }
}

/// The path `rel` seen from `base`.
///
/// On Windows, a path with a prefix replaces `base`, and one with a root replaces all of it but
/// the prefix. A verbatim `base` is taken apart and put together again, because it may hold
/// neither `.` nor `..`. No separator is put behind a mere drive.
pub open spec fn join(base: Seq<char>, rel: Seq<char>, platform: Platform) -> Seq<char> {
    if absolute(rel, platform) || prefix(rel, platform) is Some {
        rel
    } else if verbatim(base, platform) && rel.len() > 0 {
        written(pushed_all(components(base, platform), components(rel, platform)))
    } else if has_root(rel, platform) {
        base.take(prefix_end(base, platform)) + rel
    } else if base.len() == 0 || separates(base.last(), native(platform)) || (
    platform is Windows && only_drive(base)) {
        base + rel
    } else {
        base.push(main_separator(platform)) + rel
    }
}

fn push_component(buf: &mut Vec<PathComponent>, c: PathComponent)
    ensures
        comps(final(buf)@) == pushed(comps(old(buf)@), c@),
{
    match c {
        PathComponent::RootDir => {
            if buf.len() > 1 {
                buf.truncate(1);
            }
            buf.push(PathComponent::RootDir);
        },
        PathComponent::CurDir => {},
        PathComponent::ParentDir => {
            let n = buf.len();
            let mut up = false;
            if n > 0 {
                up = match &buf[n - 1] {
                    PathComponent::Normal(_) => true,
                    _ => false,
                };
            }
            if up {
                let last = buf.pop();
            }
        },
        other => {
            buf.push(other);
        },
    }
}

fn write_components(cs: &Vec<PathComponent>) -> (r: String)
    ensures
        r@ == written(comps(cs@)),
{
    let ghost all = comps(cs@);
    let mut out = String::new();
    let mut i: usize = 0;
    while i < cs.len()
        invariant
            i <= cs.len(),
            all == comps(cs@),
            out@ == written(all.take(i as int)),
        decreases cs.len() - i,
    {
        assert(all.take(i + 1).drop_last() =~= all.take(i as int));
        let after_root = if i > 0 {
            match &cs[i - 1] {
                PathComponent::RootDir => true,
                _ => false,
            }
        } else {
            true
        };
        let is_root = match &cs[i] {
            PathComponent::RootDir => true,
            _ => false,
        };
        if !after_root && !is_root {
            out.push('\\');
        }
        out.append(component_text(&cs[i], Platform::Windows).as_str());
        i = i + 1;
    }
    assert(all.take(all.len() as int) =~= all);
    out
}

fn join_verbatim(base: &str, rel: &str) -> (r: String)
    ensures
        r@ == written(
            pushed_all(
                components(base@, Platform::Windows),
                components(rel@, Platform::Windows),
            ),
        ),
{
    let mut buf = components_of(base, Platform::Windows);
    let more = components_of(rel, Platform::Windows);
    let ghost start = comps(buf@);
    let ghost all = comps(more@);
    let mut i: usize = 0;
    assert(all.take(0) =~= seq![]);
    while i < more.len()
        invariant
            i <= more.len(),
            all == comps(more@),
            comps(buf@) == pushed_all(start, all.take(i as int)),
        decreases more.len() - i,
    {
        assert(all.take(i + 1).drop_last() =~= all.take(i as int));
        let c = copy_component(&more[i]);
        push_component(&mut buf, c);
        i = i + 1;
    }
    assert(all.take(all.len() as int) =~= all);
    write_components(&buf)
}

/// The path `rel` seen from `base`.
pub fn join_paths(base: &str, rel: &str, platform: Platform) -> (r: String)
    ensures
        r@ == join(base@, rel@, platform),
{
    let cs = text::chars_of(base);
    let n = cs.len();
    let rs = text::chars_of(rel);
    let of_base = layout_of(cs.as_slice(), platform);
    let of_rel = layout_of(rs.as_slice(), platform);
    if of_rel.has_prefix {
        return rel.to_owned();
    }
    if of_base.is_verbatim && rs.len() > 0 {
        return join_verbatim(base, rel);
    }
    if of_rel.written_root {
        let kept = vstd::slice::slice_subrange(cs.as_slice(), 0, of_base.prefix_end);
        let mut out = text::string_of(kept);
        out.append(rel);
        return out;
    }
    let mut out = base.to_owned();
    if n > 0 && !is_separator(cs[n - 1], native_separators(platform)) && !(of_base.is_disk
        && of_base.prefix_end == n) {
        out.push(
            match platform {
                Platform::Unix => '/',
                Platform::Windows => '\\',
            },
        );
    }
    out.append(rel);
    out
}

// ---------------------------------------------------------------------------
// Laws
// ---------------------------------------------------------------------------

/// On Unix the slash separates names, and on Windows the backslash does too. Between two names the
/// platform's own separator is put.
pub proof fn law_separators_of_the_platforms(c: char)
    ensures
        separates(c, native(Platform::Unix)) <==> c == '/',
        separates(c, native(Platform::Windows)) <==> c == '/' || c == '\\',
        main_separator(Platform::Unix) == '/',
        main_separator(Platform::Windows) == '\\',
{
}

/// The component that one more name adds to a path on Unix: `..` leads to the parent, and an empty
/// name or a `.` adds nothing.
pub open spec fn added_name(name: Seq<char>) -> Seq<Comp> {
    if name.len() == 0 || name == seq!['.'] {
        Seq::empty()
    } else if name == seq!['.', '.'] {
        seq![Comp::ParentDir]
    } else {
        seq![Comp::Normal(name)]
    }
}

spec fn part_comps(ps: Seq<Part>) -> Seq<Comp> {
    Seq::new(ps.len(), |i: int| ps[i].comp)
}

proof fn lemma_last_segment(
    s: Seq<char>,
    from: int,
    name: Seq<char>,
    seps: Separators,
    first: bool,
)
    requires
        0 <= from <= s.len(),
        s.subrange(from, s.len() as int) == name,
        !(seps is Backslash),
        forall|i: int| 0 <= i < name.len() ==> !separates(#[trigger] name[i], seps),
    ensures
        first && name == seq!['.'] ==> part_comps(body_parts(s, from, seps, first))
            == seq![Comp::CurDir],
        !(first && name == seq!['.']) ==> part_comps(body_parts(s, from, seps, first))
            == added_name(name),
{
    lemma_segment_end(s, from, seps);
    let end = segment_end(s, from, seps);
    if end < s.len() {
        assert(separates(name[end - from], seps));
    }
    assert(s.subrange(from, end) =~= name);
    let ps = body_parts(s, from, seps, first);
    if first && name == seq!['.'] {
        assert(part_comps(ps) =~= seq![Comp::CurDir]);
    } else {
        assert(part_comps(ps) =~= added_name(name));
    }
}

proof fn lemma_segment_end_is(s: Seq<char>, from: int, seps: Separators, k: int)
    requires
        0 <= from <= k <= s.len(),
        forall|j: int| from <= j < k ==> !separates(#[trigger] s[j], seps),
        k < s.len() ==> separates(s[k], seps),
    ensures
        segment_end(s, from, seps) == k,
{
    lemma_segment_end(s, from, seps);
}

proof fn lemma_one_more_segment(
    a: Seq<char>,
    separator: char,
    name: Seq<char>,
    seps: Separators,
    from: int,
    first: bool,
)
    requires
        0 <= from <= a.len(),
        from == a.len() ==> !first,
        separates(separator, seps),
        !(seps is Backslash),
        forall|i: int| 0 <= i < name.len() ==> !separates(#[trigger] name[i], seps),
    ensures
        part_comps(body_parts(a + seq![separator] + name, from, seps, first)) == part_comps(
            body_parts(a, from, seps, first),
        ) + added_name(name),
    decreases a.len() - from,
{
    let s = a + seq![separator] + name;
    lemma_segment_end(a, from, seps);
    let end = segment_end(a, from, seps);
    assert forall|j: int| from <= j < end implies !separates(#[trigger] s[j], seps) by {
        assert(s[j] == a[j]);
    }
    if end < a.len() {
        assert(s[end] == a[end]);
    } else {
        assert(s[end] == separator);
    }
    lemma_segment_end_is(s, from, seps, end);
    assert(s.subrange(from, end) =~= a.subrange(from, end));
    let whole = body_parts(s, from, seps, first);
    let part = body_parts(a, from, seps, first);
    let rest = body_parts(s, end + 1, seps, false);
    if end < a.len() {
        lemma_one_more_segment(a, separator, name, seps, end + 1, false);
    } else {
        assert(s.subrange(end + 1, s.len() as int) =~= name);
        lemma_last_segment(s, end + 1, name, seps, false);
    }
    let rest_of_a = if end < a.len() {
        body_parts(a, end + 1, seps, false)
    } else {
        seq![]
    };
    assert(part_comps(rest) =~= part_comps(rest_of_a) + added_name(name));
    if from == a.len() {
        assert(s.subrange(from, end).len() == 0);
        assert(whole == rest);
        assert(part_comps(part) + added_name(name) =~= added_name(name));
    } else {
        match segment_comp(a.subrange(from, end), first) {
            Some(comp) => {
                let one = Part { comp, start: from, end };
                assert(whole == seq![one] + rest);
                assert(part == seq![one] + rest_of_a);
                assert(part_comps(whole) =~= seq![comp] + part_comps(rest));
                assert(part_comps(part) =~= seq![comp] + part_comps(rest_of_a));
            },
            None => {
                assert(whole == rest);
                assert(part == rest_of_a);
            },
        }
    }
    assert(part_comps(whole) =~= part_comps(part) + added_name(name));
}

/// The components of a path on Unix, name by name: a name behind a slash adds its component to those
/// before it. A slash at the front is the root.
pub proof fn law_unix_components_in_turn(a: Seq<char>, name: Seq<char>)
    requires
        !name.contains('/'),
    ensures
        a.len() > 0 ==> components(a + seq!['/'] + name, Platform::Unix) == components(
            a,
            Platform::Unix,
        ) + added_name(name),
        components(seq!['/'] + name, Platform::Unix) == seq![Comp::RootDir] + added_name(name),
        name == seq!['.'] ==> components(name, Platform::Unix) == seq![Comp::CurDir],
        name != seq!['.'] ==> components(name, Platform::Unix) == added_name(name),
{
    let seps = Separators::Slash;
    assert forall|i: int| 0 <= i < name.len() implies !separates(#[trigger] name[i], seps) by {
        assert(name.contains(name[i]));
    }
    if a.len() > 0 {
        let s = a + seq!['/'] + name;
        assert(s[0] == a[0]);
        let at = body_start(a, Platform::Unix);
        assert(body_start(s, Platform::Unix) == at);
        lemma_one_more_segment(a, '/', name, seps, at, bare(a, Platform::Unix));
        assert(head_parts(s, Platform::Unix) =~= head_parts(a, Platform::Unix));
        assert(components(s, Platform::Unix) =~= part_comps(head_parts(a, Platform::Unix))
            + part_comps(body_parts(s, at, seps, bare(a, Platform::Unix))));
        assert(components(a, Platform::Unix) =~= part_comps(head_parts(a, Platform::Unix))
            + part_comps(body_parts(a, at, seps, bare(a, Platform::Unix))));
        assert(components(s, Platform::Unix) =~= components(a, Platform::Unix) + added_name(name));
    }
    let r = seq!['/'] + name;
    assert(r[0] == '/');
    assert(r.subrange(1, r.len() as int) =~= name);
    lemma_last_segment(r, 1, name, seps, false);
    assert(components(r, Platform::Unix) =~= seq![Comp::RootDir] + part_comps(
        body_parts(r, 1, seps, false),
    ));
    if name.len() > 0 {
        assert(name[0] != '/') by {
            assert(name.contains(name[0]));
        }
    }
    assert(name.subrange(0, name.len() as int) =~= name);
    lemma_last_segment(name, 0, name, seps, true);
    assert(components(name, Platform::Unix) =~= part_comps(body_parts(name, 0, seps, true)));
}

/// Two paths on Unix are the same exactly where their components are. One lies under the other
/// exactly where its components begin with those of the other.
pub proof fn law_unix_paths_are_their_components(a: Seq<char>, b: Seq<char>)
    ensures
        same_path(a, b, Platform::Unix) <==> components(a, Platform::Unix) == components(
            b,
            Platform::Unix,
        ),
        strip_prefix(a, b, Platform::Unix) is Some <==> components(b, Platform::Unix).is_prefix_of(
            components(a, Platform::Unix),
        ),
{
    let x = components(a, Platform::Unix);
    let y = components(b, Platform::Unix);
    lemma_unix_has_no_prefix(a);
    lemma_unix_has_no_prefix(b);
    if is_under(x, y) {
        assert forall|i: int| 0 <= i < y.len() implies #[trigger] y[i] == x.take(
            y.len() as int,
        )[i] by {
            assert(same_comp(x[i], y[i]));
        }
        assert(y =~= x.take(y.len() as int));
        if x.len() == y.len() {
            assert(x =~= y);
        }
    }
    if y.is_prefix_of(x) {
        assert forall|i: int| 0 <= i < y.len() implies same_comp(#[trigger] x[i], y[i]) by {
            assert(x[i] == x.subrange(0, y.len() as int)[i]);
        }
    }
    if x == y {
        assert(is_under(x, y));
    }
}

proof fn lemma_unix_has_no_prefix(s: Seq<char>)
    ensures
        forall|i: int|
            0 <= i < components(s, Platform::Unix).len() ==> !((#[trigger] components(
                s,
                Platform::Unix,
            )[i]) is Prefix),
{
    lemma_body_has_no_prefix(s, body_start(s, Platform::Unix), Separators::Slash, bare(
        s,
        Platform::Unix,
    ));
}

proof fn lemma_body_has_no_prefix(s: Seq<char>, from: int, seps: Separators, first: bool)
    requires
        0 <= from,
    ensures
        forall|i: int|
            #![trigger body_parts(s, from, seps, first)[i]]
            0 <= i < body_parts(s, from, seps, first).len() ==> !(body_parts(
                s,
                from,
                seps,
                first,
            )[i].comp is Prefix),
    decreases s.len() - from,
{
    if from < s.len() {
        lemma_segment_end(s, from, seps);
        let end = segment_end(s, from, seps);
        if end < s.len() {
            lemma_body_has_no_prefix(s, end + 1, seps, false);
        }
    }
}

/// On Unix a path is absolute exactly where it begins with a slash.
pub proof fn law_unix_absolute_paths_begin_with_a_slash(s: Seq<char>)
    ensures
        absolute(s, Platform::Unix) <==> s.len() > 0 && s[0] == '/',
{
}

/// On Unix an absolute path stands for itself, and any other is written behind its base, with a
/// slash between them where the base does not end in one.
pub proof fn law_unix_join(base: Seq<char>, rel: Seq<char>)
    ensures
        rel.len() > 0 && rel[0] == '/' ==> join(base, rel, Platform::Unix) == rel,
        !(rel.len() > 0 && rel[0] == '/') && base.len() > 0 && base.last() != '/' ==> join(
            base,
            rel,
            Platform::Unix,
        ) == base + seq!['/'] + rel,
        !(rel.len() > 0 && rel[0] == '/') && !(base.len() > 0 && base.last() != '/') ==> join(
            base,
            rel,
            Platform::Unix,
        ) == base + rel,
{
    assert(base.push('/') =~= base + seq!['/']);
}

/// The last dot of a file name stands before its extension, unless it is the first character.
pub proof fn law_extension_follows_the_last_dot(
    path: Seq<char>,
    stem: Seq<char>,
    ext: Seq<char>,
    platform: Platform,
)
    requires
        !ext.contains('.'),
    ensures
        stem.len() > 0 && file_name(path, platform) == Some(stem + seq!['.'] + ext) ==> extension(
            path,
            platform,
        ) == Some(ext) && file_stem(path, platform) == Some(stem),
        file_name(path, platform) == Some(seq!['.'] + ext) ==> extension(path, platform) is None
            && file_stem(path, platform) == Some(seq!['.'] + ext),
        file_name(path, platform) == Some(ext) ==> extension(path, platform) is None && file_stem(
            path,
            platform,
        ) == Some(ext),
        file_name(path, platform) is None ==> extension(path, platform) is None && file_stem(
            path,
            platform,
        ) is None,
{
    let name = stem + seq!['.'] + ext;
    lemma_last_dot(stem, ext);
    assert(name.skip(stem.len() as int + 1) =~= ext);
    assert(name.take(stem.len() as int) =~= stem);
    let none = Seq::<char>::empty();
    lemma_last_dot(none, ext);
    assert(none + seq!['.'] + ext =~= seq!['.'] + ext);
    lemma_no_dot(ext);
}

proof fn lemma_last_dot(stem: Seq<char>, ext: Seq<char>)
    requires
        !ext.contains('.'),
    ensures
        last_dot(stem + seq!['.'] + ext) == stem.len(),
    decreases ext.len(),
{
    let name = stem + seq!['.'] + ext;
    if ext.len() > 0 {
        assert(ext.contains(ext.last()));
        assert(name.last() == ext.last());
        assert(name.drop_last() =~= stem + seq!['.'] + ext.drop_last());
        assert(!ext.drop_last().contains('.')) by {
            if ext.drop_last().contains('.') {
                let i = choose|i: int| 0 <= i < ext.drop_last().len() && ext.drop_last()[i] == '.';
                assert(ext[i] == '.');
            }
        }
        lemma_last_dot(stem, ext.drop_last());
    } else {
        assert(name.last() == '.');
    }
}

proof fn lemma_no_dot(name: Seq<char>)
    requires
        !name.contains('.'),
    ensures
        last_dot(name) == -1,
    decreases name.len(),
{
    if name.len() > 0 {
        assert(name.contains(name.last()));
        assert(!name.drop_last().contains('.')) by {
            if name.drop_last().contains('.') {
                let i = choose|i: int| 0 <= i < name.drop_last().len() && name.drop_last()[i] == '.';
                assert(name[i] == '.');
            }
        }
        lemma_no_dot(name.drop_last());
    }
}

/// On Windows a letter and a colon at the front of a path are a drive, in either case of the
/// letter. The path is absolute only where a separator follows.
pub proof fn law_windows_drives(letter: char, rest: Seq<char>)
    requires
        'a' <= letter <= 'z' || 'A' <= letter <= 'Z',
    ensures
        windows_prefix(seq![letter, ':'] + rest) == Some(
            Prefix {
                kind: PrefixKind::Disk,
                first: seq![text::lower_char(letter)],
                second: seq![],
                end: 2,
            },
        ),
        absolute(seq![letter, ':'] + rest, Platform::Windows) <==> rest.len() > 0 && (rest[0] == '/'
            || rest[0] == '\\'),
{
    let s = seq![letter, ':'] + rest;
    assert(s[0] == letter && s[1] == ':');
    if rest.len() > 0 {
        assert(s[2] == rest[0]);
    }
}

/// On Windows a server and a share behind two separators are a prefix, and so is a device behind
/// `\\.\`. Both are absolute.
#[verifier::spinoff_prover]
pub proof fn law_windows_shares(server: Seq<char>, share: Seq<char>, rest: Seq<char>)
    requires
        server.len() > 0,
        share.len() > 0,
        forall|i: int|
            0 <= i < server.len() ==> !separates(#[trigger] server[i], Separators::Both),
        forall|i: int| 0 <= i < share.len() ==> !separates(#[trigger] share[i], Separators::Both),
        rest.len() == 0 || separates(rest[0], Separators::Both),
        server != seq!['?'],
    ensures
        server != seq!['.'] ==> windows_prefix(
            seq!['\\', '\\'] + server + seq!['\\'] + share + rest,
        ) == Some(
            Prefix {
                kind: PrefixKind::Unc,
                first: server,
                second: share,
                end: 3 + server.len() as int + share.len(),
            },
        ),
        server == seq!['.'] ==> windows_prefix(
            seq!['\\', '\\'] + server + seq!['\\'] + share + rest,
        ) == Some(
            Prefix {
                kind: PrefixKind::DeviceNs,
                first: share,
                second: seq![],
                end: 4 + share.len() as int,
            },
        ),
        absolute(seq!['\\', '\\'] + server + seq!['\\'] + share + rest, Platform::Windows),
{
    let s = seq!['\\', '\\'] + server + seq!['\\'] + share + rest;
    let a = 2 + server.len() as int;
    let b = a + 1 + share.len() as int;
    assert forall|j: int| 2 <= j < a implies !separates(#[trigger] s[j], Separators::Both) by {
        assert(s[j] == server[j - 2]);
    }
    assert forall|j: int| a + 1 <= j < b implies !separates(#[trigger] s[j], Separators::Both) by {
        assert(s[j] == share[j - a - 1]);
    }
    assert(s[a] == '\\');
    if rest.len() > 0 {
        assert(s[b] == rest[0]);
    }
    assert(s[2] == server[0]);
    if server.len() > 1 {
        assert(s[3] == server[1]);
        assert(!separates(s[3], Separators::Both));
    } else {
        assert(server =~= seq![server[0]]);
    }
    lemma_segment_end_is(s, 2, Separators::Both, a);
    lemma_segment_end_is(s, a + 1, Separators::Both, b);
    assert(s.subrange(2, a) =~= server);
    assert(s.subrange(a + 1, b) =~= share);
}

/// On Windows a drive behind `\\?\` is a verbatim prefix, where a separator or nothing follows it.
/// Behind it the backslash alone separates names, and the path is absolute.
pub proof fn law_windows_verbatim_drives(letter: char, rest: Seq<char>)
    requires
        'a' <= letter <= 'z' || 'A' <= letter <= 'Z',
        rest.len() == 0 || rest[0] == '\\' || rest[0] == '/',
    ensures
        ({
            let s = seq!['\\', '\\', '?', '\\', letter, ':'] + rest;
            &&& windows_prefix(s) == Some(
                Prefix {
                    kind: PrefixKind::VerbatimDisk,
                    first: seq![text::lower_char(letter)],
                    second: seq![],
                    end: 6,
                },
            )
            &&& verbatim(s, Platform::Windows)
            &&& body_separators(s, Platform::Windows) == Separators::Backslash
            &&& absolute(s, Platform::Windows)
        }),
{
    let s = seq!['\\', '\\', '?', '\\', letter, ':'] + rest;
    assert(s[4] == letter && s[5] == ':');
    if rest.len() > 0 {
        assert(s[6] == rest[0]);
    }
}

/// On Windows a server and a share behind `\\?\UNC\` are a verbatim prefix.
#[verifier::spinoff_prover]
pub proof fn law_windows_verbatim_shares(server: Seq<char>, share: Seq<char>, rest: Seq<char>)
    requires
        share.len() > 0,
        !server.contains('\\'),
        !share.contains('\\'),
        rest.len() == 0 || rest[0] == '\\',
    ensures
        windows_prefix(
            seq!['\\', '\\', '?', '\\', 'U', 'N', 'C', '\\'] + server + seq!['\\'] + share + rest,
        ) == Some(
            Prefix {
                kind: PrefixKind::VerbatimUnc,
                first: server,
                second: share,
                end: 9 + server.len() as int + share.len(),
            },
        ),
{
    let s = seq!['\\', '\\', '?', '\\', 'U', 'N', 'C', '\\'] + server + seq!['\\'] + share + rest;
    let a = 8 + server.len() as int;
    let b = a + 1 + share.len() as int;
    assert forall|j: int| 8 <= j < a implies !separates(#[trigger] s[j], Separators::Backslash) by {
        assert(s[j] == server[j - 8]);
        assert(server.contains(server[j - 8]));
    }
    assert forall|j: int| a + 1 <= j < b implies !separates(
        #[trigger] s[j],
        Separators::Backslash,
    ) by {
        assert(s[j] == share[j - a - 1]);
        assert(share.contains(share[j - a - 1]));
    }
    assert(s[a] == '\\');
    if rest.len() > 0 {
        assert(s[b] == rest[0]);
    }
    lemma_segment_end_is(s, 8, Separators::Backslash, a);
    lemma_segment_end_is(s, a + 1, Separators::Backslash, b);
    assert(s.subrange(8, a) =~= server);
    assert(s.subrange(a + 1, b) =~= share);
}

/// On Windows a path that begins neither with a drive nor with two separators has no prefix, and is
/// not absolute.
pub proof fn law_windows_paths_without_prefix(s: Seq<char>)
    requires
        !(s.len() >= 2 && (s[0] == '/' || s[0] == '\\') && (s[1] == '/' || s[1] == '\\')),
        !(s.len() >= 2 && s[1] == ':' && ('a' <= s[0] <= 'z' || 'A' <= s[0] <= 'Z')),
    ensures
        windows_prefix(s) is None,
        !absolute(s, Platform::Windows),
        has_root(s, Platform::Windows) <==> s.len() > 0 && (s[0] == '/' || s[0] == '\\'),
{
}

/// On Windows a path with a prefix stands for itself, one with a root keeps the prefix of its base,
/// and any other is written behind its base, unless that is verbatim.
pub proof fn law_windows_join(base: Seq<char>, rel: Seq<char>)
    requires
        !verbatim(base, Platform::Windows),
    ensures
        windows_prefix(rel) is Some ==> join(base, rel, Platform::Windows) == rel,
        windows_prefix(rel) is None && rel.len() > 0 && (rel[0] == '/' || rel[0] == '\\') ==> (
        windows_prefix(base) matches Some(q) ==> join(base, rel, Platform::Windows) == base.take(
            q.end,
        ) + rel) && (windows_prefix(base) is None ==> join(base, rel, Platform::Windows) == rel),
        windows_prefix(rel) is None && rel.len() > 0 && rel[0] != '/' && rel[0] != '\\'
            && base.len() > 2 && base.last() != '/' && base.last() != '\\' ==> join(
            base,
            rel,
            Platform::Windows,
        ) == base + seq!['\\'] + rel,
        windows_prefix(rel) is None && rel.len() > 0 && rel[0] != '/' && rel[0] != '\\'
            && base.len() > 0 && (base.last() == '/' || base.last() == '\\') ==> join(
            base,
            rel,
            Platform::Windows,
        ) == base + rel,
{
    assert(base.push('\\') =~= base + seq!['\\']);
    assert(base.take(0) + rel =~= rel);
}

/// What a list of components says is what the components say, one by one.
pub proof fn law_components_say_what_they_hold(v: Seq<PathComponent>, i: int, s: String)
    ensures
        comps(v).len() == v.len(),
        0 <= i < v.len() ==> comps(v)[i] == v[i]@,
        PathComponent::Prefix(s)@ == Comp::Prefix(s@),
        PathComponent::RootDir@ == Comp::RootDir,
        PathComponent::CurDir@ == Comp::CurDir,
        PathComponent::ParentDir@ == Comp::ParentDir,
        PathComponent::Normal(s)@ == Comp::Normal(s@),
{
}

/// Each component is written as its name, a root as the separator, and the dots as dots.
pub proof fn law_components_are_written(name: Seq<char>, platform: Platform)
    ensures
        comp_text(Comp::Normal(name), platform) == name,
        comp_text(Comp::Prefix(name), platform) == name,
        comp_text(Comp::RootDir, Platform::Unix) == seq!['/'],
        comp_text(Comp::RootDir, Platform::Windows) == seq!['\\'],
        comp_text(Comp::CurDir, platform) == seq!['.'],
        comp_text(Comp::ParentDir, platform) == seq!['.', '.'],
{
}

/// A path that is joined to a verbatim one adds its components one after the other. A name is added,
/// a `.` adds nothing, a `..` takes the name before it away where there is one, and a root takes all
/// away but the prefix.
pub proof fn law_verbatim_paths_are_joined_by_component(
    base: Seq<char>,
    rel: Seq<char>,
    buf: Seq<Comp>,
    more: Seq<Comp>,
    name: Seq<char>,
)
    ensures
        verbatim(base, Platform::Windows) && rel.len() > 0 && windows_prefix(rel) is None ==> join(
            base,
            rel,
            Platform::Windows,
        ) == written(
            pushed_all(components(base, Platform::Windows), components(rel, Platform::Windows)),
        ),
        pushed_all(buf, Seq::empty()) == buf,
        pushed_all(buf, more.push(Comp::Normal(name))) == pushed_all(buf, more).push(
            Comp::Normal(name),
        ),
        pushed_all(buf, more.push(Comp::CurDir)) == pushed_all(buf, more),
        pushed_all(buf, more).len() > 0 && pushed_all(buf, more).last() is Normal ==> pushed_all(
            buf,
            more.push(Comp::ParentDir),
        ) == pushed_all(buf, more).drop_last(),
        !(pushed_all(buf, more).len() > 0 && pushed_all(buf, more).last() is Normal) ==> pushed_all(
            buf,
            more.push(Comp::ParentDir),
        ) == pushed_all(buf, more),
        pushed_all(buf, more).len() > 0 ==> pushed_all(buf, more.push(Comp::RootDir)) == seq![
            pushed_all(buf, more)[0],
            Comp::RootDir,
        ],
{
    assert(more.push(Comp::Normal(name)).drop_last() =~= more);
    assert(more.push(Comp::CurDir).drop_last() =~= more);
    assert(more.push(Comp::ParentDir).drop_last() =~= more);
    assert(more.push(Comp::RootDir).drop_last() =~= more);
    let b = pushed_all(buf, more);
    if b.len() > 0 {
        assert(b.take(1).push(Comp::RootDir) =~= seq![b[0], Comp::RootDir]);
        if b.len() == 1 {
            assert(b.push(Comp::RootDir) =~= seq![b[0], Comp::RootDir]);
        }
    }
}

/// The components of a verbatim path are written with a backslash between any two, but for the root,
/// which is one itself.
pub proof fn law_verbatim_paths_are_written(cs: Seq<Comp>, name: Seq<char>)
    ensures
        written(Seq::empty()).len() == 0,
        cs.len() > 0 && !(cs.last() is RootDir) ==> written(cs.push(Comp::Normal(name))) == written(
            cs,
        ) + seq!['\\'] + name,
        cs.len() == 0 || cs.last() is RootDir ==> written(cs.push(Comp::Normal(name))) == written(cs)
            + name,
        written(cs.push(Comp::RootDir)) == written(cs) + seq!['\\'],
        cs.len() == 0 ==> written(cs.push(Comp::Prefix(name))) == name,
{
    assert(cs.push(Comp::Normal(name)).drop_last() =~= cs);
    assert(cs.push(Comp::RootDir).drop_last() =~= cs);
    assert(cs.push(Comp::Prefix(name)).drop_last() =~= cs);
    assert(written(cs).push('\\') =~= written(cs) + seq!['\\']);
    if cs.len() == 0 {
        assert(written(cs) + name =~= name);
    }
}

/// The components of a path on Windows that is not verbatim, name by name: a name behind a separator
/// adds its component to those before it, as long as the prefix stays what it is.
pub proof fn law_windows_components_in_turn(a: Seq<char>, separator: char, name: Seq<char>)
    requires
        separator == '/' || separator == '\\',
        !name.contains('/'),
        !name.contains('\\'),
        windows_prefix(a + seq![separator] + name) == windows_prefix(a),
        !verbatim(a, Platform::Windows),
        prefix_end(a, Platform::Windows) < a.len(),
    ensures
        components(a + seq![separator] + name, Platform::Windows) == components(
            a,
            Platform::Windows,
        ) + added_name(name),
{
    let seps = Separators::Both;
    let s = a + seq![separator] + name;
    assert forall|i: int| 0 <= i < name.len() implies !separates(#[trigger] name[i], seps) by {
        assert(name.contains(name[i]));
    }
    lemma_prefix_end(a);
    let at = prefix_end(a, Platform::Windows);
    assert(s[at] == a[at]);
    let from = body_start(a, Platform::Windows);
    let first = bare(a, Platform::Windows);
    assert(body_start(s, Platform::Windows) == from);
    assert(s.take(at) =~= a.take(at));
    lemma_one_more_segment(a, separator, name, seps, from, first);
    assert(head_parts(s, Platform::Windows) =~= head_parts(a, Platform::Windows));
    assert(components(s, Platform::Windows) =~= part_comps(head_parts(a, Platform::Windows))
        + part_comps(body_parts(s, from, seps, first)));
    assert(components(a, Platform::Windows) =~= part_comps(head_parts(a, Platform::Windows))
        + part_comps(body_parts(a, from, seps, first)));
    assert(components(s, Platform::Windows) =~= components(a, Platform::Windows) + added_name(name));
}

} // verus!
