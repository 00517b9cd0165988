//! Path canonicalization and Windows UNC prefix utilities.
//!
//! The file system is asked elsewhere. What it answered is an argument of the functions here.

use crate::paths;
use crate::paths::{PathComponent, Platform};
use crate::text;
use vstd::prelude::*;

verus! {

broadcast use vstd::string::group_string_axioms;

// ---------------------------------------------------------------------------
// Dot segments
// ---------------------------------------------------------------------------

/// A list of components in which `.` and `..` have been resolved as far as possible.
pub struct Norm {
    /// Whether a root or a prefix has been seen.
    pub anchored: bool,
    /// The prefixes and roots.
    pub heads: Seq<paths::Comp>,
    /// The names that follow, `..` among them.
    pub names: Seq<Seq<char>>,
}

/// The name of the parent directory.
pub open spec fn dot_dot() -> Seq<char> {
    seq!['.', '.']
}

/// How one more component changes a resolved list.
///
/// A `..` removes the name before it. Where there is no such name, it is dropped after a root
/// or a prefix, and kept elsewhere.
pub open spec fn norm_step(n: Norm, c: paths::Comp) -> Norm {
    match c {
        paths::Comp::Prefix(_) => Norm { anchored: true, heads: n.heads.push(c), names: n.names },
        paths::Comp::RootDir => Norm { anchored: true, heads: n.heads.push(c), names: n.names },
        paths::Comp::CurDir => n,
        paths::Comp::ParentDir => if n.names.len() > 0 && n.names.last() != dot_dot() {
            Norm { names: n.names.drop_last(), ..n }
        } else if n.anchored {
            n
        } else {
            Norm { names: n.names.push(dot_dot()), ..n }
        },
        paths::Comp::Normal(name) => Norm { names: n.names.push(name), ..n },
    }
}

/// A list of components, resolved from left to right.
pub open spec fn norm(cs: Seq<paths::Comp>) -> Norm
    decreases cs.len(),
{
    if cs.len() == 0 {
        Norm { anchored: false, heads: seq![], names: seq![] }
    } else {
        norm_step(norm(cs.drop_last()), cs.last())
    }
}

/// The prefixes and roots of a path as they are written.
pub open spec fn head_texts(heads: Seq<paths::Comp>, platform: Platform) -> Seq<Seq<char>> {
    Seq::new(heads.len(), |i: int| paths::comp_text(heads[i], platform))
}

/// A path to which others are joined one after the other.
pub open spec fn joined_onto(
    base: Seq<char>,
    texts: Seq<Seq<char>>,
    platform: Platform,
) -> Seq<char>
    decreases texts.len(),
{
    if texts.len() == 0 {
        base
    } else {
        paths::join(joined_onto(base, texts.drop_last(), platform), texts.last(), platform)
    }
}

/// A path with its `.` and `..` resolved as far as the text alone allows: its prefix, its root and
/// the names that are left, joined.
pub open spec fn normalized(s: Seq<char>, platform: Platform) -> Seq<char> {
    let n = norm(paths::components(s, platform));
    joined_onto(seq![], head_texts(n.heads, platform) + n.names, platform)
}

/// A list of components in which `.` and `..` have been resolved as far as possible.
#[derive(Debug, Clone)]
pub struct NormalizedPath {
    /// The prefixes and roots.
    pub heads: Vec<PathComponent>,
    /// The names that follow, `..` among them.
    pub names: Vec<String>,
}

/// Resolves `.` and `..` in a list of components.
pub fn normalize_components(cs: &Vec<PathComponent>) -> (r: NormalizedPath)
    ensures
        paths::comps(r.heads@) == norm(paths::comps(cs@)).heads,
        text::texts(r.names@) == norm(paths::comps(cs@)).names,
{
    let mut heads: Vec<PathComponent> = Vec::new();
    let mut names: Vec<String> = Vec::new();
    let mut anchored = false;
    let ghost all = paths::comps(cs@);
    let mut i: usize = 0;
    assert(all.take(0) =~= seq![]);
    assert(paths::comps(heads@) =~= seq![]);
    assert(text::texts(names@) =~= seq![]);
    while i < cs.len()
        invariant
            i <= cs.len(),
            all == paths::comps(cs@),
            paths::comps(heads@) == norm(all.take(i as int)).heads,
            text::texts(names@) == norm(all.take(i as int)).names,
            anchored == norm(all.take(i as int)).anchored,
        decreases cs.len() - i,
    {
        let ghost old_heads = paths::comps(heads@);
        let ghost old_names = text::texts(names@);
        assert(all.take(i + 1).drop_last() =~= all.take(i as int));
        assert(all.take(i + 1).last() == cs@[i as int]@);
        assert(old_names.len() == names@.len());
        match &cs[i] {
            PathComponent::Prefix(p) => {
                let c = PathComponent::Prefix(p.clone());
                heads.push(c);
                assert(paths::comps(heads@) =~= old_heads.push(cs@[i as int]@));
                anchored = true;
            },
            PathComponent::RootDir => {
                heads.push(PathComponent::RootDir);
                assert(paths::comps(heads@) =~= old_heads.push(cs@[i as int]@));
                anchored = true;
            },
            PathComponent::CurDir => {},
            PathComponent::ParentDir => {
                let n = names.len();
                let up = n > 0 && !is_dot_dot(names[n - 1].as_str());
                if n > 0 {
                    assert(old_names.last() == names@[n - 1]@);
                }
                if up {
                    let last = names.pop();
                    assert(text::texts(names@) =~= old_names.drop_last());
                } else if !anchored {
                    let mut name = String::new();
                    name.push('.');
                    name.push('.');
                    assert(name@ =~= dot_dot());
                    names.push(name);
                    assert(text::texts(names@) =~= old_names.push(dot_dot()));
                }
            },
            PathComponent::Normal(p) => {
                names.push(p.clone());
                assert(text::texts(names@) =~= old_names.push(p@));
            },
        }
        i = i + 1;
    }
    assert(all.take(cs@.len() as int) =~= all);
    NormalizedPath { heads, names }
}

fn is_dot_dot(name: &str) -> (r: bool)
    ensures
        r == (name@ == dot_dot()),
{
    let cs = text::chars_of(name);
    if cs.len() == 2 && cs[0] == '.' && cs[1] == '.' {
        assert(name@ =~= dot_dot());
        true
    } else {
        false
    }
}

/// Resolves `.` and `..` in a path, as far as its text alone allows.
pub fn normalize_dot_segments(path: &str, platform: Platform) -> (r: String)
    ensures
        r@ == normalized(path@, platform),
{
    let cs = paths::components_of(path, platform);
    let resolved = normalize_components(&cs);
    let ghost heads = paths::comps(resolved.heads@);
    let ghost names = text::texts(resolved.names@);
    let ghost all = head_texts(heads, platform) + names;
    let mut out = String::new();
    let mut i: usize = 0;
    while i < resolved.heads.len()
        invariant
            i <= resolved.heads.len(),
            heads == paths::comps(resolved.heads@),
            all == head_texts(heads, platform) + names,
            out@ == joined_onto(seq![], all.take(i as int), platform),
        decreases resolved.heads.len() - i,
    {
        assert(all.take(i + 1).drop_last() =~= all.take(i as int));
        let head = paths::component_text(&resolved.heads[i], platform);
        out = paths::join_paths(out.as_str(), head.as_str(), platform);
        i = i + 1;
    }
    let ghost k = heads.len() as int;
    let mut j: usize = 0;
    while j < resolved.names.len()
        invariant
            j <= resolved.names.len(),
            names == text::texts(resolved.names@),
            k == heads.len(),
            all == head_texts(heads, platform) + names,
            out@ == joined_onto(seq![], all.take(k + j), platform),
        decreases resolved.names.len() - j,
    {
        assert(all.take(k + j + 1).drop_last() =~= all.take(k + j));
        out = paths::join_paths(out.as_str(), resolved.names[j].as_str(), platform);
        j = j + 1;
    }
    assert(all.take(all.len() as int) =~= all);
    out
}

// ---------------------------------------------------------------------------
// UNC prefixes
// ---------------------------------------------------------------------------

/// A path behind a verbatim prefix, with a network share put back into its usual form.
pub open spec fn without_verbatim(rest: Seq<char>, separator: char) -> Seq<char> {
    let unc = rest.skip("UNC"@.len() as int);
    if text::starts_with(rest, "UNC"@) && unc.len() > 0 && unc[0] == separator {
        seq![separator] + unc
    } else {
        rest
    }
}

/// A path without the verbatim prefix that Windows puts before it.
pub open spec fn unc_stripped(s: Seq<char>, platform: Platform) -> Seq<char> {
    match platform {
        Platform::Unix => s,
        Platform::Windows => if text::starts_with(s, "\\\\?\\"@) {
            without_verbatim(s.skip("\\\\?\\"@.len() as int), '\\')
        } else if text::starts_with(s, "//?/"@) {
            without_verbatim(s.skip("//?/"@.len() as int), '/')
        } else {
            s
        },
    }
}

fn after_prefix(cs: &[char], prefix: &str) -> (r: Option<Vec<char>>)
    ensures
        match r {
            Some(rest) => text::starts_with(cs@, prefix@) && rest@ == cs@.skip(
                prefix@.len() as int,
            ),
            None => !text::starts_with(cs@, prefix@),
        },
{
    if !text::starts_with_str(cs, prefix) {
        return None;
    }
    let k = text::chars_of(prefix).len();
    let n = cs.len();
    Some(vstd::slice::slice_to_vec(vstd::slice::slice_subrange(cs, k, n)))
}

fn drop_verbatim(rest: Vec<char>, separator: char) -> (r: String)
    ensures
        r@ == without_verbatim(rest@, separator),
{
    if let Some(unc) = after_prefix(rest.as_slice(), "UNC") {
        if unc.len() > 0 && unc[0] == separator {
            let mut out = String::new();
            out.push(separator);
            let tail = text::string_of(unc.as_slice());
            out.append(tail.as_str());
            assert(out@ =~= seq![separator] + unc@);
            return out;
        }
    }
    text::string_of(rest.as_slice())
}

/// Strips the `\\?\` or `//?/` verbatim prefix from a path on Windows. Does nothing on Unix.
pub fn strip_unc_prefix(path: String, platform: Platform) -> (r: String)
    ensures
        r@ == unc_stripped(path@, platform),
{
    match platform {
        Platform::Unix => path,
        Platform::Windows => {
            let cs = text::chars_of(path.as_str());
            if let Some(rest) = after_prefix(cs.as_slice(), "\\\\?\\") {
                return drop_verbatim(rest, '\\');
            }
            if let Some(rest) = after_prefix(cs.as_slice(), "//?/") {
                return drop_verbatim(rest, '/');
            }
            path
        },
    }
}

// ---------------------------------------------------------------------------
// Canonicalization
// ---------------------------------------------------------------------------

/// A path made absolute by putting the working directory before it where necessary.
pub open spec fn made_absolute(s: Seq<char>, cwd: Seq<char>, platform: Platform) -> Seq<char> {
    if paths::absolute(s, platform) {
        s
    } else {
        paths::join(cwd, s, platform)
    }
}

/// The canonical form that the file system gave of the `i`-th ancestor, if it gave one.
pub open spec fn answer(resolved: Seq<Option<Seq<char>>>, i: int) -> Option<Seq<char>> {
    if 0 <= i < resolved.len() {
        resolved[i]
    } else {
        None
    }
}

/// A path that does not exist, put behind the canonical form of its closest ancestor from the
/// `i`-th on that does, or as it is where there is none.
pub open spec fn anchored_at(
    abs: Seq<char>,
    resolved: Seq<Option<Seq<char>>>,
    i: int,
    platform: Platform,
) -> Seq<char>
    decreases paths::ancestors(abs, platform).len() - i,
{
    let ancs = paths::ancestors(abs, platform);
    if i < 0 || i >= ancs.len() {
        abs
    } else {
        match (answer(resolved, i), paths::strip_prefix(abs, ancs[i], platform)) {
            (Some(base), Some(suffix)) => paths::join(base, suffix, platform),
            _ => anchored_at(abs, resolved, i + 1, platform),
        }
    }
}

/// What a path that does not exist resolves to before its dots are resolved: the path made
/// absolute, put behind the canonical form of its closest existing ancestor.
pub open spec fn anchored(
    s: Seq<char>,
    cwd: Seq<char>,
    resolved: Seq<Option<Seq<char>>>,
    platform: Platform,
) -> Seq<char> {
    anchored_at(made_absolute(s, cwd, platform), resolved, 0, platform)
}

/// The canonical form of a path, given what the file system answered.
pub open spec fn canonical_form(
    s: Seq<char>,
    canonical: Option<Seq<char>>,
    cwd: Seq<char>,
    resolved: Seq<Option<Seq<char>>>,
    platform: Platform,
) -> Seq<char> {
    match canonical {
        Some(c) => unc_stripped(c, platform),
        None => unc_stripped(normalized(anchored(s, cwd, resolved, platform), platform), platform),
    }
}

/// The texts of answers of the file system.
pub open spec fn answers(v: Seq<Option<String>>) -> Seq<Option<Seq<char>>> {
    Seq::new(v.len(), |i: int| text::opt_text(v[i]))
}

/// Makes a path absolute by putting the working directory before it where necessary.
pub fn absolute_path(path: &str, cwd: &str, platform: Platform) -> (r: String)
    ensures
        r@ == made_absolute(path@, cwd@, platform),
{
    if paths::is_absolute(path, platform) {
        path.to_owned()
    } else {
        paths::join_paths(cwd, path, platform)
    }
}

/// The canonical form of a path, without the verbatim prefix that Windows puts before it.
///
/// `canonical` is the canonical form that the file system gave, if the path exists. Otherwise
/// the path is made absolute and resolved by its text alone. To respect symbolic links, it is
/// anchored at its closest existing ancestor: `resolved` holds, from the parent of the absolute
/// path upwards, the canonical form of each ancestor that exists. Ancestors beyond its end count
/// as missing.
pub fn safe_canonicalize(
    path: &str,
    canonical: Option<String>,
    cwd: &str,
    resolved: &Vec<Option<String>>,
    platform: Platform,
) -> (r: String)
    ensures
        r@ == canonical_form(
            path@,
            text::opt_text(canonical),
            cwd@,
            answers(resolved@),
            platform,
        ),
{
    if let Some(c) = canonical {
        return strip_unc_prefix(c, platform);
    }
    let abs = absolute_path(path, cwd, platform);
    let ancs = paths::ancestors_of(abs.as_str(), platform);
    let mut i: usize = 0;
    while i < ancs.len()
        invariant
            i <= ancs.len(),
            text::texts(ancs@) == paths::ancestors(abs@, platform),
            ancs@.len() == paths::ancestors(abs@, platform).len(),
            anchored(path@, cwd@, answers(resolved@), platform) == anchored_at(
                abs@,
                answers(resolved@),
                i as int,
                platform,
            ),
            canonical is None,
        decreases ancs.len() - i,
    {
        if i < resolved.len() {
            if let Some(base) = &resolved[i] {
                if let Some(suffix) = paths::relative_to(
                    abs.as_str(),
                    ancs[i].as_str(),
                    platform,
                ) {
                    let combined = paths::join_paths(base.as_str(), suffix.as_str(), platform);
                    let normal = normalize_dot_segments(combined.as_str(), platform);
                    return strip_unc_prefix(normal, platform);
                }
            }
        }
        i = i + 1;
    }
    strip_unc_prefix(normalize_dot_segments(abs.as_str(), platform), platform)
}

// ---------------------------------------------------------------------------
// Laws
// ---------------------------------------------------------------------------

/// Names with a separator between any two.
pub open spec fn joined(names: Seq<Seq<char>>, separator: char) -> Seq<char>
    decreases names.len(),
{
    if names.len() == 0 {
        seq![]
    } else if names.len() == 1 {
        names[0]
    } else {
        names[0].push(separator) + joined(names.drop_first(), separator)
    }
}

proof fn lemma_joined_push(names: Seq<Seq<char>>, name: Seq<char>, separator: char)
    requires
        names.len() > 0,
    ensures
        joined(names.push(name), separator) == joined(names, separator).push(separator) + name,
    decreases names.len(),
{
    let more = names.push(name);
    if names.len() == 1 {
        assert(joined(more.drop_first(), separator) == name);
    } else {
        assert(more.drop_first() =~= names.drop_first().push(name));
        lemma_joined_push(names.drop_first(), name, separator);
    }
}

/// Whether a text is a name that a separator can stand next to.
pub open spec fn plain_name(name: Seq<char>, seps: paths::Separators) -> bool {
    &&& name.len() > 0
    &&& name != seq!['.']
    &&& forall|i: int| 0 <= i < name.len() ==> !paths::separates(#[trigger] name[i], seps)
}

spec fn plain_names(names: Seq<Seq<char>>, seps: paths::Separators) -> bool {
    forall|i: int| #![trigger names[i]] 0 <= i < names.len() ==> plain_name(names[i], seps)
}

/// The component that a name stands for.
pub open spec fn name_comp(name: Seq<char>) -> paths::Comp {
    if name == dot_dot() {
        paths::Comp::ParentDir
    } else {
        paths::Comp::Normal(name)
    }
}

/// The components that names stand for.
pub open spec fn name_comps(names: Seq<Seq<char>>) -> Seq<paths::Comp> {
    Seq::new(names.len(), |i: int| name_comp(names[i]))
}

/// How many components of a list are prefixes and roots.
pub open spec fn head_count(cs: Seq<paths::Comp>) -> int {
    if cs.len() > 0 && cs[0] is Prefix {
        if cs.len() > 1 && cs[1] is RootDir {
            2
        } else {
            1
        }
    } else if cs.len() > 0 && cs[0] is RootDir {
        1
    } else {
        0
    }
}

spec fn comp_well_formed(cs: Seq<paths::Comp>, i: int, seps: paths::Separators) -> bool {
    match cs[i] {
        paths::Comp::Normal(name) => plain_name(name, seps) && name != dot_dot(),
        paths::Comp::RootDir => i < head_count(cs),
        paths::Comp::Prefix(_) => i == 0,
        _ => true,
    }
}

spec fn well_formed(cs: Seq<paths::Comp>, seps: paths::Separators) -> bool {
    forall|i: int| #![trigger cs[i]] 0 <= i < cs.len() ==> comp_well_formed(cs, i, seps)
}

/// Whether `..` stands at the front of the names only, and nowhere behind a root.
spec fn settled(names: Seq<Seq<char>>, anchored: bool, seps: paths::Separators) -> bool {
    &&& plain_names(names, seps)
    &&& forall|i: int, j: int|
        #![trigger names[i], names[j]]
        0 <= i < j < names.len() && names[j] == dot_dot() ==> names[i] == dot_dot()
    &&& anchored ==> forall|i: int|
        #![trigger names[i]]
        0 <= i < names.len() ==> names[i] != dot_dot()
}

proof fn lemma_segment_end_at(s: Seq<char>, from: int, seps: paths::Separators, k: int)
    requires
        0 <= from <= k <= s.len(),
        forall|j: int| from <= j < k ==> !paths::separates(#[trigger] s[j], seps),
        k < s.len() ==> paths::separates(s[k], seps),
    ensures
        paths::segment_end(s, from, seps) == k,
{
    paths::lemma_segment_end(s, from, seps);
}

spec fn body_comp_ok(c: paths::Comp, seps: paths::Separators) -> bool {
    match c {
        paths::Comp::Normal(name) => plain_name(name, seps) && name != dot_dot(),
        paths::Comp::RootDir => false,
        paths::Comp::Prefix(_) => false,
        _ => true,
    }
}

proof fn lemma_body_parts_well_formed(
    s: Seq<char>,
    from: int,
    seps: paths::Separators,
    first: bool,
)
    requires
        0 <= from,
    ensures
        forall|i: int|
            #![trigger paths::body_parts(s, from, seps, first)[i]]
            0 <= i < paths::body_parts(s, from, seps, first).len() ==> body_comp_ok(
                paths::body_parts(s, from, seps, first)[i].comp,
                seps,
            ),
    decreases s.len() - from,
{
    if from < s.len() {
        paths::lemma_segment_end(s, from, seps);
        let end = paths::segment_end(s, from, seps);
        if end < s.len() {
            lemma_body_parts_well_formed(s, end + 1, seps, false);
        }
    }
}

proof fn lemma_components_well_formed(s: Seq<char>, platform: Platform)
    ensures
        well_formed(paths::components(s, platform), paths::body_separators(s, platform)),
        head_count(paths::components(s, platform)) == paths::head_parts(s, platform).len(),
        paths::prefix(s, platform) is Some ==> 2 <= paths::prefix_end(s, platform) <= s.len(),
{
    let seps = paths::body_separators(s, platform);
    paths::lemma_prefix_end(s);
    lemma_body_parts_well_formed(
        s,
        paths::body_start(s, platform),
        seps,
        paths::bare(s, platform),
    );
}

#[verifier::spinoff_prover]
proof fn lemma_norm_settled(cs: Seq<paths::Comp>, seps: paths::Separators)
    requires
        well_formed(cs, seps),
    ensures
        settled(norm(cs).names, norm(cs).anchored, seps),
        norm(cs).anchored == (head_count(cs) > 0),
        norm(cs).heads == cs.take(head_count(cs)),
    decreases cs.len(),
{
    if cs.len() > 0 {
        let front = cs.drop_last();
        let last = cs.last();
        assert(last == cs[cs.len() - 1]);
        assert(comp_well_formed(cs, cs.len() - 1, seps));
        assert forall|i: int| #![trigger front[i]] 0 <= i < front.len() implies comp_well_formed(
            front,
            i,
            seps,
        ) by {
            assert(front[i] == cs[i]);
            assert(comp_well_formed(cs, i, seps));
        }
        lemma_norm_settled(front, seps);
        let n = norm(front);
        assert(plain_name(dot_dot(), seps)) by {
            assert(dot_dot()[1] == '.');
            assert(dot_dot().len() == 2);
        }
        assert(norm(cs).heads =~= cs.take(head_count(cs)));
        assert forall|i: int| #![trigger norm(cs).names[i]] 0 <= i < norm(
            cs,
        ).names.len() implies plain_name(norm(cs).names[i], seps) by {
            if i < n.names.len() {
                assert(plain_name(n.names[i], seps));
            }
        }
        if last is ParentDir && n.names.len() > 0 && n.names.last() == dot_dot() {
            assert(!n.anchored);
        }
    } else {
        assert(norm(cs).heads =~= cs.take(0));
    }
}

proof fn lemma_norm_of_settled(
    heads: Seq<paths::Comp>,
    names: Seq<Seq<char>>,
    seps: paths::Separators,
)
    requires
        forall|i: int|
            #![trigger heads[i]]
            0 <= i < heads.len() ==> heads[i] is RootDir || heads[i] is Prefix,
        settled(names, heads.len() > 0, seps),
    ensures
        norm(heads + name_comps(names)).names == names,
        norm(heads + name_comps(names)).heads == heads,
        norm(heads + name_comps(names)).anchored == (heads.len() > 0),
    decreases names.len(), heads.len(),
{
    let cs = heads + name_comps(names);
    if names.len() == 0 {
        if heads.len() > 0 {
            lemma_norm_of_settled(heads.drop_last(), names, seps);
        }
    } else {
        let front = names.drop_last();
        lemma_norm_of_settled(heads, front, seps);
        assert(cs.drop_last() =~= heads + name_comps(front));
        if names.last() == dot_dot() && front.len() > 0 {
            assert(names[front.len() - 1] == dot_dot());
        }
    }
}

proof fn lemma_parse_names(
    s: Seq<char>,
    from: int,
    names: Seq<Seq<char>>,
    seps: paths::Separators,
    separator: char,
    first: bool,
)
    requires
        0 <= from <= s.len(),
        paths::separates(separator, seps),
        s.subrange(from, s.len() as int) == joined(names, separator),
        plain_names(names, seps),
    ensures
        paths::body_parts(s, from, seps, first).len() == names.len(),
        forall|i: int|
            #![trigger names[i]]
            0 <= i < names.len() ==> paths::body_parts(s, from, seps, first)[i].comp == name_comp(
                names[i],
            ),
    decreases names.len(),
{
    let t = s.subrange(from, s.len() as int);
    if names.len() > 0 {
        let name = names[0];
        let k = name.len() as int;
        let more = names.drop_first();
        if names.len() > 1 {
            assert(t == name.push(separator) + joined(more, separator));
        }
        let end = from + k;
        assert forall|j: int| from <= j < end implies !paths::separates(
            #[trigger] s[j],
            seps,
        ) by {
            assert(t[j - from] == name[j - from]);
        }
        if end < s.len() {
            assert(s[end] == t[k]);
        }
        lemma_segment_end_at(s, from, seps, end);
        assert(s.subrange(from, end) =~= name);
        let all = paths::body_parts(s, from, seps, first);
        if names.len() > 1 {
            assert(s.subrange(end + 1, s.len() as int) =~= joined(more, separator)) by {
                assert(t.subrange(k + 1, t.len() as int) =~= s.subrange(end + 1, s.len() as int));
            }
            lemma_parse_names(s, end + 1, more, seps, separator, false);
            assert forall|i: int| #![trigger names[i]] 0 <= i < names.len() implies all[i].comp
                == name_comp(names[i]) by {
                if i > 0 {
                    assert(more[i - 1] == names[i]);
                }
            }
        }
    }
}

/// Whether the first `n` characters of two texts are the same.
spec fn same_front(s: Seq<char>, t: Seq<char>, n: int) -> bool {
    &&& 0 <= n <= s.len()
    &&& n <= t.len()
    &&& forall|i: int| 0 <= i < n ==> #[trigger] s[i] == t[i]
}

/// Two texts with the same front have the same segments there, if a separator stands behind the
/// front of both, or nothing.
proof fn lemma_same_segment(
    s: Seq<char>,
    t: Seq<char>,
    n: int,
    from: int,
    seps: paths::Separators,
)
    requires
        same_front(s, t, n),
        0 <= from <= n,
        paths::segment_end(s, from, seps) <= n,
        paths::segment_end(s, from, seps) == n ==> (t.len() == n || paths::separates(
            t[n],
            seps,
        )),
    ensures
        paths::segment_end(t, from, seps) == paths::segment_end(s, from, seps),
{
    paths::lemma_segment_end(s, from, seps);
    let e = paths::segment_end(s, from, seps);
    assert forall|j: int| from <= j < e implies !paths::separates(#[trigger] t[j], seps) by {
        assert(s[j] == t[j]);
    }
    lemma_segment_end_at(t, from, seps, e);
}

/// A text that begins with the prefix of another one, and goes on with a separator or not at all,
/// has the same prefix. Behind a verbatim prefix it may not go on.
#[verifier::spinoff_prover]
proof fn lemma_prefix_again(s: Seq<char>, t: Seq<char>)
    requires
        paths::windows_prefix(s) is Some,
        same_front(s, t, paths::windows_prefix(s)->0.end),
        t.len() == paths::windows_prefix(s)->0.end || (!paths::verbatim_kind(
            paths::windows_prefix(s)->0.kind,
        ) && paths::separates(t[paths::windows_prefix(s)->0.end], paths::Separators::Both)),
    ensures
        paths::windows_prefix(t) == paths::windows_prefix(s),
{
    let q = paths::windows_prefix(s)->0;
    let n = q.end;
    paths::lemma_prefix_end(s);
    if paths::verbatim_mark(s) {
        paths::lemma_segment_end(s, 4, paths::Separators::Backslash);
        if s.len() >= 8 {
            paths::lemma_segment_end(s, 8, paths::Separators::Backslash);
            let e = paths::segment_end(s, 8, paths::Separators::Backslash);
            if e < s.len() {
                paths::lemma_segment_end(s, e + 1, paths::Separators::Backslash);
            }
        }
        if q.kind is VerbatimUnc {
            lemma_same_segment(s, t, n, 8, paths::Separators::Backslash);
            let e = paths::segment_end(s, 8, paths::Separators::Backslash);
            assert(t.subrange(8, e) =~= s.subrange(8, e));
            if q.second.len() > 0 {
                lemma_same_segment(s, t, n, e + 1, paths::Separators::Backslash);
                assert(t.subrange(e + 1, n) =~= s.subrange(e + 1, n));
            }
        } else if q.kind is Verbatim {
            lemma_same_segment(s, t, n, 4, paths::Separators::Backslash);
            assert(t.subrange(4, n) =~= s.subrange(4, n));
            if n >= 8 {
                assert(s[4] == t[4] && s[5] == t[5] && s[6] == t[6] && s[7] == t[7]);
            }
        }
    } else if paths::device_mark(s) {
        paths::lemma_segment_end(s, 4, paths::Separators::Both);
        lemma_same_segment(s, t, n, 4, paths::Separators::Both);
        assert(t.subrange(4, n) =~= s.subrange(4, n));
    } else if paths::two_separators(s) {
        paths::lemma_segment_end(s, 2, paths::Separators::Both);
        let e = paths::segment_end(s, 2, paths::Separators::Both);
        paths::lemma_segment_end(s, e + 1, paths::Separators::Both);
        lemma_same_segment(s, t, n, 2, paths::Separators::Both);
        lemma_same_segment(s, t, n, e + 1, paths::Separators::Both);
        assert(t.subrange(2, e) =~= s.subrange(2, e));
        assert(t.subrange(e + 1, n) =~= s.subrange(e + 1, n));
    }
}

/// Whether a text can stand before the names of a path that is not verbatim: nothing, a root, a
/// drive, or a prefix and a root.
spec fn head_like(h: Seq<char>, platform: Platform) -> bool {
    ||| h.len() == 0
    ||| h == seq![paths::main_separator(platform)]
    ||| platform is Windows && paths::only_drive(h)
    ||| {
        &&& platform is Windows
        &&& h.len() > 0
        &&& h.last() == '\\'
        &&& paths::windows_prefix(h) is Some
        &&& !paths::verbatim_kind(paths::windows_prefix(h)->0.kind)
        &&& paths::windows_prefix(h)->0.end == h.len() - 1
    }
}

/// Whether no name begins with a drive.
pub open spec fn driveless(names: Seq<Seq<char>>) -> bool {
    forall|i: int| 0 <= i < names.len() ==> !paths::drive_at(#[trigger] names[i], 0)
}

/// Whether names can be written behind a head.
spec fn writable(names: Seq<Seq<char>>, platform: Platform) -> bool {
    &&& plain_names(names, paths::native(platform))
    &&& platform is Windows ==> driveless(names)
}

/// What the beginning of joined names says.
proof fn lemma_joined_front(names: Seq<Seq<char>>, separator: char)
    requires
        names.len() > 0,
        names[0].len() > 0,
    ensures
        joined(names, separator).len() >= names[0].len(),
        joined(names, separator)[0] == names[0][0],
        names[0].len() > 1 ==> joined(names, separator)[1] == names[0][1],
        names[0].len() == 1 && joined(names, separator).len() > 1 ==> joined(names, separator)[1]
            == separator,
{
}

/// What stands before the names of a path stays what it is, whatever names follow.
proof fn lemma_head_stays(h: Seq<char>, names: Seq<Seq<char>>, platform: Platform)
    requires
        head_like(h, platform),
        writable(names, platform),
    ensures
        ({
            let t = h + joined(names, paths::main_separator(platform));
            &&& paths::prefix(t, platform) == paths::prefix(h, platform)
            &&& paths::written_root(t, platform) == paths::written_root(h, platform)
            &&& paths::body_start(t, platform) == h.len()
            &&& !paths::verbatim(t, platform)
        }),
{
    let sep = paths::main_separator(platform);
    let r = joined(names, sep);
    let t = h + r;
    if names.len() > 0 {
        lemma_joined_front(names, sep);
    }
    if platform is Windows {
        paths::lemma_prefix_end(h);
        if h == seq![sep] {
            if t.len() > 1 {
                assert(!paths::separates(t[1], paths::Separators::Both));
            }
        } else if h.len() > 0 && !(paths::windows_prefix(h)->0.kind is Disk) {
            lemma_prefix_again(h, t);
        }
    }
}

/// Names joined onto a head one after the other are written behind it, with separators between
/// them.
proof fn lemma_names_onto_head(h: Seq<char>, names: Seq<Seq<char>>, platform: Platform)
    requires
        head_like(h, platform),
        writable(names, platform),
    ensures
        joined_onto(h, names, platform) == h + joined(names, paths::main_separator(platform)),
    decreases names.len(),
{
    let sep = paths::main_separator(platform);
    if names.len() > 0 {
        let front = names.drop_last();
        let last = names.last();
        lemma_names_onto_head(h, front, platform);
        lemma_head_stays(h, front, platform);
        let base = h + joined(front, sep);
        assert(front.push(last) =~= names);
        if front.len() == 0 {
            assert(base =~= h);
        } else {
            lemma_joined_push(front, last, sep);
            lemma_joined_last(front, sep, paths::native(platform));
            if platform is Windows && h.len() > 0 && h != seq![sep] {
                paths::lemma_prefix_end(h);
            }
            assert(base.push(sep) + last =~= h + (joined(front, sep).push(sep) + last));
        }
    }
}

/// Whether no name is empty and none holds a separator.
spec fn solid_names(names: Seq<Seq<char>>, seps: paths::Separators) -> bool {
    forall|i: int|
        #![trigger names[i]]
        0 <= i < names.len() ==> names[i].len() > 0 && forall|j: int|
            0 <= j < names[i].len() ==> !paths::separates(#[trigger] names[i][j], seps)
}

/// Joined names end in a character of the last name.
proof fn lemma_joined_last(names: Seq<Seq<char>>, separator: char, seps: paths::Separators)
    requires
        names.len() > 0,
        solid_names(names, seps),
    ensures
        joined(names, separator).len() > 0,
        !paths::separates(joined(names, separator).last(), seps),
{
    let front = names.drop_last();
    let last = names.last();
    assert(front.push(last) =~= names);
    if front.len() > 0 {
        lemma_joined_push(front, last, separator);
    }
}

proof fn lemma_joined_onto_more(
    base: Seq<char>,
    a: Seq<Seq<char>>,
    b: Seq<Seq<char>>,
    platform: Platform,
)
    ensures
        joined_onto(base, a + b, platform) == joined_onto(
            joined_onto(base, a, platform),
            b,
            platform,
        ),
    decreases b.len(),
{
    if b.len() > 0 {
        assert((a + b).drop_last() =~= a + b.drop_last());
        lemma_joined_onto_more(base, a, b.drop_last(), platform);
    }
}

/// The prefix and the root of a path as they are written in its normal form.
spec fn head_text(s: Seq<char>, platform: Platform) -> Seq<char> {
    let front = s.take(paths::prefix_end(s, platform));
    if paths::has_root(s, platform) {
        front.push(paths::main_separator(platform))
    } else {
        front
    }
}

/// The prefix and the root of a path that is not verbatim, joined.
#[verifier::spinoff_prover]
proof fn lemma_head_text(s: Seq<char>, platform: Platform)
    requires
        !paths::verbatim(s, platform),
    ensures
        joined_onto(
            seq![],
            head_texts(norm(paths::components(s, platform)).heads, platform),
            platform,
        ) == head_text(s, platform),
        head_like(head_text(s, platform), platform),
        paths::prefix(head_text(s, platform), platform) == paths::prefix(s, platform),
        paths::written_root(head_text(s, platform), platform) == paths::has_root(s, platform),
        norm(paths::components(s, platform)).heads == if paths::prefix(s, platform) is Some {
            if paths::has_root(s, platform) {
                seq![
                    paths::Comp::Prefix(s.take(paths::prefix_end(s, platform))),
                    paths::Comp::RootDir,
                ]
            } else {
                seq![paths::Comp::Prefix(s.take(paths::prefix_end(s, platform)))]
            }
        } else if paths::has_root(s, platform) {
            seq![paths::Comp::RootDir]
        } else {
            seq![]
        },
{
    let cs = paths::components(s, platform);
    let heads = norm(cs).heads;
    let sep = paths::main_separator(platform);
    let h = head_text(s, platform);
    lemma_components_well_formed(s, platform);
    lemma_norm_settled(cs, paths::body_separators(s, platform));
    let parts = paths::head_parts(s, platform);
    assert(heads.len() == parts.len());
    assert forall|i: int| 0 <= i < heads.len() implies #[trigger] heads[i] == parts[i].comp by {
        assert(heads[i] == cs[i]);
    }
    let texts = head_texts(heads, platform);
    let none: Seq<char> = seq![];
    assert(joined_onto(none, texts.take(0), platform) == none);
    if paths::prefix(s, platform) is Some {
        let raw = s.take(paths::prefix_end(s, platform));
        lemma_prefix_again(s, raw);
        assert(texts[0] == raw);
        assert(texts.take(1).drop_last() =~= texts.take(0));
        assert(joined_onto(none, texts.take(1), platform) == raw);
        if paths::has_root(s, platform) {
            assert(heads =~= seq![paths::Comp::Prefix(raw), paths::Comp::RootDir]);
            assert(texts[1] == seq![sep]);
            assert(texts.drop_last() =~= texts.take(1));
            assert(paths::written_root(seq![sep], platform));
            assert(paths::prefix(seq![sep], platform) is None);
            assert(paths::join(raw, seq![sep], platform) =~= raw.push(sep)) by {
                assert(raw.take(paths::prefix_end(raw, platform)) =~= raw);
            }
            assert(same_front(raw, h, raw.len() as int));
            lemma_prefix_again(raw, h);
        } else {
            assert(heads =~= seq![paths::Comp::Prefix(raw)]);
            assert(texts =~= texts.take(1));
            assert(h =~= raw);
        }
    } else {
        assert(s.take(0) =~= none);
        if paths::has_root(s, platform) {
            assert(heads =~= seq![paths::Comp::RootDir]);
            assert(texts.drop_last() =~= texts.take(0));
            assert(texts.last() == seq![sep]);
            assert(h =~= seq![sep]);
            assert(paths::written_root(seq![sep], platform));
            assert(paths::prefix(seq![sep], platform) is None);
            assert(paths::join(none, seq![sep], platform) =~= seq![sep]);
        } else {
            assert(heads =~= seq![]);
            assert(texts =~= texts.take(0));
            assert(h =~= none);
        }
    }
}

/// The names of a path that are left when its dots are resolved.
pub open spec fn resolved_names(s: Seq<char>, platform: Platform) -> Seq<Seq<char>> {
    norm(paths::components(s, platform)).names
}

/// Whether a path is not verbatim, and no name that is left of it begins with a drive.
spec fn plainly_readable(s: Seq<char>, platform: Platform) -> bool {
    platform is Windows ==> !paths::verbatim(s, platform) && driveless(
        resolved_names(s, platform),
    )
}

/// Whether a path names a server behind a verbatim prefix, but no share.
pub open spec fn shareless(s: Seq<char>, platform: Platform) -> bool {
    match paths::prefix(s, platform) {
        Some(q) => q.kind is VerbatimUnc && q.second.len() == 0,
        None => false,
    }
}

/// Whether no name holds a `/`, as a name in a verbatim path may.
pub open spec fn slashless(names: Seq<Seq<char>>) -> bool {
    forall|i: int, j: int|
        0 <= i < names.len() && 0 <= j < names[i].len() ==> #[trigger] names[i][j] != '/'
}

/// Whether the normal form of a path can be read back. On Windows, a name that begins with a drive
/// would replace what stands before it. In a verbatim path, a name with a `/` would be taken apart,
/// and behind a server without a share the first name would become the share.
pub open spec fn readable(s: Seq<char>, platform: Platform) -> bool {
    let names = resolved_names(s, platform);
    platform is Windows ==> {
        &&& driveless(names)
        &&& paths::verbatim(s, platform) ==> {
            &&& slashless(names)
            &&& names.len() > 0 ==> !shareless(s, platform)
        }
    }
}

/// The components of the normal form of a path.
pub open spec fn normal_comps(s: Seq<char>, platform: Platform) -> Seq<paths::Comp> {
    norm(paths::components(s, platform)).heads + name_comps(resolved_names(s, platform))
}

proof fn lemma_normal_text(s: Seq<char>, platform: Platform)
    requires
        plainly_readable(s, platform),
    ensures
        normalized(s, platform) == head_text(s, platform) + joined(
            resolved_names(s, platform),
            paths::main_separator(platform),
        ),
        writable(resolved_names(s, platform), platform),
        settled(
            resolved_names(s, platform),
            paths::prefix(s, platform) is Some || paths::has_root(s, platform),
            paths::native(platform),
        ),
{
    let cs = paths::components(s, platform);
    let names = resolved_names(s, platform);
    lemma_components_well_formed(s, platform);
    lemma_norm_settled(cs, paths::body_separators(s, platform));
    lemma_head_text(s, platform);
    lemma_joined_onto_more(
        seq![],
        head_texts(norm(cs).heads, platform),
        names,
        platform,
    );
    lemma_names_onto_head(head_text(s, platform), names, platform);
}

/// The prefix and the root of the normal form of a path are those of the path.
#[verifier::spinoff_prover]
proof fn lemma_normal_head(s: Seq<char>, platform: Platform)
    requires
        plainly_readable(s, platform),
    ensures
        ({
            let t = normalized(s, platform);
            let parts = paths::head_parts(t, platform);
            &&& Seq::new(parts.len(), |i: int| parts[i].comp) == norm(
                paths::components(s, platform),
            ).heads
            &&& paths::body_start(t, platform) == head_text(s, platform).len()
            &&& !paths::verbatim(t, platform)
            &&& paths::absolute(t, platform) == paths::absolute(s, platform)
        }),
{
    let h = head_text(s, platform);
    let t = normalized(s, platform);
    let pe = paths::prefix_end(s, platform);
    lemma_normal_text(s, platform);
    lemma_head_text(s, platform);
    lemma_head_stays(h, resolved_names(s, platform), platform);
    paths::lemma_prefix_end(s);
    assert(t.take(pe) =~= s.take(pe));
}

/// The normal form of a path that is not verbatim has the components that resolving gives.
#[verifier::spinoff_prover]
proof fn lemma_plain_parses_back(s: Seq<char>, platform: Platform)
    requires
        plainly_readable(s, platform),
    ensures
        paths::components(normalized(s, platform), platform) == normal_comps(s, platform),
        paths::absolute(normalized(s, platform), platform) == paths::absolute(s, platform),
{
    let names = resolved_names(s, platform);
    let t = normalized(s, platform);
    let sep = paths::main_separator(platform);
    let start = head_text(s, platform).len() as int;
    lemma_normal_text(s, platform);
    lemma_normal_head(s, platform);
    assert(t.subrange(start, t.len() as int) =~= joined(names, sep));
    let first = paths::bare(t, platform);
    lemma_parse_names(t, start, names, paths::native(platform), sep, first);
    let body = paths::body_parts(t, start, paths::native(platform), first);
    let parts = paths::head_parts(t, platform);
    let heads = norm(paths::components(s, platform)).heads;
    lemma_components_of_both(t, platform, heads, name_comps(names), parts, body);
}

/// The components of a path, given those of its head and of its names.
proof fn lemma_components_of_both(
    t: Seq<char>,
    platform: Platform,
    heads: Seq<paths::Comp>,
    names: Seq<paths::Comp>,
    head_parts: Seq<paths::Part>,
    body: Seq<paths::Part>,
)
    requires
        paths::parts(t, platform) == head_parts + body,
        Seq::new(head_parts.len(), |i: int| head_parts[i].comp) == heads,
        body.len() == names.len(),
        forall|i: int| 0 <= i < names.len() ==> body[i].comp == #[trigger] names[i],
    ensures
        paths::components(t, platform) == heads + names,
{
    let cs = paths::components(t, platform);
    assert forall|i: int| 0 <= i < cs.len() implies #[trigger] cs[i] == (heads + names)[i] by {
        if i < heads.len() {
            assert(heads[i] == head_parts[i].comp);
        } else {
            assert(cs[i] == body[i - heads.len()].comp);
            assert(names[i - heads.len()] == body[i - heads.len()].comp);
        }
    }
    assert(cs =~= heads + names);
}

/// The normal form of a path has exactly the components that resolving gives, and is absolute
/// exactly when the path is.
pub proof fn law_normal_form_parses_back(s: Seq<char>, platform: Platform)
    requires
        readable(s, platform),
    ensures
        paths::components(normalized(s, platform), platform) == normal_comps(s, platform),
        paths::absolute(normalized(s, platform), platform) == paths::absolute(s, platform),
{
    if paths::verbatim(s, platform) {
        lemma_verbatim_parses_back(s);
    } else {
        lemma_plain_parses_back(s, platform);
    }
}

/// The position of the last name that begins with a drive, or -1 where none does.
pub open spec fn last_drive(names: Seq<Seq<char>>) -> int
    decreases names.len(),
{
    if names.len() == 0 {
        -1
    } else if paths::drive_at(names.last(), 0) {
        names.len() - 1
    } else {
        last_drive(names.drop_last())
    }
}

/// What the last name that begins with a drive holds behind the drive, if there is such a name.
///
/// On Windows, such a name replaces what stands before it when it is joined, and its drive becomes
/// the drive of the path.
pub open spec fn behind_drive(names: Seq<Seq<char>>) -> Option<Seq<char>> {
    let at = last_drive(names);
    if at >= 0 {
        Some(names[at].skip(2))
    } else {
        None
    }
}

/// Whether a name that begins with a drive replaces what stands before it in a path. In a verbatim
/// path, this is said only of names without `/`.
pub open spec fn overtaken(s: Seq<char>, platform: Platform) -> bool {
    let names = resolved_names(s, platform);
    &&& platform is Windows
    &&& last_drive(names) >= 0
    &&& paths::verbatim(s, platform) ==> slashless(names)
}

proof fn lemma_last_drive(names: Seq<Seq<char>>)
    ensures
        -1 <= last_drive(names) < names.len(),
        last_drive(names) >= 0 ==> paths::drive_at(names[last_drive(names)], 0),
        forall|k: int|
            last_drive(names) < k < names.len() ==> !paths::drive_at(#[trigger] names[k], 0),
    decreases names.len(),
{
    if names.len() > 0 && !paths::drive_at(names.last(), 0) {
        let front = names.drop_last();
        lemma_last_drive(front);
        assert(forall|k: int| 0 <= k < front.len() ==> #[trigger] names[k] == front[k]);
    }
}

/// The names behind the drive that a path ends up with: what is left of the name that begins with
/// the drive, unless it is the drive alone, and the names that follow.
spec fn names_behind(drive: Seq<char>, rest: Seq<Seq<char>>) -> Seq<Seq<char>> {
    if drive.len() > 2 {
        seq![drive.skip(2)] + rest
    } else {
        rest
    }
}

/// Names joined onto a name that begins with a drive.
#[verifier::spinoff_prover]
proof fn lemma_names_onto_drive(drive: Seq<char>, rest: Seq<Seq<char>>)
    requires
        paths::drive_at(drive, 0),
        solid_names(seq![drive], paths::Separators::Both),
        writable(rest, Platform::Windows),
    ensures
        joined_onto(drive, rest, Platform::Windows) == drive.take(2) + joined(
            names_behind(drive, rest),
            '\\',
        ),
    decreases rest.len(),
{
    let w = Platform::Windows;
    assert(seq![drive][0] == drive);
    if drive.len() == 2 {
        assert(paths::only_drive(drive));
        lemma_names_onto_head(drive, rest, w);
        assert(drive.take(2) =~= drive);
    } else if rest.len() == 0 {
        let seg = drive.skip(2);
        assert(names_behind(drive, rest) =~= seq![seg]);
        assert(drive.take(2) + seg =~= drive);
    } else {
        let front = rest.drop_last();
        let last = rest.last();
        let all = names_behind(drive, front);
        assert(last == rest[rest.len() - 1]);
        assert forall|i: int| #![trigger front[i]] 0 <= i < front.len() implies front[i]
            == rest[i] by {}
        lemma_names_onto_drive(drive, front);
        assert(solid_names(all, paths::Separators::Both)) by {
            assert forall|i: int| #![trigger all[i]] 0 <= i < all.len() implies all[i].len() > 0
                && forall|j: int|
                0 <= j < all[i].len() ==> !paths::separates(
                    #[trigger] all[i][j],
                    paths::Separators::Both,
                ) by {
                if i == 0 {
                    assert(all[0] == drive.skip(2));
                    assert(forall|j: int| 0 <= j < all[0].len() ==> all[0][j] == drive[j + 2]);
                } else {
                    assert(all[i] == front[i - 1]);
                    assert(plain_name(rest[i - 1], paths::Separators::Both));
                }
            }
        }
        lemma_joined_last(all, '\\', paths::Separators::Both);
        lemma_joined_push(all, last, '\\');
        assert(all.push(last) =~= names_behind(drive, rest));
        let base = drive.take(2) + joined(all, '\\');
        assert(base[0] == drive[0] && base[1] == drive[1]);
        assert(base.last() == joined(all, '\\').last());
        assert(plain_name(last, paths::Separators::Both));
        assert(!paths::drive_at(last, 0));
        assert(paths::join(base, last, w) == base.push('\\') + last);
        assert(base.push('\\') + last =~= drive.take(2) + (joined(all, '\\').push('\\') + last));
    }
}

/// The names that are left of a path on Windows hold no separators, and `..` stands at their front
/// only.
proof fn lemma_names_settled(s: Seq<char>)
    requires
        paths::verbatim(s, Platform::Windows) ==> slashless(resolved_names(s, Platform::Windows)),
    ensures
        settled(
            resolved_names(s, Platform::Windows),
            paths::verbatim(s, Platform::Windows),
            paths::Separators::Both,
        ),
{
    let w = Platform::Windows;
    let seps = paths::body_separators(s, w);
    let names = resolved_names(s, w);
    lemma_components_well_formed(s, w);
    lemma_norm_settled(paths::components(s, w), seps);
    assert forall|i: int| #![trigger names[i]] 0 <= i < names.len() implies plain_name(
        names[i],
        paths::Separators::Both,
    ) by {
        assert(plain_name(names[i], seps));
        assert forall|j: int| 0 <= j < names[i].len() implies !paths::separates(
            #[trigger] names[i][j],
            paths::Separators::Both,
        ) by {
            assert(!paths::separates(names[i][j], seps));
        }
    }
}

/// The normal form of a path on Windows of which a name that is left begins with a drive.
#[verifier::spinoff_prover]
proof fn lemma_overtaken(s: Seq<char>)
    requires
        overtaken(s, Platform::Windows),
    ensures
        ({
            let names = resolved_names(s, Platform::Windows);
            let at = last_drive(names);
            let t = normalized(s, Platform::Windows);
            let all = names_behind(names[at], names.skip(at + 1));
            &&& paths::drive_at(t, 0)
            &&& t == names[at].take(2) + joined(all, '\\')
            &&& names[at].len() >= 2
            &&& quiet_names(names.skip(at + 1))
            &&& driveless(names.skip(at + 1))
            &&& solid_names(seq![names[at]], paths::Separators::Both)
            &&& paths::prefix(t, Platform::Windows) is Some
            &&& paths::prefix_end(t, Platform::Windows) == 2
            &&& !paths::verbatim(t, Platform::Windows)
            &&& !paths::has_root(t, Platform::Windows)
        }),
{
    let w = Platform::Windows;
    let cs = paths::components(s, w);
    let names = resolved_names(s, w);
    let at = last_drive(names);
    let drive = names[at];
    let rest = names.skip(at + 1);
    let t = normalized(s, w);
    lemma_last_drive(names);
    lemma_names_settled(s);
    assert(plain_name(drive, paths::Separators::Both));
    assert(solid_names(seq![drive], paths::Separators::Both)) by {
        assert(seq![drive][0] == drive);
    }
    assert forall|i: int| #![trigger rest[i]] 0 <= i < rest.len() implies plain_name(
        rest[i],
        paths::Separators::Both,
    ) && rest[i] != dot_dot() && !paths::drive_at(rest[i], 0) by {
        assert(rest[i] == names[at + 1 + i]);
        assert(dot_dot().len() == 2 && dot_dot()[1] == '.');
    }
    let heads = head_texts(norm(cs).heads, w);
    let front = heads + names.take(at);
    let first = front.push(drive);
    assert(heads + names =~= first + rest);
    lemma_joined_onto_more(seq![], first, rest, w);
    assert(first.drop_last() =~= front);
    assert(!paths::separates(drive[0], paths::Separators::Both));
    assert(paths::windows_prefix(drive) is Some);
    assert(joined_onto(seq![], first, w) == drive);
    lemma_names_onto_drive(drive, rest);
    assert(t[0] == drive[0] && t[1] == drive[1]);
    let all = names_behind(drive, rest);
    if t.len() > 2 {
        assert(all.len() > 0);
        if drive.len() > 2 {
            assert(all[0] == drive.skip(2));
            assert(all[0][0] == drive[2]);
        } else {
            assert(all[0] == rest[0]);
        }
        lemma_joined_front(all, '\\');
        assert(t[2] == all[0][0]);
        assert(!paths::separates(t[2], paths::Separators::Both));
    }
}

/// Whether normalizing a path again changes nothing.
///
/// On Windows, the last name that begins with a drive gives the path its drive. What follows that
/// drive in the name must neither be `.` or `..` nor begin with a drive itself. Of a verbatim path
/// that keeps its prefix, no name in the normal form may begin with a drive.
pub open spec fn steady(s: Seq<char>, platform: Platform) -> bool {
    let names = resolved_names(s, platform);
    platform is Windows ==> if overtaken(s, platform) {
        let seg = behind_drive(names)->0;
        &&& seg != seq!['.']
        &&& seg != dot_dot()
        &&& !paths::drive_at(seg, 0)
    } else {
        paths::verbatim(s, platform) ==> {
            &&& prefixless(s, platform)
            &&& driveless(resolved_names(normalized(s, platform), platform))
        }
    }
}

/// Normalizing twice is the same as normalizing once.
pub proof fn law_normalizing_is_idempotent(s: Seq<char>, platform: Platform)
    requires
        steady(s, platform),
    ensures
        normalized(normalized(s, platform), platform) == normalized(s, platform),
{
    let names = resolved_names(s, platform);
    let at = last_drive(names);
    let t = normalized(s, platform);
    lemma_last_drive(names);
    if overtaken(s, platform) {
        let rest = names.skip(at + 1);
        let all = names_behind(names[at], rest);
        lemma_overtaken(s);
        assert forall|i: int| #![trigger all[i]] 0 <= i < all.len() implies plain_name(
            all[i],
            paths::Separators::Both,
        ) && all[i] != dot_dot() && !paths::drive_at(all[i], 0) by {
            if names[at].len() > 2 {
                if i == 0 {
                    let seg = names[at].skip(2);
                    assert(all[0] == seg);
                    assert(seq![names[at]][0] == names[at]);
                    assert(forall|j: int| 0 <= j < seg.len() ==> seg[j] == names[at][j + 2]);
                } else {
                    assert(all[i] == rest[i - 1]);
                }
            }
        }
        assert(t.subrange(2, t.len() as int) =~= joined(all, '\\'));
        lemma_drive_read_back(t, all);
        lemma_normal_text(t, platform);
        assert(head_text(t, platform) =~= t.take(2));
        assert(names[at].take(2) =~= t.take(2));
    } else if paths::verbatim(s, platform) {
        lemma_normal_verbatim(s);
        lemma_quiet_verbatim_stays(t);
    } else {
        lemma_plain_parses_back(s, platform);
        lemma_normal_text(s, platform);
        lemma_head_text(s, platform);
        lemma_norm_of_settled(
            norm(paths::components(s, platform)).heads,
            names,
            paths::native(platform),
        );
    }
}

/// A drive with quiet names behind it is read back as it is written.
proof fn lemma_drive_read_back(t: Seq<char>, names: Seq<Seq<char>>)
    requires
        paths::prefix(t, Platform::Windows) is Some,
        paths::prefix_end(t, Platform::Windows) == 2,
        !paths::verbatim(t, Platform::Windows),
        !paths::has_root(t, Platform::Windows),
        t.len() >= 2,
        t.subrange(2, t.len() as int) == joined(names, '\\'),
        quiet_names(names),
    ensures
        resolved_names(t, Platform::Windows) == names,
{
    let w = Platform::Windows;
    let both = paths::Separators::Both;
    assert(plain_names(names, both));
    lemma_parse_names(t, 2, names, both, '\\', false);
    let body = paths::body_parts(t, 2, both, false);
    let heads = paths::head_parts(t, w);
    let prefix: Seq<paths::Comp> = seq![paths::Comp::Prefix(t.take(2))];
    assert(paths::components(t, w) =~= prefix + name_comps(names)) by {
        assert(heads.len() == 1 && heads[0].comp == prefix[0]);
        assert(paths::parts(t, w) == heads + body);
        assert(forall|i: int| 0 <= i < names.len() ==> body[i].comp == name_comp(
            #[trigger] names[i],
        ));
    }
    lemma_norm_of_settled(prefix, names, both);
}

/// The normal form of a path has a root exactly when the path has one, and is absolute exactly when
/// the path is. On Windows, a name that gives the path its drive takes a root away, and no name of
/// a verbatim path that keeps its prefix may carry another one.
pub proof fn law_normal_form_keeps_its_root(s: Seq<char>, platform: Platform)
    requires
        paths::verbatim(s, platform) && !overtaken(s, platform) ==> prefixless(s, platform),
    ensures
        !overtaken(s, platform) || !paths::has_root(s, platform) ==> paths::has_root(
            normalized(s, platform),
            platform,
        ) == paths::has_root(s, platform),
        !overtaken(s, platform) || !paths::absolute(s, platform) ==> paths::absolute(
            normalized(s, platform),
            platform,
        ) == paths::absolute(s, platform),
        overtaken(s, platform) ==> !paths::has_root(normalized(s, platform), platform),
{
    lemma_last_drive(resolved_names(s, platform));
    if overtaken(s, platform) {
        lemma_overtaken(s);
    } else if paths::verbatim(s, platform) {
        lemma_normal_verbatim(s);
    } else {
        lemma_normal_text(s, platform);
        lemma_head_text(s, platform);
        lemma_head_stays(head_text(s, platform), resolved_names(s, platform), platform);
    }
}

/// The normal form of a path holds no `.`. It holds `..` only at its very beginning, and only where
/// the path has neither a prefix nor a root, so that it cannot lead out of the directories that it
/// names. On Windows, a drive and `..` in the name that gives the path its drive are left out, and
/// no name of a verbatim path that keeps its prefix may carry another one.
pub proof fn law_normal_form_does_not_climb(s: Seq<char>, i: int, platform: Platform)
    requires
        if overtaken(s, platform) {
            behind_drive(resolved_names(s, platform)) != Some(dot_dot())
        } else {
            paths::verbatim(s, platform) ==> prefixless(s, platform)
        },
        0 <= i < paths::components(normalized(s, platform), platform).len(),
    ensures
        ({
            let cs = paths::components(normalized(s, platform), platform);
            &&& !(cs[i] is CurDir)
            &&& cs[i] is ParentDir ==> {
                &&& paths::prefix(s, platform) is None
                &&& !paths::has_root(s, platform)
                &&& forall|k: int| 0 <= k <= i ==> #[trigger] cs[k] is ParentDir
            }
        }),
{
    if overtaken(s, platform) {
        lemma_overtaken_quiet(s);
    } else if paths::verbatim(s, platform) {
        lemma_normal_verbatim(s);
        lemma_quiet_verbatim_comps(normalized(s, platform));
    } else {
        lemma_last_drive(resolved_names(s, platform));
        lemma_plain_does_not_climb(s, i, platform);
    }
}

/// The normal form of a path that is not verbatim, and that no name overtakes, holds no `.`, and
/// `..` only at its beginning and only where there is neither a prefix nor a root.
#[verifier::spinoff_prover]
proof fn lemma_plain_does_not_climb(s: Seq<char>, i: int, platform: Platform)
    requires
        plainly_readable(s, platform),
        0 <= i < paths::components(normalized(s, platform), platform).len(),
    ensures
        ({
            let cs = paths::components(normalized(s, platform), platform);
            &&& !(cs[i] is CurDir)
            &&& cs[i] is ParentDir ==> {
                &&& paths::prefix(s, platform) is None
                &&& !paths::has_root(s, platform)
                &&& forall|k: int| 0 <= k <= i ==> #[trigger] cs[k] is ParentDir
            }
        }),
{
    let names = resolved_names(s, platform);
    let heads = norm(paths::components(s, platform)).heads;
    let cs = paths::components(normalized(s, platform), platform);
    lemma_plain_parses_back(s, platform);
    lemma_normal_text(s, platform);
    lemma_head_text(s, platform);
    assert(cs == heads + name_comps(names));
    if i < heads.len() {
        assert(cs[i] == heads[i]);
    } else {
        assert(cs[i] == name_comp(names[i - heads.len()]));
        if cs[i] is ParentDir {
            assert(names[i - heads.len()] == dot_dot());
            assert(heads.len() == 0);
            assert forall|k: int| 0 <= k <= i implies #[trigger] cs[k] is ParentDir by {
                assert(cs[k] == name_comp(names[k]));
            }
        }
    }
}

/// The normal form of a path on Windows of which a name that is left begins with a drive holds
/// neither `.` nor `..`, unless `..` follows the drive.
#[verifier::spinoff_prover]
proof fn lemma_overtaken_quiet(s: Seq<char>)
    requires
        overtaken(s, Platform::Windows),
        behind_drive(resolved_names(s, Platform::Windows)) != Some(dot_dot()),
    ensures
        dotfree(normalized(s, Platform::Windows), Platform::Windows),
{
    let w = Platform::Windows;
    let both = paths::Separators::Both;
    let names = resolved_names(s, w);
    let at = last_drive(names);
    let rest = names.skip(at + 1);
    let all = names_behind(names[at], rest);
    let t = normalized(s, w);
    let seg = names[at].skip(2);
    lemma_overtaken(s);
    let behind = t.subrange(2, t.len() as int);
    assert(behind =~= joined(all, '\\'));
    let body = paths::body_parts(t, 2, both, false);
    if names[at].len() > 2 && seg == seq!['.'] {
        assert(all[0] == seg);
        assert(t[2] == '.') by {
            lemma_joined_front(all, '\\');
            assert(behind[0] == t[2]);
        }
        if rest.len() == 0 {
            assert(all =~= seq![seg]);
            assert(t.len() == 3);
            lemma_segment_end_at(t, 2, both, 3);
            assert(t.subrange(2, 3) =~= seq!['.']);
            assert(body =~= seq![]);
        } else {
            assert(all.drop_first() =~= rest);
            assert(behind =~= seg.push('\\') + joined(rest, '\\'));
            assert(behind[1] == '\\');
            assert(t[3] == behind[1]);
            lemma_segment_end_at(t, 2, both, 3);
            assert(t.subrange(2, 3) =~= seq!['.']);
            assert(t.subrange(4, t.len() as int) =~= joined(rest, '\\')) by {
                assert(behind.subrange(2, behind.len() as int) =~= joined(rest, '\\'));
                assert(behind.subrange(2, behind.len() as int) =~= t.subrange(4, t.len() as int));
            }
            lemma_quiet_text(t, 4, rest, both, '\\');
            lemma_dotless_parts(t, 4, both, false);
            assert(body == paths::body_parts(t, 4, both, false));
        }
    } else {
        assert(quiet_names(all)) by {
            assert forall|i: int| #![trigger all[i]] 0 <= i < all.len() implies plain_name(
                all[i],
                both,
            ) && all[i] != dot_dot() by {
                if names[at].len() > 2 {
                    if i == 0 {
                        assert(all[0] == seg);
                        assert(seq![names[at]][0] == names[at]);
                        assert(forall|j: int| 0 <= j < seg.len() ==> seg[j] == names[at][j + 2]);
                    } else {
                        assert(all[i] == rest[i - 1]);
                    }
                }
            }
        }
        lemma_quiet_text(t, 2, all, both, '\\');
        lemma_dotless_parts(t, 2, both, false);
    }
    let heads = paths::head_parts(t, w);
    let cs = paths::components(t, w);
    assert(heads.len() == 1 && heads[0].comp is Prefix);
    assert(paths::parts(t, w) == heads + body);
    assert forall|i: int| #![trigger cs[i]] 0 <= i < cs.len() implies !(cs[i] is CurDir) && !(
    cs[i] is ParentDir) by {
        if i > 0 {
            assert(cs[i] == body[i - 1].comp);
        } else {
            assert(cs[0] == heads[0].comp);
        }
    }
}

/// The names that are left when the dots of a path with a root or a prefix are resolved hold no
/// `..`, on either platform and in any kind of path.
pub proof fn law_resolved_names_do_not_climb(s: Seq<char>, i: int, platform: Platform)
    requires
        paths::prefix(s, platform) is Some || paths::has_root(s, platform),
        0 <= i < resolved_names(s, platform).len(),
    ensures
        resolved_names(s, platform)[i] != dot_dot(),
        resolved_names(s, platform)[i] != seq!['.'],
{
    lemma_components_well_formed(s, platform);
    lemma_norm_settled(
        paths::components(s, platform),
        paths::body_separators(s, platform),
    );
}

/// Whether no name from a position on is `.` or `..`.
spec fn dotless(s: Seq<char>, from: int, seps: paths::Separators) -> bool
    decreases s.len() - from,
{
    let end = paths::segment_end(s, from, seps);
    if from < 0 || from >= s.len() || end < from {
        true
    } else {
        &&& s.subrange(from, end) != seq!['.']
        &&& s.subrange(from, end) != dot_dot()
        &&& end < s.len() ==> dotless(s, end + 1, seps)
    }
}

proof fn lemma_dotless_later(s: Seq<char>, from: int, later: int, seps: paths::Separators)
    requires
        dotless(s, from, seps),
        0 <= from < later <= s.len(),
        paths::separates(s[later - 1], seps),
    ensures
        dotless(s, later, seps),
    decreases s.len() - from,
{
    paths::lemma_segment_end(s, from, seps);
    let end = paths::segment_end(s, from, seps);
    if end + 1 < later {
        lemma_dotless_later(s, end + 1, later, seps);
    }
}

proof fn lemma_dotless_parts(s: Seq<char>, from: int, seps: paths::Separators, first: bool)
    requires
        0 <= from,
        dotless(s, from, seps),
    ensures
        forall|i: int|
            #![trigger paths::body_parts(s, from, seps, first)[i]]
            0 <= i < paths::body_parts(s, from, seps, first).len() ==> !(paths::body_parts(
                s,
                from,
                seps,
                first,
            )[i].comp is CurDir) && !(paths::body_parts(
                s,
                from,
                seps,
                first,
            )[i].comp is ParentDir),
    decreases s.len() - from,
{
    if from < s.len() {
        paths::lemma_segment_end(s, from, seps);
        let end = paths::segment_end(s, from, seps);
        if end < s.len() {
            lemma_dotless_parts(s, end + 1, seps, false);
        }
    }
}

/// Whether names can stand in a path whatever its separators are, and neither is `..`.
spec fn quiet_names(names: Seq<Seq<char>>) -> bool {
    forall|i: int|
        #![trigger names[i]]
        0 <= i < names.len() ==> plain_name(names[i], paths::Separators::Both) && names[i]
            != dot_dot()
}

proof fn lemma_quiet_text(
    s: Seq<char>,
    from: int,
    names: Seq<Seq<char>>,
    seps: paths::Separators,
    separator: char,
)
    requires
        0 <= from <= s.len(),
        paths::separates(separator, seps),
        s.subrange(from, s.len() as int) == joined(names, separator),
        quiet_names(names),
    ensures
        dotless(s, from, seps),
        forall|i: int|
            from <= i < s.len() ==> #[trigger] s[i] == separator || !paths::separates(
                s[i],
                paths::Separators::Both,
            ),
        from < s.len() ==> !paths::separates(s[from], paths::Separators::Both),
        forall|i: int|
            from < i < s.len() && s[i - 1] == separator ==> !paths::separates(
                #[trigger] s[i],
                paths::Separators::Both,
            ),
    decreases names.len(),
{
    let t = s.subrange(from, s.len() as int);
    if names.len() == 0 {
        assert(t.len() == 0);
    } else {
        let name = names[0];
        let k = name.len() as int;
        let more = names.drop_first();
        if names.len() > 1 {
            assert(t == name.push(separator) + joined(more, separator));
        }
        let end = from + k;
        assert forall|j: int| from <= j < end implies !paths::separates(
            #[trigger] s[j],
            paths::Separators::Both,
        ) by {
            assert(t[j - from] == name[j - from]);
        }
        if end < s.len() {
            assert(s[end] == t[k]);
        }
        lemma_segment_end_at(s, from, seps, end);
        assert(s.subrange(from, end) =~= name);
        if names.len() > 1 {
            assert(s.subrange(end + 1, s.len() as int) =~= joined(more, separator)) by {
                assert(t.subrange(k + 1, t.len() as int) =~= s.subrange(end + 1, s.len() as int));
            }
            lemma_quiet_text(s, end + 1, more, seps, separator);
        }
    }
}

/// A text that begins with a verbatim prefix, and goes on with a separator or not at all, has a
/// verbatim prefix that is no shorter and behind which a separator or nothing stands.
#[verifier::spinoff_prover]
proof fn lemma_verbatim_again(raw: Seq<char>, t: Seq<char>)
    requires
        paths::verbatim(raw, Platform::Windows),
        paths::prefix_end(raw, Platform::Windows) == raw.len(),
        same_front(raw, t, raw.len() as int),
        t.len() == raw.len() || t[raw.len() as int] == '\\',
    ensures
        paths::verbatim(t, Platform::Windows),
        raw.len() <= paths::prefix_end(t, Platform::Windows) <= t.len(),
        paths::prefix_end(t, Platform::Windows) == t.len() || t[paths::prefix_end(
            t,
            Platform::Windows,
        )] == '\\',
{
    let back = paths::Separators::Backslash;
    let n = raw.len() as int;
    paths::lemma_prefix_end(t);
    paths::lemma_segment_end(raw, 4, back);
    paths::lemma_segment_end(t, 4, back);
    if t.len() >= 8 {
        paths::lemma_segment_end(t, 8, back);
        let e = paths::segment_end(t, 8, back);
        if e < t.len() {
            paths::lemma_segment_end(t, e + 1, back);
        }
    }
    if raw.len() >= 8 {
        paths::lemma_segment_end(raw, 8, back);
        let e = paths::segment_end(raw, 8, back);
        if e < raw.len() {
            paths::lemma_segment_end(raw, e + 1, back);
        }
    }
    let q = paths::windows_prefix(raw)->0;
    if q.kind is VerbatimUnc {
        lemma_same_segment(raw, t, n, 8, back);
        let e = paths::segment_end(raw, 8, back);
        if e < n {
            lemma_same_segment(raw, t, n, e + 1, back);
        }
    } else if q.kind is Verbatim {
        lemma_same_segment(raw, t, n, 4, back);
    }
}

/// Whether a path is verbatim, and neither `.`, `..` nor `/` stands in its names.
spec fn quiet_verbatim(t: Seq<char>) -> bool {
    let end = paths::prefix_end(t, Platform::Windows);
    &&& paths::verbatim(t, Platform::Windows)
    &&& end == t.len() || t[end] == '\\'
    &&& end < t.len() ==> dotless(t, end + 1, paths::Separators::Backslash)
    &&& forall|i: int| end < i < t.len() && t[i - 1] == '\\' ==> #[trigger] t[i] != '\\'
    &&& end + 1 < t.len() ==> t.last() != '\\'
    &&& forall|i: int| end <= i < t.len() ==> #[trigger] t[i] != '/'
}

proof fn lemma_names_without_slash(s: Seq<char>, from: int, seps: paths::Separators, first: bool)
    requires
        0 <= from,
        forall|i: int| from <= i < s.len() ==> #[trigger] s[i] != '/',
    ensures
        forall|i: int|
            #![trigger paths::body_parts(s, from, seps, first)[i]]
            0 <= i < paths::body_parts(s, from, seps, first).len() ==> (paths::body_parts(
                s,
                from,
                seps,
                first,
            )[i].comp matches paths::Comp::Normal(name) ==> forall|j: int|
                0 <= j < name.len() ==> #[trigger] name[j] != '/'),
    decreases s.len() - from,
{
    if from < s.len() {
        paths::lemma_segment_end(s, from, seps);
        let end = paths::segment_end(s, from, seps);
        if end < s.len() {
            lemma_names_without_slash(s, end + 1, seps, false);
        }
    }
}

/// Whether a list of components is a prefix, a root at most once behind it, and quiet names.
spec fn quiet_comps(buf: Seq<paths::Comp>, raw: Seq<char>) -> bool {
    &&& buf.len() > 0
    &&& buf[0] == paths::Comp::Prefix(raw)
    &&& forall|i: int|
        #![trigger buf[i]]
        1 <= i < buf.len() ==> match buf[i] {
            paths::Comp::RootDir => i == 1,
            paths::Comp::Normal(name) => plain_name(name, paths::Separators::Both) && name
                != dot_dot(),
            _ => false,
        }
}

proof fn lemma_quiet_verbatim_comps(t: Seq<char>)
    requires
        quiet_verbatim(t),
    ensures
        quiet_comps(
            paths::components(t, Platform::Windows),
            t.take(paths::prefix_end(t, Platform::Windows)),
        ),
        confined(t, Platform::Windows),
{
    let w = Platform::Windows;
    let back = paths::Separators::Backslash;
    let start = paths::body_start(t, w);
    lemma_components_well_formed(t, w);
    lemma_body_parts_well_formed(t, start, back, paths::bare(t, w));
    lemma_dotless_parts(t, start, back, paths::bare(t, w));
    lemma_names_without_slash(t, start, back, paths::bare(t, w));
}

proof fn lemma_quiet_push(
    buf: Seq<paths::Comp>,
    raw: Seq<char>,
    cs: Seq<paths::Comp>,
)
    requires
        quiet_comps(buf, raw),
        well_formed(cs, paths::Separators::Both),
        forall|i: int| #![trigger cs[i]] 0 <= i < cs.len() ==> !(cs[i] is Prefix),
    ensures
        quiet_comps(paths::pushed_all(buf, cs), raw),
    decreases cs.len(),
{
    if cs.len() > 0 {
        let front = cs.drop_last();
        lemma_quiet_push(buf, raw, front);
    }
}

/// Quiet components as they are written: the prefix, and behind it a separator and the names.
proof fn lemma_quiet_written(buf: Seq<paths::Comp>, raw: Seq<char>) -> (names: Seq<Seq<char>>)
    requires
        quiet_comps(buf, raw),
    ensures
        quiet_names(names),
        paths::written(buf) == if buf.len() == 1 {
            raw
        } else {
            raw.push('\\') + joined(names, '\\')
        },
        buf.len() > 1 ==> (names.len() == 0 <==> buf.last() is RootDir),
    decreases buf.len(),
{
    let front = buf.drop_last();
    let last = buf.last();
    if buf.len() == 1 {
        assert(paths::written(front) =~= seq![]);
        seq![]
    } else {
        let before = lemma_quiet_written(front, raw);
        match last {
            paths::Comp::Normal(name) => {
                let names = if front.len() == 1 {
                    seq![name]
                } else {
                    before.push(name)
                };
                if front.len() > 1 && before.len() > 0 {
                    assert(buf[buf.len() - 2] == front.last());
                    lemma_joined_push(before, name, '\\');
                }
                names
            },
            _ => seq![],
        }
    }
}

/// Joining a path without a prefix to a quiet verbatim path gives a quiet verbatim path.
proof fn lemma_quiet_join(t: Seq<char>, rel: Seq<char>)
    requires
        quiet_verbatim(t),
        paths::windows_prefix(rel) is None,
        rel.len() > 0,
    ensures
        quiet_verbatim(paths::join(t, rel, Platform::Windows)),
{
    let w = Platform::Windows;
    let n = paths::prefix_end(t, w);
    paths::lemma_prefix_end(t);
    let raw = t.take(n);
    let cs = paths::components(rel, w);
    lemma_prefix_again(t, raw);
    lemma_quiet_verbatim_comps(t);
    lemma_components_well_formed(rel, w);
    let buf = paths::pushed_all(paths::components(t, w), cs);
    lemma_quiet_push(paths::components(t, w), raw, cs);
    let names = lemma_quiet_written(buf, raw);
    lemma_quiet_again(raw, names, paths::written(buf));
}

/// A verbatim prefix with quiet names behind it is a quiet verbatim path.
#[verifier::spinoff_prover]
proof fn lemma_quiet_again(raw: Seq<char>, names: Seq<Seq<char>>, u: Seq<char>)
    requires
        paths::verbatim(raw, Platform::Windows),
        paths::prefix_end(raw, Platform::Windows) == raw.len(),
        quiet_names(names),
        u == raw || u == raw.push('\\') + joined(names, '\\'),
    ensures
        quiet_verbatim(u),
{
    let w = Platform::Windows;
    let back = paths::Separators::Backslash;
    let n = raw.len() as int;
    lemma_verbatim_again(raw, u);
    if u != raw {
        assert(u.subrange(n + 1, u.len() as int) =~= joined(names, '\\'));
        lemma_quiet_text(u, n + 1, names, back, '\\');
        let end = paths::prefix_end(u, w);
        if end < u.len() && end > n {
            lemma_dotless_later(u, n + 1, end + 1, back);
        }
        assert forall|i: int| end <= i < u.len() implies #[trigger] u[i] != '/' by {
            if i > n {
                assert(u[i] == '\\' || !paths::separates(u[i], paths::Separators::Both));
            }
        }
        assert forall|i: int| end < i < u.len() && u[i - 1] == '\\' implies #[trigger] u[i]
            != '\\' by {
            if i > n + 1 {
                assert(!paths::separates(u[i], paths::Separators::Both));
            } else {
                assert(i == n + 1);
                assert(!paths::separates(u[n + 1], paths::Separators::Both));
            }
        }
        if names.len() > 0 {
            assert(solid_names(names, paths::Separators::Both));
            lemma_joined_last(names, '\\', paths::Separators::Both);
            assert(u.last() == joined(names, '\\').last());
        }
    }
}

/// Whether a path holds neither `.` nor `..`.
pub open spec fn dotfree(s: Seq<char>, platform: Platform) -> bool {
    forall|i: int|
        #![trigger paths::components(s, platform)[i]]
        0 <= i < paths::components(s, platform).len() ==> !(paths::components(
            s,
            platform,
        )[i] is CurDir) && !(paths::components(s, platform)[i] is ParentDir)
}

/// Whether a path is absolute and holds neither `.` nor `..`.
pub open spec fn confined(s: Seq<char>, platform: Platform) -> bool {
    paths::absolute(s, platform) && dotfree(s, platform)
}

proof fn lemma_quiet_onto(t: Seq<char>, texts: Seq<Seq<char>>)
    requires
        quiet_verbatim(t),
        forall|i: int|
            #![trigger texts[i]]
            0 <= i < texts.len() ==> texts[i].len() > 0 && paths::windows_prefix(texts[i]) is None,
    ensures
        quiet_verbatim(joined_onto(t, texts, Platform::Windows)),
    decreases texts.len(),
{
    if texts.len() > 0 {
        let front = texts.drop_last();
        lemma_quiet_onto(t, front);
        lemma_quiet_join(joined_onto(t, front, Platform::Windows), texts.last());
    }
}

/// Whether none of the names that are left of a path carries a prefix, which on Windows would
/// replace what stands before it.
pub open spec fn prefixless(s: Seq<char>, platform: Platform) -> bool {
    platform is Windows ==> forall|i: int|
        0 <= i < resolved_names(s, platform).len() ==> paths::windows_prefix(
            #[trigger] resolved_names(s, platform)[i],
        ) is None
}

proof fn lemma_normal_verbatim(s: Seq<char>)
    requires
        paths::verbatim(s, Platform::Windows),
        prefixless(s, Platform::Windows),
    ensures
        quiet_verbatim(normalized(s, Platform::Windows)),
{
    let w = Platform::Windows;
    let cs = paths::components(s, w);
    let names = resolved_names(s, w);
    let heads = norm(cs).heads;
    let raw = s.take(paths::prefix_end(s, w));
    lemma_components_well_formed(s, w);
    lemma_norm_settled(cs, paths::Separators::Backslash);
    lemma_prefix_again(s, raw);
    let texts = head_texts(heads, w) + names;
    let more = texts.drop_first();
    let none: Seq<char> = seq![];
    let first: Seq<Seq<char>> = seq![raw];
    assert(texts =~= first + more);
    lemma_joined_onto_more(none, first, more, w);
    lemma_quiet_onto(raw, more);
}

/// A text that begins with the verbatim prefix of another one, and goes on as that does, has the
/// same prefix. Behind a server without a share, only a separator may follow.
proof fn lemma_verbatim_same(s: Seq<char>, t: Seq<char>)
    requires
        paths::verbatim(s, Platform::Windows),
        same_front(s, t, paths::prefix_end(s, Platform::Windows)),
        ({
            let n = paths::prefix_end(s, Platform::Windows);
            t.len() == n || {
                &&& t[n] == '\\'
                &&& s.len() > n
                &&& shareless(s, Platform::Windows) ==> t.len() == n + 1
            }
        }),
    ensures
        paths::windows_prefix(t) == paths::windows_prefix(s),
{
    let back = paths::Separators::Backslash;
    let q = paths::windows_prefix(s)->0;
    let n = q.end;
    if t.len() == n {
        lemma_prefix_again(s, t);
    } else {
        paths::lemma_prefix_end(s);
        paths::lemma_segment_end(s, 4, back);
        if s.len() >= 8 {
            paths::lemma_segment_end(s, 8, back);
            let e = paths::segment_end(s, 8, back);
            if e < s.len() {
                paths::lemma_segment_end(s, e + 1, back);
            }
        }
        if q.kind is VerbatimUnc {
            let e = paths::segment_end(s, 8, back);
            lemma_same_segment(s, t, n, 8, back);
            assert(t.subrange(8, e) =~= s.subrange(8, e));
            if q.second.len() > 0 {
                lemma_same_segment(s, t, n, e + 1, back);
                assert(t.subrange(e + 1, n) =~= s.subrange(e + 1, n));
            }
            assert(s[4] == t[4] && s[5] == t[5] && s[6] == t[6] && s[7] == t[7]);
        } else if q.kind is VerbatimDisk {
            assert(s[4] == t[4] && s[5] == t[5]);
        } else {
            lemma_same_segment(s, t, n, 4, back);
            assert(t.subrange(4, n) =~= s.subrange(4, n));
            assert(s[n] == '\\');
            if n >= 5 {
                assert(s[4] == t[4]);
            }
            if n >= 6 {
                assert(s[5] == t[5]);
            }
            if n >= 7 {
                assert(s[6] == t[6]);
            }
            if n >= 8 {
                assert(s[7] == t[7]);
            }
        }
    }
}

/// A verbatim prefix and a root, with names behind them, as they are written.
proof fn lemma_written_names(raw: Seq<char>, names: Seq<Seq<char>>)
    requires
        quiet_names(names),
    ensures
        paths::written(
            seq![paths::Comp::Prefix(raw), paths::Comp::RootDir] + name_comps(names),
        ) == raw.push('\\') + joined(names, '\\'),
    decreases names.len(),
{
    let heads = seq![paths::Comp::Prefix(raw), paths::Comp::RootDir];
    let all = heads + name_comps(names);
    if names.len() == 0 {
        let one = all.drop_last();
        assert(all =~= heads);
        assert(one =~= seq![paths::Comp::Prefix(raw)]);
        assert(one.drop_last() =~= seq![]);
        assert(paths::written(one.drop_last()) =~= seq![]);
        assert(paths::written(one) =~= raw);
        assert(paths::written(all) =~= raw.push('\\'));
        assert(raw.push('\\') + joined(names, '\\') =~= raw.push('\\'));
    } else {
        let front = names.drop_last();
        let last = names.last();
        assert(last == names[names.len() - 1]);
        assert forall|i: int| #![trigger front[i]] 0 <= i < front.len() implies front[i]
            == names[i] by {}
        lemma_written_names(raw, front);
        assert(all.drop_last() =~= heads + name_comps(front));
        assert(all.last() == paths::Comp::Normal(last));
        assert(front.push(last) =~= names);
        if front.len() > 0 {
            lemma_joined_push(front, last, '\\');
            assert(all[all.len() - 2] == name_comp(front.last()));
            assert(front.last() == front[front.len() - 1]);
        } else {
            assert(all[all.len() - 2] == heads[1]);
            assert(joined(front, '\\') =~= seq![]);
        }
        assert(paths::written(all) =~= raw.push('\\') + joined(names, '\\'));
    }
}

/// A verbatim prefix and a root, with names behind them, are read back as they are written.
#[verifier::spinoff_prover]
proof fn lemma_verbatim_comps(s: Seq<char>, names: Seq<Seq<char>>)
    requires
        paths::verbatim(s, Platform::Windows),
        s.len() > paths::prefix_end(s, Platform::Windows),
        names.len() > 0 ==> !shareless(s, Platform::Windows),
        quiet_names(names),
    ensures
        ({
            let raw = s.take(paths::prefix_end(s, Platform::Windows));
            let t = raw.push('\\') + joined(names, '\\');
            &&& paths::windows_prefix(t) == paths::windows_prefix(s)
            &&& paths::components(t, Platform::Windows) == seq![
                paths::Comp::Prefix(raw),
                paths::Comp::RootDir,
            ] + name_comps(names)
        }),
{
    let w = Platform::Windows;
    let back = paths::Separators::Backslash;
    let n = paths::prefix_end(s, w);
    paths::lemma_prefix_end(s);
    let raw = s.take(n);
    let t = raw.push('\\') + joined(names, '\\');
    assert forall|i: int| 0 <= i < n implies #[trigger] s[i] == t[i] by {
        assert(raw[i] == s[i]);
    }
    lemma_verbatim_same(s, t);
    assert(t.subrange(n + 1, t.len() as int) =~= joined(names, '\\'));
    assert(plain_names(names, back)) by {
        assert forall|i: int| #![trigger names[i]] 0 <= i < names.len() implies plain_name(
            names[i],
            back,
        ) by {
            assert forall|j: int| 0 <= j < names[i].len() implies !paths::separates(
                #[trigger] names[i][j],
                back,
            ) by {
                assert(!paths::separates(names[i][j], paths::Separators::Both));
            }
        }
    }
    lemma_parse_names(t, n + 1, names, back, '\\', false);
    let body = paths::body_parts(t, n + 1, back, false);
    let heads = paths::head_parts(t, w);
    let front = seq![paths::Comp::Prefix(raw), paths::Comp::RootDir];
    assert(t.take(n) =~= raw);
    assert(heads.len() == 2 && heads[0].comp == front[0] && heads[1].comp == front[1]);
    assert(paths::parts(t, w) == heads + body);
    assert(paths::components(t, w) =~= front + name_comps(names)) by {
        assert(forall|i: int| 0 <= i < names.len() ==> body[i].comp == name_comp(
            #[trigger] names[i],
        ));
    }
}

/// Names joined onto a verbatim prefix and a root are written behind them.
proof fn lemma_names_onto_verbatim(s: Seq<char>, names: Seq<Seq<char>>)
    requires
        paths::verbatim(s, Platform::Windows),
        s.len() > paths::prefix_end(s, Platform::Windows),
        names.len() > 0 ==> !shareless(s, Platform::Windows),
        quiet_names(names),
        driveless(names),
    ensures
        ({
            let base = s.take(paths::prefix_end(s, Platform::Windows)).push('\\');
            joined_onto(base, names, Platform::Windows) == base + joined(names, '\\')
        }),
    decreases names.len(),
{
    let w = Platform::Windows;
    let raw = s.take(paths::prefix_end(s, w));
    let base = raw.push('\\');
    if names.len() == 0 {
        assert(base + joined(names, '\\') =~= base);
    } else {
        let front = names.drop_last();
        let last = names.last();
        assert(last == names[names.len() - 1]);
        assert forall|i: int| #![trigger front[i]] 0 <= i < front.len() implies front[i]
            == names[i] by {}
        lemma_names_onto_verbatim(s, front);
        lemma_verbatim_comps(s, front);
        let t = base + joined(front, '\\');
        lemma_single_name(last);
        let one: Seq<paths::Comp> = seq![paths::Comp::Normal(last)];
        let buf = paths::components(t, w);
        assert(one.drop_last() =~= seq![]);
        assert(paths::pushed_all(buf, one.drop_last()) == buf);
        assert(paths::pushed_all(buf, one) == buf.push(paths::Comp::Normal(last)));
        let heads = seq![paths::Comp::Prefix(raw), paths::Comp::RootDir];
        assert(buf.push(paths::Comp::Normal(last)) =~= heads + name_comps(names));
        lemma_written_names(raw, names);
    }
}

/// A name is read as a single component.
proof fn lemma_single_name(name: Seq<char>)
    requires
        plain_name(name, paths::Separators::Both),
        name != dot_dot(),
        !paths::drive_at(name, 0),
    ensures
        paths::windows_prefix(name) is None,
        !paths::has_root(name, Platform::Windows),
        paths::components(name, Platform::Windows) == seq![paths::Comp::Normal(name)],
{
    let w = Platform::Windows;
    let both = paths::Separators::Both;
    assert(!paths::separates(name[0], both));
    let names = seq![name];
    assert(name.subrange(0, name.len() as int) =~= joined(names, '\\'));
    lemma_parse_names(name, 0, names, both, '\\', true);
    let body = paths::body_parts(name, 0, both, true);
    assert(names[0] == name);
    assert(paths::head_parts(name, w) =~= seq![]);
    assert(paths::parts(name, w) =~= body);
    assert(paths::components(name, w) =~= seq![paths::Comp::Normal(name)]);
}

/// The normal form of a verbatim path whose names stay what they are: its prefix, and behind it the
/// root and the names.
#[verifier::spinoff_prover]
proof fn lemma_verbatim_text(s: Seq<char>)
    requires
        paths::verbatim(s, Platform::Windows),
        readable(s, Platform::Windows),
    ensures
        ({
            let raw = s.take(paths::prefix_end(s, Platform::Windows));
            let names = resolved_names(s, Platform::Windows);
            let heads = norm(paths::components(s, Platform::Windows)).heads;
            &&& quiet_names(names)
            &&& if s.len() == raw.len() {
                &&& normalized(s, Platform::Windows) == raw
                &&& names == Seq::<Seq<char>>::empty()
                &&& heads == seq![paths::Comp::Prefix(raw)]
            } else {
                &&& normalized(s, Platform::Windows) == raw.push('\\') + joined(names, '\\')
                &&& heads == seq![paths::Comp::Prefix(raw), paths::Comp::RootDir]
            }
        }),
{
    let w = Platform::Windows;
    let back = paths::Separators::Backslash;
    let cs = paths::components(s, w);
    let names = resolved_names(s, w);
    let heads = norm(cs).heads;
    let n = paths::prefix_end(s, w);
    let raw = s.take(n);
    let none: Seq<char> = seq![];
    paths::lemma_prefix_end(s);
    lemma_components_well_formed(s, w);
    lemma_norm_settled(cs, back);
    lemma_prefix_again(s, raw);
    lemma_behind_verbatim(s);
    let parts = paths::head_parts(s, w);
    assert(heads.len() == parts.len());
    assert forall|i: int| 0 <= i < heads.len() implies #[trigger] heads[i] == parts[i].comp by {
        assert(heads[i] == cs[i]);
    }
    assert(quiet_names(names)) by {
        assert forall|i: int| #![trigger names[i]] 0 <= i < names.len() implies plain_name(
            names[i],
            paths::Separators::Both,
        ) && names[i] != dot_dot() by {
            assert(plain_name(names[i], back));
            assert forall|j: int| 0 <= j < names[i].len() implies !paths::separates(
                #[trigger] names[i][j],
                paths::Separators::Both,
            ) by {
                assert(!paths::separates(names[i][j], back));
                assert(names[i][j] != '/');
            }
        }
    }
    let texts = head_texts(heads, w);
    let first: Seq<Seq<char>> = seq![raw];
    assert(first.drop_last() =~= seq![]);
    assert(joined_onto(none, first.drop_last(), w) == none);
    assert(joined_onto(none, first, w) == raw);
    if s.len() == n {
        assert(paths::body_parts(s, n, back, false) =~= seq![]);
        assert(cs =~= seq![paths::Comp::Prefix(raw)]);
        assert(heads =~= seq![paths::Comp::Prefix(raw)]);
        assert(norm(cs.drop_last()).names =~= seq![]);
        assert(names =~= seq![]);
        assert(texts + names =~= first);
    } else {
        let root: Seq<char> = seq!['\\'];
        assert(heads =~= seq![paths::Comp::Prefix(raw), paths::Comp::RootDir]);
        assert(texts =~= first.push(root));
        assert(texts.drop_last() =~= first);
        lemma_root_onto_verbatim(raw);
        assert(joined_onto(none, texts, w) == raw.push('\\'));
        lemma_joined_onto_more(none, texts, names, w);
        lemma_names_onto_verbatim(s, names);
    }
}

/// Behind a verbatim prefix, a separator stands or nothing.
proof fn lemma_behind_verbatim(s: Seq<char>)
    requires
        paths::verbatim(s, Platform::Windows),
    ensures
        paths::prefix_end(s, Platform::Windows) < s.len() ==> paths::written_root(
            s,
            Platform::Windows,
        ),
{
    let back = paths::Separators::Backslash;
    paths::lemma_segment_end(s, 4, back);
    if s.len() >= 8 {
        paths::lemma_segment_end(s, 8, back);
        let e = paths::segment_end(s, 8, back);
        if e < s.len() {
            paths::lemma_segment_end(s, e + 1, back);
        }
    }
}

/// A root joined onto a verbatim prefix.
proof fn lemma_root_onto_verbatim(raw: Seq<char>)
    requires
        paths::verbatim(raw, Platform::Windows),
        paths::prefix_end(raw, Platform::Windows) == raw.len(),
    ensures
        paths::join(raw, seq!['\\'], Platform::Windows) == raw.push('\\'),
{
    let w = Platform::Windows;
    let root: Seq<char> = seq!['\\'];
    let none: Seq<Seq<char>> = seq![];
    assert(paths::windows_prefix(root) is None);
    assert(paths::written_root(root, w));
    assert(paths::components(root, w) =~= seq![paths::Comp::RootDir]) by {
        assert(paths::body_parts(root, 1, paths::Separators::Both, false) =~= seq![]);
    }
    let one: Seq<paths::Comp> = seq![paths::Comp::Prefix(raw)];
    assert(paths::components(raw, w) =~= one) by {
        assert(raw.take(raw.len() as int) =~= raw);
        assert(paths::body_parts(
            raw,
            raw.len() as int,
            paths::Separators::Backslash,
            false,
        ) =~= seq![]);
    }
    let cs: Seq<paths::Comp> = seq![paths::Comp::RootDir];
    assert(cs.drop_last() =~= seq![]);
    assert(paths::pushed_all(one, cs.drop_last()) == one);
    assert(paths::pushed_all(one, cs) == one.push(paths::Comp::RootDir));
    lemma_written_names(raw, none);
    assert(one.push(paths::Comp::RootDir) =~= seq![
        paths::Comp::Prefix(raw),
        paths::Comp::RootDir,
    ] + name_comps(none));
    assert(raw.push('\\') + joined(none, '\\') =~= raw.push('\\'));
}

/// The normal form of a verbatim path whose names stay what they are has the components that
/// resolving gives.
proof fn lemma_verbatim_parses_back(s: Seq<char>)
    requires
        paths::verbatim(s, Platform::Windows),
        readable(s, Platform::Windows),
    ensures
        paths::components(normalized(s, Platform::Windows), Platform::Windows) == normal_comps(
            s,
            Platform::Windows,
        ),
        paths::absolute(normalized(s, Platform::Windows), Platform::Windows),
{
    let w = Platform::Windows;
    let n = paths::prefix_end(s, w);
    let raw = s.take(n);
    let names = resolved_names(s, w);
    paths::lemma_prefix_end(s);
    lemma_verbatim_text(s);
    if s.len() == n {
        lemma_prefix_again(s, raw);
        assert(raw.take(n) =~= raw);
        assert(paths::body_parts(raw, n, paths::Separators::Backslash, false) =~= seq![]);
        assert(paths::components(raw, w) =~= normal_comps(s, w));
    } else {
        lemma_verbatim_comps(s, names);
    }
}

/// The names of a text without empty names and dots, joined again, give the text.
proof fn lemma_rejoin(s: Seq<char>, from: int) -> (names: Seq<Seq<char>>)
    requires
        0 <= from <= s.len(),
        dotless(s, from, paths::Separators::Backslash),
        from < s.len() ==> s[from] != '\\' && s.last() != '\\',
        forall|i: int| from < i < s.len() && s[i - 1] == '\\' ==> #[trigger] s[i] != '\\',
    ensures
        joined(names, '\\') == s.subrange(from, s.len() as int),
        plain_names(names, paths::Separators::Backslash),
        forall|i: int| 0 <= i < names.len() ==> #[trigger] names[i] != dot_dot(),
        names.len() == 0 <==> from == s.len(),
    decreases s.len() - from,
{
    let back = paths::Separators::Backslash;
    if from == s.len() {
        assert(s.subrange(from, s.len() as int) =~= seq![]);
        seq![]
    } else {
        paths::lemma_segment_end(s, from, back);
        let end = paths::segment_end(s, from, back);
        let name = s.subrange(from, end);
        assert(end > from);
        assert forall|j: int| 0 <= j < name.len() implies !paths::separates(
            #[trigger] name[j],
            back,
        ) by {
            assert(name[j] == s[from + j]);
        }
        if end == s.len() {
            seq![name]
        } else {
            assert(end + 1 < s.len());
            let more = lemma_rejoin(s, end + 1);
            let names = seq![name] + more;
            assert(names.drop_first() =~= more);
            assert(joined(names, '\\') =~= s.subrange(from, s.len() as int));
            assert forall|i: int| #![trigger names[i]] 0 <= i < names.len() implies plain_name(
                names[i],
                back,
            ) && names[i] != dot_dot() by {
                if i > 0 {
                    assert(names[i] == more[i - 1]);
                }
            }
            names
        }
    }
}

/// A quiet verbatim path of which no name begins with a drive is its own normal form.
#[verifier::spinoff_prover]
proof fn lemma_quiet_verbatim_stays(t: Seq<char>)
    requires
        quiet_verbatim(t),
        driveless(resolved_names(t, Platform::Windows)),
    ensures
        normalized(t, Platform::Windows) == t,
{
    let w = Platform::Windows;
    let back = paths::Separators::Backslash;
    let n = paths::prefix_end(t, w);
    let raw = t.take(n);
    paths::lemma_prefix_end(t);
    if n == t.len() {
        assert(raw =~= t);
        assert(paths::body_parts(t, n, back, false) =~= seq![]);
        let cs = paths::components(t, w);
        assert(cs =~= seq![paths::Comp::Prefix(raw)]);
        assert(norm(cs.drop_last()).names =~= seq![]);
        assert(resolved_names(t, w) =~= seq![]);
        lemma_verbatim_text(t);
    } else {
        let names = lemma_rejoin(t, n + 1);
        assert(t =~= raw.push('\\') + joined(names, '\\')) by {
            assert(t.subrange(n + 1, t.len() as int) == joined(names, '\\'));
            assert forall|i: int| 0 <= i < t.len() implies t[i] == (raw.push('\\') + joined(
                names,
                '\\',
            ))[i] by {
                if i > n {
                    assert(t[i] == t.subrange(n + 1, t.len() as int)[i - n - 1]);
                }
            }
        }
        lemma_parse_names(t, n + 1, names, back, '\\', false);
        let body = paths::body_parts(t, n + 1, back, false);
        let heads = paths::head_parts(t, w);
        let front = seq![paths::Comp::Prefix(raw), paths::Comp::RootDir];
        assert(heads.len() == 2 && heads[0].comp == front[0] && heads[1].comp == front[1]);
        assert(paths::parts(t, w) == heads + body);
        assert(paths::components(t, w) =~= front + name_comps(names)) by {
            assert(forall|i: int| 0 <= i < names.len() ==> body[i].comp == name_comp(
                #[trigger] names[i],
            ));
        }
        lemma_norm_of_settled(front, names, back);
        assert(resolved_names(t, w) == names);
        lemma_quiet_verbatim_comps(t);
        let cs = paths::components(t, w);
        assert forall|i: int, j: int|
            0 <= i < names.len() && 0 <= j < names[i].len() implies #[trigger] names[i][j]
            != '/' by {
            assert(cs[i + 2] == name_comp(names[i]));
            assert(!paths::separates(names[i][j], paths::Separators::Both));
        }
        assert(names.len() > 0 ==> !shareless(t, w)) by {
            if names.len() > 0 && shareless(t, w) {
                paths::lemma_segment_end(t, n + 1, back);
                assert(t[n + 1] != '\\');
            }
        }
        lemma_verbatim_text(t);
    }
}

/// Whether a path that is not verbatim has a prefix and a root, and neither `.`, `..` nor `/`
/// stands in its names.
spec fn quiet_plain(t: Seq<char>) -> bool {
    let end = paths::prefix_end(t, Platform::Windows);
    &&& paths::prefix(t, Platform::Windows) is Some
    &&& !paths::verbatim(t, Platform::Windows)
    &&& end == t.len() || t[end] == '\\'
    &&& end == t.len() ==> paths::implied_root(t, Platform::Windows)
    &&& end < t.len() ==> dotless(t, end + 1, paths::Separators::Backslash)
    &&& forall|i: int| end <= i < t.len() ==> #[trigger] t[i] != '/'
}

proof fn lemma_dotless_both(s: Seq<char>, from: int)
    requires
        0 <= from <= s.len(),
        dotless(s, from, paths::Separators::Backslash),
        forall|i: int| from <= i < s.len() ==> #[trigger] s[i] != '/',
    ensures
        dotless(s, from, paths::Separators::Both),
    decreases s.len() - from,
{
    let back = paths::Separators::Backslash;
    paths::lemma_segment_end(s, from, back);
    let end = paths::segment_end(s, from, back);
    lemma_segment_end_at(s, from, paths::Separators::Both, end);
    if from < s.len() && end < s.len() {
        lemma_dotless_both(s, end + 1);
    }
}

proof fn lemma_quiet_plain_confined(t: Seq<char>)
    requires
        quiet_plain(t),
    ensures
        confined(t, Platform::Windows),
{
    let w = Platform::Windows;
    let start = paths::body_start(t, w);
    paths::lemma_prefix_end(t);
    if paths::prefix_end(t, w) < t.len() {
        lemma_dotless_both(t, start);
    }
    lemma_dotless_parts(t, start, paths::Separators::Both, paths::bare(t, w));
}

proof fn lemma_normal_plain(s: Seq<char>)
    requires
        paths::absolute(s, Platform::Windows),
        !paths::verbatim(s, Platform::Windows),
        prefixless(s, Platform::Windows),
    ensures
        quiet_plain(normalized(s, Platform::Windows)),
{
    let w = Platform::Windows;
    let names = resolved_names(s, w);
    let t = normalized(s, w);
    lemma_normal_text(s, w);
    lemma_head_text(s, w);
    let h = head_text(s, w);
    lemma_head_stays(h, names, w);
    paths::lemma_prefix_end(s);
    let n = h.len() as int;
    assert(t.subrange(n, t.len() as int) =~= joined(names, '\\'));
    lemma_quiet_text(t, n, names, paths::Separators::Backslash, '\\');
}

/// The normal form of an absolute path is absolute and holds neither `.` nor `..`, so that it
/// cannot lead out of the directories that it names. On Windows, no name that is left may carry a
/// prefix.
pub proof fn law_normal_form_is_confined(s: Seq<char>, platform: Platform)
    requires
        paths::absolute(s, platform),
        prefixless(s, platform),
    ensures
        confined(normalized(s, platform), platform),
{
    match platform {
        Platform::Unix => {
            let t = normalized(s, platform);
            law_normal_form_parses_back(s, platform);
            assert forall|i: int|
                #![trigger paths::components(t, platform)[i]]
                0 <= i < paths::components(t, platform).len() implies !(paths::components(
                t,
                platform,
            )[i] is CurDir) && !(paths::components(t, platform)[i] is ParentDir) by {
                law_normal_form_does_not_climb(s, i, platform);
            }
        },
        Platform::Windows => {
            if paths::verbatim(s, platform) {
                lemma_normal_verbatim(s);
                lemma_quiet_verbatim_comps(normalized(s, platform));
            } else {
                lemma_normal_plain(s);
                lemma_quiet_plain_confined(normalized(s, platform));
            }
        },
    }
}

/// Whether one text ends as another one does, from a position in each on.
spec fn same_back(s: Seq<char>, a: int, t: Seq<char>, b: int) -> bool {
    &&& 0 <= a <= s.len()
    &&& 0 <= b <= t.len()
    &&& s.len() - a == t.len() - b
    &&& forall|i: int| a <= i < s.len() ==> #[trigger] s[i] == t[i - a + b]
}

proof fn lemma_segment_end_shift(
    s: Seq<char>,
    a: int,
    t: Seq<char>,
    b: int,
    seps: paths::Separators,
)
    requires
        same_back(s, a, t, b),
    ensures
        paths::segment_end(t, b, seps) - b == paths::segment_end(s, a, seps) - a,
{
    paths::lemma_segment_end(s, a, seps);
    let e = paths::segment_end(s, a, seps);
    let f = e - a + b;
    assert forall|j: int| b <= j < f implies !paths::separates(#[trigger] t[j], seps) by {
        assert(s[j - b + a] == t[j]);
    }
    lemma_segment_end_at(t, b, seps, f);
}

proof fn lemma_dotless_shift(
    s: Seq<char>,
    a: int,
    t: Seq<char>,
    b: int,
    seps: paths::Separators,
)
    requires
        same_back(s, a, t, b),
        dotless(s, a, seps),
    ensures
        dotless(t, b, seps),
    decreases s.len() - a,
{
    paths::lemma_segment_end(s, a, seps);
    lemma_segment_end_shift(s, a, t, b, seps);
    let e = paths::segment_end(s, a, seps);
    let f = paths::segment_end(t, b, seps);
    if a < s.len() {
        assert(t.subrange(b, f) =~= s.subrange(a, e));
        if e < s.len() {
            lemma_dotless_shift(s, e + 1, t, f + 1, seps);
        }
    }
}

proof fn lemma_segment_end_both(s: Seq<char>, from: int)
    requires
        0 <= from <= s.len(),
        forall|i: int| from <= i < s.len() ==> #[trigger] s[i] != '/',
    ensures
        paths::segment_end(s, from, paths::Separators::Both) == paths::segment_end(
            s,
            from,
            paths::Separators::Backslash,
        ),
{
    let back = paths::Separators::Backslash;
    paths::lemma_segment_end(s, from, back);
    let end = paths::segment_end(s, from, back);
    lemma_segment_end_at(s, from, paths::Separators::Both, end);
}

/// Whether a verbatim prefix is written without `/`.
pub open spec fn slashless_prefix(s: Seq<char>, platform: Platform) -> bool {
    paths::verbatim(s, platform) ==> forall|i: int|
        0 <= i < paths::prefix_end(s, platform) ==> #[trigger] s[i] != '/'
}

/// A drive that stood behind a verbatim prefix, with quiet names behind it.
proof fn lemma_stripped_drive(t: Seq<char>, r: Seq<char>)
    requires
        quiet_verbatim(t) || quiet_plain(t),
        t.len() >= 4,
        r == t.skip(4),
        paths::prefix_end(t, Platform::Windows) >= 4,
        r.len() > 0 ==> !paths::separates(r[0], paths::Separators::Both) || r.len() == 1
            || !paths::separates(r[1], paths::Separators::Both),
        forall|i: int|
            4 <= i < paths::prefix_end(t, Platform::Windows) ==> !paths::separates(
                #[trigger] t[i],
                paths::Separators::Both,
            ),
        paths::absolute(r, Platform::Windows),
    ensures
        confined(r, Platform::Windows),
{
    paths::lemma_prefix_end(t);
    assert(same_back(t, 7, r, 3));
    lemma_dotless_shift(t, 7, r, 3, paths::Separators::Backslash);
    lemma_quiet_plain_confined(r);
}

/// A share whose server is called `?`, so that what is left is a verbatim path again.
#[verifier::spinoff_prover]
proof fn lemma_stripped_verbatim_share(t: Seq<char>, r: Seq<char>)
    requires
        quiet_verbatim(t),
        slashless_prefix(t, Platform::Windows),
        paths::prefix(t, Platform::Windows)->0.kind is VerbatimUnc,
        t.len() >= 8,
        t[7] == '\\',
        r.len() == t.len() - 6,
        forall|i: int| 1 <= i < r.len() ==> #[trigger] r[i] == t[i + 6],
        paths::verbatim_mark(r),
    ensures
        confined(r, Platform::Windows),
{
    let w = Platform::Windows;
    let back = paths::Separators::Backslash;
    let end = paths::prefix_end(t, w);
    let cut = end - 6;
    paths::lemma_prefix_end(t);
    lemma_segment_end_at(t, 8, back, 9);
    paths::lemma_segment_end(t, 10, back);
    if end == 9 {
        // No share: nothing stands behind the server but a separator.
        assert(r.len() == 4) by {
            if t.len() > 10 {
                assert(t[10] != '\\');
            }
        }
        lemma_quiet_verbatim_comps(r);
    } else {
        let raw = r.take(cut);
        lemma_segment_end_at(raw, 4, back, cut);
        if raw.len() >= 7 {
            assert(!paths::separates(raw[6], back));
        }
        assert(paths::prefix_end(raw, w) == raw.len());
        if end < t.len() {
            lemma_dotless_shift(t, end + 1, r, cut + 1, back);
        }
        lemma_verbatim_again(raw, r);
        let stop = paths::prefix_end(r, w);
        if stop < r.len() && stop > cut {
            lemma_dotless_later(r, cut + 1, stop + 1, back);
        }
        lemma_quiet_verbatim_comps(r);
    }
}

/// A share that stood behind a verbatim prefix, with quiet names behind it.
#[verifier::spinoff_prover]
proof fn lemma_stripped_share(t: Seq<char>, r: Seq<char>)
    requires
        quiet_verbatim(t),
        slashless_prefix(t, Platform::Windows),
        paths::prefix(t, Platform::Windows)->0.kind is VerbatimUnc,
        t.len() >= 8,
        t[7] == '\\',
        r == seq!['\\'] + t.skip(7),
        paths::absolute(r, Platform::Windows),
    ensures
        confined(r, Platform::Windows),
{
    let w = Platform::Windows;
    let back = paths::Separators::Backslash;
    let end = paths::prefix_end(t, w);
    paths::lemma_prefix_end(t);
    paths::lemma_prefix_end(r);
    paths::lemma_segment_end(t, 8, back);
    let e = paths::segment_end(t, 8, back);
    if e < t.len() {
        paths::lemma_segment_end(t, e + 1, back);
    }
    assert forall|i: int| 1 <= i < r.len() implies #[trigger] r[i] == t[i + 6] by {}
    lemma_segment_end_shift(t, 8, r, 2, back);
    lemma_segment_end_both(r, 2);
    let cut = end - 6;
    if end < t.len() {
        lemma_dotless_shift(t, end + 1, r, cut + 1, back);
    }
    if e < t.len() {
        lemma_segment_end_shift(t, e + 1, r, e - 5, back);
        lemma_segment_end_both(r, e - 5);
    }
    if paths::verbatim_mark(r) {
        lemma_stripped_verbatim_share(t, r);
    } else if paths::device_mark(r) {
        assert(e == 9);
        lemma_segment_end_both(r, 4);
        paths::lemma_segment_end(r, 4, back);
        lemma_quiet_plain_confined(r);
    } else {
        lemma_quiet_plain_confined(r);
    }
}

/// A path that was confined before its verbatim prefix was stripped is so afterwards, if it is
/// still absolute. A prefix other than a drive or a share leaves no absolute path.
proof fn lemma_stripped_confined(t: Seq<char>)
    requires
        quiet_verbatim(t) || quiet_plain(t),
        slashless_prefix(t, Platform::Windows),
        paths::absolute(unc_stripped(t, Platform::Windows), Platform::Windows),
    ensures
        confined(unc_stripped(t, Platform::Windows), Platform::Windows),
{
    let w = Platform::Windows;
    let back = paths::Separators::Backslash;
    let r = unc_stripped(t, w);
    reveal_strlit("\\\\?\\");
    reveal_strlit("//?/");
    reveal_strlit("UNC");
    paths::lemma_prefix_end(t);
    if text::starts_with(t, "\\\\?\\"@) {
        assert(t.subrange(0, 4)[0] == t[0] && t.subrange(0, 4)[1] == t[1]);
        assert(t.subrange(0, 4)[2] == t[2] && t.subrange(0, 4)[3] == t[3]);
        let rest = t.skip(4);
        let q = paths::windows_prefix(t)->0;
        if q.kind is VerbatimUnc {
            assert(rest.skip(3) =~= t.skip(7));
            lemma_stripped_share(t, r);
        } else {
            paths::lemma_segment_end(t, 4, back);
            assert(r == rest) by {
                if text::starts_with(rest, "UNC"@) && rest.skip(3).len() > 0 && rest.skip(3)[0]
                    == '\\' {
                    let front = rest.subrange(0, 3);
                    assert(front[0] == t[4] && front[1] == t[5] && front[2] == t[6]);
                }
            }
            lemma_stripped_drive(t, r);
        }
    } else if text::starts_with(t, "//?/"@) {
        assert(t.subrange(0, 4)[2] == t[2] && t.subrange(0, 4)[3] == t[3]);
        lemma_segment_end_at(t, 2, paths::Separators::Both, 3);
        paths::lemma_segment_end(t, 4, paths::Separators::Both);
        lemma_stripped_drive(t, r);
    } else if quiet_verbatim(t) {
        lemma_quiet_verbatim_comps(t);
    } else {
        lemma_quiet_plain_confined(t);
    }
}

/// The canonical form of a path that does not exist is absolute and holds neither `.` nor `..`, so
/// that no traversal survives in it.
///
/// The path must be absolute when it has been put behind its closest existing ancestor. On
/// Windows, no name that is left of it may carry a prefix. Stripping a verbatim prefix keeps the
/// path as it is, as long as it leaves an absolute path and the prefix was written without `/`.
pub proof fn law_missing_paths_are_confined(
    s: Seq<char>,
    cwd: Seq<char>,
    resolved: Seq<Option<Seq<char>>>,
    platform: Platform,
)
    requires
        paths::absolute(anchored(s, cwd, resolved, platform), platform),
        prefixless(anchored(s, cwd, resolved, platform), platform),
    ensures
        confined(normalized(anchored(s, cwd, resolved, platform), platform), platform),
        platform is Unix ==> confined(canonical_form(s, None, cwd, resolved, platform), platform),
        slashless_prefix(normalized(anchored(s, cwd, resolved, platform), platform), platform)
            && paths::absolute(canonical_form(s, None, cwd, resolved, platform), platform)
            ==> confined(canonical_form(s, None, cwd, resolved, platform), platform),
{
    let x = anchored(s, cwd, resolved, platform);
    let t = normalized(x, platform);
    law_normal_form_is_confined(x, platform);
    if platform is Windows {
        if paths::verbatim(x, platform) {
            lemma_normal_verbatim(x);
        } else {
            lemma_normal_plain(x);
        }
        if slashless_prefix(t, platform) && paths::absolute(unc_stripped(t, platform), platform) {
            lemma_stripped_confined(t);
        }
    }
}

/// The canonical form of a missing path on Windows that a name with a drive overtakes is not
/// absolute, but holds neither `.` nor `..` either, unless `..` follows that drive.
pub proof fn law_overtaken_paths_do_not_climb(
    s: Seq<char>,
    cwd: Seq<char>,
    resolved: Seq<Option<Seq<char>>>,
)
    requires
        ({
            let x = anchored(s, cwd, resolved, Platform::Windows);
            &&& overtaken(x, Platform::Windows)
            &&& behind_drive(resolved_names(x, Platform::Windows)) != Some(dot_dot())
        }),
    ensures
        dotfree(
            canonical_form(s, None, cwd, resolved, Platform::Windows),
            Platform::Windows,
        ),
{
    let x = anchored(s, cwd, resolved, Platform::Windows);
    let t = normalized(x, Platform::Windows);
    lemma_overtaken(x);
    lemma_overtaken_quiet(x);
    reveal_strlit("\\\\?\\");
    reveal_strlit("//?/");
    assert(unc_stripped(t, Platform::Windows) == t) by {
        if t.len() >= 4 {
            assert(t.subrange(0, 4)[0] == t[0]);
        }
    }
}

proof fn lemma_prefix_kept(buf: Seq<paths::Comp>, cs: Seq<paths::Comp>)
    requires
        buf.len() > 0,
        buf[0] is Prefix,
    ensures
        paths::pushed_all(buf, cs).len() > 0,
        paths::pushed_all(buf, cs)[0] == buf[0],
    decreases cs.len(),
{
    if cs.len() > 0 {
        lemma_prefix_kept(buf, cs.drop_last());
    }
}

proof fn lemma_written_front(buf: Seq<paths::Comp>)
    requires
        buf.len() > 0,
        buf[0] is Prefix,
    ensures
        same_front(buf[0]->Prefix_0, paths::written(buf), buf[0]->Prefix_0.len() as int),
    decreases buf.len(),
{
    let front = buf.drop_last();
    if buf.len() == 1 {
        assert(paths::written(front) =~= seq![]);
    } else {
        lemma_written_front(front);
    }
}

/// A path without a prefix, seen from an absolute path, is absolute.
proof fn lemma_join_absolute(base: Seq<char>, rel: Seq<char>, platform: Platform)
    requires
        paths::absolute(base, platform),
        paths::prefix(rel, platform) is None,
    ensures
        paths::absolute(paths::join(base, rel, platform), platform),
{
    let t = paths::join(base, rel, platform);
    match platform {
        Platform::Unix => {},
        Platform::Windows => {
            let end = paths::prefix_end(base, platform);
            paths::lemma_prefix_end(base);
            if paths::verbatim(base, platform) {
                if rel.len() > 0 {
                    let cs = paths::components(base, platform);
                    let buf = paths::pushed_all(cs, paths::components(rel, platform));
                    lemma_prefix_kept(cs, paths::components(rel, platform));
                    lemma_written_front(buf);
                    let raw = base.take(end);
                    lemma_prefix_again(base, raw);
                    paths::lemma_prefix_end(raw);
                }
            } else if paths::device_mark(base) {
                lemma_device_behind(base);
            } else {
                lemma_separator_behind(base);
                if !paths::has_root(rel, platform) && base.len() > end {
                    assert(t[end] == base[end]);
                }
                lemma_prefix_again(base, t);
            }
        },
    }
}

/// The mark of a device lies within its prefix.
proof fn lemma_device_behind(base: Seq<char>)
    requires
        paths::device_mark(base),
    ensures
        4 <= paths::prefix_end(base, Platform::Windows) <= base.len(),
{
    paths::lemma_segment_end(base, 4, paths::Separators::Both);
}

/// Behind the drive or the share of an absolute path, a separator stands or nothing. Where
/// nothing stands, the prefix is a share, which does not end in a separator.
proof fn lemma_separator_behind(base: Seq<char>)
    requires
        paths::absolute(base, Platform::Windows),
        !paths::verbatim(base, Platform::Windows),
        !paths::device_mark(base),
    ensures
        ({
            let end = paths::prefix_end(base, Platform::Windows);
            &&& 2 <= end <= base.len()
            &&& end < base.len() ==> paths::separates(base[end], paths::Separators::Both)
            &&& end == base.len() ==> !paths::separates(base.last(), paths::Separators::Both)
                && !paths::only_drive(base)
        }),
{
    paths::lemma_prefix_end(base);
    if paths::two_separators(base) {
        paths::lemma_segment_end(base, 2, paths::Separators::Both);
        let e = paths::segment_end(base, 2, paths::Separators::Both);
        if e < base.len() {
            paths::lemma_segment_end(base, e + 1, paths::Separators::Both);
        }
    }
}

/// Whether what follows an ancestor of a path never carries a prefix.
pub open spec fn plain_suffixes(abs: Seq<char>, platform: Platform) -> bool {
    forall|i: int|
        0 <= i < paths::ancestors(abs, platform).len() ==> (paths::strip_prefix(
            abs,
            #[trigger] paths::ancestors(abs, platform)[i],
            platform,
        ) matches Some(suffix) ==> paths::prefix(suffix, platform) is None)
}

proof fn lemma_anchored_absolute(
    abs: Seq<char>,
    resolved: Seq<Option<Seq<char>>>,
    i: int,
    platform: Platform,
)
    requires
        0 <= i,
        paths::absolute(abs, platform),
        plain_suffixes(abs, platform),
        forall|j: int|
            0 <= j < resolved.len() ==> (#[trigger] resolved[j] matches Some(c)
                ==> paths::absolute(c, platform)),
    ensures
        paths::absolute(anchored_at(abs, resolved, i, platform), platform),
    decreases paths::ancestors(abs, platform).len() - i,
{
    let ancs = paths::ancestors(abs, platform);
    if i < ancs.len() {
        match (answer(resolved, i), paths::strip_prefix(abs, ancs[i], platform)) {
            (Some(base), Some(suffix)) => {
                lemma_join_absolute(base, suffix, platform);
            },
            _ => {
                lemma_anchored_absolute(abs, resolved, i + 1, platform);
            },
        }
    }
}

/// A path that is put behind its closest existing ancestor is absolute, as long as the working
/// directory and the answers of the file system are. On Windows, a path with a drive and no root
/// is left out, and so is one in which a prefix stands behind an ancestor.
pub proof fn law_anchored_paths_are_absolute(
    s: Seq<char>,
    cwd: Seq<char>,
    resolved: Seq<Option<Seq<char>>>,
    platform: Platform,
)
    requires
        paths::absolute(cwd, platform),
        forall|j: int|
            0 <= j < resolved.len() ==> (#[trigger] resolved[j] matches Some(c)
                ==> paths::absolute(c, platform)),
        paths::prefix(s, platform) is None || paths::absolute(s, platform),
        plain_suffixes(made_absolute(s, cwd, platform), platform),
    ensures
        paths::absolute(anchored(s, cwd, resolved, platform), platform),
{
    if !paths::absolute(s, platform) {
        lemma_join_absolute(cwd, s, platform);
    }
    lemma_anchored_absolute(made_absolute(s, cwd, platform), resolved, 0, platform);
}

/// On Unix, every path that does not exist has an absolute canonical form that holds neither `.`
/// nor `..`, as long as the working directory and the answers of the file system are absolute.
pub proof fn law_missing_unix_paths_are_confined(
    s: Seq<char>,
    cwd: Seq<char>,
    resolved: Seq<Option<Seq<char>>>,
)
    requires
        paths::absolute(cwd, Platform::Unix),
        forall|j: int|
            0 <= j < resolved.len() ==> (#[trigger] resolved[j] matches Some(c)
                ==> paths::absolute(c, Platform::Unix)),
    ensures
        confined(canonical_form(s, None, cwd, resolved, Platform::Unix), Platform::Unix),
{
    law_anchored_paths_are_absolute(s, cwd, resolved, Platform::Unix);
    law_missing_paths_are_confined(s, cwd, resolved, Platform::Unix);
}

/// On Unix, stripping a UNC prefix changes nothing.
pub proof fn law_unc_prefix_is_kept_on_unix(s: Seq<char>)
    ensures
        unc_stripped(s, Platform::Unix) == s,
{
}

// ---------------------------------------------------------------------------
// What is done with a path that does not exist
// ---------------------------------------------------------------------------

/// The closest existing ancestor decides. Where no ancestor before the `i`-th, counted from the
/// parent upwards, has a canonical form, and the `i`-th has, the path is put behind that form with
/// what follows the ancestor, whatever the ancestors above it resolve to.
pub proof fn law_closest_existing_ancestor_decides(
    s: Seq<char>,
    cwd: Seq<char>,
    resolved: Seq<Option<Seq<char>>>,
    i: int,
    base: Seq<char>,
    suffix: Seq<char>,
    platform: Platform,
)
    requires
        0 <= i < paths::ancestors(made_absolute(s, cwd, platform), platform).len(),
        i < resolved.len(),
        forall|j: int| 0 <= j < i ==> #[trigger] resolved[j] is None,
        resolved[i] == Some(base),
        paths::strip_prefix(
            made_absolute(s, cwd, platform),
            paths::ancestors(made_absolute(s, cwd, platform), platform)[i],
            platform,
        ) == Some(suffix),
    ensures
        canonical_form(s, None, cwd, resolved, platform) == unc_stripped(
            normalized(paths::join(base, suffix, platform), platform),
            platform,
        ),
{
    lemma_anchored_from(made_absolute(s, cwd, platform), resolved, 0, i, platform);
}

proof fn lemma_anchored_from(
    abs: Seq<char>,
    resolved: Seq<Option<Seq<char>>>,
    from: int,
    i: int,
    platform: Platform,
)
    requires
        0 <= from <= i <= paths::ancestors(abs, platform).len(),
        forall|j: int| from <= j < i && j < resolved.len() ==> #[trigger] resolved[j] is None,
    ensures
        anchored_at(abs, resolved, from, platform) == anchored_at(abs, resolved, i, platform),
    decreases i - from,
{
    if from < i {
        lemma_anchored_from(abs, resolved, from + 1, i, platform);
    }
}

/// Where no ancestor exists, the path is made absolute and resolved by its text alone. Where the
/// path itself exists, its canonical form is taken as the file system gives it, but for the verbatim
/// prefix.
pub proof fn law_text_decides_without_ancestors(
    s: Seq<char>,
    canonical: Seq<char>,
    cwd: Seq<char>,
    resolved: Seq<Option<Seq<char>>>,
    platform: Platform,
)
    ensures
        canonical_form(s, Some(canonical), cwd, resolved, platform) == unc_stripped(
            canonical,
            platform,
        ),
        (forall|j: int| 0 <= j < resolved.len() ==> #[trigger] resolved[j] is None)
            ==> canonical_form(s, None, cwd, resolved, platform) == unc_stripped(
            normalized(made_absolute(s, cwd, platform), platform),
            platform,
        ),
{
    let abs = made_absolute(s, cwd, platform);
    if forall|j: int| 0 <= j < resolved.len() ==> #[trigger] resolved[j] is None {
        lemma_anchored_from(
            abs,
            resolved,
            0,
            paths::ancestors(abs, platform).len() as int,
            platform,
        );
    }
}

/// An absolute path stays as it is. A relative one is seen from the working directory.
pub proof fn law_relative_paths_start_at_the_working_directory(
    s: Seq<char>,
    cwd: Seq<char>,
    resolved: Seq<Option<Seq<char>>>,
    platform: Platform,
)
    requires
        paths::absolute(paths::join(cwd, s, platform), platform),
    ensures
        paths::absolute(s, platform) ==> made_absolute(s, cwd, platform) == s,
        !paths::absolute(s, platform) ==> canonical_form(s, None, cwd, resolved, platform)
            == canonical_form(paths::join(cwd, s, platform), None, cwd, resolved, platform),
{
}

/// On Windows, a verbatim prefix is taken away, and a network share gets its usual form back. A
/// path without such a prefix stays as it is.
pub proof fn law_verbatim_prefix_is_stripped(rest: Seq<char>, s: Seq<char>)
    ensures
        !text::starts_with(rest, "UNC\\"@) ==> unc_stripped("\\\\?\\"@ + rest, Platform::Windows)
            == rest,
        unc_stripped("\\\\?\\UNC\\"@ + rest, Platform::Windows) == "\\\\"@ + rest,
        !text::starts_with(rest, "UNC/"@) ==> unc_stripped("//?/"@ + rest, Platform::Windows)
            == rest,
        unc_stripped("//?/UNC/"@ + rest, Platform::Windows) == "//"@ + rest,
        !text::starts_with(s, "\\\\?\\"@) && !text::starts_with(s, "//?/"@) ==> unc_stripped(
            s,
            Platform::Windows,
        ) == s,
{
    reveal_strlit("UNC");
    reveal_strlit("UNC\\");
    reveal_strlit("UNC/");
    reveal_strlit("\\\\?\\");
    reveal_strlit("\\\\?\\UNC\\");
    reveal_strlit("//?/");
    reveal_strlit("//?/UNC/");
    reveal_strlit("\\\\");
    reveal_strlit("//");
    let a = "\\\\?\\"@ + rest;
    assert(a.subrange(0, 4) =~= "\\\\?\\"@);
    assert(a.skip(4) =~= rest);
    let b = "//?/"@ + rest;
    assert(b.subrange(0, 4) =~= "//?/"@);
    assert(b.skip(4) =~= rest);
    assert(b[0] == '/');
    assert(!text::starts_with(b, "\\\\?\\"@)) by {
        if text::starts_with(b, "\\\\?\\"@) {
            assert(b.subrange(0, 4)[0] == "\\\\?\\"@[0]);
        }
    }
    if rest.len() >= 4 && text::starts_with(rest, "UNC"@) {
        let front = rest.subrange(0, 3);
        let four = rest.subrange(0, 4);
        assert(front == "UNC"@);
        assert(rest[0] == front[0] && rest[1] == front[1] && rest[2] == front[2]);
        assert(rest.skip(3)[0] == rest[3]);
        assert(rest[3] == '\\' ==> four =~= "UNC\\"@);
        assert(rest[3] == '/' ==> four =~= "UNC/"@);
    }
    let c = "\\\\?\\UNC\\"@ + rest;
    assert(c.subrange(0, 4) =~= "\\\\?\\"@);
    let after = c.skip(4);
    assert(after.subrange(0, 3) =~= "UNC"@);
    assert(after.skip(3)[0] == '\\');
    assert(seq!['\\'] + after.skip(3) =~= "\\\\"@ + rest);
    let d = "//?/UNC/"@ + rest;
    assert(d.subrange(0, 4) =~= "//?/"@);
    assert(d[0] == '/');
    assert(!text::starts_with(d, "\\\\?\\"@)) by {
        if text::starts_with(d, "\\\\?\\"@) {
            assert(d.subrange(0, 4)[0] == "\\\\?\\"@[0]);
        }
    }
    let behind = d.skip(4);
    assert(behind.subrange(0, 3) =~= "UNC"@);
    assert(behind.skip(3)[0] == '/');
    assert(seq!['/'] + behind.skip(3) =~= "//"@ + rest);
}

// ---------------------------------------------------------------------------
// How dots are resolved
// ---------------------------------------------------------------------------

proof fn lemma_norm_goes_on(a: Seq<paths::Comp>, b: Seq<paths::Comp>, more: Seq<paths::Comp>)
    requires
        norm(a) == norm(b),
    ensures
        norm(a + more) == norm(b + more),
    decreases more.len(),
{
    if more.len() == 0 {
        assert(a + more =~= a);
        assert(b + more =~= b);
    } else {
        assert((a + more).drop_last() =~= a + more.drop_last());
        assert((b + more).drop_last() =~= b + more.drop_last());
        lemma_norm_goes_on(a, b, more.drop_last());
    }
}

/// A name and the `..` behind it cancel each other, wherever they stand.
pub proof fn law_parent_cancels_the_name_before_it(
    a: Seq<paths::Comp>,
    name: Seq<char>,
    b: Seq<paths::Comp>,
)
    requires
        name != seq!['.', '.'],
    ensures
        norm(a + seq![paths::Comp::Normal(name), paths::Comp::ParentDir] + b) == norm(a + b),
{
    let named = a.push(paths::Comp::Normal(name));
    let up = named.push(paths::Comp::ParentDir);
    assert(up =~= a + seq![paths::Comp::Normal(name), paths::Comp::ParentDir]);
    assert(up.drop_last() =~= named);
    assert(named.drop_last() =~= a);
    assert(norm(named).names.drop_last() =~= norm(a).names);
    lemma_norm_goes_on(up, a, b);
}

/// A `.` changes nothing, wherever it stands.
pub proof fn law_current_directory_changes_nothing(a: Seq<paths::Comp>, b: Seq<paths::Comp>)
    ensures
        norm(a + seq![paths::Comp::CurDir] + b) == norm(a + b),
{
    let here = a.push(paths::Comp::CurDir);
    assert(here =~= a + seq![paths::Comp::CurDir]);
    assert(here.drop_last() =~= a);
    lemma_norm_goes_on(here, a, b);
}

/// A `..` right behind a root or a prefix changes nothing.
pub proof fn law_parent_of_the_root_is_the_root(
    heads: Seq<paths::Comp>,
    b: Seq<paths::Comp>,
)
    requires
        heads.len() > 0,
        forall|i: int|
            0 <= i < heads.len() ==> (#[trigger] heads[i]) is RootDir || heads[i] is Prefix,
    ensures
        norm(heads + seq![paths::Comp::ParentDir] + b) == norm(heads + b),
{
    let up = heads.push(paths::Comp::ParentDir);
    assert(up =~= heads + seq![paths::Comp::ParentDir]);
    assert(up.drop_last() =~= heads);
    lemma_norm_of_heads(heads);
    lemma_norm_goes_on(up, heads, b);
}

proof fn lemma_norm_of_heads(heads: Seq<paths::Comp>)
    requires
        forall|i: int|
            0 <= i < heads.len() ==> (#[trigger] heads[i]) is RootDir || heads[i] is Prefix,
    ensures
        norm(heads).heads == heads,
        norm(heads).names.len() == 0,
        norm(heads).anchored == (heads.len() > 0),
    decreases heads.len(),
{
    if heads.len() > 0 {
        lemma_norm_of_heads(heads.drop_last());
        assert(heads.drop_last().push(heads.last()) =~= heads);
    } else {
        assert(norm(heads).heads =~= heads);
    }
}

/// A path of a root or a prefix, or of neither, some `..` where there is neither, and names is
/// resolved already: everything that stands in it stays, in its order.
pub proof fn law_resolved_paths_stay(
    heads: Seq<paths::Comp>,
    ups: nat,
    names: Seq<Seq<char>>,
)
    requires
        forall|i: int|
            0 <= i < heads.len() ==> (#[trigger] heads[i]) is RootDir || heads[i] is Prefix,
        heads.len() > 0 ==> ups == 0,
        forall|i: int| 0 <= i < names.len() ==> #[trigger] names[i] != seq!['.', '.'],
    ensures
        ({
            let parents = Seq::new(ups, |i: int| paths::Comp::ParentDir);
            let named = Seq::new(names.len(), |i: int| paths::Comp::Normal(names[i]));
            let n = norm(heads + parents + named);
            &&& n.heads == heads
            &&& n.names == Seq::new(ups, |i: int| seq!['.', '.']) + names
        }),
    decreases ups + names.len(),
{
    let parents = Seq::new(ups, |i: int| paths::Comp::ParentDir);
    let named = Seq::new(names.len(), |i: int| paths::Comp::Normal(names[i]));
    let dots = Seq::new(ups, |i: int| seq!['.', '.']);
    let all = heads + parents + named;
    lemma_norm_anchored(heads, ups, names);
    if names.len() > 0 {
        let front = names.drop_last();
        law_resolved_paths_stay(heads, ups, front);
        assert(all.drop_last() =~= heads + parents + Seq::new(
            front.len(),
            |i: int| paths::Comp::Normal(front[i]),
        ));
        assert(all.last() == paths::Comp::Normal(names.last()));
        assert((dots + front).push(names.last()) =~= dots + names);
    } else if ups > 0 {
        let fewer = (ups - 1) as nat;
        law_resolved_paths_stay(heads, fewer, names);
        assert(all.drop_last() =~= heads + Seq::new(fewer, |i: int| paths::Comp::ParentDir)
            + named);
        assert(all.last() == paths::Comp::ParentDir);
        let before = Seq::new(fewer, |i: int| seq!['.', '.']);
        assert(before + names =~= before);
        assert(before.push(seq!['.', '.']) =~= dots + names);
        lemma_norm_anchored(heads, fewer, names);
        if fewer > 0 {
            assert(before.last() == dot_dot());
        }
    } else {
        assert(all =~= heads);
        lemma_norm_of_heads(heads);
        assert(norm(all).names =~= dots + names);
    }
}

proof fn lemma_norm_anchored(heads: Seq<paths::Comp>, ups: nat, names: Seq<Seq<char>>)
    requires
        forall|i: int|
            0 <= i < heads.len() ==> (#[trigger] heads[i]) is RootDir || heads[i] is Prefix,
    ensures
        norm(
            heads + Seq::new(ups, |i: int| paths::Comp::ParentDir) + Seq::new(
                names.len(),
                |i: int| paths::Comp::Normal(names[i]),
            ),
        ).anchored == (heads.len() > 0),
    decreases ups + names.len(),
{
    let parents = Seq::new(ups, |i: int| paths::Comp::ParentDir);
    let named = Seq::new(names.len(), |i: int| paths::Comp::Normal(names[i]));
    let all = heads + parents + named;
    if names.len() > 0 {
        let front = names.drop_last();
        lemma_norm_anchored(heads, ups, front);
        assert(all.drop_last() =~= heads + parents + Seq::new(
            front.len(),
            |i: int| paths::Comp::Normal(front[i]),
        ));
    } else if ups > 0 {
        let fewer = (ups - 1) as nat;
        lemma_norm_anchored(heads, fewer, names);
        assert(all.drop_last() =~= heads + Seq::new(fewer, |i: int| paths::Comp::ParentDir)
            + named);
    } else {
        assert(all =~= heads);
        lemma_norm_of_heads(heads);
    }
}

// ---------------------------------------------------------------------------
// Paths on Unix
// ---------------------------------------------------------------------------

/// Whether names can stand in a path on Unix, and none of them is `.` or `..`.
pub open spec fn usual_names(names: Seq<Seq<char>>) -> bool {
    forall|i: int|
        #![trigger names[i]]
        0 <= i < names.len() ==> names[i].len() > 0 && names[i] != seq!['.'] && names[i] != seq![
            '.',
            '.',
        ] && !names[i].contains('/')
}

/// The path on Unix that leads from the root through these names.
pub open spec fn rooted(names: Seq<Seq<char>>) -> Seq<char> {
    seq!['/'] + joined(names, '/')
}

proof fn lemma_usual_names(names: Seq<Seq<char>>)
    requires
        usual_names(names),
    ensures
        plain_names(names, paths::Separators::Slash),
        dotless_names(names, paths::Separators::Slash),
        settled(names, true, paths::Separators::Slash),
        writable(names, Platform::Unix),
{
    assert forall|i: int| #![trigger names[i]] 0 <= i < names.len() implies plain_name(
        names[i],
        paths::Separators::Slash,
    ) by {
        assert forall|j: int| 0 <= j < names[i].len() implies !paths::separates(
            #[trigger] names[i][j],
            paths::Separators::Slash,
        ) by {
            assert(names[i].contains(names[i][j]));
        }
    }
}

proof fn lemma_joined_of_both(a: Seq<Seq<char>>, b: Seq<Seq<char>>)
    requires
        a.len() > 0,
        b.len() > 0,
    ensures
        joined(a + b, '/') == joined(a, '/').push('/') + joined(b, '/'),
    decreases a.len(),
{
    let all = a + b;
    if a.len() == 1 {
        assert(all.drop_first() =~= b);
    } else {
        let rest = a.drop_first();
        lemma_joined_of_both(rest, b);
        assert(all.drop_first() =~= rest + b);
        assert(joined(all, '/') =~= joined(a, '/').push('/') + joined(b, '/'));
    }
}

/// Whether names can stand between separators, and none of them is `..`.
spec fn dotless_names(names: Seq<Seq<char>>, seps: paths::Separators) -> bool {
    forall|i: int|
        #![trigger names[i]]
        0 <= i < names.len() ==> plain_name(names[i], seps) && names[i] != dot_dot()
}

/// Where names stand in a text that joins them from a position on.
proof fn lemma_name_places(
    s: Seq<char>,
    from: int,
    names: Seq<Seq<char>>,
    seps: paths::Separators,
    separator: char,
    first: bool,
)
    requires
        0 <= from <= s.len(),
        dotless_names(names, seps),
        paths::separates(separator, seps),
        s.subrange(from, s.len() as int) == joined(names, separator),
    ensures
        ({
            let ps = paths::body_parts(s, from, seps, first);
            &&& ps.len() == names.len()
            &&& forall|i: int|
                #![trigger ps[i]]
                0 <= i < names.len() ==> {
                    &&& ps[i].comp == paths::Comp::Normal(names[i])
                    &&& from <= ps[i].start <= ps[i].end <= s.len()
                    &&& s.subrange(from, ps[i].end) == joined(names.take(i + 1), separator)
                    &&& s.subrange(ps[i].start, s.len() as int) == joined(names.skip(i), separator)
                }
            &&& names.len() > 0 ==> ps.last().end == s.len()
        }),
    decreases names.len(),
{
    let t = s.subrange(from, s.len() as int);
    let ps = paths::body_parts(s, from, seps, first);
    if names.len() > 0 {
        let name = names[0];
        let k = name.len() as int;
        let more = names.drop_first();
        if names.len() > 1 {
            assert(t == name.push(separator) + joined(more, separator));
        }
        let end = from + k;
        assert(plain_name(name, seps));
        assert forall|j: int| from <= j < end implies !paths::separates(#[trigger] s[j], seps) by {
            assert(t[j - from] == name[j - from]);
        }
        if end < s.len() {
            assert(s[end] == t[k]);
        }
        lemma_segment_end_at(s, from, seps, end);
        assert(s.subrange(from, end) =~= name);
        assert(names.take(1) =~= seq![name]);
        assert(names.skip(0) =~= names);
        if names.len() > 1 {
            assert(s.subrange(end + 1, s.len() as int) =~= joined(more, separator)) by {
                assert(t.subrange(k + 1, t.len() as int) =~= s.subrange(end + 1, s.len() as int));
            }
            assert forall|i: int| #![trigger more[i]] 0 <= i < more.len() implies plain_name(
                more[i],
                seps,
            ) && more[i] != dot_dot() by {
                assert(more[i] == names[i + 1]);
            }
            lemma_name_places(s, end + 1, more, seps, separator, false);
            let rest = paths::body_parts(s, end + 1, seps, false);
            assert(ps == seq![
                paths::Part { comp: paths::Comp::Normal(name), start: from, end },
            ] + rest);
            assert forall|i: int| #![trigger ps[i]] 0 <= i < names.len() implies {
                &&& ps[i].comp == paths::Comp::Normal(names[i])
                &&& from <= ps[i].start <= ps[i].end <= s.len()
                &&& s.subrange(from, ps[i].end) == joined(names.take(i + 1), separator)
                &&& s.subrange(ps[i].start, s.len() as int) == joined(names.skip(i), separator)
            } by {
                if i > 0 {
                    assert(ps[i] == rest[i - 1]);
                    let taken = names.take(i + 1);
                    assert(taken.drop_first() =~= more.take(i));
                    assert(joined(taken, separator) == name.push(separator) + joined(more.take(i), separator));
                    assert(s.subrange(from, ps[i].end) =~= name.push(separator) + s.subrange(
                        end + 1,
                        ps[i].end,
                    ));
                    assert(more.skip(i - 1) =~= names.skip(i));
                }
            }
        } else {
            assert(names =~= seq![name]);
        }
    }
}

proof fn lemma_rooted_parts(names: Seq<Seq<char>>)
    requires
        usual_names(names),
    ensures
        ({
            let s = rooted(names);
            let ps = paths::parts(s, Platform::Unix);
            &&& ps.len() == names.len() + 1
            &&& ps[0] == (paths::Part { comp: paths::Comp::RootDir, start: 0, end: 1 })
            &&& paths::lead_end(s, Platform::Unix) == 1
            &&& paths::absolute(s, Platform::Unix)
            &&& forall|i: int|
                #![trigger ps[i]]
                1 <= i <= names.len() ==> {
                    &&& ps[i].comp == paths::Comp::Normal(names[i - 1])
                    &&& 1 <= ps[i].start <= ps[i].end <= s.len()
                    &&& s.take(ps[i].end) == rooted(names.take(i))
                    &&& s.subrange(ps[i].start, s.len() as int) == joined(names.skip(i - 1), '/')
                }
            &&& ps.last().end == s.len()
        }),
{
    let s = rooted(names);
    let ps = paths::parts(s, Platform::Unix);
    assert(s[0] == '/');
    assert(s.subrange(1, s.len() as int) =~= joined(names, '/'));
    lemma_usual_names(names);
    lemma_name_places(s, 1, names, paths::Separators::Slash, '/', false);
    let body = paths::body_parts(s, 1, paths::Separators::Slash, false);
    assert(ps == paths::head_parts(s, Platform::Unix) + body);
    assert forall|i: int| #![trigger ps[i]] 1 <= i <= names.len() implies {
        &&& ps[i].comp == paths::Comp::Normal(names[i - 1])
        &&& 1 <= ps[i].start <= ps[i].end <= s.len()
        &&& s.take(ps[i].end) == rooted(names.take(i))
        &&& s.subrange(ps[i].start, s.len() as int) == joined(names.skip(i - 1), '/')
    } by {
        assert(ps[i] == body[i - 1]);
        assert(s.take(ps[i].end) =~= seq!['/'] + s.subrange(1, ps[i].end));
    }
    if names.len() > 0 {
        assert(ps.last() == body.last());
    } else {
        assert(s =~= seq!['/']);
    }
}

/// The components of a path on Unix that leads from the root through names are the root and these
/// names. Its file name is the last of them.
pub proof fn law_unix_paths_hold_their_names(names: Seq<Seq<char>>)
    requires
        usual_names(names),
    ensures
        paths::components(rooted(names), Platform::Unix) == seq![paths::Comp::RootDir] + Seq::new(
            names.len(),
            |i: int| paths::Comp::Normal(names[i]),
        ),
        names.len() > 0 ==> paths::file_name(rooted(names), Platform::Unix) == Some(names.last()),
        names.len() == 0 ==> paths::file_name(rooted(names), Platform::Unix) is None,
{
    lemma_rooted_parts(names);
    let cs = paths::components(rooted(names), Platform::Unix);
    let ps = paths::parts(rooted(names), Platform::Unix);
    let told = seq![paths::Comp::RootDir] + Seq::new(
        names.len(),
        |i: int| paths::Comp::Normal(names[i]),
    );
    assert forall|i: int| 0 <= i < cs.len() implies #[trigger] cs[i] == told[i] by {
        assert(cs[i] == ps[i].comp);
    }
    assert(cs =~= told);
}

/// The parent of a path on Unix is the path without its last name, and the root has none.
pub proof fn law_unix_parent_drops_the_last_name(names: Seq<Seq<char>>)
    requires
        usual_names(names),
    ensures
        names.len() > 0 ==> paths::parent(rooted(names), Platform::Unix) == Some(
            rooted(names.drop_last()),
        ),
        names.len() == 0 ==> paths::parent(rooted(names), Platform::Unix) is None,
{
    lemma_rooted_parts(names);
    let s = rooted(names);
    let ps = paths::parts(s, Platform::Unix);
    let n = ps.len() as int;
    if names.len() > 1 {
        assert(ps[n - 1].comp is Normal);
        assert(s.take(ps[n - 2].end) == rooted(names.take(n - 2)));
        assert(names.take(n - 2) =~= names.drop_last());
    } else if names.len() == 1 {
        assert(ps[1].comp is Normal);
        assert(names.drop_last() =~= Seq::<Seq<char>>::empty());
        assert(s.take(1) =~= rooted(names.drop_last()));
    } else {
        assert(ps[n - 1].comp is RootDir);
    }
}

/// The ancestors of a path on Unix, from its parent upwards, lose one name after the other, down to
/// the root.
pub proof fn law_unix_ancestors_end_at_the_root(names: Seq<Seq<char>>)
    requires
        usual_names(names),
    ensures
        paths::ancestors(rooted(names), Platform::Unix) == Seq::new(
            names.len(),
            |i: int| rooted(names.take(names.len() - 1 - i)),
        ),
    decreases names.len(),
{
    law_unix_parent_drops_the_last_name(names);
    let s = rooted(names);
    let ancs = paths::ancestors(s, Platform::Unix);
    let told = Seq::new(names.len(), |i: int| rooted(names.take(names.len() - 1 - i)));
    if names.len() > 0 {
        let front = names.drop_last();
        assert(front.push(names.last()) =~= names);
        if front.len() > 0 {
            lemma_joined_push(front, names.last(), '/');
        }
        assert(rooted(front).len() < s.len()) by {
            assert(names[names.len() - 1].len() > 0);
        }
        law_unix_ancestors_end_at_the_root(front);
        assert(ancs == seq![rooted(front)] + paths::ancestors(rooted(front), Platform::Unix));
        assert forall|i: int| 0 <= i < told.len() implies #[trigger] told[i] == ancs[i] by {
            if i > 0 {
                assert(front.take(front.len() - 1 - (i - 1)) =~= names.take(names.len() - 1 - i));
            } else {
                assert(names.take(names.len() - 1) =~= front);
            }
        }
        assert(ancs =~= told);
    } else {
        assert(ancs =~= told);
    }
}

/// What follows a path on Unix in a longer one is the rest of the names.
pub proof fn law_unix_rest_follows_its_base(a: Seq<Seq<char>>, b: Seq<Seq<char>>)
    requires
        usual_names(a + b),
    ensures
        paths::strip_prefix(rooted(a + b), rooted(a), Platform::Unix) == Some(joined(b, '/')),
{
    let names = a + b;
    assert forall|i: int| #![trigger a[i]] 0 <= i < a.len() implies a[i].len() > 0 && a[i] != seq![
        '.',
    ] && a[i] != seq!['.', '.'] && !a[i].contains('/') by {
        assert(a[i] == names[i]);
    }
    lemma_rooted_parts(names);
    law_unix_paths_hold_their_names(names);
    law_unix_paths_hold_their_names(a);
    let s = rooted(names);
    let ps = paths::parts(s, Platform::Unix);
    let whole = paths::components(s, Platform::Unix);
    let front = paths::components(rooted(a), Platform::Unix);
    assert forall|i: int| 0 <= i < front.len() implies paths::same_comp(
        #[trigger] whole[i],
        front[i],
    ) by {
        if i > 0 {
            assert(names[i - 1] == a[i - 1]);
        }
    }
    assert(paths::is_under(whole, front));
    let k = front.len() as int;
    if b.len() == 0 {
        assert(k == ps.len());
    } else {
        assert(s.subrange(ps[k].start, s.len() as int) == joined(names.skip(k - 1), '/'));
        assert(names.skip(k - 1) =~= b);
    }
}

/// A relative path on Unix is written behind the names of its base, with a slash between them.
pub proof fn law_unix_names_are_put_behind_their_base(a: Seq<Seq<char>>, b: Seq<Seq<char>>)
    requires
        usual_names(a),
        usual_names(b),
        b.len() > 0,
    ensures
        paths::join(rooted(a), joined(b, '/'), Platform::Unix) == rooted(a + b),
{
    let rel = joined(b, '/');
    lemma_usual_names(a);
    lemma_usual_names(b);
    lemma_joined_front(b, '/');
    assert(b[0].contains(b[0][0]));
    assert(rel[0] != '/');
    if a.len() > 0 {
        lemma_joined_of_both(a, b);
        assert(solid_names(a, paths::Separators::Slash)) by {
            assert forall|i: int| #![trigger a[i]] 0 <= i < a.len() implies a[i].len() > 0
                && forall|j: int|
                0 <= j < a[i].len() ==> !paths::separates(
                    #[trigger] a[i][j],
                    paths::Separators::Slash,
                ) by {
                assert(plain_name(a[i], paths::Separators::Slash));
            }
        }
        lemma_joined_last(a, '/', paths::Separators::Slash);
        assert(rooted(a).last() == joined(a, '/').last());
        assert(rooted(a).push('/') + rel =~= rooted(a + b));
    } else {
        assert(a + b =~= b);
        assert(rooted(a) =~= seq!['/']);
        assert(rooted(a) + rel =~= rooted(b));
    }
}

/// A path on Unix without dots is its own normal form.
pub proof fn law_unix_paths_without_dots_stay(names: Seq<Seq<char>>)
    requires
        usual_names(names),
    ensures
        normalized(rooted(names), Platform::Unix) == rooted(names),
{
    law_unix_paths_hold_their_names(names);
    lemma_usual_names(names);
    let heads = seq![paths::Comp::RootDir];
    assert(name_comps(names) =~= Seq::new(names.len(), |i: int| paths::Comp::Normal(names[i])));
    lemma_norm_of_settled(heads, names, paths::Separators::Slash);
    let texts = head_texts(heads, Platform::Unix);
    assert(texts =~= seq![seq!['/']]);
    lemma_joined_onto_more(seq![], texts, names, Platform::Unix);
    assert(texts.drop_last() =~= Seq::<Seq<char>>::empty());
    let nothing = Seq::<char>::empty();
    let root = seq!['/'];
    assert(joined_onto(nothing, texts, Platform::Unix) == paths::join(
        joined_onto(nothing, texts.drop_last(), Platform::Unix),
        root,
        Platform::Unix,
    ));
    assert(joined_onto(nothing, texts.drop_last(), Platform::Unix) == nothing);
    assert(paths::join(nothing, root, Platform::Unix) == root);
    lemma_names_onto_head(root, names, Platform::Unix);
}

/// A missing file on Unix follows the links of its closest existing directory. Let the path lead
/// through `a` and then `b`, let nothing on the way through `b` exist, and let the directory that
/// `a` leads to resolve to the one that `c` leads to. Then the canonical form leads through `c` and
/// then `b`, whatever the directories above resolve to.
pub proof fn law_missing_files_follow_links(
    a: Seq<Seq<char>>,
    b: Seq<Seq<char>>,
    c: Seq<Seq<char>>,
    cwd: Seq<char>,
    resolved: Seq<Option<Seq<char>>>,
)
    requires
        usual_names(a + b),
        usual_names(c),
        0 < b.len() <= resolved.len(),
        forall|j: int| 0 <= j < b.len() - 1 ==> #[trigger] resolved[j] is None,
        resolved[b.len() - 1] == Some(rooted(c)),
    ensures
        canonical_form(rooted(a + b), None, cwd, resolved, Platform::Unix) == rooted(c + b),
{
    let names = a + b;
    let i = b.len() - 1;
    assert forall|j: int| #![trigger b[j]] 0 <= j < b.len() implies b[j].len() > 0 && b[j] != seq![
        '.',
    ] && b[j] != seq!['.', '.'] && !b[j].contains('/') by {
        assert(b[j] == names[a.len() + j]);
    }
    let all = c + b;
    assert forall|j: int| #![trigger all[j]] 0 <= j < all.len() implies all[j].len() > 0 && all[j]
        != seq!['.'] && all[j] != seq!['.', '.'] && !all[j].contains('/') by {
        if j < c.len() {
            assert(all[j] == c[j]);
        } else {
            assert(all[j] == b[j - c.len()]);
        }
    }
    lemma_rooted_parts(names);
    law_unix_ancestors_end_at_the_root(names);
    assert(names.take(names.len() - 1 - i) =~= a);
    law_unix_rest_follows_its_base(a, b);
    law_closest_existing_ancestor_decides(
        rooted(names),
        cwd,
        resolved,
        i,
        rooted(c),
        joined(b, '/'),
        Platform::Unix,
    );
    law_unix_names_are_put_behind_their_base(c, b);
    law_unix_paths_without_dots_stay(c + b);
}

/// What the answers of the file system say is what they hold, one by one, and none is left out.
pub proof fn law_answers_say_what_they_hold(v: Seq<Option<String>>, i: int)
    ensures
        answers(v).len() == v.len(),
        0 <= i < v.len() && v[i] is Some ==> answers(v)[i] == Some(v[i]->0@),
        0 <= i < v.len() && v[i] is None ==> answers(v)[i] is None,
{
}

/// A relative path on Unix holds its names and nothing else. Its parent is the path without the last
/// of them, which is empty where there was only one.
pub proof fn law_unix_relative_paths(names: Seq<Seq<char>>)
    requires
        usual_names(names),
        names.len() > 0,
    ensures
        !paths::absolute(joined(names, '/'), Platform::Unix),
        paths::components(joined(names, '/'), Platform::Unix) == Seq::new(
            names.len(),
            |i: int| paths::Comp::Normal(names[i]),
        ),
        paths::file_name(joined(names, '/'), Platform::Unix) == Some(names.last()),
        paths::parent(joined(names, '/'), Platform::Unix) == Some(joined(names.drop_last(), '/')),
{
    let s = joined(names, '/');
    lemma_usual_names(names);
    lemma_joined_front(names, '/');
    assert(names[0].contains(names[0][0]));
    assert(s[0] != '/');
    assert(s.subrange(0, s.len() as int) =~= s);
    lemma_name_places(s, 0, names, paths::Separators::Slash, '/', true);
    let ps = paths::parts(s, Platform::Unix);
    let body = paths::body_parts(s, 0, paths::Separators::Slash, true);
    assert(ps =~= body);
    let cs = paths::components(s, Platform::Unix);
    let told = Seq::new(names.len(), |i: int| paths::Comp::Normal(names[i]));
    assert forall|i: int| 0 <= i < cs.len() implies #[trigger] cs[i] == told[i] by {
        assert(cs[i] == ps[i].comp);
    }
    assert(cs =~= told);
    let n = ps.len() as int;
    assert(ps[n - 1].comp is Normal);
    if n > 1 {
        assert(s.subrange(0, ps[n - 2].end) == joined(names.take(n - 1), '/'));
        assert(s.take(ps[n - 2].end) =~= s.subrange(0, ps[n - 2].end));
        assert(names.take(n - 1) =~= names.drop_last());
        let lead = paths::lead_end(s, Platform::Unix);
        assert(lead <= 1);
        lemma_joined_front(names.drop_last(), '/');
        assert(ps[n - 2].end >= 1);
    } else {
        assert(names.drop_last() =~= Seq::<Seq<char>>::empty());
    }
}

// ---------------------------------------------------------------------------
// Paths on a drive
// ---------------------------------------------------------------------------

/// Whether names can stand in a path on Windows, none of them is `.` or `..`, and none begins with a
/// drive.
pub open spec fn usual_windows_names(names: Seq<Seq<char>>) -> bool {
    forall|i: int|
        #![trigger names[i]]
        0 <= i < names.len() ==> names[i].len() > 0 && names[i] != seq!['.'] && names[i] != seq![
            '.',
            '.',
        ] && !names[i].contains('/') && !names[i].contains('\\') && !paths::drive_at(names[i], 0)
}

/// The path on Windows that leads from the root of a drive through these names.
pub open spec fn on_drive(letter: char, names: Seq<Seq<char>>) -> Seq<char> {
    seq![letter, ':', '\\'] + joined(names, '\\')
}

/// The same path with a verbatim prefix, as the file system gives it.
pub open spec fn verbatim_on_drive(letter: char, names: Seq<Seq<char>>) -> Seq<char> {
    seq!['\\', '\\', '?', '\\', letter, ':', '\\'] + joined(names, '\\')
}

proof fn lemma_usual_windows_names(names: Seq<Seq<char>>)
    requires
        usual_windows_names(names),
    ensures
        dotless_names(names, paths::Separators::Both),
        quiet_names(names),
        driveless(names),
        slashless(names),
        plain_names(names, paths::Separators::Both),
        settled(names, true, paths::Separators::Both),
{
    assert forall|i: int| #![trigger names[i]] 0 <= i < names.len() implies plain_name(
        names[i],
        paths::Separators::Both,
    ) && names[i] != dot_dot() by {
        assert forall|j: int| 0 <= j < names[i].len() implies !paths::separates(
            #[trigger] names[i][j],
            paths::Separators::Both,
        ) by {
            assert(names[i].contains(names[i][j]));
        }
    }
    assert forall|i: int, j: int|
        0 <= i < names.len() && 0 <= j < names[i].len() implies #[trigger] names[i][j] != '/' by {
        assert(names[i].contains(names[i][j]));
    }
}

#[verifier::spinoff_prover]
proof fn lemma_drive_parts(letter: char, names: Seq<Seq<char>>)
    requires
        'a' <= letter <= 'z' || 'A' <= letter <= 'Z',
        usual_windows_names(names),
    ensures
        ({
            let s = on_drive(letter, names);
            let ps = paths::parts(s, Platform::Windows);
            &&& ps.len() == names.len() + 2
            &&& ps[0] == (paths::Part {
                comp: paths::Comp::Prefix(seq![letter, ':']),
                start: 0,
                end: 2,
            })
            &&& ps[1] == (paths::Part { comp: paths::Comp::RootDir, start: 2, end: 3 })
            &&& paths::lead_end(s, Platform::Windows) == 3
            &&& paths::absolute(s, Platform::Windows)
            &&& forall|i: int|
                #![trigger ps[i]]
                2 <= i < names.len() + 2 ==> {
                    &&& ps[i].comp == paths::Comp::Normal(names[i - 2])
                    &&& 3 <= ps[i].start <= ps[i].end <= s.len()
                    &&& s.take(ps[i].end) == on_drive(letter, names.take(i - 1))
                    &&& s.subrange(ps[i].start, s.len() as int) == joined(names.skip(i - 2), '\\')
                }
            &&& ps.last().end == s.len()
        }),
{
    let w = Platform::Windows;
    let s = on_drive(letter, names);
    let ps = paths::parts(s, w);
    lemma_usual_windows_names(names);
    let rest = seq!['\\'] + joined(names, '\\');
    assert(s =~= seq![letter, ':'] + rest);
    assert(rest[0] == '\\');
    paths::law_windows_drives(letter, rest);
    assert(s[2] == '\\');
    assert(s.take(2) =~= seq![letter, ':']);
    assert(s.subrange(3, s.len() as int) =~= joined(names, '\\'));
    lemma_name_places(s, 3, names, paths::Separators::Both, '\\', false);
    let body = paths::body_parts(s, 3, paths::Separators::Both, false);
    assert(ps == paths::head_parts(s, w) + body);
    assert(paths::head_parts(s, w).len() == 2);
    assert forall|i: int| #![trigger ps[i]] 2 <= i < names.len() + 2 implies {
        &&& ps[i].comp == paths::Comp::Normal(names[i - 2])
        &&& 3 <= ps[i].start <= ps[i].end <= s.len()
        &&& s.take(ps[i].end) == on_drive(letter, names.take(i - 1))
        &&& s.subrange(ps[i].start, s.len() as int) == joined(names.skip(i - 2), '\\')
    } by {
        assert(ps[i] == body[i - 2]);
        assert(s.take(ps[i].end) =~= seq![letter, ':', '\\'] + s.subrange(3, ps[i].end));
    }
    if names.len() > 0 {
        assert(ps.last() == body.last());
    } else {
        assert(s =~= seq![letter, ':', '\\']);
    }
}

/// A path on a drive holds the drive, the root and its names. Its file name is the last of them, and
/// its parent the path without that.
pub proof fn law_paths_on_a_drive_hold_their_names(letter: char, names: Seq<Seq<char>>)
    requires
        'a' <= letter <= 'z' || 'A' <= letter <= 'Z',
        usual_windows_names(names),
    ensures
        paths::components(on_drive(letter, names), Platform::Windows) == seq![
            paths::Comp::Prefix(seq![letter, ':']),
            paths::Comp::RootDir,
        ] + Seq::new(names.len(), |i: int| paths::Comp::Normal(names[i])),
        names.len() > 0 ==> paths::file_name(on_drive(letter, names), Platform::Windows) == Some(
            names.last(),
        ),
        names.len() > 0 ==> paths::parent(on_drive(letter, names), Platform::Windows) == Some(
            on_drive(letter, names.drop_last()),
        ),
        names.len() == 0 ==> paths::parent(on_drive(letter, names), Platform::Windows) is None,
{
    lemma_drive_parts(letter, names);
    let s = on_drive(letter, names);
    let cs = paths::components(s, Platform::Windows);
    let ps = paths::parts(s, Platform::Windows);
    let told = seq![paths::Comp::Prefix(seq![letter, ':']), paths::Comp::RootDir] + Seq::new(
        names.len(),
        |i: int| paths::Comp::Normal(names[i]),
    );
    assert forall|i: int| 0 <= i < cs.len() implies #[trigger] cs[i] == told[i] by {
        assert(cs[i] == ps[i].comp);
    }
    assert(cs =~= told);
    let n = ps.len() as int;
    if names.len() > 1 {
        assert(ps[n - 1].comp is Normal);
        assert(s.take(ps[n - 2].end) == on_drive(letter, names.take(n - 3)));
        assert(names.take(n - 3) =~= names.drop_last());
    } else if names.len() == 1 {
        assert(ps[2].comp is Normal);
        assert(names.drop_last() =~= Seq::<Seq<char>>::empty());
        assert(s.take(3) =~= on_drive(letter, names.drop_last()));
    } else {
        assert(ps[n - 1].comp is RootDir);
    }
}

/// The ancestors of a path on a drive, from its parent upwards, lose one name after the other, down
/// to the root of the drive.
pub proof fn law_ancestors_end_at_the_drive(letter: char, names: Seq<Seq<char>>)
    requires
        'a' <= letter <= 'z' || 'A' <= letter <= 'Z',
        usual_windows_names(names),
    ensures
        paths::ancestors(on_drive(letter, names), Platform::Windows) == Seq::new(
            names.len(),
            |i: int| on_drive(letter, names.take(names.len() - 1 - i)),
        ),
    decreases names.len(),
{
    law_paths_on_a_drive_hold_their_names(letter, names);
    let w = Platform::Windows;
    let s = on_drive(letter, names);
    let ancs = paths::ancestors(s, w);
    let told = Seq::new(names.len(), |i: int| on_drive(letter, names.take(names.len() - 1 - i)));
    if names.len() > 0 {
        let front = names.drop_last();
        assert(front.push(names.last()) =~= names);
        if front.len() > 0 {
            lemma_joined_push(front, names.last(), '\\');
        }
        assert(on_drive(letter, front).len() < s.len()) by {
            assert(names[names.len() - 1].len() > 0);
        }
        law_ancestors_end_at_the_drive(letter, front);
        assert(ancs == seq![on_drive(letter, front)] + paths::ancestors(on_drive(letter, front), w));
        assert forall|i: int| 0 <= i < told.len() implies #[trigger] told[i] == ancs[i] by {
            if i > 0 {
                assert(front.take(front.len() - 1 - (i - 1)) =~= names.take(names.len() - 1 - i));
            } else {
                assert(names.take(names.len() - 1) =~= front);
            }
        }
        assert(ancs =~= told);
    } else {
        assert(ancs =~= told);
    }
}

/// What follows a path on a drive in a longer one is the rest of the names.
pub proof fn law_rest_follows_its_base_on_a_drive(
    letter: char,
    a: Seq<Seq<char>>,
    b: Seq<Seq<char>>,
)
    requires
        'a' <= letter <= 'z' || 'A' <= letter <= 'Z',
        usual_windows_names(a + b),
    ensures
        paths::strip_prefix(on_drive(letter, a + b), on_drive(letter, a), Platform::Windows)
            == Some(joined(b, '\\')),
{
    let w = Platform::Windows;
    let names = a + b;
    assert forall|i: int| #![trigger a[i]] 0 <= i < a.len() implies a[i] == names[i] by {}
    assert(usual_windows_names(a));
    lemma_drive_parts(letter, names);
    law_paths_on_a_drive_hold_their_names(letter, names);
    law_paths_on_a_drive_hold_their_names(letter, a);
    let s = on_drive(letter, names);
    let ps = paths::parts(s, w);
    let whole = paths::components(s, w);
    let front = paths::components(on_drive(letter, a), w);
    assert forall|i: int| 0 <= i < front.len() implies paths::same_comp(
        #[trigger] whole[i],
        front[i],
    ) by {
        if i > 1 {
            assert(names[i - 2] == a[i - 2]);
        }
    }
    assert(paths::is_under(whole, front));
    let k = front.len() as int;
    if b.len() == 0 {
        assert(k == ps.len());
    } else {
        assert(s.subrange(ps[k].start, s.len() as int) == joined(names.skip(k - 2), '\\'));
        assert(names.skip(k - 2) =~= b);
    }
}

proof fn lemma_pushed_names(buf: Seq<paths::Comp>, names: Seq<Seq<char>>)
    requires
        forall|i: int| 0 <= i < names.len() ==> #[trigger] names[i] != dot_dot(),
    ensures
        paths::pushed_all(buf, name_comps(names)) == buf + name_comps(names),
    decreases names.len(),
{
    let cs = name_comps(names);
    if names.len() == 0 {
        assert(buf + cs =~= buf);
    } else {
        let front = names.drop_last();
        lemma_pushed_names(buf, front);
        assert(cs.drop_last() =~= name_comps(front));
        assert(names[names.len() - 1] != dot_dot());
        assert((buf + name_comps(front)).push(cs.last()) =~= buf + cs);
    }
}

/// The components of names alone, on Windows.
proof fn lemma_windows_relative(names: Seq<Seq<char>>)
    requires
        usual_windows_names(names),
        names.len() > 0,
    ensures
        joined(names, '\\').len() > 0,
        paths::windows_prefix(joined(names, '\\')) is None,
        !paths::has_root(joined(names, '\\'), Platform::Windows),
        paths::components(joined(names, '\\'), Platform::Windows) == name_comps(names),
{
    let w = Platform::Windows;
    let both = paths::Separators::Both;
    let s = joined(names, '\\');
    lemma_usual_windows_names(names);
    lemma_joined_front(names, '\\');
    assert(names[0].len() > 0);
    assert(plain_name(names[0], both));
    assert(!paths::separates(names[0][0], both));
    assert(!paths::drive_at(s, 0)) by {
        if paths::drive_at(s, 0) {
            assert(s[1] == ':');
            assert(names[0].len() > 1);
            assert(paths::drive_at(names[0], 0));
        }
    }
    assert(s.subrange(0, s.len() as int) =~= s);
    lemma_parse_names(s, 0, names, both, '\\', true);
    let body = paths::body_parts(s, 0, both, true);
    assert(paths::head_parts(s, w) =~= seq![]);
    assert(paths::parts(s, w) =~= body);
    let cs = paths::components(s, w);
    assert forall|i: int| 0 <= i < cs.len() implies #[trigger] cs[i] == name_comps(names)[i] by {
        assert(body[i].comp == name_comp(names[i]));
    }
    assert(cs =~= name_comps(names));
}

/// Names are put behind a verbatim path on a drive, with a backslash between them.
pub proof fn law_names_are_put_behind_a_verbatim_path(
    letter: char,
    a: Seq<Seq<char>>,
    b: Seq<Seq<char>>,
)
    requires
        'a' <= letter <= 'z' || 'A' <= letter <= 'Z',
        usual_windows_names(a),
        usual_windows_names(b),
        b.len() > 0,
    ensures
        paths::join(verbatim_on_drive(letter, a), joined(b, '\\'), Platform::Windows)
            == verbatim_on_drive(letter, a + b),
{
    let w = Platform::Windows;
    let base = verbatim_on_drive(letter, a);
    let rel = joined(b, '\\');
    let raw = seq!['\\', '\\', '?', '\\', letter, ':'];
    let behind = seq!['\\'] + joined(a, '\\');
    assert(base =~= raw + behind);
    assert(behind[0] == '\\');
    paths::law_windows_verbatim_drives(letter, behind);
    lemma_usual_windows_names(a);
    lemma_usual_windows_names(b);
    lemma_windows_relative(b);
    assert(base.take(6) =~= raw);
    assert(raw.push('\\') + joined(a, '\\') =~= base);
    lemma_verbatim_comps(base, a);
    let heads = seq![paths::Comp::Prefix(raw), paths::Comp::RootDir];
    let all = a + b;
    assert forall|i: int| #![trigger b[i]] 0 <= i < b.len() implies b[i] != dot_dot() by {}
    lemma_pushed_names(heads + name_comps(a), b);
    assert(heads + name_comps(a) + name_comps(b) =~= heads + name_comps(all));
    assert forall|i: int| #![trigger all[i]] 0 <= i < all.len() implies plain_name(
        all[i],
        paths::Separators::Both,
    ) && all[i] != dot_dot() by {
        if i < a.len() {
            assert(all[i] == a[i]);
        } else {
            assert(all[i] == b[i - a.len()]);
        }
    }
    assert(quiet_names(all));
    lemma_written_names(raw, all);
    assert(raw.push('\\') + joined(all, '\\') =~= verbatim_on_drive(letter, all));
}

/// A verbatim path on a drive without dots is its own normal form, and without its prefix it is the
/// path on the drive.
pub proof fn law_verbatim_paths_on_a_drive_stay(letter: char, names: Seq<Seq<char>>)
    requires
        'a' <= letter <= 'z' || 'A' <= letter <= 'Z',
        usual_windows_names(names),
    ensures
        normalized(verbatim_on_drive(letter, names), Platform::Windows) == verbatim_on_drive(
            letter,
            names,
        ),
        unc_stripped(verbatim_on_drive(letter, names), Platform::Windows) == on_drive(letter, names),
{
    let w = Platform::Windows;
    let s = verbatim_on_drive(letter, names);
    let raw = seq!['\\', '\\', '?', '\\', letter, ':'];
    let behind = seq!['\\'] + joined(names, '\\');
    assert(s =~= raw + behind);
    assert(behind[0] == '\\');
    paths::law_windows_verbatim_drives(letter, behind);
    lemma_usual_windows_names(names);
    assert(s.take(6) =~= raw);
    assert(raw.push('\\') + joined(names, '\\') =~= s);
    lemma_verbatim_comps(s, names);
    let heads = seq![paths::Comp::Prefix(raw), paths::Comp::RootDir];
    lemma_norm_of_settled(heads, names, paths::Separators::Both);
    assert(resolved_names(s, w) == names);
    assert(!shareless(s, w));
    lemma_verbatim_text(s);
    let rest = on_drive(letter, names);
    reveal_strlit("\\\\?\\");
    reveal_strlit("UNC\\");
    assert(s =~= "\\\\?\\"@ + rest);
    assert(!text::starts_with(rest, "UNC\\"@)) by {
        if text::starts_with(rest, "UNC\\"@) {
            assert(rest.subrange(0, 4)[1] == rest[1]);
            assert("UNC\\"@[1] == 'N');
        }
    }
    law_verbatim_prefix_is_stripped(rest, s);
}

/// A missing file on Windows follows the links of its closest existing directory. Let the path lead
/// through `a` and then `b` on one drive, let nothing on the way through `b` exist, and let the
/// directory that `a` leads to resolve to the one that `c` leads to on another drive, given with a
/// verbatim prefix. Then the canonical form leads through `c` and then `b` on that other drive,
/// without the prefix, whatever the directories above resolve to.
pub proof fn law_missing_files_follow_links_on_windows(
    letter: char,
    a: Seq<Seq<char>>,
    b: Seq<Seq<char>>,
    other: char,
    c: Seq<Seq<char>>,
    cwd: Seq<char>,
    resolved: Seq<Option<Seq<char>>>,
)
    requires
        'a' <= letter <= 'z' || 'A' <= letter <= 'Z',
        'a' <= other <= 'z' || 'A' <= other <= 'Z',
        usual_windows_names(a + b),
        usual_windows_names(c),
        0 < b.len() <= resolved.len(),
        forall|j: int| 0 <= j < b.len() - 1 ==> #[trigger] resolved[j] is None,
        resolved[b.len() - 1] == Some(verbatim_on_drive(other, c)),
    ensures
        canonical_form(on_drive(letter, a + b), None, cwd, resolved, Platform::Windows) == on_drive(
            other,
            c + b,
        ),
{
    let w = Platform::Windows;
    let names = a + b;
    let i = b.len() - 1;
    assert forall|j: int| #![trigger b[j]] 0 <= j < b.len() implies b[j] == names[a.len() + j] by {}
    assert(usual_windows_names(b));
    let all = c + b;
    assert forall|j: int| #![trigger all[j]] 0 <= j < all.len() implies all[j].len() > 0 && all[j]
        != seq!['.'] && all[j] != seq!['.', '.'] && !all[j].contains('/') && !all[j].contains('\\')
        && !paths::drive_at(all[j], 0) by {
        if j < c.len() {
            assert(all[j] == c[j]);
        } else {
            assert(all[j] == b[j - c.len()]);
        }
    }
    lemma_drive_parts(letter, names);
    law_ancestors_end_at_the_drive(letter, names);
    assert(names.take(names.len() - 1 - i) =~= a);
    law_rest_follows_its_base_on_a_drive(letter, a, b);
    law_closest_existing_ancestor_decides(
        on_drive(letter, names),
        cwd,
        resolved,
        i,
        verbatim_on_drive(other, c),
        joined(b, '\\'),
        w,
    );
    law_names_are_put_behind_a_verbatim_path(other, c, b);
    law_verbatim_paths_on_a_drive_stay(other, all);
}

} // verus!
