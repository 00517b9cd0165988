//! What the subcommands for packages and for the configuration do and print.

use crate::paths;
use crate::paths::Platform;
use crate::text;
use vstd::prelude::*;

verus! {

broadcast use vstd::string::group_string_axioms;

// ----------------------------------------------------------------------------
// Packages
// ----------------------------------------------------------------------------

/// Whom a package is installed for.
#[derive(Debug, Clone, Copy, PartialEq, Eq, Structural)]
pub enum PackageScope {
    /// The user.
    User,
    /// The project.
    Project,
    /// One run.
    Temporary,
}

/// A package that is installed.
#[derive(Debug, Clone)]
pub struct PackageEntry {
    /// Where it comes from.
    pub source: String,
    /// Whom it is installed for.
    pub scope: PackageScope,
    /// Whether only a part of it is used.
    pub filtered: bool,
}

/// What an entry says.
#[verifier::ext_equal]
pub struct PackageModel {
    /// Where the package comes from.
    pub source: Seq<char>,
    /// Whom it is installed for.
    pub scope: PackageScope,
    /// Whether only a part of it is used.
    pub filtered: bool,
}

impl View for PackageEntry {
    type V = PackageModel;

    open spec fn view(&self) -> PackageModel {
        PackageModel { source: self.source@, scope: self.scope, filtered: self.filtered }
    }
}

/// What each entry of a sequence says.
pub open spec fn package_views(v: Seq<PackageEntry>) -> Seq<PackageModel> {
    Seq::new(v.len(), |i: int| v[i]@)
}

/// Whom a package is installed for, given whether it is to be local.
pub fn scope_from_flag(local: bool) -> (r: PackageScope)
    ensures
        r == (if local {
            PackageScope::Project
        } else {
            PackageScope::User
        }),
{
    if local {
        PackageScope::Project
    } else {
        PackageScope::User
    }
}

/// What is printed after a package was installed.
pub fn installed_message(source: &str) -> (r: String)
    ensures
        r@ == "Installed "@ + source@,
{
    text::concat2("Installed ", source)
}

/// What is printed after a package was removed.
pub fn removed_message(source: &str) -> (r: String)
    ensures
        r@ == "Removed "@ + source@,
{
    text::concat2("Removed ", source)
}

/// What is printed after packages were updated.
pub fn updated_message(source: Option<&str>) -> (r: String)
    ensures
        r@ == match source {
            Some(s) => "Updated "@ + s@,
            None => "Updated packages"@,
        },
{
    match source {
        Some(s) => text::concat2("Updated ", s),
        None => "Updated packages".to_owned(),
    }
}

/// Whether a package is to be updated: where one is asked for, only those with its identity are.
pub open spec fn due(identity: Seq<char>, wanted: Option<Seq<char>>) -> bool {
    match wanted {
        Some(w) => identity == w,
        None => true,
    }
}

/// The indices of the packages that are to be updated, in order.
pub open spec fn due_packages(identities: Seq<Seq<char>>, wanted: Option<Seq<char>>) -> Seq<usize>
    decreases identities.len(),
{
    if identities.len() == 0 {
        Seq::empty()
    } else {
        let before = due_packages(identities.drop_last(), wanted);
        if due(identities.last(), wanted) {
            before.push((identities.len() - 1) as usize)
        } else {
            before
        }
    }
}

/// Which packages are to be updated, given the identity of each, and that of the one that is
/// asked for.
pub fn packages_to_update(identities: &[String], wanted: Option<&str>) -> (r: Vec<usize>)
    ensures
        r@ == due_packages(text::texts(identities@), text::opt_str(wanted)),
{
    let ghost all = text::texts(identities@);
    let mut out: Vec<usize> = Vec::new();
    let mut i: usize = 0;
    while i < identities.len()
        invariant
            i <= identities@.len(),
            all == text::texts(identities@),
            out@ == due_packages(all.take(i as int), text::opt_str(wanted)),
        decreases identities@.len() - i,
    {
        assert(all.take(i + 1).drop_last() =~= all.take(i as int));
        let is_due = match wanted {
            Some(w) => text::same_str(identities[i].as_str(), w),
            None => true,
        };
        if is_due {
            out.push(i);
        }
        i = i + 1;
    }
    assert(all.take(all.len() as int) =~= all);
    out
}

/// A step of printing the list of packages.
#[derive(Debug, Clone, PartialEq, Eq)]
pub enum ListStep {
    /// Print a line.
    Print(String),
    /// Look where a package is installed, and print that as `path_line` says, if it is.
    ShowPath(usize),
}

/// A step of printing the list of packages.
#[verifier::ext_equal]
pub enum StepModel {
    /// Print a line.
    Print(Seq<char>),
    /// Look where a package is installed, and print that.
    ShowPath(int),
}

impl View for ListStep {
    type V = StepModel;

    open spec fn view(&self) -> StepModel {
        match *self {
            ListStep::Print(line) => StepModel::Print(line@),
            ListStep::ShowPath(i) => StepModel::ShowPath(i as int),
        }
    }
}

/// What each step of a sequence says.
pub open spec fn step_views(v: Seq<ListStep>) -> Seq<StepModel> {
    Seq::new(v.len(), |i: int| v[i]@)
}

/// The line for a package.
pub open spec fn package_line(p: PackageModel) -> Seq<char> {
    if p.filtered {
        "  "@ + p.source + " (filtered)"@
    } else {
        "  "@ + p.source
    }
}

/// The steps for those packages that are the user's, or for the others.
pub open spec fn group_steps(entries: Seq<PackageModel>, user: bool) -> Seq<StepModel>
    decreases entries.len(),
{
    if entries.len() == 0 {
        Seq::empty()
    } else {
        let before = group_steps(entries.drop_last(), user);
        if (entries.last().scope is User) == user {
            before.push(StepModel::Print(package_line(entries.last()))).push(
                StepModel::ShowPath(entries.len() - 1),
            )
        } else {
            before
        }
    }
}

/// The steps of printing the list of packages: those of the user, and then the others.
pub open spec fn list_steps(entries: Seq<PackageModel>) -> Seq<StepModel> {
    let user = group_steps(entries, true);
    let project = group_steps(entries, false);
    if user.len() == 0 && project.len() == 0 {
        seq![StepModel::Print("No packages installed."@)]
    } else {
        let first = if user.len() > 0 {
            seq![StepModel::Print("User packages:"@)] + user
        } else {
            Seq::empty()
        };
        let gap = if user.len() > 0 && project.len() > 0 {
            seq![StepModel::Print(Seq::empty())]
        } else {
            Seq::empty()
        };
        let second = if project.len() > 0 {
            seq![StepModel::Print("Project packages:"@)] + project
        } else {
            Seq::empty()
        };
        first + gap + second
    }
}

/// The line for where a package is installed.
pub fn path_line(path: &str) -> (r: String)
    ensures
        r@ == "    "@ + path@,
{
    text::concat2("    ", path)
}

fn steps_for_group(entries: &[PackageEntry], user: bool) -> (r: Vec<ListStep>)
    ensures
        step_views(r@) == group_steps(package_views(entries@), user),
{
    let ghost all = package_views(entries@);
    let mut out: Vec<ListStep> = Vec::new();
    let mut i: usize = 0;
    while i < entries.len()
        invariant
            i <= entries@.len(),
            all == package_views(entries@),
            step_views(out@) == group_steps(all.take(i as int), user),
        decreases entries@.len() - i,
    {
        let entry = &entries[i];
        assert(all.take(i + 1).drop_last() =~= all.take(i as int));
        let of_user = entry.scope == PackageScope::User;
        if of_user == user {
            let line = if entry.filtered {
                text::concat3("  ", entry.source.as_str(), " (filtered)")
            } else {
                text::concat2("  ", entry.source.as_str())
            };
            out.push(ListStep::Print(line));
            out.push(ListStep::ShowPath(i));
        }
        i = i + 1;
    }
    assert(all.take(all.len() as int) =~= all);
    out
}

fn push_group(out: &mut Vec<ListStep>, title: &str, group: Vec<ListStep>)
    ensures
        step_views(final(out)@) == step_views(old(out)@) + (seq![StepModel::Print(title@)]
            + step_views(group@)),
{
    let mut group = group;
    out.push(ListStep::Print(title.to_owned()));
    out.append(&mut group);
}

/// The steps of printing the list of packages: those of the user, and then the others.
pub fn list_packages(entries: &[PackageEntry]) -> (r: Vec<ListStep>)
    ensures
        step_views(r@) == list_steps(package_views(entries@)),
{
    let user = steps_for_group(entries, true);
    let project = steps_for_group(entries, false);
    let mut out: Vec<ListStep> = Vec::new();
    if user.len() == 0 && project.len() == 0 {
        out.push(ListStep::Print("No packages installed.".to_owned()));
        return out;
    }
    let has_user = user.len() > 0;
    let has_project = project.len() > 0;
    if has_user {
        push_group(&mut out, "User packages:", user);
    }
    if has_project {
        if has_user {
            out.push(ListStep::Print(String::new()));
        }
        push_group(&mut out, "Project packages:", project);
    }
    out
}

// ----------------------------------------------------------------------------
// Configuration and version
// ----------------------------------------------------------------------------

/// The version of the program.
pub const VERSION: &'static str = "0.1.0";

/// Where the global settings are, given what the environment says.
pub open spec fn global_settings(
    env: Option<Seq<char>>,
    global_dir: Seq<char>,
    platform: Platform,
) -> Seq<char> {
    match env {
        Some(path) => path,
        None => paths::join(global_dir, "settings.json"@, platform),
    }
}

/// Where the settings of the project are.
pub open spec fn project_settings(
    cwd: Seq<char>,
    project_dir: Seq<char>,
    platform: Platform,
) -> Seq<char> {
    paths::join(paths::join(cwd, project_dir, platform), "settings.json"@, platform)
}

/// Where the global settings are, given what the environment says.
pub fn global_settings_path(env: Option<&str>, global_dir: &str, platform: Platform) -> (r: String)
    ensures
        r@ == global_settings(text::opt_str(env), global_dir@, platform),
{
    match env {
        Some(path) => path.to_owned(),
        None => paths::join_paths(global_dir, "settings.json", platform),
    }
}

/// Where the settings of the project are.
pub fn project_settings_path(cwd: &str, project_dir: &str, platform: Platform) -> (r: String)
    ensures
        r@ == project_settings(cwd@, project_dir@, platform),
{
    let dir = paths::join_paths(cwd, project_dir, platform);
    paths::join_paths(dir.as_str(), "settings.json", platform)
}

/// What is printed where the configuration is asked for.
pub open spec fn config_report(
    global: Seq<char>,
    project: Seq<char>,
    auth: Seq<char>,
    sessions: Seq<char>,
) -> Seq<char> {
    "Settings paths:\n  Global:  "@ + global + "\n  Project: "@ + project
        + "\n\nOther paths:\n  Auth:     "@ + auth + "\n  Sessions: "@ + sessions
        + "\n\nSettings precedence:\n  1) CLI flags\n  2) Environment variables\n  3) Project settings ("@
        + project + ")\n  4) Global settings ("@ + global + ")\n  5) Built-in defaults\n"@
}

/// What is printed where the configuration is asked for.
pub fn handle_config(global: &str, project: &str, auth: &str, sessions: &str) -> (r: String)
    ensures
        r@ == config_report(global@, project@, auth@, sessions@),
{
    let mut out = text::concat3("Settings paths:\n  Global:  ", global, "\n  Project: ");
    out.append(project);
    out.append("\n\nOther paths:\n  Auth:     ");
    out.append(auth);
    out.append("\n  Sessions: ");
    out.append(sessions);
    out.append(
        "\n\nSettings precedence:\n  1) CLI flags\n  2) Environment variables\n  3) Project settings (",
    );
    out.append(project);
    out.append(")\n  4) Global settings (");
    out.append(global);
    out.append(")\n  5) Built-in defaults\n");
    out
}

/// What is printed where the version is asked for, given what is known of the build.
pub fn version_line(version: &str, commit: Option<&str>, built_at: Option<&str>) -> (r: String)
    ensures
        r@ == "pi "@ + version@ + " ("@ + (match commit {
            Some(c) => c@,
            None => "unknown"@,
        }) + " "@ + (match built_at {
            Some(t) => t@,
            None => ""@,
        }) + ")"@,
{
    let mut out = text::concat3("pi ", version, " (");
    match commit {
        Some(c) => out.append(c),
        None => out.append("unknown"),
    }
    out.append(" ");
    match built_at {
        Some(t) => out.append(t),
        None => out.append(""),
    }
    out.append(")");
    out
}

// ----------------------------------------------------------------------------
// Laws
// ----------------------------------------------------------------------------

/// The list of packages looks where each package is installed.
pub proof fn law_every_package_is_listed(entries: Seq<PackageModel>, i: int)
    requires
        0 <= i < entries.len(),
    ensures
        list_steps(entries).contains(StepModel::Print(package_line(entries[i]))),
        list_steps(entries).contains(StepModel::ShowPath(i)),
{
    let of_user = entries[i].scope is User;
    lemma_group_lists(entries, of_user, i);
    let user = group_steps(entries, true);
    let project = group_steps(entries, false);
    let steps = list_steps(entries);
    let offset: int = if of_user {
        1
    } else if user.len() > 0 {
        user.len() as int + 3
    } else {
        1
    };
    let group = if of_user {
        user
    } else {
        project
    };
    assert forall|k: int| 0 <= k < group.len() implies steps[offset + k] == #[trigger] group[k] by {}
}

proof fn lemma_group_lists(entries: Seq<PackageModel>, user: bool, i: int)
    requires
        0 <= i < entries.len(),
        (entries[i].scope is User) == user,
    ensures
        group_steps(entries, user).contains(StepModel::Print(package_line(entries[i]))),
        group_steps(entries, user).contains(StepModel::ShowPath(i)),
    decreases entries.len(),
{
    let all = group_steps(entries, user);
    let front = entries.drop_last();
    let before = group_steps(front, user);
    if i == entries.len() - 1 {
        assert(all[before.len() as int] == StepModel::Print(package_line(entries[i])));
        assert(all[before.len() as int + 1] == StepModel::ShowPath(i));
    } else {
        lemma_group_lists(front, user, i);
        let a = choose|k: int|
            0 <= k < before.len() && before[k] == StepModel::Print(package_line(front[i]));
        let b = choose|k: int| 0 <= k < before.len() && before[k] == StepModel::ShowPath(i);
        assert(all[a] == before[a]);
        assert(all[b] == before[b]);
    }
}

/// Where no package is asked for, all are updated.
pub proof fn law_all_packages_are_updated(identities: Seq<Seq<char>>)
    requires
        identities.len() <= usize::MAX,
    ensures
        due_packages(identities, None) == Seq::new(identities.len(), |i: int| i as usize),
    decreases identities.len(),
{
    if identities.len() > 0 {
        law_all_packages_are_updated(identities.drop_last());
    }
}

/// Where a package is asked for, exactly those with its identity are updated.
pub proof fn law_only_the_package_is_updated(
    identities: Seq<Seq<char>>,
    wanted: Seq<char>,
    i: usize,
)
    requires
        identities.len() <= usize::MAX,
    ensures
        due_packages(identities, Some(wanted)).contains(i) <==> i < identities.len()
            && identities[i as int] == wanted,
    decreases identities.len(),
{
    if identities.len() > 0 {
        let front = identities.drop_last();
        let before = due_packages(front, Some(wanted));
        let all = due_packages(identities, Some(wanted));
        law_only_the_package_is_updated(front, wanted, i);
        if before.contains(i) {
            let k = choose|k: int| 0 <= k < before.len() && before[k] == i;
            assert(all[k] == i);
        }
        if i == identities.len() - 1 && identities[i as int] == wanted {
            assert(all[all.len() - 1] == i);
        }
        if all.contains(i) {
            let k = choose|k: int| 0 <= k < all.len() && all[k] == i;
        }
    }
}

/// A package is listed by its source, with two spaces before it, and with a remark where only a part
/// of it is used.
pub proof fn law_package_line_names_the_source(p: PackageModel)
    ensures
        !p.filtered ==> package_line(p) == "  "@ + p.source,
        p.filtered ==> package_line(p) == "  "@ + p.source + " (filtered)"@,
{
}

/// The packages of a group are listed in order, each with its line and then where it is installed.
/// A package belongs to the first group where it is the user's, and to the second otherwise.
pub proof fn law_packages_are_listed_in_turn(
    before: Seq<PackageModel>,
    p: PackageModel,
    user: bool,
)
    ensures
        group_steps(Seq::empty(), user).len() == 0,
        (p.scope == PackageScope::User) == user ==> group_steps(before.push(p), user)
            == group_steps(before, user) + seq![
            StepModel::Print(package_line(p)),
            StepModel::ShowPath(before.len() as int),
        ],
        (p.scope == PackageScope::User) != user ==> group_steps(before.push(p), user)
            == group_steps(before, user),
{
    assert(before.push(p).drop_last() =~= before);
    let a = StepModel::Print(package_line(p));
    let b = StepModel::ShowPath(before.len() as int);
    assert(group_steps(before, user).push(a).push(b) =~= group_steps(before, user) + seq![a, b]);
}

proof fn lemma_group_is_empty(entries: Seq<PackageModel>, user: bool)
    ensures
        group_steps(entries, user).len() == 0 <==> forall|i: int|
            0 <= i < entries.len() ==> ((#[trigger] entries[i]).scope is User) != user,
{
    if exists|i: int| 0 <= i < entries.len() && ((#[trigger] entries[i]).scope is User) == user {
        let i = choose|i: int|
            0 <= i < entries.len() && ((#[trigger] entries[i]).scope is User) == user;
        lemma_group_lists(entries, user, i);
    } else {
        lemma_empty_group(entries, user);
    }
}

proof fn lemma_empty_group(entries: Seq<PackageModel>, user: bool)
    requires
        forall|i: int|
            0 <= i < entries.len() ==> ((#[trigger] entries[i]).scope is User) != user,
    ensures
        group_steps(entries, user).len() == 0,
    decreases entries.len(),
{
    if entries.len() > 0 {
        assert((entries[entries.len() - 1].scope is User) != user);
        lemma_empty_group(entries.drop_last(), user);
    }
}

/// The list has a part for the packages of the user and one for the others, each with a title, and
/// an empty line between them where there are both. A part without packages is left out.
pub proof fn law_list_has_a_part_for_each_scope(
    entries: Seq<PackageModel>,
    some_user: bool,
    some_other: bool,
)
    requires
        some_user == exists|i: int|
            0 <= i < entries.len() && (#[trigger] entries[i]).scope == PackageScope::User,
        some_other == exists|i: int|
            0 <= i < entries.len() && (#[trigger] entries[i]).scope != PackageScope::User,
    ensures
        entries.len() == 0 ==> list_steps(entries) == seq![
            StepModel::Print("No packages installed."@),
        ],
        some_user && !some_other ==> list_steps(entries) == seq![
            StepModel::Print("User packages:"@),
        ] + group_steps(entries, true),
        !some_user && some_other ==> list_steps(entries) == seq![
            StepModel::Print("Project packages:"@),
        ] + group_steps(entries, false),
        some_user && some_other ==> list_steps(entries) == seq![
            StepModel::Print("User packages:"@),
        ] + group_steps(entries, true) + seq![
            StepModel::Print(Seq::empty()),
            StepModel::Print("Project packages:"@),
        ] + group_steps(entries, false),
{
    lemma_group_is_empty(entries, true);
    lemma_group_is_empty(entries, false);
    let user = group_steps(entries, true);
    let other = group_steps(entries, false);
    if some_user {
        let i = choose|i: int|
            0 <= i < entries.len() && (#[trigger] entries[i]).scope == PackageScope::User;
        assert((entries[i].scope is User) == true);
    }
    if some_other {
        let i = choose|i: int|
            0 <= i < entries.len() && (#[trigger] entries[i]).scope != PackageScope::User;
        assert((entries[i].scope is User) == false);
    }
    let steps = list_steps(entries);
    if some_user && !some_other {
        assert(steps =~= seq![StepModel::Print("User packages:"@)] + user);
    } else if !some_user && some_other {
        assert(steps =~= seq![StepModel::Print("Project packages:"@)] + other);
    } else if some_user && some_other {
        assert(steps =~= seq![StepModel::Print("User packages:"@)] + user + seq![
            StepModel::Print(Seq::empty()),
            StepModel::Print("Project packages:"@),
        ] + other);
    }
}

/// Packages are updated in the order in which they stand, and none twice.
pub proof fn law_updates_keep_the_order(
    identities: Seq<Seq<char>>,
    wanted: Option<Seq<char>>,
    i: int,
    j: int,
)
    requires
        identities.len() <= usize::MAX,
        0 <= i < j < due_packages(identities, wanted).len(),
    ensures
        due_packages(identities, wanted)[i] < due_packages(identities, wanted)[j] < identities.len(),
    decreases identities.len(),
{
    if identities.len() > 0 {
        let front = identities.drop_last();
        let before = due_packages(front, wanted);
        if j < before.len() {
            law_updates_keep_the_order(front, wanted, i, j);
        } else {
            lemma_due_within(front, wanted, i);
        }
    }
}

proof fn lemma_due_within(identities: Seq<Seq<char>>, wanted: Option<Seq<char>>, i: int)
    requires
        identities.len() <= usize::MAX,
        0 <= i < due_packages(identities, wanted).len(),
    ensures
        due_packages(identities, wanted)[i] < identities.len(),
    decreases identities.len(),
{
    if identities.len() > 0 {
        let before = due_packages(identities.drop_last(), wanted);
        if i < before.len() {
            lemma_due_within(identities.drop_last(), wanted, i);
        }
    }
}

/// The environment decides where the global settings are. Otherwise they are in the file
/// `settings.json` of the global directory, as those of the project are in that of its directory
/// under the working directory.
pub proof fn law_settings_have_their_places(
    path: Seq<char>,
    dir: Seq<char>,
    cwd: Seq<char>,
    platform: Platform,
)
    ensures
        global_settings(Some(path), dir, platform) == path,
        global_settings(None, dir, platform) == paths::join(dir, "settings.json"@, platform),
        project_settings(cwd, dir, platform) == global_settings(
            None,
            paths::join(cwd, dir, platform),
            platform,
        ),
{
}

/// What is printed of the configuration: each path under its title, the settings of the project
/// before the global ones in the order in which they count.
pub proof fn law_configuration_is_reported(
    global: Seq<char>,
    project: Seq<char>,
    auth: Seq<char>,
    sessions: Seq<char>,
    paths_part: Seq<char>,
    order_part: Seq<char>,
)
    requires
        paths_part == "Settings paths:\n  Global:  "@ + global + "\n  Project: "@ + project
            + "\n\nOther paths:\n  Auth:     "@ + auth + "\n  Sessions: "@ + sessions,
        order_part
            == "\n\nSettings precedence:\n  1) CLI flags\n  2) Environment variables\n  3) Project settings ("@
            + project + ")\n  4) Global settings ("@ + global + ")\n  5) Built-in defaults\n"@,
    ensures
        config_report(global, project, auth, sessions) == paths_part + order_part,
{
    assert(config_report(global, project, auth, sessions) =~= paths_part + order_part);
}

/// What packages and steps say is what they hold.
pub proof fn law_packages_say_what_they_hold(
    entries: Seq<PackageEntry>,
    i: int,
    line: String,
    at: usize,
)
    ensures
        package_views(entries).len() == entries.len(),
        0 <= i < entries.len() ==> package_views(entries)[i].source == entries[i].source@
            && package_views(entries)[i].scope == entries[i].scope
            && package_views(entries)[i].filtered == entries[i].filtered,
        ListStep::Print(line)@ == StepModel::Print(line@),
        ListStep::ShowPath(at)@ == StepModel::ShowPath(at as int),
        VERSION@ == "0.1.0"@,
{
}

/// What a list of steps says is what the steps say, one by one.
pub proof fn law_lists_of_steps_say_what_they_hold(steps: Seq<ListStep>, i: int)
    ensures
        step_views(steps).len() == steps.len(),
        0 <= i < steps.len() ==> step_views(steps)[i] == steps[i]@,
{
}

} // verus!
