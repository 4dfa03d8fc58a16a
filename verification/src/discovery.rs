//! Which applications there are: every visible directory below the base directory.

use vstd::prelude::*;
use vstd::string::*;
use crate::config::{
    optional_override, resolve_app, resolved_app, AppOverride, AppOverrideView, AppSpec, AppSpecView,
    Config, GlobalConfig,
};
use crate::paths::{
    at_path, at_path_text, bytes_of, cannot, cannot_text, is_app_name, is_within, joined,
    lossy_text, resolve_from, same_place, valid_app_name, FilePath,
};
use crate::text::same_text;

verus! {

/// What an entry of the base directory is.
#[derive(Debug)]
pub enum EntryKind {
    /// Its metadata could not be read.
    Unreadable(String),
    /// It is a directory, with the place that it resolves to.
    Directory(Result<FilePath, String>),
    /// It is something else, or it is hidden.
    Other,
}

/// An entry of the base directory.
#[derive(Debug)]
pub enum EntrySeen {
    /// The listing broke off.
    Broken(String),
    /// Its name is not UTF-8.
    Unnamed,
    Named { name: String, kind: EntryKind },
}

/// The base directory.
#[derive(Debug)]
pub enum BaseSeen {
    /// It could not be resolved.
    Unresolved(String),
    /// It resolves to something that is no directory.
    NotADirectory(FilePath),
    /// It resolves to a directory, with its entries where they could be listed.
    Directory { base: FilePath, entries: Result<Vec<EntrySeen>, String> },
}

/// Whether a name is that of a hidden file.
pub open spec fn hidden(name: Seq<char>) -> bool {
    name.len() > 0 && name[0] == '.'
}

/// Whether a name is that of a hidden file, which is no application whatever it is.
pub fn is_hidden(name: &str) -> (r: bool)
    ensures
        r == hidden(name@),
{
    name.unicode_len() > 0 && name.get_char(0) == '.'
}

/// Whether `a` comes before `b` or is `b`, in the order of their characters.
pub open spec fn text_before(a: Seq<char>, b: Seq<char>) -> bool
    decreases a.len(),
{
    if a.len() == 0 {
        true
    } else if b.len() == 0 {
        false
    } else if a[0] == b[0] {
        text_before(a.drop_first(), b.drop_first())
    } else {
        a[0] < b[0]
    }
}

fn comes_before(a: &str, b: &str) -> (r: bool)
    ensures
        r == text_before(a@, b@),
{
    let a_len: usize = a.unicode_len();
    let b_len: usize = b.unicode_len();
    let mut i: usize = 0;
    assert(a@.skip(0) == a@);
    assert(b@.skip(0) == b@);
    while i < a_len && i < b_len && a.get_char(i) == b.get_char(i)
        invariant
            i <= a_len,
            i <= b_len,
            a_len == a@.len(),
            b_len == b@.len(),
            text_before(a@.skip(i as int), b@.skip(i as int)) == text_before(a@, b@),
        ensures
            i <= a_len,
            i <= b_len,
            i < a_len && i < b_len ==> a@[i as int] != b@[i as int],
            text_before(a@.skip(i as int), b@.skip(i as int)) == text_before(a@, b@),
        decreases a_len - i,
    {
        assert(a@.skip(i as int).drop_first() == a@.skip(i + 1));
        assert(b@.skip(i as int).drop_first() == b@.skip(i + 1));
        i = i + 1;
    }
    if i == a_len {
        true
    } else if i == b_len {
        false
    } else {
        a.get_char(i) < b.get_char(i)
    }
}

/// The applications as the library's contracts speak of them.
pub open spec fn app_views(apps: Seq<AppSpec>) -> Seq<AppSpecView> {
    apps.map_values(|app: AppSpec| app@)
}

/// The overrides as the library's contracts speak of them.
pub open spec fn override_views(overrides: Seq<AppOverride>) -> Seq<AppOverrideView> {
    overrides.map_values(|app_override: AppOverride| app_override@)
}

/// What is wrong with the name of override `i`, seen after those before it.
pub open spec fn name_fault(overrides: Seq<AppOverrideView>, i: int) -> Option<Seq<char>> {
    let name = overrides[i].name;
    if !is_app_name(bytes_of(name)) || hidden(name) {
        Some("invalid app name "@ + name)
    } else if exists|j: int| 0 <= j < i && (#[trigger] overrides[j]).name == name {
        Some("duplicate app override "@ + name)
    } else {
        None
    }
}

/// What is wrong with the name of the first override with which anything is, among
/// the first `count`.
pub open spec fn first_name_fault(overrides: Seq<AppOverrideView>, count: int) -> Option<Seq<char>>
    decreases count,
{
    if count <= 0 {
        None
    } else {
        match first_name_fault(overrides, count - 1) {
            Some(fault) => Some(fault),
            None => name_fault(overrides, count - 1),
        }
    }
}

/// Where the override for `name` stands, at `from` or behind it.
pub open spec fn override_at(overrides: Seq<AppOverrideView>, name: Seq<char>, from: int) -> Option<
    int,
>
    decreases overrides.len() - from,
{
    if from < 0 || from >= overrides.len() {
        None
    } else if overrides[from].name == name {
        Some(from)
    } else {
        override_at(overrides, name, from + 1)
    }
}

/// Whether there is an application of that name.
pub open spec fn has_app(apps: Seq<AppSpecView>, name: Seq<char>) -> bool {
    exists|i: int| 0 <= i < apps.len() && (#[trigger] apps[i]).name == name
}

/// The override for the next application: an override is for one application only.
pub open spec fn matching_override(
    overrides: Seq<AppOverrideView>,
    apps: Seq<AppSpecView>,
    name: Seq<char>,
) -> Option<AppOverrideView> {
    if has_app(apps, name) {
        None
    } else {
        match override_at(overrides, name, 0) {
            Some(i) => Some(overrides[i]),
            None => None,
        }
    }
}

/// Where an application in the same place stands, at `from` or behind it.
pub open spec fn app_at(apps: Seq<AppSpecView>, place: Seq<u8>, from: int) -> Option<int>
    decreases apps.len() - from,
{
    if from < 0 || from >= apps.len() {
        None
    } else if same_place(apps[from].dir, place) {
        Some(from)
    } else {
        app_at(apps, place, from + 1)
    }
}

/// The applications after one more entry of the base directory.
pub open spec fn with_entry(
    global: GlobalConfig,
    overrides: Seq<AppOverrideView>,
    base: Seq<u8>,
    apps: Seq<AppSpecView>,
    entry: EntrySeen,
) -> Result<Seq<AppSpecView>, Seq<char>> {
    match entry {
        EntrySeen::Broken(error) => Err(at_path_text(base, error@)),
        EntrySeen::Unnamed => Err(lossy_text(base) + " contains a non-UTF-8 name"@),
        EntrySeen::Named { name, kind } => {
            let path = joined(base, bytes_of(name@));
            if hidden(name@) {
                Ok(apps)
            } else {
                match kind {
                    EntryKind::Unreadable(error) => Err(cannot_text("inspect"@, path, error@)),
                    EntryKind::Other => Ok(apps),
                    EntryKind::Directory(Err(error)) => Err(at_path_text(path, error@)),
                    EntryKind::Directory(Ok(place)) => if !is_within(place@, base) {
                        Err(
                            "app directory "@ + lossy_text(path) + " resolves outside "@
                                + lossy_text(base),
                        )
                    } else {
                        match app_at(apps, place@, 0) {
                            Some(i) => Err(
                                "app directories "@ + apps[i].name + " and "@ + name@
                                    + " resolve to the same location"@,
                            ),
                            None => Ok(
                                apps.push(
                                    resolved_app(
                                        global,
                                        name@,
                                        place@,
                                        matching_override(overrides, apps, name@),
                                    ),
                                ),
                            ),
                        }
                    },
                }
            }
        },
    }
}

/// The applications after the first `count` entries of the base directory.
pub open spec fn with_entries(
    global: GlobalConfig,
    overrides: Seq<AppOverrideView>,
    base: Seq<u8>,
    entries: Seq<EntrySeen>,
    count: int,
) -> Result<Seq<AppSpecView>, Seq<char>>
    decreases count,
{
    if count <= 0 {
        Ok(Seq::empty())
    } else {
        match with_entries(global, overrides, base, entries, count - 1) {
            Ok(apps) => with_entry(global, overrides, base, apps, entries[count - 1]),
            Err(message) => Err(message),
        }
    }
}

/// The name of the first override that is for no application.
pub open spec fn unmatched(
    overrides: Seq<AppOverrideView>,
    apps: Seq<AppSpecView>,
    from: int,
) -> Option<Seq<char>>
    decreases overrides.len() - from,
{
    if from < 0 || from >= overrides.len() {
        None
    } else if has_app(apps, overrides[from].name) {
        unmatched(overrides, apps, from + 1)
    } else {
        Some(overrides[from].name)
    }
}

/// How many of `apps`, from the start, do not come after `name`.
pub open spec fn place_for(apps: Seq<AppSpecView>, name: Seq<char>) -> nat
    decreases apps.len(),
{
    if apps.len() > 0 && text_before(apps[0].name, name) {
        1 + place_for(apps.drop_first(), name)
    } else {
        0
    }
}

/// The applications in the order of their names; those with one name keep the
/// order in which they are given.
pub open spec fn by_name(apps: Seq<AppSpecView>) -> Seq<AppSpecView>
    decreases apps.len(),
{
    if apps.len() == 0 {
        apps
    } else {
        let sorted = by_name(apps.drop_last());
        sorted.insert(place_for(sorted, apps.last().name) as int, apps.last())
    }
}

/// The applications that a configuration has in a base directory, or what is wrong
/// with one of the two.
pub open spec fn discovered(config: Config, config_dir: Seq<u8>, seen: BaseSeen) -> Result<
    Seq<AppSpecView>,
    Seq<char>,
> {
    let overrides = override_views(config.app_overrides@);
    match seen {
        BaseSeen::Unresolved(error) => Err(
            at_path_text(joined(config_dir, config.global.base_dir@), error@),
        ),
        BaseSeen::NotADirectory(base) => Err(lossy_text(base@) + " is not a directory"@),
        BaseSeen::Directory { base, entries } => match first_name_fault(
            overrides,
            overrides.len() as int,
        ) {
            Some(fault) => Err(fault),
            None => match entries {
                Err(error) => Err(at_path_text(base@, error@)),
                Ok(entries) => match with_entries(
                    config.global,
                    overrides,
                    base@,
                    entries@,
                    entries@.len() as int,
                ) {
                    Err(message) => Err(message),
                    Ok(apps) => match unmatched(overrides, apps, 0) {
                        Some(name) => Err(
                            "app override "@ + name + " has no matching directory"@,
                        ),
                        None => Ok(by_name(apps)),
                    },
                },
            },
        },
    }
}

/// What the library returns for `described`.
pub open spec fn finds(
    result: Result<Vec<AppSpec>, String>,
    described: Result<Seq<AppSpecView>, Seq<char>>,
) -> bool {
    match (result, described) {
        (Ok(apps), Ok(views)) => app_views(apps@) == views,
        (Err(message), Err(text)) => message@ == text,
        _ => false,
    }
}

fn check_names(overrides: &Vec<AppOverride>) -> (r: Option<String>)
    ensures
        match (r, first_name_fault(override_views(overrides@), overrides@.len() as int)) {
            (Some(message), Some(fault)) => message@ == fault,
            (None, None) => true,
            _ => false,
        },
{
    let ghost views = override_views(overrides@);
    let mut i: usize = 0;
    while i < overrides.len()
        invariant
            i <= overrides.len(),
            views == override_views(overrides@),
            first_name_fault(views, i as int) is None,
        decreases overrides.len() - i,
    {
        let name = overrides[i].name.as_str();
        assert(views[i as int].name == name@);
        if !valid_app_name(name) || is_hidden(name) {
            proof {
                lemma_first_fault_stays(views, i + 1, views.len() as int);
            }
            return Some("invalid app name ".to_owned().concat(name));
        }
        let mut j: usize = 0;
        while j < i
            invariant
                j <= i < overrides.len(),
                views == override_views(overrides@),
                name@ == views[i as int].name,
                is_app_name(bytes_of(name@)),
                !hidden(name@),
                first_name_fault(views, i as int) is None,
                forall|k: int| 0 <= k < j ==> (#[trigger] views[k]).name != name@,
            decreases i - j,
        {
            assert(views[j as int].name == overrides@[j as int].name@);
            if same_text(overrides[j].name.as_str(), name) {
                proof {
                    lemma_first_fault_stays(views, i + 1, views.len() as int);
                }
                return Some("duplicate app override ".to_owned().concat(name));
            }
            j = j + 1;
        }
        i = i + 1;
    }
    None
}

proof fn lemma_first_fault_stays(overrides: Seq<AppOverrideView>, count: int, more: int)
    requires
        first_name_fault(overrides, count) is Some,
        count <= more,
    ensures
        first_name_fault(overrides, more) == first_name_fault(overrides, count),
    decreases more,
{
    if count < more {
        lemma_first_fault_stays(overrides, count, more - 1);
    }
}

fn find_app_named(apps: &Vec<AppSpec>, name: &str) -> (r: bool)
    ensures
        r == has_app(app_views(apps@), name@),
{
    let ghost views = app_views(apps@);
    let mut i: usize = 0;
    while i < apps.len()
        invariant
            i <= apps.len(),
            views == app_views(apps@),
            forall|k: int| 0 <= k < i ==> (#[trigger] views[k]).name != name@,
        decreases apps.len() - i,
    {
        assert(views[i as int].name == apps@[i as int].name@);
        if same_text(apps[i].name.as_str(), name) {
            return true;
        }
        i = i + 1;
    }
    false
}

fn find_override(overrides: &Vec<AppOverride>, apps: &Vec<AppSpec>, name: &str) -> (r: Option<
    AppOverride,
>)
    ensures
        optional_override(r) == matching_override(
            override_views(overrides@),
            app_views(apps@),
            name@,
        ),
{
    if find_app_named(apps, name) {
        return None;
    }
    let ghost views = override_views(overrides@);
    let mut i: usize = 0;
    while i < overrides.len()
        invariant
            i <= overrides.len(),
            views == override_views(overrides@),
            !has_app(app_views(apps@), name@),
            override_at(views, name@, i as int) == override_at(views, name@, 0),
        decreases overrides.len() - i,
    {
        assert(views[i as int] == overrides@[i as int]@);
        if same_text(overrides[i].name.as_str(), name) {
            return Some(overrides[i].copy());
        }
        i = i + 1;
    }
    None
}

fn find_app_at(apps: &Vec<AppSpec>, place: &FilePath) -> (r: Option<usize>)
    ensures
        match (r, app_at(app_views(apps@), place@, 0)) {
            (Some(i), Some(expected)) => i == expected && i < apps@.len(),
            (None, None) => true,
            _ => false,
        },
{
    let ghost views = app_views(apps@);
    let mut i: usize = 0;
    while i < apps.len()
        invariant
            i <= apps.len(),
            views == app_views(apps@),
            app_at(views, place@, i as int) == app_at(views, place@, 0),
        decreases apps.len() - i,
    {
        assert(views[i as int] == apps@[i as int]@);
        if apps[i].dir.same_as(place) {
            return Some(i);
        }
        i = i + 1;
    }
    None
}

fn take_entry(
    config: &Config,
    base: &FilePath,
    apps: Vec<AppSpec>,
    entry: &EntrySeen,
) -> (r: Result<Vec<AppSpec>, String>)
    ensures
        finds(
            r,
            with_entry(
                config.global,
                override_views(config.app_overrides@),
                base@,
                app_views(apps@),
                *entry,
            ),
        ),
{
    match entry {
        EntrySeen::Broken(error) => Err(at_path(base, error.as_str())),
        EntrySeen::Unnamed => Err(base.display().concat(" contains a non-UTF-8 name")),
        EntrySeen::Named { name, kind } => {
            if is_hidden(name.as_str()) {
                return Ok(apps);
            }
            let path = resolve_from(base, &FilePath::from_text(name.as_str()));
            match kind {
                EntryKind::Unreadable(error) => Err(cannot("inspect", &path, error.as_str())),
                EntryKind::Other => Ok(apps),
                EntryKind::Directory(Err(error)) => Err(at_path(&path, error.as_str())),
                EntryKind::Directory(Ok(place)) => {
                    if !place.starts_with(base) {
                        return Err(
                            "app directory ".to_owned().concat(path.display().as_str()).concat(
                                " resolves outside ",
                            ).concat(base.display().as_str()),
                        );
                    }
                    if let Some(i) = find_app_at(&apps, place) {
                        return Err(
                            "app directories ".to_owned().concat(apps[i].name.as_str()).concat(
                                " and ",
                            ).concat(name.as_str()).concat(" resolve to the same location"),
                        );
                    }
                    let app_override = find_override(&config.app_overrides, &apps, name.as_str());
                    let app = resolve_app(
                        &config.global,
                        name.clone(),
                        place.copy(),
                        app_override,
                    );
                    let ghost before = app_views(apps@);
                    let mut apps = apps;
                    apps.push(app);
                    assert(app_views(apps@) =~= before.push(app@));
                    Ok(apps)
                },
            }
        },
    }
}

fn find_unmatched(overrides: &Vec<AppOverride>, apps: &Vec<AppSpec>) -> (r: Option<usize>)
    ensures
        match (r, unmatched(override_views(overrides@), app_views(apps@), 0)) {
            (Some(i), Some(name)) => i < overrides@.len() && overrides@[i as int].name@ == name,
            (None, None) => true,
            _ => false,
        },
{
    let ghost views = override_views(overrides@);
    let mut i: usize = 0;
    while i < overrides.len()
        invariant
            i <= overrides.len(),
            views == override_views(overrides@),
            unmatched(views, app_views(apps@), i as int) == unmatched(views, app_views(apps@), 0),
        decreases overrides.len() - i,
    {
        assert(views[i as int] == overrides@[i as int]@);
        if !find_app_named(apps, overrides[i].name.as_str()) {
            return Some(i);
        }
        i = i + 1;
    }
    None
}

fn place_in(apps: &Vec<AppSpec>, name: &str) -> (r: usize)
    ensures
        r == place_for(app_views(apps@), name@),
        r <= apps@.len(),
{
    let ghost views = app_views(apps@);
    let mut i: usize = 0;
    assert(views.skip(0) == views);
    while i < apps.len() && comes_before(apps[i].name.as_str(), name)
        invariant
            i <= apps.len(),
            views == app_views(apps@),
            place_for(views, name@) == i + place_for(views.skip(i as int), name@),
        ensures
            i <= apps.len(),
            place_for(views, name@) == i,
        decreases apps.len() - i,
    {
        assert(views[i as int] == apps@[i as int]@);
        assert(views.skip(i as int).drop_first() == views.skip(i + 1));
        i = i + 1;
    }
    i
}

fn sort_by_name(apps: Vec<AppSpec>) -> (r: Vec<AppSpec>)
    ensures
        app_views(r@) == by_name(app_views(apps@)),
{
    let ghost views = app_views(apps@);
    let mut rest = apps;
    let mut sorted: Vec<AppSpec> = Vec::new();
    let ghost mut taken: int = 0;
    assert(views.take(0) =~= Seq::<AppSpecView>::empty());
    assert(app_views(sorted@) =~= Seq::<AppSpecView>::empty());
    assert(app_views(rest@) =~= views.skip(0));
    while rest.len() > 0
        invariant
            0 <= taken <= views.len(),
            app_views(rest@) == views.skip(taken),
            app_views(sorted@) == by_name(views.take(taken)),
        decreases rest.len(),
    {
        let ghost before = rest@;
        let app = rest.remove(0);
        let at: usize = place_in(&sorted, app.name.as_str());
        let ghost done = app_views(sorted@);
        sorted.insert(at, app);
        proof {
            assert(before.len() == views.skip(taken).len());
            assert(app@ == app_views(before)[0]);
            assert forall|i: int| 0 <= i < rest@.len() implies #[trigger] app_views(rest@)[i]
                == views.skip(taken + 1)[i] by {
                assert(app_views(before)[i + 1] == views.skip(taken)[i + 1]);
            }
            assert(app_views(rest@) =~= views.skip(taken + 1));
            assert(views.take(taken + 1).drop_last() == views.take(taken));
            assert(app_views(sorted@) =~= done.insert(at as int, app@));
            taken = taken + 1;
        }
    }
    assert(views.take(taken) =~= views);
    sorted
}

/// The applications that the configuration has in its base directory.
pub fn discover_apps(config: &Config, config_dir: &FilePath, seen: &BaseSeen) -> (r: Result<
    Vec<AppSpec>,
    String,
>)
    ensures
        finds(r, discovered(*config, config_dir@, *seen)),
{
    match seen {
        BaseSeen::Unresolved(error) => Err(
            at_path(&resolve_from(config_dir, &config.global.base_dir), error.as_str()),
        ),
        BaseSeen::NotADirectory(base) => Err(base.display().concat(" is not a directory")),
        BaseSeen::Directory { base, entries } => {
            if let Some(message) = check_names(&config.app_overrides) {
                return Err(message);
            }
            let entries = match entries {
                Ok(entries) => entries,
                Err(error) => return Err(at_path(base, error.as_str())),
            };
            let ghost overrides = override_views(config.app_overrides@);
            let mut apps: Vec<AppSpec> = Vec::new();
            let mut i: usize = 0;
            assert(app_views(apps@) =~= Seq::<AppSpecView>::empty());
            while i < entries.len()
                invariant
                    i <= entries.len(),
                    overrides == override_views(config.app_overrides@),
                    with_entries(config.global, overrides, base@, entries@, i as int) == Ok::<
                        Seq<AppSpecView>,
                        Seq<char>,
                    >(app_views(apps@)),
                    *seen == (BaseSeen::Directory { base: *base, entries: Ok(*entries) }),
                    first_name_fault(overrides, overrides.len() as int) is None,
                decreases entries.len() - i,
            {
                apps = match take_entry(config, base, apps, &entries[i]) {
                    Ok(apps) => apps,
                    Err(message) => {
                        proof {
                            lemma_first_error_stays(
                                config.global,
                                overrides,
                                base@,
                                entries@,
                                i + 1,
                                entries@.len() as int,
                            );
                        }
                        return Err(message);
                    },
                };
                i = i + 1;
            }
            match find_unmatched(&config.app_overrides, &apps) {
                Some(i) => Err(
                    "app override ".to_owned().concat(
                        config.app_overrides[i].name.as_str(),
                    ).concat(" has no matching directory"),
                ),
                None => Ok(sort_by_name(apps)),
            }
        },
    }
}

proof fn lemma_first_error_stays(
    global: GlobalConfig,
    overrides: Seq<AppOverrideView>,
    base: Seq<u8>,
    entries: Seq<EntrySeen>,
    count: int,
    more: int,
)
    requires
        with_entries(global, overrides, base, entries, count) is Err,
        count <= more,
    ensures
        with_entries(global, overrides, base, entries, more) == with_entries(
            global,
            overrides,
            base,
            entries,
            count,
        ),
    decreases more,
{
    if count < more {
        lemma_first_error_stays(global, overrides, base, entries, count, more - 1);
    }
}

} // verus!
