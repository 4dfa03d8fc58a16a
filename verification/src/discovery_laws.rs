//! What holds of every discovery.

use vstd::prelude::*;
use vstd::seq_lib::*;
use crate::config::{follows, resolved_app, AppOverrideView, AppSpecView, Config, GlobalConfig};
use crate::discovery::{
    app_at, by_name, discovered, first_name_fault, has_app, hidden, name_fault, override_at,
    override_views, place_for, text_before, unmatched, with_entries, BaseSeen, EntryKind,
    EntrySeen,
};
use crate::paths::{
    bytes_of, components, is_app_name, is_within, joined, lossy_text, same_place, FilePath,
};
use crate::report_laws::ends_with;

verus! {

/// Whether all the applications are below the base directory and visible.
pub open spec fn all_below(apps: Seq<AppSpecView>, base: Seq<u8>) -> bool {
    forall|i: int|
        0 <= i < apps.len() ==> is_within((#[trigger] apps[i]).dir, base) && !hidden(apps[i].name)
}

/// Whether no two applications are in the same place.
pub open spec fn all_apart(apps: Seq<AppSpecView>) -> bool {
    forall|i: int, j: int|
        0 <= i < j < apps.len() ==> !same_place(
            (#[trigger] apps[i]).dir,
            (#[trigger] apps[j]).dir,
        )
}

/// Whether the applications are in the order of their names.
pub open spec fn in_name_order(apps: Seq<AppSpecView>) -> bool {
    forall|i: int, j: int|
        0 <= i < j < apps.len() ==> text_before(
            (#[trigger] apps[i]).name,
            (#[trigger] apps[j]).name,
        )
}

proof fn lemma_nobody_there(apps: Seq<AppSpecView>, place: Seq<u8>, from: int)
    requires
        0 <= from,
        app_at(apps, place, from) is None,
    ensures
        forall|i: int| from <= i < apps.len() ==> !same_place((#[trigger] apps[i]).dir, place),
    decreases apps.len() - from,
{
    if from < apps.len() {
        lemma_nobody_there(apps, place, from + 1);
    }
}

proof fn lemma_found(
    global: GlobalConfig,
    overrides: Seq<AppOverrideView>,
    base: Seq<u8>,
    entries: Seq<EntrySeen>,
    count: int,
)
    ensures
        with_entries(global, overrides, base, entries, count) matches Ok(apps) ==> all_below(
            apps,
            base,
        ) && all_apart(apps),
    decreases count,
{
    if count > 0 {
        lemma_found(global, overrides, base, entries, count - 1);
        if let Ok(apps) = with_entries(global, overrides, base, entries, count - 1) {
            if let EntrySeen::Named {
                kind: EntryKind::Directory(Ok(place)),
                ..
            } = entries[count - 1] {
                if app_at(apps, place@, 0) is None {
                    lemma_nobody_there(apps, place@, 0);
                }
            }
        }
    }
}

proof fn lemma_order_is_total(a: Seq<char>, b: Seq<char>)
    ensures
        text_before(a, b) || text_before(b, a),
    decreases a.len(),
{
    if a.len() > 0 && b.len() > 0 && a[0] == b[0] {
        lemma_order_is_total(a.drop_first(), b.drop_first());
    }
}

proof fn lemma_order_is_transitive(a: Seq<char>, b: Seq<char>, c: Seq<char>)
    requires
        text_before(a, b),
        text_before(b, c),
    ensures
        text_before(a, c),
    decreases a.len(),
{
    if a.len() > 0 && b.len() > 0 && c.len() > 0 && a[0] == b[0] && b[0] == c[0] {
        lemma_order_is_transitive(a.drop_first(), b.drop_first(), c.drop_first());
    }
}

proof fn lemma_place(apps: Seq<AppSpecView>, name: Seq<char>)
    requires
        in_name_order(apps),
    ensures
        place_for(apps, name) <= apps.len(),
        forall|i: int|
            0 <= i < place_for(apps, name) ==> text_before((#[trigger] apps[i]).name, name),
        forall|i: int|
            place_for(apps, name) <= i < apps.len() ==> text_before(
                name,
                (#[trigger] apps[i]).name,
            ),
    decreases apps.len(),
{
    if apps.len() > 0 {
        let rest = apps.drop_first();
        assert forall|i: int, j: int| 0 <= i < j < rest.len() implies text_before(
            (#[trigger] rest[i]).name,
            (#[trigger] rest[j]).name,
        ) by {
            assert(rest[i] == apps[i + 1]);
            assert(rest[j] == apps[j + 1]);
        }
        if text_before(apps[0].name, name) {
            lemma_place(rest, name);
            assert forall|i: int| 0 <= i < place_for(apps, name) implies text_before(
                (#[trigger] apps[i]).name,
                name,
            ) by {
                if i > 0 {
                    assert(rest[i - 1] == apps[i]);
                }
            }
            assert forall|i: int| place_for(apps, name) <= i < apps.len() implies text_before(
                name,
                (#[trigger] apps[i]).name,
            ) by {
                assert(rest[i - 1] == apps[i]);
            }
        } else {
            lemma_order_is_total(apps[0].name, name);
            assert forall|i: int| 0 <= i < apps.len() implies text_before(
                name,
                (#[trigger] apps[i]).name,
            ) by {
                if i > 0 {
                    assert(text_before(apps[0].name, apps[i].name));
                    lemma_order_is_transitive(name, apps[0].name, apps[i].name);
                }
            }
        }
    }
}

proof fn lemma_inserted(apps: Seq<AppSpecView>, app: AppSpecView, at: int)
    requires
        0 <= at <= apps.len(),
    ensures
        forall|i: int| 0 <= i < at ==> #[trigger] apps.insert(at, app)[i] == apps[i],
        apps.insert(at, app)[at] == app,
        forall|i: int|
            at < i < apps.len() + 1 ==> #[trigger] apps.insert(at, app)[i] == apps[i - 1],
        apps.insert(at, app).len() == apps.len() + 1,
{
}

/// Putting the applications in the order of their names loses none and adds none, and
/// in that order they are.
pub proof fn apps_are_sorted_by_name(apps: Seq<AppSpecView>)
    ensures
        in_name_order(by_name(apps)),
        by_name(apps).to_multiset() == apps.to_multiset(),
    decreases apps.len(),
{
    if apps.len() > 0 {
        let rest = apps.drop_last();
        let app = apps.last();
        apps_are_sorted_by_name(rest);
        let sorted = by_name(rest);
        lemma_place(sorted, app.name);
        let at = place_for(sorted, app.name) as int;
        lemma_inserted(sorted, app, at);
        let all = sorted.insert(at, app);
        assert forall|i: int, j: int| 0 <= i < j < all.len() implies text_before(
            (#[trigger] all[i]).name,
            (#[trigger] all[j]).name,
        ) by {
            if i < at && j > at {
                assert(sorted[i] == all[i] && sorted[j - 1] == all[j]);
            } else if i > at {
                assert(sorted[i - 1] == all[i] && sorted[j - 1] == all[j]);
            } else if j < at {
                assert(sorted[i] == all[i] && sorted[j] == all[j]);
            } else if i == at {
                assert(sorted[j - 1] == all[j]);
            } else {
                assert(sorted[i] == all[i]);
            }
        }
        to_multiset_insert(sorted, at, app);
        assert(rest.push(app) =~= apps);
        to_multiset_build(rest, app);
    }
}

proof fn lemma_sorting_keeps(apps: Seq<AppSpecView>, base: Seq<u8>)
    requires
        all_below(apps, base),
        all_apart(apps),
    ensures
        all_below(by_name(apps), base),
        all_apart(by_name(apps)),
        forall|name: Seq<char>| has_app(apps, name) ==> #[trigger] has_app(by_name(apps), name),
        forall|i: int|
            0 <= i < by_name(apps).len() ==> apps.contains(#[trigger] by_name(apps)[i]),
    decreases apps.len(),
{
    if apps.len() > 0 {
        let rest = apps.drop_last();
        let app = apps.last();
        assert(forall|i: int| 0 <= i < rest.len() ==> #[trigger] rest[i] == apps[i]);
        lemma_sorting_keeps(rest, base);
        apps_are_sorted_by_name(rest);
        let sorted = by_name(rest);
        lemma_place(sorted, app.name);
        let at = place_for(sorted, app.name) as int;
        lemma_inserted(sorted, app, at);
        let all = sorted.insert(at, app);
        assert forall|i: int| 0 <= i < all.len() implies apps.contains(#[trigger] all[i]) by {
            if i == at {
                assert(apps[apps.len() - 1] == all[i]);
            } else {
                let k = if i < at {
                    i
                } else {
                    i - 1
                };
                assert(all[i] == sorted[k]);
                let m = choose|m: int| 0 <= m < rest.len() && rest[m] == sorted[k];
                assert(apps[m] == all[i]);
            }
        }
        assert forall|i: int, j: int| 0 <= i < j < all.len() implies !same_place(
            (#[trigger] all[i]).dir,
            (#[trigger] all[j]).dir,
        ) by {
            let k = if i < at {
                i
            } else {
                i - 1
            };
            let l = if j < at {
                j
            } else {
                j - 1
            };
            if i != at && j != at {
                assert(all[i] == sorted[k] && all[j] == sorted[l]);
            } else {
                let other = if i == at {
                    sorted[l]
                } else {
                    sorted[k]
                };
                assert(rest.contains(other));
                let m = choose|m: int| 0 <= m < rest.len() && rest[m] == other;
                assert(!same_place(apps[m].dir, apps[apps.len() - 1].dir));
            }
        }
        assert forall|name: Seq<char>| has_app(apps, name) implies #[trigger] has_app(all, name) by {
            let m = choose|m: int| 0 <= m < apps.len() && (#[trigger] apps[m]).name == name;
            if m == apps.len() - 1 {
                assert(all[at].name == name);
            } else {
                assert(rest[m].name == name);
                assert(has_app(rest, name));
                assert(has_app(sorted, name));
                let k = choose|k: int| 0 <= k < sorted.len() && (#[trigger] sorted[k]).name == name;
                if k < at {
                    assert(all[k] == sorted[k]);
                } else {
                    assert(all[k + 1] == sorted[k]);
                }
            }
        }
    }
}

proof fn lemma_all_matched(
    overrides: Seq<AppOverrideView>,
    apps: Seq<AppSpecView>,
    from: int,
    i: int,
)
    requires
        0 <= from <= i < overrides.len(),
        unmatched(overrides, apps, from) is None,
    ensures
        has_app(apps, overrides[i].name),
    decreases overrides.len() - from,
{
    if from < i {
        lemma_all_matched(overrides, apps, from + 1, i);
    }
}

proof fn lemma_all_named(overrides: Seq<AppOverrideView>, count: int, i: int)
    requires
        0 <= i < count <= overrides.len(),
        first_name_fault(overrides, count) is None,
    ensures
        name_fault(overrides, i) is None,
    decreases count,
{
    if i < count - 1 {
        lemma_all_named(overrides, count - 1, i);
    }
}

/// Every discovered application is visible and lies below the base directory, no two are
/// in the same place, and they come in the order of their names.
pub proof fn discovered_apps_are_in_order(
    config: Config,
    config_dir: Seq<u8>,
    base: FilePath,
    entries: Result<Vec<EntrySeen>, String>,
    apps: Seq<AppSpecView>,
)
    requires
        discovered(config, config_dir, BaseSeen::Directory { base, entries }) == Ok::<
            Seq<AppSpecView>,
            Seq<char>,
        >(apps),
    ensures
        all_below(apps, base@),
        all_apart(apps),
        in_name_order(apps),
{
    let overrides = override_views(config.app_overrides@);
    let listed = entries->Ok_0@;
    lemma_found(config.global, overrides, base@, listed, listed.len() as int);
    let found = with_entries(config.global, overrides, base@, listed, listed.len() as int)->Ok_0;
    lemma_sorting_keeps(found, base@);
    apps_are_sorted_by_name(found);
}

/// An override configures an application that is there and registers none: discovery
/// succeeds only where every override has one visible path component as its name, no two
/// have the same name, and each is for an application that was found.
pub proof fn every_override_is_for_an_app(
    config: Config,
    config_dir: Seq<u8>,
    seen: BaseSeen,
    apps: Seq<AppSpecView>,
    i: int,
)
    requires
        discovered(config, config_dir, seen) == Ok::<Seq<AppSpecView>, Seq<char>>(apps),
        0 <= i < config.app_overrides@.len(),
    ensures
        ({
            let overrides = override_views(config.app_overrides@);
            &&& is_app_name(bytes_of(overrides[i].name))
            &&& !hidden(overrides[i].name)
            &&& forall|j: int| 0 <= j < i ==> (#[trigger] overrides[j]).name != overrides[i].name
            &&& has_app(apps, overrides[i].name)
        }),
{
    let overrides = override_views(config.app_overrides@);
    if let BaseSeen::Directory { base, entries } = seen {
        let listed = entries->Ok_0@;
        lemma_all_named(overrides, overrides.len() as int, i);
        lemma_found(config.global, overrides, base@, listed, listed.len() as int);
        let found = with_entries(
            config.global,
            overrides,
            base@,
            listed,
            listed.len() as int,
        )->Ok_0;
        lemma_all_matched(overrides, found, 0, i);
        lemma_sorting_keeps(found, base@);
    }
}

/// Whether an entry of the base directory is a visible directory of that name, which
/// resolves to that place.
pub open spec fn is_app_entry(entry: EntrySeen, name: Seq<char>, place: Seq<u8>) -> bool {
    &&& entry matches EntrySeen::Named { name: n, kind: EntryKind::Directory(Ok(p)) } && n@ == name
        && p@ == place
    &&& !hidden(name)
}

/// Whether there is an application of that name in that place.
pub open spec fn has_app_at(apps: Seq<AppSpecView>, name: Seq<char>, place: Seq<u8>) -> bool {
    exists|i: int|
        0 <= i < apps.len() && (#[trigger] apps[i]).name == name && apps[i].dir == place
}

spec fn comes_from(entries: Seq<EntrySeen>, count: int, app: AppSpecView) -> bool {
    exists|i: int| 0 <= i < count && #[trigger] is_app_entry(entries[i], app.name, app.dir)
}

proof fn lemma_entries_and_apps(
    global: GlobalConfig,
    overrides: Seq<AppOverrideView>,
    base: Seq<u8>,
    entries: Seq<EntrySeen>,
    count: int,
)
    requires
        count <= entries.len(),
    ensures
        with_entries(global, overrides, base, entries, count) matches Ok(apps) ==> {
            &&& forall|i: int, name: Seq<char>, place: Seq<u8>|
                0 <= i < count && #[trigger] is_app_entry(entries[i], name, place) ==> has_app_at(
                    apps,
                    name,
                    place,
                )
            &&& forall|j: int|
                0 <= j < apps.len() ==> comes_from(entries, count, #[trigger] apps[j])
        },
    decreases count,
{
    if count > 0 {
        lemma_entries_and_apps(global, overrides, base, entries, count - 1);
        if let (Ok(before), Ok(apps)) = (
            with_entries(global, overrides, base, entries, count - 1),
            with_entries(global, overrides, base, entries, count),
        ) {
            let entry = entries[count - 1];
            assert(before.len() <= apps.len());
            assert(forall|j: int| 0 <= j < before.len() ==> #[trigger] before[j] == apps[j]);
            assert forall|i: int, name: Seq<char>, place: Seq<u8>|
                0 <= i < count && #[trigger] is_app_entry(
                    entries[i],
                    name,
                    place,
                ) implies has_app_at(apps, name, place) by {
                if i < count - 1 {
                    let j = choose|j: int|
                        0 <= j < before.len() && (#[trigger] before[j]).name == name
                            && before[j].dir == place;
                    assert(apps[j].name == name);
                } else {
                    assert(apps[apps.len() - 1].name == name);
                    assert(apps[apps.len() - 1].dir == place);
                }
            }
            assert forall|j: int| 0 <= j < apps.len() implies comes_from(
                entries,
                count,
                #[trigger] apps[j],
            ) by {
                if j < before.len() {
                    assert(comes_from(entries, count - 1, before[j]));
                    let i = choose|i: int|
                        0 <= i < count - 1 && #[trigger] is_app_entry(
                            entries[i],
                            before[j].name,
                            before[j].dir,
                        );
                    assert(is_app_entry(entries[i], apps[j].name, apps[j].dir));
                } else {
                    assert(is_app_entry(entries[count - 1], apps[j].name, apps[j].dir));
                }
            }
        }
    }
}

/// The applications are exactly the visible directories below the base directory: each of
/// these is one, under its name and in its place, and nothing else is.
pub proof fn apps_are_the_visible_directories(
    config: Config,
    config_dir: Seq<u8>,
    base: FilePath,
    entries: Vec<EntrySeen>,
    apps: Seq<AppSpecView>,
)
    requires
        discovered(config, config_dir, BaseSeen::Directory { base, entries: Ok(entries) }) == Ok::<
            Seq<AppSpecView>,
            Seq<char>,
        >(apps),
    ensures
        forall|name: Seq<char>, place: Seq<u8>| #[trigger]
            has_app_at(apps, name, place) <==> exists|i: int|
                0 <= i < entries@.len() && #[trigger] is_app_entry(entries@[i], name, place),
{
    let overrides = override_views(config.app_overrides@);
    let count = entries@.len() as int;
    let found = with_entries(config.global, overrides, base@, entries@, count)->Ok_0;
    lemma_entries_and_apps(config.global, overrides, base@, entries@, count);
    apps_are_sorted_by_name(found);
    assert forall|name: Seq<char>, place: Seq<u8>| #[trigger]
        has_app_at(apps, name, place) <==> exists|i: int|
            0 <= i < entries@.len() && #[trigger] is_app_entry(entries@[i], name, place) by {
        if has_app_at(apps, name, place) {
            let j = choose|j: int|
                0 <= j < apps.len() && (#[trigger] apps[j]).name == name && apps[j].dir == place;
            assert(apps.contains(apps[j]));
            to_multiset_contains(apps, apps[j]);
            to_multiset_contains(found, apps[j]);
            let k = choose|k: int| 0 <= k < found.len() && found[k] == apps[j];
            assert(comes_from(entries@, count, found[k]));
        }
        if exists|i: int|
            0 <= i < entries@.len() && #[trigger] is_app_entry(entries@[i], name, place) {
            let i = choose|i: int|
                0 <= i < entries@.len() && #[trigger] is_app_entry(entries@[i], name, place);
            assert(has_app_at(found, name, place));
            let k = choose|k: int|
                0 <= k < found.len() && (#[trigger] found[k]).name == name && found[k].dir == place;
            assert(found.contains(found[k]));
            to_multiset_contains(apps, found[k]);
            to_multiset_contains(found, found[k]);
            let j = choose|j: int| 0 <= j < apps.len() && apps[j] == found[k];
            assert(apps[j].name == name);
        }
    }
}

/// Whether two entries have the same name.
pub open spec fn share_a_name(a: EntrySeen, b: EntrySeen) -> bool {
    match (a, b) {
        (EntrySeen::Named { name: n, .. }, EntrySeen::Named { name: m, .. }) => n@ == m@,
        _ => false,
    }
}

/// Whether no two entries have the same name, as in any directory.
pub open spec fn names_differ(entries: Seq<EntrySeen>) -> bool {
    forall|i: int, j: int|
        0 <= i < j < entries.len() ==> !share_a_name(
            #[trigger] entries[i],
            #[trigger] entries[j],
        )
}

/// Whether no two applications have the same name.
pub open spec fn all_named_apart(apps: Seq<AppSpecView>) -> bool {
    forall|i: int, j: int|
        0 <= i < j < apps.len() ==> (#[trigger] apps[i]).name != (#[trigger] apps[j]).name
}

/// The override for `name`, where there is one.
pub open spec fn override_for(overrides: Seq<AppOverrideView>, name: Seq<char>) -> Option<
    AppOverrideView,
> {
    match override_at(overrides, name, 0) {
        Some(i) => Some(overrides[i]),
        None => None,
    }
}

/// Whether an application is what its name, its place and the override of its name give.
pub open spec fn is_resolved(
    global: GlobalConfig,
    overrides: Seq<AppOverrideView>,
    app: AppSpecView,
) -> bool {
    app == resolved_app(global, app.name, app.dir, override_for(overrides, app.name))
}

proof fn lemma_own_overrides(
    global: GlobalConfig,
    overrides: Seq<AppOverrideView>,
    base: Seq<u8>,
    entries: Seq<EntrySeen>,
    count: int,
)
    requires
        count <= entries.len(),
        names_differ(entries),
    ensures
        with_entries(global, overrides, base, entries, count) matches Ok(apps) ==> {
            &&& all_named_apart(apps)
            &&& forall|j: int|
                0 <= j < apps.len() ==> is_resolved(global, overrides, #[trigger] apps[j])
        },
    decreases count,
{
    if count > 0 {
        lemma_own_overrides(global, overrides, base, entries, count - 1);
        lemma_entries_and_apps(global, overrides, base, entries, count - 1);
        if let (Ok(before), Ok(apps)) = (
            with_entries(global, overrides, base, entries, count - 1),
            with_entries(global, overrides, base, entries, count),
        ) {
            let entry = entries[count - 1];
            assert(forall|j: int| 0 <= j < before.len() ==> #[trigger] before[j] == apps[j]);
            if let EntrySeen::Named { name, kind } = entry {
                assert forall|j: int| 0 <= j < before.len() implies (#[trigger] before[j]).name
                    != name@ by {
                    assert(comes_from(entries, count - 1, before[j]));
                    let i = choose|i: int|
                        0 <= i < count - 1 && #[trigger] is_app_entry(
                            entries[i],
                            before[j].name,
                            before[j].dir,
                        );
                    assert(!share_a_name(entries[i], entries[count - 1]));
                }
                assert(!has_app(before, name@));
            }
        }
    }
}

proof fn lemma_sorting_keeps_names_apart(apps: Seq<AppSpecView>)
    requires
        all_named_apart(apps),
    ensures
        all_named_apart(by_name(apps)),
    decreases apps.len(),
{
    if apps.len() > 0 {
        let rest = apps.drop_last();
        let app = apps.last();
        assert(forall|i: int| 0 <= i < rest.len() ==> #[trigger] rest[i] == apps[i]);
        lemma_sorting_keeps_names_apart(rest);
        apps_are_sorted_by_name(rest);
        let sorted = by_name(rest);
        lemma_place(sorted, app.name);
        let at = place_for(sorted, app.name) as int;
        lemma_inserted(sorted, app, at);
        let all = sorted.insert(at, app);
        assert forall|k: int| 0 <= k < sorted.len() implies (#[trigger] sorted[k]).name
            != app.name by {
            assert(sorted.contains(sorted[k]));
            to_multiset_contains(sorted, sorted[k]);
            to_multiset_contains(rest, sorted[k]);
            let m = choose|m: int| 0 <= m < rest.len() && rest[m] == sorted[k];
            assert(apps[m].name != apps[apps.len() - 1].name);
        }
        assert forall|i: int, j: int| 0 <= i < j < all.len() implies (#[trigger] all[i]).name != (
        #[trigger] all[j]).name by {
            let k = if i < at {
                i
            } else {
                i - 1
            };
            let l = if j < at {
                j
            } else {
                j - 1
            };
            if i == at {
                assert(all[j] == sorted[l]);
            } else if j == at {
                assert(all[i] == sorted[k]);
            } else {
                assert(all[i] == sorted[k] && all[j] == sorted[l]);
            }
        }
    }
}

proof fn lemma_override_for(overrides: Seq<AppOverrideView>, name: Seq<char>, from: int)
    requires
        0 <= from,
    ensures
        match override_at(overrides, name, from) {
            Some(i) => from <= i < overrides.len() && overrides[i].name == name,
            None => forall|k: int|
                from <= k < overrides.len() ==> (#[trigger] overrides[k]).name != name,
        },
    decreases overrides.len() - from,
{
    if from < overrides.len() && overrides[from].name != name {
        lemma_override_for(overrides, name, from + 1);
    }
}

/// No two applications have the same name, and each is what its name, its place and the
/// override of its own name give: an override changes the application of its name and no
/// other, and an application without one has the global settings.
pub proof fn every_app_has_its_own_override(
    config: Config,
    config_dir: Seq<u8>,
    base: FilePath,
    entries: Vec<EntrySeen>,
    apps: Seq<AppSpecView>,
)
    requires
        discovered(config, config_dir, BaseSeen::Directory { base, entries: Ok(entries) }) == Ok::<
            Seq<AppSpecView>,
            Seq<char>,
        >(apps),
        names_differ(entries@),
    ensures
        ({
            let overrides = override_views(config.app_overrides@);
            &&& in_name_order(apps)
            &&& all_named_apart(apps)
            &&& forall|i: int|
                0 <= i < apps.len() ==> is_resolved(config.global, overrides, #[trigger] apps[i])
            &&& forall|i: int, k: int|
                0 <= i < apps.len() && 0 <= k < overrides.len() && (#[trigger] apps[i]).name == (
                #[trigger] overrides[k]).name ==> override_for(overrides, apps[i].name) == Some(
                    overrides[k],
                )
        }),
{
    let overrides = override_views(config.app_overrides@);
    let count = entries@.len() as int;
    let found = with_entries(config.global, overrides, base@, entries@, count)->Ok_0;
    lemma_own_overrides(config.global, overrides, base@, entries@, count);
    lemma_sorting_keeps_names_apart(found);
    apps_are_sorted_by_name(found);
    assert forall|i: int| 0 <= i < apps.len() implies is_resolved(
        config.global,
        overrides,
        #[trigger] apps[i],
    ) by {
        assert(apps.contains(apps[i]));
        to_multiset_contains(apps, apps[i]);
        to_multiset_contains(found, apps[i]);
        let k = choose|k: int| 0 <= k < found.len() && found[k] == apps[i];
        assert(is_resolved(config.global, overrides, found[k]));
    }
    assert forall|i: int, k: int|
        0 <= i < apps.len() && 0 <= k < overrides.len() && (#[trigger] apps[i]).name == (
        #[trigger] overrides[k]).name implies override_for(overrides, apps[i].name) == Some(
        overrides[k],
    ) by {
        lemma_override_for(overrides, apps[i].name, 0);
        let m = override_at(overrides, apps[i].name, 0)->0;
        let seen = BaseSeen::Directory { base, entries: Ok(entries) };
        every_override_is_for_an_app(config, config_dir, seen, apps, m);
        every_override_is_for_an_app(config, config_dir, seen, apps, k);
    }
}

proof fn lemma_hidden_entry(
    global: GlobalConfig,
    overrides: Seq<AppOverrideView>,
    base: Seq<u8>,
    entries: Seq<EntrySeen>,
    entry: EntrySeen,
    at: int,
    count: int,
)
    requires
        0 <= at <= entries.len(),
        0 <= count <= entries.len(),
        entry matches EntrySeen::Named { name, .. } && hidden(name@),
    ensures
        with_entries(global, overrides, base, entries.insert(at, entry), count) == if count <= at {
            with_entries(global, overrides, base, entries, count)
        } else {
            with_entries(global, overrides, base, entries, count - 1)
        },
        at <= count ==> with_entries(
            global,
            overrides,
            base,
            entries.insert(at, entry),
            count + 1,
        ) == with_entries(global, overrides, base, entries, count),
    decreases count,
{
    let more = entries.insert(at, entry);
    if count > 0 {
        lemma_hidden_entry(global, overrides, base, entries, entry, at, count - 1);
        if count <= at {
            assert(more[count - 1] == entries[count - 1]);
        }
    }
    if at < count {
        assert(more[count] == entries[count - 1]);
    } else if at == count {
        assert(more[count] == entry);
    }
}

/// Hidden entries do not matter: with one more or one less, wherever it is listed and
/// whatever it is, discovery comes to the same.
pub proof fn hidden_entries_do_not_matter(
    config: Config,
    config_dir: Seq<u8>,
    base: FilePath,
    entries: Vec<EntrySeen>,
    more: Vec<EntrySeen>,
    entry: EntrySeen,
    at: int,
)
    requires
        0 <= at <= entries@.len(),
        more@ == entries@.insert(at, entry),
        entry matches EntrySeen::Named { name, .. } && hidden(name@),
    ensures
        discovered(config, config_dir, BaseSeen::Directory { base, entries: Ok(more) })
            == discovered(config, config_dir, BaseSeen::Directory { base, entries: Ok(entries) }),
{
    lemma_hidden_entry(
        config.global,
        override_views(config.app_overrides@),
        base@,
        entries@,
        entry,
        at,
        entries@.len() as int,
    );
}

/// Every discovered application follows the override of its own name, where there is one,
/// and otherwise the global settings and the conventions.
pub proof fn discovered_apps_follow_their_overrides(
    config: Config,
    config_dir: Seq<u8>,
    base: FilePath,
    entries: Vec<EntrySeen>,
    apps: Seq<AppSpecView>,
    i: int,
)
    requires
        discovered(config, config_dir, BaseSeen::Directory { base, entries: Ok(entries) }) == Ok::<
            Seq<AppSpecView>,
            Seq<char>,
        >(apps),
        names_differ(entries@),
        0 <= i < apps.len(),
    ensures
        ({
            let overrides = override_views(config.app_overrides@);
            &&& forall|k: int|
                0 <= k < overrides.len() && (#[trigger] overrides[k]).name == apps[i].name
                    ==> follows(apps[i], config.global, Some(overrides[k]))
            &&& (forall|k: int|
                0 <= k < overrides.len() ==> (#[trigger] overrides[k]).name != apps[i].name)
                ==> follows(apps[i], config.global, None)
        }),
{
    let overrides = override_views(config.app_overrides@);
    every_app_has_its_own_override(config, config_dir, base, entries, apps);
    assert(is_resolved(config.global, overrides, apps[i]));
    lemma_override_for(overrides, apps[i].name, 0);
}

/// Whether an entry of the base directory is in order: its name can be read, and it is
/// hidden, or no directory, or a directory below the base.
pub open spec fn is_in_order(entry: EntrySeen, base: Seq<u8>) -> bool {
    entry matches EntrySeen::Named { name, kind } && (hidden(name@) || match kind {
        EntryKind::Other => true,
        EntryKind::Directory(Ok(place)) => is_within(place@, base),
        _ => false,
    })
}

/// Whether two entries are visible directories in the same place.
pub open spec fn share_a_place(a: EntrySeen, b: EntrySeen) -> bool {
    match (a, b) {
        (
            EntrySeen::Named { name: n, kind: EntryKind::Directory(Ok(p)) },
            EntrySeen::Named { name: m, kind: EntryKind::Directory(Ok(q)) },
        ) => !hidden(n@) && !hidden(m@) && same_place(p@, q@),
        _ => false,
    }
}

/// Whether some entry is a visible directory of that name.
pub open spec fn has_directory(entries: Seq<EntrySeen>, count: int, name: Seq<char>) -> bool {
    exists|i: int| 0 <= i < count && #[trigger] is_directory(entries[i], name)
}

/// Whether an entry is a visible directory of that name.
pub open spec fn is_directory(entry: EntrySeen, name: Seq<char>) -> bool {
    &&& entry matches EntrySeen::Named { name: n, kind: EntryKind::Directory(Ok(_)) } && n@ == name
    &&& !hidden(name)
}

proof fn lemma_in_order(
    global: GlobalConfig,
    overrides: Seq<AppOverrideView>,
    base: Seq<u8>,
    entries: Seq<EntrySeen>,
    count: int,
)
    requires
        0 <= count <= entries.len(),
        forall|i: int| 0 <= i < count ==> is_in_order(#[trigger] entries[i], base),
        forall|i: int, j: int|
            0 <= i < j < count ==> !share_a_place(
                #[trigger] entries[i],
                #[trigger] entries[j],
            ),
    ensures
        with_entries(global, overrides, base, entries, count) is Ok,
    decreases count,
{
    if count > 0 {
        lemma_in_order(global, overrides, base, entries, count - 1);
        lemma_entries_and_apps(global, overrides, base, entries, count - 1);
        let apps = with_entries(global, overrides, base, entries, count - 1)->Ok_0;
        let entry = entries[count - 1];
        assert(is_in_order(entry, base));
        if let EntrySeen::Named { name, kind: EntryKind::Directory(Ok(place)) } = entry {
            if !hidden(name@) {
                if app_at(apps, place@, 0) is Some {
                    lemma_somebody_there(apps, place@, 0);
                    let j = app_at(apps, place@, 0)->0;
                    assert(comes_from(entries, count - 1, apps[j]));
                    let i = choose|i: int|
                        0 <= i < count - 1 && #[trigger] is_app_entry(
                            entries[i],
                            apps[j].name,
                            apps[j].dir,
                        );
                    assert(share_a_place(entries[i], entries[count - 1]));
                }
            }
        }
    }
}

proof fn lemma_somebody_there(apps: Seq<AppSpecView>, place: Seq<u8>, from: int)
    requires
        0 <= from,
        app_at(apps, place, from) is Some,
    ensures
        ({
            let j = app_at(apps, place, from)->0;
            from <= j < apps.len() && same_place(apps[j].dir, place)
        }),
    decreases apps.len() - from,
{
    if from < apps.len() && !same_place(apps[from].dir, place) {
        lemma_somebody_there(apps, place, from + 1);
    }
}

proof fn lemma_none_unmatched(
    overrides: Seq<AppOverrideView>,
    apps: Seq<AppSpecView>,
    from: int,
)
    requires
        0 <= from,
        forall|k: int|
            0 <= k < overrides.len() ==> has_app(apps, (#[trigger] overrides[k]).name),
    ensures
        unmatched(overrides, apps, from) is None,
    decreases overrides.len() - from,
{
    if from < overrides.len() {
        lemma_none_unmatched(overrides, apps, from + 1);
    }
}

proof fn lemma_no_name_fault(overrides: Seq<AppOverrideView>, count: int)
    requires
        count <= overrides.len(),
        forall|k: int|
            0 <= k < overrides.len() ==> is_app_name(bytes_of((#[trigger] overrides[k]).name))
                && !hidden(overrides[k].name),
        forall|j: int, k: int|
            0 <= j < k < overrides.len() ==> (#[trigger] overrides[j]).name != (
            #[trigger] overrides[k]).name,
    ensures
        first_name_fault(overrides, count) is None,
    decreases count,
{
    if count > 0 {
        lemma_no_name_fault(overrides, count - 1);
        assert(name_fault(overrides, count - 1) is None);
    }
}

/// Where everything is in order discovery succeeds: every entry can be read and lies below
/// the base, no two are in one place, and every override has a name of its own that is one
/// visible path component and that of a directory.
pub proof fn what_is_in_order_is_discovered(
    config: Config,
    config_dir: Seq<u8>,
    base: FilePath,
    entries: Vec<EntrySeen>,
)
    requires
        ({
            let overrides = override_views(config.app_overrides@);
            &&& forall|i: int|
                0 <= i < entries@.len() ==> is_in_order(#[trigger] entries@[i], base@)
            &&& forall|i: int, j: int|
                0 <= i < j < entries@.len() ==> !share_a_place(
                    #[trigger] entries@[i],
                    #[trigger] entries@[j],
                )
            &&& forall|k: int|
                0 <= k < overrides.len() ==> {
                    &&& is_app_name(bytes_of((#[trigger] overrides[k]).name))
                    &&& !hidden(overrides[k].name)
                    &&& has_directory(entries@, entries@.len() as int, overrides[k].name)
                }
            &&& forall|j: int, k: int|
                0 <= j < k < overrides.len() ==> (#[trigger] overrides[j]).name != (
                #[trigger] overrides[k]).name
        }),
    ensures
        discovered(config, config_dir, BaseSeen::Directory { base, entries: Ok(entries) }) is Ok,
{
    let overrides = override_views(config.app_overrides@);
    let count = entries@.len() as int;
    lemma_no_name_fault(overrides, overrides.len() as int);
    lemma_in_order(config.global, overrides, base@, entries@, count);
    lemma_entries_and_apps(config.global, overrides, base@, entries@, count);
    let found = with_entries(config.global, overrides, base@, entries@, count)->Ok_0;
    assert forall|k: int| 0 <= k < overrides.len() implies has_app(
        found,
        (#[trigger] overrides[k]).name,
    ) by {
        let name = overrides[k].name;
        let i = choose|i: int| 0 <= i < count && #[trigger] is_directory(entries@[i], name);
        let place = entries@[i]->Named_kind->Directory_0->Ok_0@;
        assert(is_app_entry(entries@[i], name, place));
        assert(has_app_at(found, name, place));
        let j = choose|j: int|
            0 <= j < found.len() && (#[trigger] found[j]).name == name && found[j].dir == place;
        assert(found[j].name == name);
    }
    lemma_none_unmatched(overrides, found, 0);
}

/// What is not in order is refused: discovery fails where an entry cannot be read, a
/// visible entry cannot be inspected or resolved, or a visible directory lies outside the
/// base, and where two visible directories are in one place.
pub proof fn what_is_not_in_order_is_refused(
    config: Config,
    config_dir: Seq<u8>,
    base: FilePath,
    entries: Vec<EntrySeen>,
)
    requires
        (exists|i: int| 0 <= i < entries@.len() && !is_in_order(#[trigger] entries@[i], base@)) || (
        exists|i: int, j: int|
            0 <= i < j < entries@.len() && share_a_place(
                #[trigger] entries@[i],
                #[trigger] entries@[j],
            )),
    ensures
        discovered(config, config_dir, BaseSeen::Directory { base, entries: Ok(entries) }) is Err,
{
    let overrides = override_views(config.app_overrides@);
    let count = entries@.len() as int;
    if with_entries(config.global, overrides, base@, entries@, count) is Ok {
        lemma_accepted(config.global, overrides, base@, entries@, count);
    }
}

proof fn lemma_accepted(
    global: GlobalConfig,
    overrides: Seq<AppOverrideView>,
    base: Seq<u8>,
    entries: Seq<EntrySeen>,
    count: int,
)
    requires
        0 <= count <= entries.len(),
        with_entries(global, overrides, base, entries, count) is Ok,
    ensures
        forall|i: int| 0 <= i < count ==> is_in_order(#[trigger] entries[i], base),
        forall|i: int, j: int|
            0 <= i < j < count ==> !share_a_place(#[trigger] entries[i], #[trigger] entries[j]),
    decreases count,
{
    if count > 0 {
        lemma_accepted(global, overrides, base, entries, count - 1);
        lemma_entries_and_apps(global, overrides, base, entries, count - 1);
        let apps = with_entries(global, overrides, base, entries, count - 1)->Ok_0;
        assert forall|i: int, j: int| 0 <= i < j < count implies !share_a_place(
            #[trigger] entries[i],
            #[trigger] entries[j],
        ) by {
            if j == count - 1 && share_a_place(entries[i], entries[j]) {
                let name = entries[i]->Named_name@;
                let place = entries[i]->Named_kind->Directory_0->Ok_0@;
                assert(is_app_entry(entries[i], name, place));
                assert(has_app_at(apps, name, place));
                let other = entries[j]->Named_kind->Directory_0->Ok_0@;
                lemma_nobody_there(apps, other, 0);
                let k = choose|k: int|
                    0 <= k < apps.len() && (#[trigger] apps[k]).name == name && apps[k].dir
                        == place;
                assert(!same_place(apps[k].dir, other));
            }
        }
    }
}

/// A name is hidden exactly where it begins with a dot.
pub proof fn a_hidden_name_begins_with_a_dot(name: Seq<char>, first: char)
    ensures
        !hidden(Seq::<char>::empty()),
        hidden(seq![first] + name) <==> first == '.',
{
    assert((seq![first] + name)[0] == first);
}

/// Names are ordered as in a dictionary: what two of them begin with alike does not
/// matter, then the smaller character comes first, and a name that ends comes before one
/// that goes on.
pub proof fn names_are_ordered_as_in_a_dictionary(
    alike: Seq<char>,
    a: char,
    b: char,
    x: Seq<char>,
    y: Seq<char>,
)
    ensures
        a < b ==> text_before(alike + (seq![a] + x), alike + (seq![b] + y)),
        a < b ==> !text_before(alike + (seq![b] + y), alike + (seq![a] + x)),
        text_before(alike, alike + x),
        !text_before(alike + (seq![a] + x), alike),
    decreases alike.len(),
{
    let first = seq![a] + x;
    let second = seq![b] + y;
    if alike.len() == 0 {
        assert(alike + first =~= first && alike + second =~= second && alike + x =~= x);
        assert(first[0] == a && second[0] == b);
    } else {
        let rest = alike.drop_first();
        names_are_ordered_as_in_a_dictionary(rest, a, b, x, y);
        assert((alike + first).drop_first() =~= rest + first);
        assert((alike + second).drop_first() =~= rest + second);
        assert((alike + x).drop_first() =~= rest + x);
        assert((alike + first)[0] == alike[0] && (alike + second)[0] == alike[0]);
        assert((alike + x)[0] == alike[0]);
    }
}

/// A path lies below another exactly where it begins with all the components of that.
pub proof fn what_is_below_begins_alike(path: Seq<u8>, base: Seq<u8>)
    ensures
        is_within(path, base) <==> components(base).len() <= components(path).len() && forall|
            i: int,
        |
            0 <= i < components(base).len() ==> #[trigger] components(base)[i] == components(
                path,
            )[i],
{
    let whole = components(path);
    let start = components(base);
    if start.len() <= whole.len() && forall|i: int|
        0 <= i < start.len() ==> #[trigger] start[i] == whole[i] {
        assert(start =~= whole.subrange(0, start.len() as int));
    }
}

/// A base directory that cannot be used is told with its path.
pub proof fn an_unusable_base_is_told(
    config: Config,
    config_dir: Seq<u8>,
    base: FilePath,
    error: String,
)
    ensures
        discovered(config, config_dir, BaseSeen::Unresolved(error)) == Err::<
            Seq<AppSpecView>,
            Seq<char>,
        >(lossy_text(joined(config_dir, config.global.base_dir@)) + ": "@ + error@),
        discovered(config, config_dir, BaseSeen::NotADirectory(base)) == Err::<
            Seq<AppSpecView>,
            Seq<char>,
        >(lossy_text(base@) + " is not a directory"@),
{
}

/// Whether the first `count` overrides have names that will do, each its own.
pub open spec fn names_will_do(overrides: Seq<AppOverrideView>, count: int) -> bool {
    &&& forall|k: int|
        0 <= k < count ==> is_app_name(bytes_of((#[trigger] overrides[k]).name)) && !hidden(
            overrides[k].name,
        )
    &&& forall|j: int, k: int|
        0 <= j < k < count ==> (#[trigger] overrides[j]).name != (#[trigger] overrides[k]).name
}

proof fn lemma_names_will_do(overrides: Seq<AppOverrideView>, count: int)
    requires
        count <= overrides.len(),
        names_will_do(overrides, count),
    ensures
        first_name_fault(overrides, count) is None,
    decreases count,
{
    if count > 0 {
        lemma_names_will_do(overrides, count - 1);
        assert(name_fault(overrides, count - 1) is None);
    }
}

proof fn lemma_first_fault_stays(overrides: Seq<AppOverrideView>, k: int, count: int)
    requires
        0 <= k < count <= overrides.len(),
        names_will_do(overrides, k),
        name_fault(overrides, k) is Some,
    ensures
        first_name_fault(overrides, count) == name_fault(overrides, k),
    decreases count,
{
    if k == count - 1 {
        lemma_names_will_do(overrides, k);
    } else {
        lemma_first_fault_stays(overrides, k, count - 1);
    }
}

/// The first override whose name will not do is told by its name, before anything is said
/// of the entries of the base directory.
pub proof fn the_first_bad_override_is_told(
    config: Config,
    config_dir: Seq<u8>,
    base: FilePath,
    entries: Result<Vec<EntrySeen>, String>,
    k: int,
)
    requires
        ({
            let overrides = override_views(config.app_overrides@);
            &&& 0 <= k < overrides.len()
            &&& names_will_do(overrides, k)
            &&& !names_will_do(overrides, k + 1)
        }),
    ensures
        ({
            let name = override_views(config.app_overrides@)[k].name;
            let found = discovered(config, config_dir, BaseSeen::Directory { base, entries });
            found == Err::<Seq<AppSpecView>, Seq<char>>(
                if !is_app_name(bytes_of(name)) || hidden(name) {
                    "invalid app name "@ + name
                } else {
                    "duplicate app override "@ + name
                },
            )
        }),
{
    let overrides = override_views(config.app_overrides@);
    let name = overrides[k].name;
    if is_app_name(bytes_of(name)) && !hidden(name) {
        if forall|j: int| 0 <= j < k ==> (#[trigger] overrides[j]).name != name {
            assert(names_will_do(overrides, k + 1));
        }
        let j = choose|j: int| 0 <= j < k && (#[trigger] overrides[j]).name == name;
        assert(overrides[j].name == name);
    }
    assert(name_fault(overrides, k) is Some);
    lemma_first_fault_stays(overrides, k, overrides.len() as int);
}

proof fn lemma_failure_stays(
    global: GlobalConfig,
    overrides: Seq<AppOverrideView>,
    base: Seq<u8>,
    entries: Seq<EntrySeen>,
    i: int,
    count: int,
)
    requires
        0 <= i <= count,
        with_entries(global, overrides, base, entries, i) is Err,
    ensures
        with_entries(global, overrides, base, entries, count) == with_entries(
            global,
            overrides,
            base,
            entries,
            i,
        ),
    decreases count,
{
    if i < count {
        lemma_failure_stays(global, overrides, base, entries, i, count - 1);
    }
}

/// The first entry that is not in order is told by its path, or the base directory's where
/// it has none that can be shown, with the system's message last where there is one.
pub proof fn the_first_bad_entry_is_told(
    config: Config,
    config_dir: Seq<u8>,
    base: FilePath,
    entries: Vec<EntrySeen>,
    i: int,
)
    requires
        names_will_do(
            override_views(config.app_overrides@),
            override_views(config.app_overrides@).len() as int,
        ),
        0 <= i < entries@.len(),
        forall|j: int| 0 <= j < i ==> is_in_order(#[trigger] entries@[j], base@),
        forall|j: int, k: int|
            0 <= j < k < i ==> !share_a_place(#[trigger] entries@[j], #[trigger] entries@[k]),
        !is_in_order(entries@[i], base@),
    ensures
        discovered(config, config_dir, BaseSeen::Directory { base, entries: Ok(entries) })
            matches Err(message) && match entries@[i] {
            EntrySeen::Broken(error) => message == lossy_text(base@) + ": "@ + error@,
            EntrySeen::Unnamed => message == lossy_text(base@) + " contains a non-UTF-8 name"@,
            EntrySeen::Named { name, kind } => {
                let path = lossy_text(joined(base@, bytes_of(name@)));
                match kind {
                    EntryKind::Unreadable(error) => ends_with(message, path + ": "@ + error@),
                    EntryKind::Directory(Err(error)) => message == path + ": "@ + error@,
                    EntryKind::Directory(Ok(_)) => ends_with(
                        message,
                        path + " resolves outside "@ + lossy_text(base@),
                    ),
                    EntryKind::Other => false,
                }
            },
        },
{
    let overrides = override_views(config.app_overrides@);
    let count = entries@.len() as int;
    lemma_names_will_do(overrides, overrides.len() as int);
    lemma_in_order(config.global, overrides, base@, entries@, i);
    lemma_failure_stays(config.global, overrides, base@, entries@, i + 1, count);
    let message = discovered(
        config,
        config_dir,
        BaseSeen::Directory { base, entries: Ok(entries) },
    )->Err_0;
    if let EntrySeen::Named { name, kind } = entries@[i] {
        let path = lossy_text(joined(base@, bytes_of(name@)));
        match kind {
            EntryKind::Unreadable(error) => {
                let start = "cannot "@ + "inspect"@ + " "@;
                assert(message =~= start.add(path + ": "@ + error@));
            },
            EntryKind::Directory(Ok(_)) => {
                let start = "app directory "@;
                assert(message =~= start.add(path + " resolves outside "@ + lossy_text(base@)));
            },
            _ => {},
        }
    }
}

} // verus!
