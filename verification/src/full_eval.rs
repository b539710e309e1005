//! Which packages a pull request changes, and what is decided around building
//! them.

use vstd::hash_map::StringHashMap;
use vstd::prelude::*;

use crate::attr_map::{distinct_names, lemma_place_from, lookup, place_from, place_of, AttrMap};
use crate::full_eval_types::{drv_entries, eval_texts, EvalJobOutput, EvalText};
use crate::text::{copy_texts, opt_text, same_text, texts};
use crate::types::{
    builders_arg, changed_texts, copy_result, intermediates, is_intermediate, kept_texts,
    known_intermediate, result_texts, step_texts, ChangedPackage, ChangedPackageSer, ChangedText,
    FullEvalBuildResult, RemoteBuilderConfig, ResultText, RunState, INTERMEDIATE_ATTRS,
};

verus! {

// ---------------------------------------------------------------------------
// Changes

/// What the base says of an attribute: where it is listed more than once, the last
/// entry counts.
pub open spec fn base_entry(base: Seq<EvalText>, attr: Seq<char>) -> Option<EvalText>
    decreases base.len(),
{
    if base.len() == 0 {
        None
    } else if base.last().attr == attr {
        Some(base.last())
    } else {
        base_entry(base.drop_last(), attr)
    }
}

/// The derivation of an intermediate attribute, where there is one.
pub open spec fn drv_of(
    ints: Option<Seq<(Seq<char>, Option<Seq<char>>)>>,
    name: Seq<char>,
) -> Option<Seq<char>> {
    match ints {
        Some(entries) => match lookup(entries, name) {
            Some(drv) => drv,
            None => None,
        },
        None => None,
    }
}

/// The intermediate attributes that the base lists for a package.
pub open spec fn ints_of(entry: Option<EvalText>) -> Option<
    Seq<(Seq<char>, Option<Seq<char>>)>,
> {
    match entry {
        Some(e) => e.ints,
        None => None,
    }
}

/// The derivation that the base lists for a package.
pub open spec fn final_drv_of(entry: Option<EvalText>) -> Option<Seq<char>> {
    match entry {
        Some(e) => e.drv,
        None => None,
    }
}

/// Whether a package has a derivation for an intermediate attribute that the base
/// does not have: it is new, or it differs.
pub open spec fn int_changed(base: Option<EvalText>, pr: EvalText, name: Seq<char>) -> bool {
    drv_of(pr.ints, name) is Some && drv_of(pr.ints, name) != drv_of(ints_of(base), name)
}

/// The entries of a package's intermediate attributes.
pub open spec fn entries_of(pr: EvalText) -> Seq<(Seq<char>, Option<Seq<char>>)> {
    match pr.ints {
        Some(entries) => entries,
        None => Seq::empty(),
    }
}

/// The changed intermediate attributes among the first `n` of the list.
pub open spec fn known_changes(base: Option<EvalText>, pr: EvalText, n: int) -> Seq<Seq<char>>
    decreases n,
{
    if n <= 0 {
        Seq::empty()
    } else {
        let front = known_changes(base, pr, n - 1);
        if int_changed(base, pr, intermediates()[n - 1]) {
            front.push(intermediates()[n - 1])
        } else {
            front
        }
    }
}

/// The changed attributes that are not in the list, among the first `n` entries.
pub open spec fn other_changes(base: Option<EvalText>, pr: EvalText, n: int) -> Seq<Seq<char>>
    decreases n,
{
    if n <= 0 {
        Seq::empty()
    } else {
        let front = other_changes(base, pr, n - 1);
        let name = entries_of(pr)[n - 1].0;
        if !is_intermediate(name) && int_changed(base, pr, name) {
            front.push(name)
        } else {
            front
        }
    }
}

/// The changed intermediate attributes of a package: those of the list in its
/// order, then the others in theirs.
pub open spec fn changed_names(base: Option<EvalText>, pr: EvalText) -> Seq<Seq<char>> {
    known_changes(base, pr, intermediates().len() as int) + other_changes(
        base,
        pr,
        entries_of(pr).len() as int,
    )
}

/// The changed intermediate attributes among the first `n` entries, with their
/// derivations.
pub open spec fn changed_paths(base: Option<EvalText>, pr: EvalText, n: int) -> Seq<
    (Seq<char>, Seq<char>),
>
    decreases n,
{
    if n <= 0 {
        Seq::empty()
    } else {
        let front = changed_paths(base, pr, n - 1);
        let entry = entries_of(pr)[n - 1];
        if int_changed(base, pr, entry.0) {
            front.push((entry.0, entry.1->0))
        } else {
            front
        }
    }
}

/// A changed package and the derivations of its changed intermediate attributes.
#[verifier::ext_equal]
pub struct Change {
    pub package: ChangedText,
    pub paths: Seq<(Seq<char>, Seq<char>)>,
}

/// The names and values of a list of paths.
pub open spec fn path_texts(entries: Seq<(Seq<char>, String)>) -> Seq<(Seq<char>, Seq<char>)> {
    entries.map_values(|e: (Seq<char>, String)| (e.0, e.1@))
}

/// What a changed package says in full.
pub open spec fn change_of(p: ChangedPackage) -> Change {
    Change { package: p@, paths: path_texts(p.intermediate_drv_paths@) }
}

/// What a list of changed packages says in full.
pub open spec fn changes_of(list: Seq<ChangedPackage>) -> Seq<Change> {
    list.map_values(|p: ChangedPackage| change_of(p))
}

/// A changed package says in full its attribute path, its changed attributes, the mark on
/// it and each derivation, one for one; and so does a list of them.
pub proof fn law_change_says_all(p: ChangedPackage, list: Seq<ChangedPackage>)
    ensures
        change_of(p).package == p@,
        change_of(p).paths.len() == p.intermediate_drv_paths@.len(),
        forall|k: int|
            0 <= k < p.intermediate_drv_paths@.len() ==> (#[trigger] change_of(p).paths[k]).0
                == p.intermediate_drv_paths@[k].0 && change_of(p).paths[k].1
                == p.intermediate_drv_paths@[k].1@,
        changes_of(list).len() == list.len(),
        forall|i: int| 0 <= i < list.len() ==> #[trigger] changes_of(list)[i] == change_of(list[i]),
{
}

/// How a package of the pull request differs from the base, where it does. One
/// whose evaluation failed is passed over. Where no intermediate attribute changed,
/// the derivation of the package counts if asked for.
pub open spec fn package_change(
    base: Option<EvalText>,
    pr: EvalText,
    verify_full_drvs: bool,
) -> Option<Change> {
    let names = changed_names(base, pr);
    if pr.failed {
        None
    } else if names.len() > 0 {
        Some(
            Change {
                package: ChangedText { attr: pr.attr, changed: names, final_changed: false },
                paths: changed_paths(base, pr, entries_of(pr).len() as int),
            },
        )
    } else if verify_full_drvs && pr.drv is Some && pr.drv != final_drv_of(base) {
        Some(
            Change {
                package: ChangedText {
                    attr: pr.attr,
                    changed: Seq::empty(),
                    final_changed: true,
                },
                paths: Seq::empty(),
            },
        )
    } else {
        None
    }
}

/// The packages of the pull request that differ from the base.
pub open spec fn changed_packages(
    base: Seq<EvalText>,
    pr: Seq<EvalText>,
    verify_full_drvs: bool,
) -> Seq<Change>
    decreases pr.len(),
{
    if pr.len() == 0 {
        Seq::empty()
    } else {
        let front = changed_packages(base, pr.drop_last(), verify_full_drvs);
        match package_change(base_entry(base, pr.last().attr), pr.last(), verify_full_drvs) {
            Some(change) => front.push(change),
            None => front,
        }
    }
}

/// What is built for a package that differs: its changed intermediate attributes, or
/// all that it has.
pub open spec fn package_to_build(
    base: Option<EvalText>,
    pr: EvalText,
    verify_full_drvs: bool,
    all_intermediates: bool,
) -> Option<Change> {
    match package_change(base, pr, verify_full_drvs) {
        Some(change) => if all_intermediates {
            Some(
                Change {
                    package: ChangedText { changed: changed_names(None, pr), ..change.package },
                    paths: changed_paths(None, pr, entries_of(pr).len() as int),
                },
            )
        } else {
            Some(change)
        },
        None => None,
    }
}

/// What is built for the packages of the pull request that differ from the base.
pub open spec fn packages_to_build(
    base: Seq<EvalText>,
    pr: Seq<EvalText>,
    verify_full_drvs: bool,
    all_intermediates: bool,
) -> Seq<Change>
    decreases pr.len(),
{
    if pr.len() == 0 {
        Seq::empty()
    } else {
        let front = packages_to_build(base, pr.drop_last(), verify_full_drvs, all_intermediates);
        match package_to_build(
            base_entry(base, pr.last().attr),
            pr.last(),
            verify_full_drvs,
            all_intermediates,
        ) {
            Some(change) => front.push(change),
            None => front,
        }
    }
}

/// The place of the last entry for an attribute.
spec fn last_place(base: Seq<EvalText>, attr: Seq<char>) -> Option<int>
    decreases base.len(),
{
    if base.len() == 0 {
        None
    } else if base.last().attr == attr {
        Some(base.len() - 1)
    } else {
        last_place(base.drop_last(), attr)
    }
}

proof fn lemma_last_place(base: Seq<EvalText>, attr: Seq<char>)
    ensures
        match last_place(base, attr) {
            Some(i) => 0 <= i < base.len() && base_entry(base, attr) == Some(base[i]),
            None => base_entry(base, attr) is None,
        },
    decreases base.len(),
{
    if base.len() > 0 && base.last().attr != attr {
        lemma_last_place(base.drop_last(), attr);
    }
}

/// Whether an index gives the place of the last entry for an attribute.
spec fn indexed(index: Map<Seq<char>, usize>, base: Seq<EvalText>, attr: Seq<char>) -> bool {
    match last_place(base, attr) {
        Some(i) => index.dom().contains(attr) && index[attr] == i,
        None => !index.dom().contains(attr),
    }
}

/// Whether an index gives the place of the last entry for every attribute.
spec fn all_indexed(index: Map<Seq<char>, usize>, base: Seq<EvalText>) -> bool {
    forall|attr: Seq<char>| #[trigger] indexed(index, base, attr)
}

fn index_base(base: &[EvalJobOutput]) -> (index: StringHashMap<usize>)
    ensures
        all_indexed(index@, eval_texts(base@)),
{
    let ghost all = eval_texts(base@);
    let mut index: StringHashMap<usize> = StringHashMap::new();
    let n: usize = base.len();
    for i in 0..n
        invariant
            n == base@.len(),
            all == eval_texts(base@),
            all_indexed(index@, all.take(i as int)),
    {
        let ghost before = index@;
        index.insert(base[i].attr.clone(), i);
        proof {
            let next = all.take(i + 1);
            assert(next.drop_last() == all.take(i as int));
            assert(next.last() == base@[i as int]@);
            let now = index@;
            let front = all.take(i as int);
            assert forall|attr: Seq<char>| #[trigger] indexed(now, next, attr) by {
                assert(indexed(before, front, attr));
            }
        }
    }
    assert(all.take(n as int) == all);
    index
}

/// Looking up a name among entries and reading its derivation commute.
proof fn lemma_drv_lookup(entries: Seq<(Seq<char>, Option<String>)>, name: Seq<char>, from: int)
    requires
        0 <= from <= entries.len(),
    ensures
        place_from(drv_entries(entries), name, from) == place_from(entries, name, from),
        place_from(entries, name, from) matches Some(i) ==> from <= i < entries.len(),
    decreases entries.len() - from,
{
    if from < entries.len() {
        assert(drv_entries(entries)[from].0 == entries[from].0);
        if entries[from].0 != name {
            lemma_drv_lookup(entries, name, from + 1);
        }
    }
}

fn drv_for<'a>(ints: &'a Option<AttrMap<Option<String>>>, name: &str) -> (drv: Option<&'a String>)
    ensures
        match drv {
            Some(d) => drv_of(
                match *ints {
                    Some(map) => Some(drv_entries(map@)),
                    None => None,
                },
                name@,
            ) == Some(d@),
            None => drv_of(
                match *ints {
                    Some(map) => Some(drv_entries(map@)),
                    None => None,
                },
                name@,
            ) is None,
        },
{
    match ints {
        Some(map) => {
            proof {
                lemma_drv_lookup(map@, name@, 0);
            }
            match map.get(name) {
                Some(value) => match value {
                    Some(d) => Some(d),
                    None => None,
                },
                None => None,
            }
        },
        None => None,
    }
}

/// Tells whether a package has a derivation for an intermediate attribute.
pub fn has_intermediate(package: &EvalJobOutput, name: &str) -> (yes: bool)
    ensures
        yes == (drv_of(package@.ints, name@) is Some),
{
    drv_for(&package.extra_value, name).is_some()
}

/// The entry of the base that a reference stands for.
spec fn entry_view(base: Option<&EvalJobOutput>) -> Option<EvalText> {
    match base {
        Some(e) => Some(e@),
        None => None,
    }
}

fn is_int_changed(base: Option<&EvalJobOutput>, pr: &EvalJobOutput, name: &str) -> (yes: bool)
    ensures
        yes == int_changed(entry_view(base), pr@, name@),
{
    match drv_for(&pr.extra_value, name) {
        Some(pr_drv) => {
            let base_drv = match base {
                Some(e) => drv_for(&e.extra_value, name),
                None => None,
            };
            match base_drv {
                Some(d) => !same_text(d.as_str(), pr_drv.as_str()),
                None => true,
            }
        },
        None => false,
    }
}

fn list_known_changes(base: Option<&EvalJobOutput>, pr: &EvalJobOutput) -> (names: Vec<String>)
    ensures
        texts(names@) == known_changes(entry_view(base), pr@, 15),
{
    let mut names: Vec<String> = Vec::new();
    assert(texts(names@) == known_changes(entry_view(base), pr@, 0));
    for i in 0..15usize
        invariant
            texts(names@) == known_changes(entry_view(base), pr@, i as int),
    {
        let name = INTERMEDIATE_ATTRS[i];
        assert(intermediates()[i as int] == name@);
        let ghost before = texts(names@);
        if is_int_changed(base, pr, name) {
            names.push(name.to_string());
            assert(texts(names@) == before.push(name@));
        }
    }
    names
}

/// A package's changed attributes outside the list, and the derivations of all its
/// changed attributes.
fn add_other_changes(
    base: Option<&EvalJobOutput>,
    pr: &EvalJobOutput,
    names: &mut Vec<String>,
) -> (paths: AttrMap<String>)
    ensures
        texts(final(names)@) == texts(old(names)@) + other_changes(
            entry_view(base),
            pr@,
            entries_of(pr@).len() as int,
        ),
        path_texts(paths@) == changed_paths(
            entry_view(base),
            pr@,
            entries_of(pr@).len() as int,
        ),
{
    let ghost start = texts(names@);
    let mut paths: AttrMap<String> = AttrMap::new();
    let ghost b = entry_view(base);
    assert(start + other_changes(b, pr@, 0) == start);
    assert(path_texts(paths@) == changed_paths(b, pr@, 0));
    match &pr.extra_value {
        Some(map) => {
            map.names_are_distinct();
            let n: usize = map.len();
            let ghost entries = entries_of(pr@);
            assert(entries == drv_entries(map@));
            for i in 0..n
                invariant
                    n == map@.len(),
                    b == entry_view(base),
                    pr.extra_value == Some(*map),
                    entries == entries_of(pr@),
                    entries == drv_entries(map@),
                    distinct_names(map@),
                    texts(names@) == start + other_changes(b, pr@, i as int),
                    path_texts(paths@) == changed_paths(b, pr@, i as int),
                    forall|k: int|
                        0 <= k < paths@.len() ==> exists|j: int|
                            0 <= j < i && map@[j].0 == (#[trigger] paths@[k]).0,
            {
                let name = map.key_at(i);
                assert(entries[i as int].0 == name@);
                let ghost names_before = texts(names@);
                let ghost paths_before = paths@;
                if is_int_changed(base, pr, name.as_str()) {
                    if !known_intermediate(name.as_str()) {
                        names.push(name.clone());
                        assert(texts(names@) == names_before.push(name@));
                        assert(names_before.push(name@) == start + other_changes(
                            b,
                            pr@,
                            i as int,
                        ).push(name@));
                    }
                    proof {
                        lemma_place_from(map@, name@, 0);
                        lemma_place_from(paths@, name@, 0);
                        lemma_drv_lookup(map@, name@, 0);
                        assert(map@[i as int].0 == name@);
                        if place_of(map@, name@) != Some(i as int) {
                            let k = place_of(map@, name@)->0;
                            assert(map@[k].0 == name@);
                            assert(false);
                        }
                        if place_of(paths@, name@) is Some {
                            let k = place_of(paths@, name@)->0;
                            assert(paths@[k].0 == name@);
                            let j = choose|j: int| 0 <= j < i && map@[j].0 == paths@[k].0;
                            assert(map@[j].0 == map@[i as int].0);
                            assert(false);
                        }
                    }
                    match map.value_at(i) {
                        Some(drv) => {
                            let copy = drv.clone();
                            let ghost pair = (name@, copy);
                            paths.insert(name.clone(), copy);
                            assert(paths@ == paths_before.push(pair));
                            assert(path_texts(paths@) == path_texts(paths_before).push(
                                (name@, drv@),
                            ));
                        },
                        None => {
                            assert(false);
                        },
                    }
                    assert forall|k: int| 0 <= k < paths@.len() implies exists|j: int|
                        0 <= j < i + 1 && map@[j].0 == (#[trigger] paths@[k]).0 by {
                        if k < paths_before.len() {
                            assert(paths@[k] == paths_before[k]);
                            let j = choose|j: int| 0 <= j < i && map@[j].0 == paths_before[k].0;
                            assert(map@[j].0 == paths@[k].0);
                        } else {
                            assert(map@[i as int].0 == paths@[k].0);
                        }
                    }
                }
            }
        },
        None => {},
    }
    paths
}

fn find_package_change(
    base: Option<&EvalJobOutput>,
    pr: &EvalJobOutput,
    verify_full_drvs: bool,
) -> (change: Option<ChangedPackage>)
    ensures
        match change {
            Some(c) => package_change(entry_view(base), pr@, verify_full_drvs) == Some(
                change_of(c),
            ),
            None => package_change(entry_view(base), pr@, verify_full_drvs) is None,
        },
{
    if pr.error.is_some() {
        return None;
    }
    let mut names = list_known_changes(base, pr);
    let paths = add_other_changes(base, pr, &mut names);
    assert(texts(names@) == changed_names(entry_view(base), pr@));
    assert(texts(names@).len() == names@.len());
    if names.len() > 0 {
        return Some(
            ChangedPackage {
                attr: pr.attr.clone(),
                changed_intermediates: names,
                intermediate_drv_paths: paths,
                final_drv_changed: false,
            },
        );
    }
    if verify_full_drvs {
        if let Some(pr_drv) = &pr.drv_path {
            let differs = match base {
                Some(e) => match &e.drv_path {
                    Some(base_drv) => !same_text(base_drv.as_str(), pr_drv.as_str()),
                    None => true,
                },
                None => true,
            };
            if differs {
                let none: AttrMap<String> = AttrMap::new();
                let empty: Vec<String> = Vec::new();
                assert(texts(empty@) == Seq::<Seq<char>>::empty());
                assert(path_texts(none@) == Seq::<(Seq<char>, Seq<char>)>::empty());
                return Some(
                    ChangedPackage {
                        attr: pr.attr.clone(),
                        changed_intermediates: empty,
                        intermediate_drv_paths: none,
                        final_drv_changed: true,
                    },
                );
            }
        }
    }
    None
}

fn find_package_to_build(
    base: Option<&EvalJobOutput>,
    pr: &EvalJobOutput,
    verify_full_drvs: bool,
    all_intermediates: bool,
) -> (change: Option<ChangedPackage>)
    ensures
        match change {
            Some(c) => package_to_build(
                entry_view(base),
                pr@,
                verify_full_drvs,
                all_intermediates,
            ) == Some(change_of(c)),
            None => package_to_build(
                entry_view(base),
                pr@,
                verify_full_drvs,
                all_intermediates,
            ) is None,
        },
{
    match find_package_change(base, pr, verify_full_drvs) {
        Some(change) => {
            if all_intermediates {
                let mut names = list_known_changes(None, pr);
                let paths = add_other_changes(None, pr, &mut names);
                assert(texts(names@) == changed_names(None, pr@));
                Some(
                    ChangedPackage {
                        attr: change.attr,
                        changed_intermediates: names,
                        intermediate_drv_paths: paths,
                        final_drv_changed: change.final_drv_changed,
                    },
                )
            } else {
                Some(change)
            }
        },
        None => None,
    }
}

/// Finds the packages that differ between the base and the pull request, with the
/// intermediate attributes that are to be built for them. With `all_intermediates`
/// these are all that a package has, so that sources that did not change are fetched
/// anew too.
pub fn find_packages_to_build(
    base: &[EvalJobOutput],
    pr: &[EvalJobOutput],
    verify_full_drvs: bool,
    all_intermediates: bool,
) -> (changed: Vec<ChangedPackage>)
    ensures
        changes_of(changed@) == packages_to_build(
            eval_texts(base@),
            eval_texts(pr@),
            verify_full_drvs,
            all_intermediates,
        ),
{
    let index = index_base(base);
    let ghost before = eval_texts(base@);
    let ghost after = eval_texts(pr@);
    let mut changed: Vec<ChangedPackage> = Vec::new();
    let n: usize = pr.len();
    assert(changes_of(changed@) == packages_to_build(
        before,
        after.take(0),
        verify_full_drvs,
        all_intermediates,
    ));
    for i in 0..n
        invariant
            n == pr@.len(),
            before == eval_texts(base@),
            after == eval_texts(pr@),
            all_indexed(index@, before),
            changes_of(changed@) == packages_to_build(
                before,
                after.take(i as int),
                verify_full_drvs,
                all_intermediates,
            ),
    {
        proof {
            let next = after.take(i + 1);
            assert(next.drop_last() == after.take(i as int));
            assert(next.last() == pr@[i as int]@);
            lemma_last_place(before, pr@[i as int].attr@);
            assert(indexed(index@, before, pr@[i as int].attr@));
        }
        let entry = match index.get(pr[i].attr.as_str()) {
            Some(k) => Some(&base[*k]),
            None => None,
        };
        assert(entry_view(entry) == base_entry(before, pr@[i as int].attr@));
        let ghost so_far = changes_of(changed@);
        match find_package_to_build(entry, &pr[i], verify_full_drvs, all_intermediates) {
            Some(change) => {
                let ghost what = change_of(change);
                changed.push(change);
                assert(changes_of(changed@) == so_far.push(what));
            },
            None => {},
        }
    }
    assert(after.take(n as int) == after);
    changed
}

/// Finds the packages whose intermediate attributes changed between the base and
/// the pull request. With `verify_full_drvs`, those of which only the derivation of
/// the package changed are found too.
pub fn find_changed_packages(
    base: &[EvalJobOutput],
    pr: &[EvalJobOutput],
    verify_full_drvs: bool,
) -> (changed: Vec<ChangedPackage>)
    ensures
        changes_of(changed@) == changed_packages(
            eval_texts(base@),
            eval_texts(pr@),
            verify_full_drvs,
        ),
{
    proof {
        lemma_changes_alone(eval_texts(base@), eval_texts(pr@), verify_full_drvs);
    }
    find_packages_to_build(base, pr, verify_full_drvs, false)
}

proof fn lemma_changes_alone(base: Seq<EvalText>, pr: Seq<EvalText>, verify_full_drvs: bool)
    ensures
        packages_to_build(base, pr, verify_full_drvs, false) == changed_packages(
            base,
            pr,
            verify_full_drvs,
        ),
    decreases pr.len(),
{
    if pr.len() > 0 {
        lemma_changes_alone(base, pr.drop_last(), verify_full_drvs);
    }
}

// ---------------------------------------------------------------------------
// What holds of the changes

proof fn lemma_known_members(base: Option<EvalText>, pr: EvalText, n: int, name: Seq<char>)
    requires
        0 <= n <= intermediates().len(),
    ensures
        known_changes(base, pr, n).contains(name) == (int_changed(base, pr, name)
            && intermediates().take(n).contains(name)),
    decreases n,
{
    if n > 0 {
        lemma_known_members(base, pr, n - 1, name);
        let front = known_changes(base, pr, n - 1);
        let all = known_changes(base, pr, n);
        let shorter = intermediates().take(n - 1);
        let longer = intermediates().take(n);
        let here = intermediates()[n - 1];
        assert(longer == shorter.push(here));
        assert(longer.contains(name) == (shorter.contains(name) || name == here)) by {
            if shorter.contains(name) {
                let k = choose|k: int| 0 <= k < shorter.len() && shorter[k] == name;
                assert(longer[k] == name);
            }
            assert(longer[n - 1] == here);
        }
        if int_changed(base, pr, here) {
            assert(all.contains(name) == (front.contains(name) || name == here)) by {
                if front.contains(name) {
                    let k = choose|k: int| 0 <= k < front.len() && front[k] == name;
                    assert(all[k] == name);
                }
                assert(all[front.len() as int] == here);
            }
        }
    }
}

proof fn lemma_other_members(base: Option<EvalText>, pr: EvalText, n: int, name: Seq<char>)
    requires
        0 <= n <= entries_of(pr).len(),
    ensures
        other_changes(base, pr, n).contains(name) == (int_changed(base, pr, name)
            && !is_intermediate(name) && exists|k: int|
            0 <= k < n && (#[trigger] entries_of(pr)[k]).0 == name),
    decreases n,
{
    let entries = entries_of(pr);
    if n > 0 {
        lemma_other_members(base, pr, n - 1, name);
        let front = other_changes(base, pr, n - 1);
        let all = other_changes(base, pr, n);
        let here = entries[n - 1].0;
        assert((exists|k: int| 0 <= k < n && (#[trigger] entries[k]).0 == name) == ((exists|
            k: int,
        |
            0 <= k < n - 1 && (#[trigger] entries[k]).0 == name) || name == here)) by {
            if exists|k: int| 0 <= k < n && (#[trigger] entries[k]).0 == name {
                let k = choose|k: int| 0 <= k < n && (#[trigger] entries[k]).0 == name;
                if k < n - 1 {
                    assert(entries[k].0 == name);
                }
            }
            if name == here {
                assert(entries[n - 1].0 == name);
            }
        }
        if !is_intermediate(here) && int_changed(base, pr, here) {
            assert(all.contains(name) == (front.contains(name) || name == here)) by {
                if front.contains(name) {
                    let k = choose|k: int| 0 <= k < front.len() && front[k] == name;
                    assert(all[k] == name);
                }
                assert(all[front.len() as int] == here);
            }
        }
    }
}

/// An attribute is listed as changed exactly where it has a derivation that the
/// base does not have for it.
pub proof fn law_changed_names(base: Option<EvalText>, pr: EvalText, name: Seq<char>)
    ensures
        changed_names(base, pr).contains(name) == int_changed(base, pr, name),
{
    let known = known_changes(base, pr, intermediates().len() as int);
    let entries = entries_of(pr);
    let other = other_changes(base, pr, entries.len() as int);
    let all = changed_names(base, pr);
    lemma_known_members(base, pr, intermediates().len() as int, name);
    lemma_other_members(base, pr, entries.len() as int, name);
    assert(intermediates().take(intermediates().len() as int) == intermediates());
    if int_changed(base, pr, name) {
        lemma_place_from(entries, name, 0);
        let k = place_of(entries, name)->0;
        assert(entries[k].0 == name);
    }
    assert(all.contains(name) == (known.contains(name) || other.contains(name))) by {
        if known.contains(name) {
            let k = choose|k: int| 0 <= k < known.len() && known[k] == name;
            assert(all[k] == name);
        }
        if other.contains(name) {
            let k = choose|k: int| 0 <= k < other.len() && other[k] == name;
            assert(all[known.len() + k] == name);
        }
        if all.contains(name) {
            let k = choose|k: int| 0 <= k < all.len() && all[k] == name;
            if k >= known.len() {
                assert(other[k - known.len()] == name);
            } else {
                assert(known[k] == name);
            }
        }
    }
}

/// With all intermediate attributes asked for, the same packages are built, and for
/// each every intermediate attribute that it has a derivation for.
pub proof fn law_all_intermediates_built(
    base: Option<EvalText>,
    pr: EvalText,
    verify_full_drvs: bool,
    name: Seq<char>,
)
    ensures
        package_to_build(base, pr, verify_full_drvs, true) is Some == package_change(
            base,
            pr,
            verify_full_drvs,
        ) is Some,
        package_to_build(base, pr, verify_full_drvs, true) matches Some(change)
            ==> change.package.attr == pr.attr && change.package.changed.contains(name) == (drv_of(
            pr.ints,
            name,
        ) is Some),
{
    law_changed_names(None, pr, name);
}

/// A package is found exactly where its evaluation went through and an intermediate
/// attribute of it changed, or, if asked for, its own derivation.
pub proof fn law_change_found(base: Option<EvalText>, pr: EvalText, verify_full_drvs: bool)
    ensures
        package_change(base, pr, verify_full_drvs) is Some <==> !pr.failed && ((exists|
            name: Seq<char>,
        |
            int_changed(base, pr, name)) || (verify_full_drvs && pr.drv is Some && pr.drv
            != final_drv_of(base))),
{
    let names = changed_names(base, pr);
    if names.len() > 0 {
        law_changed_names(base, pr, names[0]);
        assert(names.contains(names[0]));
        assert(int_changed(base, pr, names[0]));
    }
    if exists|name: Seq<char>| int_changed(base, pr, name) {
        let name = choose|name: Seq<char>| int_changed(base, pr, name);
        law_changed_names(base, pr, name);
        assert(names.contains(name));
    }
}

/// Where `src` changed it is the first of the changed attributes.
pub proof fn law_changed_src_first(base: Option<EvalText>, pr: EvalText)
    requires
        int_changed(base, pr, "src"@),
    ensures
        changed_names(base, pr)[0] == "src"@,
{
    lemma_known_prefix(base, pr, 1, intermediates().len() as int);
    reveal_with_fuel(known_changes, 2);
    assert(intermediates()[0] == "src"@);
    assert(known_changes(base, pr, 1)[0] == "src"@);
}

proof fn lemma_known_prefix(base: Option<EvalText>, pr: EvalText, m: int, n: int)
    requires
        0 <= m <= n,
    ensures
        known_changes(base, pr, m).len() <= known_changes(base, pr, n).len(),
        known_changes(base, pr, m) == known_changes(base, pr, n).take(
            known_changes(base, pr, m).len() as int,
        ),
    decreases n - m,
{
    if m < n {
        lemma_known_prefix(base, pr, m, n - 1);
        let short = known_changes(base, pr, m);
        let front = known_changes(base, pr, n - 1);
        let all = known_changes(base, pr, n);
        assert(all.take(short.len() as int) == front.take(short.len() as int));
    }
}

/// Asking for the derivations of packages too only adds to what is found.
pub proof fn law_full_drvs_only_add(base: Seq<EvalText>, pr: Seq<EvalText>)
    ensures
        changed_packages(base, pr, true).filter(|c: Change| !c.package.final_changed)
            == changed_packages(base, pr, false),
    decreases pr.len(),
{
    reveal(Seq::filter);
    let keep = |c: Change| !c.package.final_changed;
    if pr.len() > 0 {
        law_full_drvs_only_add(base, pr.drop_last());
        let front = changed_packages(base, pr.drop_last(), true);
        let all = changed_packages(base, pr, true);
        let entry = base_entry(base, pr.last().attr);
        match package_change(entry, pr.last(), true) {
            Some(change) => {
                assert(all.drop_last() == front);
                assert(all.last() == change);
            },
            None => {},
        }
    }
}

// ---------------------------------------------------------------------------
// Every change is found

/// What the base says of a package is its last entry for it, and it says nothing
/// exactly where it has no entry.
pub proof fn law_last_entry_counts(base: Seq<EvalText>, attr: Seq<char>)
    ensures
        match base_entry(base, attr) {
            Some(e) => exists|i: int|
                0 <= i < base.len() && #[trigger] base[i] == e && e.attr == attr && (forall|j: int|
                    i < j < base.len() ==> (#[trigger] base[j]).attr != attr),
            None => forall|j: int| 0 <= j < base.len() ==> (#[trigger] base[j]).attr != attr,
        },
    decreases base.len(),
{
    if base.len() > 0 {
        let last = base.len() - 1;
        if base.last().attr == attr {
            assert(base[last] == base.last());
        } else {
            let front = base.drop_last();
            law_last_entry_counts(front, attr);
            match base_entry(front, attr) {
                Some(e) => {
                    let i = choose|i: int|
                        0 <= i < front.len() && #[trigger] front[i] == e && e.attr == attr && (
                        forall|j: int|
                            i < j < front.len() ==> (#[trigger] front[j]).attr != attr);
                    assert(base[i] == e);
                    assert forall|j: int| i < j < base.len() implies (#[trigger] base[j]).attr
                        != attr by {
                        if j < front.len() {
                            assert(front[j].attr != attr);
                        }
                    }
                },
                None => {
                    assert forall|j: int| 0 <= j < base.len() implies (#[trigger] base[j]).attr
                        != attr by {
                        if j < front.len() {
                            assert(front[j].attr != attr);
                        }
                    }
                },
            }
        }
    }
}

/// An intermediate attribute has a derivation exactly where the evaluation lists it
/// with that derivation.
pub proof fn law_listed_derivation(
    entries: Seq<(Seq<char>, Option<Seq<char>>)>,
    name: Seq<char>,
    drv: Seq<char>,
)
    requires
        distinct_names(entries),
    ensures
        drv_of(Some(entries), name) == Some(drv) <==> entries.contains((name, Some(drv))),
        drv_of(None, name) is None,
{
    lemma_place_from(entries, name, 0);
    if entries.contains((name, Some(drv))) {
        let k = choose|k: int| 0 <= k < entries.len() && entries[k] == (name, Some(drv));
        assert(entries[k].0 == name);
        let i = place_of(entries, name)->0;
        if i < k {
            assert(entries[i].0 != entries[k].0);
        }
    }
}

/// Whether an evaluation lists an intermediate attribute with a derivation.
pub open spec fn lists_drv(e: EvalText, name: Seq<char>, drv: Seq<char>) -> bool {
    e.ints matches Some(entries) && entries.contains((name, Some(drv)))
}

/// Whether no intermediate attribute is listed twice.
pub open spec fn lists_once(e: EvalText) -> bool {
    e.ints matches Some(entries) ==> distinct_names(entries)
}

/// An intermediate attribute changed exactly where the pull request lists a derivation
/// for it that the base does not list for it.
pub proof fn law_new_derivation_is_a_change(
    base: Option<EvalText>,
    pr: EvalText,
    name: Seq<char>,
)
    requires
        lists_once(pr),
        base matches Some(e) ==> lists_once(e),
    ensures
        int_changed(base, pr, name) <==> exists|drv: Seq<char>| #[trigger]
            lists_drv(pr, name, drv) && !(base matches Some(e) && lists_drv(e, name, drv)),
{
    if int_changed(base, pr, name) {
        let drv = drv_of(pr.ints, name)->0;
        law_listed_derivation(pr.ints->0, name, drv);
        assert(lists_drv(pr, name, drv));
        if base is Some && base->0.ints is Some {
            law_listed_derivation(base->0.ints->0, name, drv);
        }
    }
    if exists|drv: Seq<char>| #[trigger]
        lists_drv(pr, name, drv) && !(base matches Some(e) && lists_drv(e, name, drv)) {
        let drv = choose|drv: Seq<char>| #[trigger]
            lists_drv(pr, name, drv) && !(base matches Some(e) && lists_drv(e, name, drv));
        law_listed_derivation(pr.ints->0, name, drv);
        if base is Some && base->0.ints is Some {
            law_listed_derivation(base->0.ints->0, name, drv);
        }
    }
}

proof fn lemma_known_filtered(base: Option<EvalText>, pr: EvalText, n: int)
    requires
        0 <= n <= intermediates().len(),
    ensures
        known_changes(base, pr, n) == intermediates().take(n).filter(
            |name: Seq<char>| int_changed(base, pr, name),
        ),
    decreases n,
{
    reveal(Seq::filter);
    if n > 0 {
        lemma_known_filtered(base, pr, n - 1);
        let longer = intermediates().take(n);
        assert(longer.drop_last() == intermediates().take(n - 1));
        assert(longer.last() == intermediates()[n - 1]);
    }
}

/// The names of the intermediate attributes that an evaluation lists.
pub open spec fn listed_names(e: EvalText) -> Seq<Seq<char>> {
    match e.ints {
        Some(entries) => Seq::new(entries.len(), |i: int| entries[i].0),
        None => Seq::empty(),
    }
}

proof fn lemma_other_filtered(base: Option<EvalText>, pr: EvalText, n: int)
    requires
        0 <= n <= entries_of(pr).len(),
    ensures
        other_changes(base, pr, n) == listed_names(pr).take(n).filter(
            |name: Seq<char>| !intermediates().contains(name) && int_changed(base, pr, name),
        ),
    decreases n,
{
    reveal(Seq::filter);
    if n > 0 {
        lemma_other_filtered(base, pr, n - 1);
        let longer = listed_names(pr).take(n);
        assert(longer.drop_last() == listed_names(pr).take(n - 1));
        assert(longer.last() == entries_of(pr)[n - 1].0);
    }
}

/// The changed attributes come in this order: those of the list as the list has them,
/// then the others as the evaluation lists them.
pub proof fn law_changes_in_order(base: Option<EvalText>, pr: EvalText)
    ensures
        changed_names(base, pr) == intermediates().filter(
            |name: Seq<char>| int_changed(base, pr, name),
        ) + listed_names(pr).filter(
            |name: Seq<char>| !intermediates().contains(name) && int_changed(base, pr, name),
        ),
{
    let n = intermediates().len() as int;
    let m = entries_of(pr).len() as int;
    lemma_known_filtered(base, pr, n);
    lemma_other_filtered(base, pr, m);
    assert(intermediates().take(n) == intermediates());
    assert(listed_names(pr).take(m) == listed_names(pr));
}

#[verifier::rlimit(40)]
proof fn lemma_paths_members(base: Option<EvalText>, pr: EvalText, n: int)
    requires
        lists_once(pr),
        0 <= n <= entries_of(pr).len(),
    ensures
        changed_paths(base, pr, n).no_duplicates(),
        forall|name: Seq<char>, drv: Seq<char>| #[trigger]
            changed_paths(base, pr, n).contains((name, drv)) <==> int_changed(base, pr, name) && (
            exists|k: int| 0 <= k < n && #[trigger] entries_of(pr)[k] == (name, Some(drv))),
    decreases n,
{
    let entries = entries_of(pr);
    let all = changed_paths(base, pr, n);
    if n > 0 {
        lemma_paths_members(base, pr, n - 1);
        let front = changed_paths(base, pr, n - 1);
        let here = entries[n - 1];
        lemma_place_from(entries, here.0, 0);
        let place = place_of(entries, here.0)->0;
        if place < n - 1 {
            assert(entries[place].0 != entries[n - 1].0);
        }
        assert(place == n - 1);
        assert forall|name: Seq<char>, drv: Seq<char>| #[trigger]
            all.contains((name, drv)) <==> int_changed(base, pr, name) && (exists|k: int|
                0 <= k < n && #[trigger] entries[k] == (name, Some(drv))) by {
            assert(front.contains((name, drv)) <==> int_changed(base, pr, name) && (exists|k: int|
                0 <= k < n - 1 && #[trigger] entries[k] == (name, Some(drv))));
            if all.contains((name, drv)) {
                let k = choose|k: int| 0 <= k < all.len() && all[k] == (name, drv);
                if k < front.len() {
                    assert(front[k] == (name, drv));
                    assert(front.contains((name, drv)));
                } else {
                    assert(entries[n - 1] == (name, Some(drv)));
                }
            }
            if int_changed(base, pr, name) && (exists|k: int|
                0 <= k < n && #[trigger] entries[k] == (name, Some(drv))) {
                let k = choose|k: int| 0 <= k < n && #[trigger] entries[k] == (name, Some(drv));
                if k < n - 1 {
                    assert(front.contains((name, drv)));
                    let a = choose|a: int| 0 <= a < front.len() && front[a] == (name, drv);
                    assert(all[a] == (name, drv));
                } else {
                    assert(all[front.len() as int] == (name, drv));
                }
            }
        }
        assert forall|a: int, b: int|
            0 <= a < all.len() && 0 <= b < all.len() && a != b implies all[a] != all[b] by {
            if all.len() > front.len() {
                let last = front.len() as int;
                let c = if a == last {
                    b
                } else {
                    a
                };
                if (a == last || b == last) && all[a] == all[b] {
                    assert(front[c] == all[last]);
                    assert(front.contains((all[last].0, all[last].1)));
                    let k = choose|k: int|
                        0 <= k < n - 1 && #[trigger] entries[k] == (all[last].0, Some(
                            all[last].1,
                        ));
                    assert(entries[k].0 == entries[n - 1].0);
                    assert(false);
                }
            }
        }
    }
}

/// What is found of a package: it is found exactly where its evaluation went through
/// and it differs; it is listed with the attributes that changed and, for each, the
/// derivation that the pull request lists; and it is marked as differing in its own
/// derivation alone exactly where no attribute changed.
#[verifier::rlimit(40)]
pub proof fn law_found_package(base: Option<EvalText>, pr: EvalText, verify_full_drvs: bool)
    requires
        lists_once(pr),
    ensures
        match package_change(base, pr, verify_full_drvs) {
            Some(c) => {
                &&& !pr.failed
                &&& c.package.attr == pr.attr
                &&& forall|name: Seq<char>| #[trigger]
                    c.package.changed.contains(name) <==> int_changed(base, pr, name)
                &&& forall|name: Seq<char>, drv: Seq<char>| #[trigger]
                    c.paths.contains((name, drv)) <==> int_changed(base, pr, name) && lists_drv(
                        pr,
                        name,
                        drv,
                    )
                &&& c.paths.no_duplicates()
                &&& c.package.final_changed <==> (forall|name: Seq<char>| !#[trigger]
                    int_changed(base, pr, name))
                &&& c.package.final_changed ==> verify_full_drvs && pr.drv is Some && !(
                base matches Some(e) && e.drv == pr.drv)
            },
            None => pr.failed || ((forall|name: Seq<char>| !#[trigger]
                int_changed(base, pr, name)) && (!verify_full_drvs || pr.drv is None || (
            base matches Some(e) && e.drv == pr.drv))),
        },
{
    let names = changed_names(base, pr);
    assert forall|name: Seq<char>| #[trigger] names.contains(name) <==> int_changed(
        base,
        pr,
        name,
    ) by {
        law_changed_names(base, pr, name);
    }
    assert forall|name: Seq<char>| #[trigger] int_changed(base, pr, name) implies names.len()
        > 0 by {
        assert(names.contains(name));
    }
    if names.len() > 0 {
        assert(names.contains(names[0]));
        assert(int_changed(base, pr, names[0]));
    }
    let n = entries_of(pr).len() as int;
    lemma_paths_members(base, pr, n);
    let paths = changed_paths(base, pr, n);
    assert forall|name: Seq<char>, drv: Seq<char>| #[trigger]
        paths.contains((name, drv)) <==> int_changed(base, pr, name) && lists_drv(
            pr,
            name,
            drv,
        ) by {
        if lists_drv(pr, name, drv) {
            let entries = pr.ints->0;
            let k = choose|k: int| 0 <= k < entries.len() && entries[k] == (name, Some(drv));
            assert(entries_of(pr)[k] == (name, Some(drv)));
        }
    }
    match package_change(base, pr, verify_full_drvs) {
        Some(c) => {
            if names.len() == 0 {
                assert forall|name: Seq<char>| #[trigger]
                    c.package.changed.contains(name) <==> int_changed(base, pr, name) by {}
                assert forall|name: Seq<char>, drv: Seq<char>| #[trigger]
                    c.paths.contains((name, drv)) <==> int_changed(base, pr, name) && lists_drv(
                        pr,
                        name,
                        drv,
                    ) by {}
            }
        },
        None => {},
    }
}

/// What is built of a package that differs is what is found of it, unless all
/// intermediate attributes are asked for: then it is every attribute that the pull
/// request lists a derivation for, with that derivation. The package and the mark on it
/// stay the same.
pub proof fn law_built_of_found_package(
    base: Option<EvalText>,
    pr: EvalText,
    verify_full_drvs: bool,
)
    requires
        lists_once(pr),
    ensures
        package_to_build(base, pr, verify_full_drvs, false) == package_change(
            base,
            pr,
            verify_full_drvs,
        ),
        match package_to_build(base, pr, verify_full_drvs, true) {
            Some(c) => {
                &&& package_change(base, pr, verify_full_drvs) matches Some(found)
                    && found.package.attr == c.package.attr && found.package.final_changed
                    == c.package.final_changed
                &&& forall|name: Seq<char>| #[trigger]
                    c.package.changed.contains(name) <==> exists|drv: Seq<char>| #[trigger]
                        lists_drv(pr, name, drv)
                &&& forall|name: Seq<char>, drv: Seq<char>| #[trigger]
                    c.paths.contains((name, drv)) <==> lists_drv(pr, name, drv)
            },
            None => package_change(base, pr, verify_full_drvs) is None,
        },
{
    let names = changed_names(None, pr);
    assert forall|name: Seq<char>| #[trigger] names.contains(name) <==> exists|drv: Seq<char>|
     #[trigger] lists_drv(pr, name, drv) by {
        law_changed_names(None, pr, name);
        law_new_derivation_is_a_change(None, pr, name);
    }
    let n = entries_of(pr).len() as int;
    lemma_paths_members(None, pr, n);
    let paths = changed_paths(None, pr, n);
    assert forall|name: Seq<char>, drv: Seq<char>| #[trigger]
        paths.contains((name, drv)) <==> lists_drv(pr, name, drv) by {
        if lists_drv(pr, name, drv) {
            let entries = pr.ints->0;
            let k = choose|k: int| 0 <= k < entries.len() && entries[k] == (name, Some(drv));
            assert(entries_of(pr)[k] == (name, Some(drv)));
            law_new_derivation_is_a_change(None, pr, name);
        }
    }
}

/// Whether a list of places picks, in their order and each once, the packages of the
/// pull request that differ from the base, and `found` is what is found of each.
pub open spec fn picks_changes(
    base: Seq<EvalText>,
    pr: Seq<EvalText>,
    verify_full_drvs: bool,
    at: Seq<int>,
    found: Seq<Change>,
) -> bool {
    &&& at.len() == found.len()
    &&& forall|k: int| 0 <= k < at.len() ==> 0 <= #[trigger] at[k] < pr.len()
    &&& forall|j: int, k: int| 0 <= j < k < at.len() ==> #[trigger] at[j] < #[trigger] at[k]
    &&& forall|k: int|
        0 <= k < at.len() ==> package_change(
            base_entry(base, pr[#[trigger] at[k]].attr),
            pr[at[k]],
            verify_full_drvs,
        ) == Some(found[k])
    &&& forall|i: int|
        0 <= i < pr.len() && package_change(
            base_entry(base, (#[trigger] pr[i]).attr),
            pr[i],
            verify_full_drvs,
        ) is Some ==> at.contains(i)
}

#[verifier::rlimit(40)]
proof fn lemma_picks_changes(base: Seq<EvalText>, pr: Seq<EvalText>, verify_full_drvs: bool) -> (at:
    Seq<int>)
    ensures
        picks_changes(
            base,
            pr,
            verify_full_drvs,
            at,
            changed_packages(base, pr, verify_full_drvs),
        ),
    decreases pr.len(),
{
    let found = changed_packages(base, pr, verify_full_drvs);
    if pr.len() == 0 {
        Seq::empty()
    } else {
        let front = pr.drop_last();
        let before = lemma_picks_changes(base, front, verify_full_drvs);
        let last = pr.len() - 1;
        let here = package_change(
            base_entry(base, pr.last().attr),
            pr.last(),
            verify_full_drvs,
        );
        let at = if here is Some {
            before.push(last)
        } else {
            before
        };
        assert forall|k: int| 0 <= k < at.len() implies 0 <= #[trigger] at[k] < pr.len()
            && package_change(
            base_entry(base, pr[at[k]].attr),
            pr[at[k]],
            verify_full_drvs,
        ) == Some(found[k]) by {
            if k < before.len() {
                assert(at[k] == before[k]);
                assert(front[before[k]] == pr[at[k]]);
            }
        }
        assert forall|j: int, k: int| 0 <= j < k < at.len() implies #[trigger] at[j]
            < #[trigger] at[k] by {
            assert(at[j] == before[j]);
            if k < before.len() {
                assert(at[k] == before[k]);
            }
        }
        assert forall|i: int|
            0 <= i < pr.len() && package_change(
                base_entry(base, (#[trigger] pr[i]).attr),
                pr[i],
                verify_full_drvs,
            ) is Some implies at.contains(i) by {
            if i < last {
                assert(front[i] == pr[i]);
                assert(before.contains(i));
                let k = choose|k: int| 0 <= k < before.len() && before[k] == i;
                assert(at[k] == i);
            } else {
                assert(at[before.len() as int] == i);
            }
        }
        at
    }
}

/// Every package of the pull request that differs from the base is found, each once and
/// in the order of the pull request, whatever other packages are there; and nothing
/// else is found.
pub proof fn law_every_change_is_found(
    base: Seq<EvalText>,
    pr: Seq<EvalText>,
    verify_full_drvs: bool,
)
    ensures
        exists|at: Seq<int>| #[trigger]
            picks_changes(
                base,
                pr,
                verify_full_drvs,
                at,
                changed_packages(base, pr, verify_full_drvs),
            ),
        forall|i: int|
            0 <= i < pr.len() ==> (package_change(
                base_entry(base, (#[trigger] pr[i]).attr),
                pr[i],
                verify_full_drvs,
            ) matches Some(c) ==> changed_packages(base, pr, verify_full_drvs).contains(c)),
{
    let at = lemma_picks_changes(base, pr, verify_full_drvs);
    let found = changed_packages(base, pr, verify_full_drvs);
    assert forall|i: int| 0 <= i < pr.len() implies (package_change(
        base_entry(base, (#[trigger] pr[i]).attr),
        pr[i],
        verify_full_drvs,
    ) matches Some(c) ==> found.contains(c)) by {
        if package_change(base_entry(base, pr[i].attr), pr[i], verify_full_drvs) is Some {
            assert(at.contains(i));
            let k = choose|k: int| 0 <= k < at.len() && at[k] == i;
            assert(package_change(base_entry(base, pr[at[k]].attr), pr[at[k]], verify_full_drvs)
                == Some(found[k]));
        }
    }
}

/// What is found of some packages does not depend on the others: two parts of a pull
/// request give together what each gives alone.
pub proof fn law_changes_of_parts(
    base: Seq<EvalText>,
    one: Seq<EvalText>,
    two: Seq<EvalText>,
    verify_full_drvs: bool,
    all_intermediates: bool,
)
    ensures
        changed_packages(base, one + two, verify_full_drvs) == changed_packages(
            base,
            one,
            verify_full_drvs,
        ) + changed_packages(base, two, verify_full_drvs),
        packages_to_build(base, one + two, verify_full_drvs, all_intermediates)
            == packages_to_build(base, one, verify_full_drvs, all_intermediates)
            + packages_to_build(base, two, verify_full_drvs, all_intermediates),
    decreases two.len(),
{
    if two.len() == 0 {
        assert(one + two == one);
    } else {
        law_changes_of_parts(base, one, two.drop_last(), verify_full_drvs, all_intermediates);
        assert((one + two).drop_last() == one + two.drop_last());
        assert((one + two).last() == two.last());
    }
}

/// What is built stands for what is found, package by package: as many packages, the
/// same packages in the same order with the same marks; and the same attributes, unless
/// all intermediate attributes are asked for.
#[verifier::rlimit(40)]
pub proof fn law_every_change_is_built(
    base: Seq<EvalText>,
    pr: Seq<EvalText>,
    verify_full_drvs: bool,
)
    ensures
        packages_to_build(base, pr, verify_full_drvs, false) == changed_packages(
            base,
            pr,
            verify_full_drvs,
        ),
        packages_to_build(base, pr, verify_full_drvs, true).len() == changed_packages(
            base,
            pr,
            verify_full_drvs,
        ).len(),
        forall|k: int|
            #![trigger packages_to_build(base, pr, verify_full_drvs, true)[k]]
            0 <= k < changed_packages(base, pr, verify_full_drvs).len() ==> packages_to_build(
                base,
                pr,
                verify_full_drvs,
                true,
            )[k].package.attr == changed_packages(base, pr, verify_full_drvs)[k].package.attr
                && packages_to_build(base, pr, verify_full_drvs, true)[k].package.final_changed
                == changed_packages(base, pr, verify_full_drvs)[k].package.final_changed,
        forall|i: int|
            0 <= i < pr.len() ==> (package_to_build(
                base_entry(base, (#[trigger] pr[i]).attr),
                pr[i],
                verify_full_drvs,
                true,
            ) matches Some(c) ==> packages_to_build(base, pr, verify_full_drvs, true).contains(c)),
        forall|c: Change| #[trigger]
            packages_to_build(base, pr, verify_full_drvs, true).contains(c) ==> exists|i: int|
                0 <= i < pr.len() && package_to_build(
                    base_entry(base, (#[trigger] pr[i]).attr),
                    pr[i],
                    verify_full_drvs,
                    true,
                ) == Some(c),
    decreases pr.len(),
{
    lemma_changes_alone(base, pr, verify_full_drvs);
    if pr.len() > 0 {
        let front = pr.drop_last();
        law_every_change_is_built(base, front, verify_full_drvs);
        let found = changed_packages(base, front, verify_full_drvs);
        let built = packages_to_build(base, front, verify_full_drvs, true);
        let all_found = changed_packages(base, pr, verify_full_drvs);
        let all_built = packages_to_build(base, pr, verify_full_drvs, true);
        let here = package_to_build(
            base_entry(base, pr.last().attr),
            pr.last(),
            verify_full_drvs,
            true,
        );
        assert forall|k: int|
            #![trigger all_built[k]]
            0 <= k < all_found.len() implies all_built[k].package.attr
            == all_found[k].package.attr && all_built[k].package.final_changed
            == all_found[k].package.final_changed by {
            if k < found.len() {
                assert(all_built[k] == built[k]);
                assert(all_found[k] == found[k]);
            }
        }
        assert forall|i: int| 0 <= i < pr.len() implies (package_to_build(
            base_entry(base, (#[trigger] pr[i]).attr),
            pr[i],
            verify_full_drvs,
            true,
        ) matches Some(c) ==> all_built.contains(c)) by {
            let what = package_to_build(
                base_entry(base, pr[i].attr),
                pr[i],
                verify_full_drvs,
                true,
            );
            if what is Some {
                if i < front.len() {
                    assert(front[i] == pr[i]);
                    assert(built.contains(what->0));
                    let k = choose|k: int| 0 <= k < built.len() && built[k] == what->0;
                    assert(all_built[k] == what->0);
                } else {
                    assert(all_built[built.len() as int] == what->0);
                }
            }
        }
        assert forall|c: Change| #[trigger] all_built.contains(c) implies exists|i: int|
            0 <= i < pr.len() && package_to_build(
                base_entry(base, (#[trigger] pr[i]).attr),
                pr[i],
                verify_full_drvs,
                true,
            ) == Some(c) by {
            let k = choose|k: int| 0 <= k < all_built.len() && all_built[k] == c;
            if k < built.len() {
                assert(built[k] == c);
                assert(built.contains(c));
                let i = choose|i: int|
                    0 <= i < front.len() && package_to_build(
                        base_entry(base, (#[trigger] front[i]).attr),
                        front[i],
                        verify_full_drvs,
                        true,
                    ) == Some(c);
                assert(pr[i] == front[i]);
            } else {
                assert(pr[pr.len() - 1] == pr.last());
            }
        }
    }
}

/// Whether no package is listed twice.
pub open spec fn distinct_attrs(evals: Seq<EvalText>) -> bool {
    forall|i: int, j: int|
        0 <= i < j < evals.len() ==> (#[trigger] evals[i]).attr != (#[trigger] evals[j]).attr
}

proof fn lemma_base_entry(base: Seq<EvalText>, i: int)
    requires
        0 <= i < base.len(),
        distinct_attrs(base),
    ensures
        base_entry(base, base[i].attr) == Some(base[i]),
    decreases base.len(),
{
    if i < base.len() - 1 {
        let front = base.drop_last();
        assert(front[i] == base[i]);
        assert(base[base.len() - 1] == base.last());
        assert forall|a: int, b: int| 0 <= a < b < front.len() implies (#[trigger] front[a]).attr
            != (#[trigger] front[b]).attr by {
            assert(front[a] == base[a] && front[b] == base[b]);
        }
        lemma_base_entry(front, i);
    }
}

/// An evaluation does not differ from itself.
pub proof fn law_same_eval_changes_nothing(evals: Seq<EvalText>, verify_full_drvs: bool)
    requires
        distinct_attrs(evals),
    ensures
        changed_packages(evals, evals, verify_full_drvs).len() == 0,
{
    lemma_prefix_changes_nothing(evals, evals.len() as int, verify_full_drvs);
    assert(evals.take(evals.len() as int) == evals);
}

proof fn lemma_prefix_changes_nothing(evals: Seq<EvalText>, n: int, verify_full_drvs: bool)
    requires
        distinct_attrs(evals),
        0 <= n <= evals.len(),
    ensures
        changed_packages(evals, evals.take(n), verify_full_drvs).len() == 0,
    decreases n,
{
    if n > 0 {
        lemma_prefix_changes_nothing(evals, n - 1, verify_full_drvs);
        let all = evals.take(n);
        assert(all.drop_last() == evals.take(n - 1));
        let pr = all.last();
        assert(pr == evals[n - 1]);
        lemma_base_entry(evals, n - 1);
        law_change_found(Some(pr), pr, verify_full_drvs);
    }
}

// ---------------------------------------------------------------------------
// Systems and commits

/// The systems that a pull request is tested for: the local one, and that of the
/// remote builder where it is another.
pub open spec fn systems_tested(local: Seq<char>, remote: Option<Seq<char>>) -> Seq<Seq<char>> {
    match remote {
        Some(system) => if system == local {
            seq![local]
        } else {
            seq![local, system]
        },
        None => seq![local],
    }
}

/// Lists the systems that a pull request is tested for.
pub fn systems_to_test(local: &str, remote: Option<&RemoteBuilderConfig>) -> (systems: Vec<String>)
    ensures
        texts(systems@) == systems_tested(
            local@,
            match remote {
                Some(rc) => Some(rc.system@),
                None => None,
            },
        ),
{
    let mut systems: Vec<String> = Vec::new();
    systems.push(local.to_string());
    if let Some(rc) = remote {
        if !same_text(rc.system.as_str(), local) {
            systems.push(rc.system.clone());
        }
    }
    systems
}

/// The local system is always tested, and first; no system is tested twice.
pub proof fn law_local_system_tested(local: Seq<char>, remote: Option<Seq<char>>)
    ensures
        systems_tested(local, remote)[0] == local,
        systems_tested(local, remote).no_duplicates(),
        1 <= systems_tested(local, remote).len() <= 2,
{
}

/// A system is tested exactly where it is the local one or that of the remote builder,
/// and these are two exactly where they differ.
pub proof fn law_remote_system_tested(
    local: Seq<char>,
    remote: Option<Seq<char>>,
    system: Seq<char>,
)
    ensures
        systems_tested(local, remote).contains(system) <==> system == local || remote == Some(
            system,
        ),
        systems_tested(local, remote).len() == 2 <==> (remote matches Some(r) && r != local),
{
    let all = systems_tested(local, remote);
    assert(all[0] == local);
    if remote is Some && remote->0 != local {
        assert(all[1] == remote->0);
    }
}

/// Picks the commit to compare with: the one asked for where failures are looked at on
/// the base branch, else the merge base.
pub fn pick_base_commit(asked: Option<&str>, merge_base: &str, false_positive: bool) -> (commit:
    String)
    ensures
        commit@ == (match asked {
            Some(c) => if false_positive {
                c@
            } else {
                merge_base@
            },
            None => merge_base@,
        }),
{
    match asked {
        Some(c) => if false_positive {
            c.to_string()
        } else {
            merge_base.to_string()
        },
        None => merge_base.to_string(),
    }
}

/// Whether a saved state can be taken up: one system is tested, and the state is of
/// the same merge base, the same head and the same system.
pub open spec fn can_resume(
    state: RunState,
    merge_base: Seq<char>,
    pr_head_sha: Seq<char>,
    local: Seq<char>,
    systems: int,
) -> bool {
    systems <= 1 && state.merge_base@ == merge_base && state.pr_head_sha@ == pr_head_sha
        && state.system@ == local
}

/// Tells whether a saved state can be taken up.
pub fn saved_state_is_valid(
    state: &RunState,
    merge_base: &str,
    pr_head_sha: &str,
    local: &str,
    systems: usize,
) -> (yes: bool)
    ensures
        yes == can_resume(*state, merge_base@, pr_head_sha@, local@, systems as int),
{
    systems <= 1 && same_text(state.merge_base.as_str(), merge_base) && same_text(
        state.pr_head_sha.as_str(),
        pr_head_sha,
    ) && same_text(state.system.as_str(), local)
}

/// A state is taken up only for one system, and only if the merge base, the head and
/// the system are still those that it was saved for; and then it is.
pub proof fn law_only_same_run_is_taken_up(
    state: RunState,
    merge_base: Seq<char>,
    pr_head_sha: Seq<char>,
    local: Seq<char>,
    systems: int,
)
    ensures
        systems > 1 ==> !can_resume(state, merge_base, pr_head_sha, local, systems),
        state.merge_base@ != merge_base ==> !can_resume(
            state,
            merge_base,
            pr_head_sha,
            local,
            systems,
        ),
        state.pr_head_sha@ != pr_head_sha ==> !can_resume(
            state,
            merge_base,
            pr_head_sha,
            local,
            systems,
        ),
        state.system@ != local ==> !can_resume(state, merge_base, pr_head_sha, local, systems),
        systems <= 1 ==> can_resume(
            state,
            state.merge_base@,
            state.pr_head_sha@,
            state.system@,
            systems,
        ),
{
}

// ---------------------------------------------------------------------------
// Taking a run up again

/// Turns kept packages into packages to build.
pub fn packages_from_state(kept: &Vec<ChangedPackageSer>) -> (out: Vec<ChangedPackage>)
    ensures
        changed_texts(out@) == kept_texts(kept@),
        forall|i: int|
            0 <= i < out@.len() ==> (#[trigger] out@[i]).intermediate_drv_paths@.len() == 0,
{
    let n: usize = kept.len();
    let mut out: Vec<ChangedPackage> = Vec::new();
    for i in 0..n
        invariant
            n == kept@.len(),
            changed_texts(out@) == kept_texts(kept@).take(i as int),
            forall|k: int|
                0 <= k < out@.len() ==> (#[trigger] out@[k]).intermediate_drv_paths@.len() == 0,
    {
        let package = ChangedPackage {
            attr: kept[i].attr.clone(),
            changed_intermediates: copy_texts(&kept[i].changed_intermediates),
            intermediate_drv_paths: AttrMap::new(),
            final_drv_changed: kept[i].final_drv_changed,
        };
        let ghost before = changed_texts(out@);
        let ghost here = kept_texts(kept@)[i as int];
        assert(package@ == here);
        out.push(package);
        assert(changed_texts(out@) == before.push(here));
        assert(kept_texts(kept@).take(i + 1) == before.push(here));
    }
    out
}

/// A kept result as it is taken up: one that names no system is of the system that the
/// run was for.
pub open spec fn taken_up(r: ResultText, system: Seq<char>) -> ResultText {
    ResultText {
        system: if r.system.len() == 0 {
            system
        } else {
            r.system
        },
        ..r
    }
}

/// The results of a kept run as they are taken up.
pub open spec fn kept_results(state: RunState) -> Seq<ResultText> {
    result_texts(state.completed_results@).map_values(|r: ResultText| taken_up(r, state.system@))
}

/// Takes up the results of a kept run.
pub fn results_from_state(state: &RunState) -> (out: Vec<FullEvalBuildResult>)
    ensures
        result_texts(out@) == kept_results(*state),
{
    let n: usize = state.completed_results.len();
    let ghost all = kept_results(*state);
    let mut out: Vec<FullEvalBuildResult> = Vec::new();
    for i in 0..n
        invariant
            n == state.completed_results@.len(),
            all == kept_results(*state),
            result_texts(out@) == all.take(i as int),
    {
        let mut result = copy_result(&state.completed_results[i]);
        if result.system.as_str().is_empty() {
            result.system = state.system.clone();
        }
        let ghost before = result_texts(out@);
        assert(result@ == taken_up(state.completed_results@[i as int]@, state.system@));
        assert(result@ == all[i as int]);
        out.push(result);
        assert(result_texts(out@) == before.push(all[i as int]));
        assert(all.take(i + 1) == before.push(all[i as int]));
    }
    assert(all.take(n as int) == all);
    out
}

/// Every kept result is taken up, in its place. It says what it said, and it names a
/// system: its own, or that of the run where it names none.
pub proof fn law_kept_results_taken_up(state: RunState, k: int)
    requires
        0 <= k < state.completed_results@.len(),
    ensures
        kept_results(state).len() == state.completed_results@.len(),
        kept_results(state)[k].attr == state.completed_results@[k].attr@,
        kept_results(state)[k].steps == step_texts(
            state.completed_results@[k].intermediate_results@,
        ),
        kept_results(state)[k].success == state.completed_results@[k].package_success,
        kept_results(state)[k].logs == state.completed_results@[k].package_logs@,
        kept_results(state)[k].false_positive == state.completed_results@[k].is_false_positive,
        kept_results(state)[k].non_deterministic
            == state.completed_results@[k].is_non_deterministic,
        kept_results(state)[k].on_base == state.completed_results@[k].exists_on_base,
        state.completed_results@[k].system@ != Seq::<char>::empty() ==> kept_results(
            state,
        )[k].system == state.completed_results@[k].system@,
        state.completed_results@[k].system@ == Seq::<char>::empty() ==> kept_results(
            state,
        )[k].system == state.system@,
{
    let kept = state.completed_results@[k];
    assert(result_texts(state.completed_results@)[k] == kept@);
    if kept.system@.len() == 0 {
        assert(kept.system@ == Seq::<char>::empty());
    }
}

/// Turns packages to build into packages that can be kept.
pub fn packages_for_state(packages: &Vec<ChangedPackage>) -> (out: Vec<ChangedPackageSer>)
    ensures
        kept_texts(out@) == changed_texts(packages@),
{
    let n: usize = packages.len();
    let mut out: Vec<ChangedPackageSer> = Vec::new();
    for i in 0..n
        invariant
            n == packages@.len(),
            kept_texts(out@) == changed_texts(packages@).take(i as int),
    {
        let package = ChangedPackageSer {
            attr: packages[i].attr.clone(),
            changed_intermediates: copy_texts(&packages[i].changed_intermediates),
            final_drv_changed: packages[i].final_drv_changed,
        };
        let ghost before = kept_texts(out@);
        let ghost here = changed_texts(packages@)[i as int];
        assert(package@ == here);
        out.push(package);
        assert(kept_texts(out@) == before.push(here));
        assert(changed_texts(packages@).take(i + 1) == before.push(here));
    }
    out
}

/// Packages that were kept and taken up again say what they said.
pub proof fn law_kept_packages_come_back(
    packages: Seq<ChangedPackage>,
    kept: Seq<ChangedPackageSer>,
    again: Seq<ChangedPackage>,
)
    requires
        kept_texts(kept) == changed_texts(packages),
        changed_texts(again) == kept_texts(kept),
    ensures
        changed_texts(again) == changed_texts(packages),
{
}

/// Whether a package is among the results.
pub open spec fn is_completed(results: Seq<ResultText>, attr: Seq<char>) -> bool {
    exists|i: int| 0 <= i < results.len() && (#[trigger] results[i]).attr == attr
}

fn completed(results: &Vec<FullEvalBuildResult>, attr: &str) -> (yes: bool)
    ensures
        yes == is_completed(result_texts(results@), attr@),
{
    let n: usize = results.len();
    for i in 0..n
        invariant
            n == results@.len(),
            forall|k: int|
                0 <= k < i ==> (#[trigger] result_texts(results@)[k]).attr != attr@,
    {
        assert(result_texts(results@)[i as int].attr == results@[i as int].attr@);
        if same_text(results[i].attr.as_str(), attr) {
            return true;
        }
    }
    false
}

/// The packages that are still to be built.
pub open spec fn remaining(packages: Seq<Change>, completed: Seq<ResultText>) -> Seq<Change> {
    packages.filter(|p: Change| !is_completed(completed, p.package.attr))
}

/// Lists the packages that are still to be built.
pub fn remaining_packages(
    packages: &Vec<ChangedPackage>,
    done: &Vec<FullEvalBuildResult>,
) -> (out: Vec<ChangedPackage>)
    ensures
        changes_of(out@) == remaining(changes_of(packages@), result_texts(done@)),
{
    let n: usize = packages.len();
    let ghost all = changes_of(packages@);
    let ghost finished = result_texts(done@);
    let mut out: Vec<ChangedPackage> = Vec::new();
    proof {
        reveal(Seq::filter);
        assert(changes_of(out@) == remaining(all.take(0), finished));
    }
    for i in 0..n
        invariant
            n == packages@.len(),
            all == changes_of(packages@),
            finished == result_texts(done@),
            changes_of(out@) == remaining(all.take(i as int), finished),
    {
        proof {
            reveal(Seq::filter);
            assert(all.take(i + 1).drop_last() == all.take(i as int));
            assert(all.take(i + 1).last() == change_of(packages@[i as int]));
        }
        if !completed(done, packages[i].attr.as_str()) {
            let package = copy_changed(&packages[i]);
            let ghost before = changes_of(out@);
            let ghost here = change_of(package);
            assert(here == change_of(packages@[i as int]));
            out.push(package);
            assert(changes_of(out@) == before.push(here));
        }
    }
    assert(all.take(n as int) == all);
    out
}

/// Copies a changed package.
pub fn copy_changed(package: &ChangedPackage) -> (out: ChangedPackage)
    ensures
        out@ == package@,
        path_texts(out.intermediate_drv_paths@) == path_texts(package.intermediate_drv_paths@),
{
    ChangedPackage {
        attr: package.attr.clone(),
        changed_intermediates: copy_texts(&package.changed_intermediates),
        intermediate_drv_paths: copy_paths(&package.intermediate_drv_paths),
        final_drv_changed: package.final_drv_changed,
    }
}

fn copy_paths(map: &AttrMap<String>) -> (out: AttrMap<String>)
    ensures
        path_texts(out@) == path_texts(map@),
{
    map.names_are_distinct();
    let n: usize = map.len();
    let mut out: AttrMap<String> = AttrMap::new();
    for i in 0..n
        invariant
            n == map@.len(),
            distinct_names(map@),
            out@.len() == i,
            path_texts(out@) == path_texts(map@).take(i as int),
    {
        let name = map.key_at(i);
        let value = map.value_at(i).clone();
        let ghost before = out@;
        let ghost pair = (name@, value);
        proof {
            lemma_place_from(out@, name@, 0);
            if place_of(out@, name@) is Some {
                let k = place_of(out@, name@)->0;
                assert(path_texts(out@)[k].0 == name@);
                assert(path_texts(map@).take(i as int)[k].0 == map@[k].0);
                assert(map@[k].0 == map@[i as int].0);
                assert(false);
            }
        }
        out.insert(name.clone(), value);
        assert(out@ == before.push(pair));
        let ghost here = path_texts(map@)[i as int];
        assert(path_texts(out@) == path_texts(before).push(here));
        assert(path_texts(map@).take(i + 1) == path_texts(map@).take(i as int).push(here));
    }
    assert(path_texts(map@).take(n as int) == path_texts(map@));
    out
}

/// A package that is done is not built again; one that is not is.
pub proof fn law_remaining(packages: Seq<Change>, completed: Seq<ResultText>, p: Change)
    ensures
        remaining(packages, completed).contains(p) == (packages.contains(p) && !is_completed(
            completed,
            p.package.attr,
        )),
    decreases packages.len(),
{
    reveal(Seq::filter);
    if packages.len() > 0 {
        let front = packages.drop_last();
        law_remaining(front, completed, p);
        let last = packages.last();
        assert(packages == front.push(last));
        assert(packages.contains(p) == (front.contains(p) || p == last)) by {
            if front.contains(p) {
                let k = choose|k: int| 0 <= k < front.len() && front[k] == p;
                assert(packages[k] == p);
            }
            assert(packages[front.len() as int] == last);
        }
        if !is_completed(completed, last.package.attr) {
            let kept = remaining(front, completed);
            let all = remaining(packages, completed);
            assert(all == kept.push(last));
            if kept.contains(p) {
                let k = choose|k: int| 0 <= k < kept.len() && kept[k] == p;
                assert(all[k] == p);
            }
            assert(all[kept.len() as int] == last);
        }
    }
}

/// A package remains to be built exactly where no result is there for it, whatever the
/// results say; what remains keeps its order.
pub proof fn law_undone_remains(packages: Seq<Change>, done: Seq<ResultText>, i: int)
    requires
        0 <= i < packages.len(),
    ensures
        (forall|k: int|
            0 <= k < done.len() ==> (#[trigger] done[k]).attr != packages[i].package.attr)
            ==> remaining(packages, done).contains(packages[i]),
        (exists|k: int|
            0 <= k < done.len() && (#[trigger] done[k]).attr == packages[i].package.attr)
            ==> !remaining(packages, done).contains(packages[i]),
        remaining(packages, done).len() <= packages.len(),
        remaining(packages, done) == packages.filter(
            |p: Change|
                forall|k: int|
                    0 <= k < done.len() ==> (#[trigger] done[k]).attr != p.package.attr,
        ),
{
    law_remaining(packages, done, packages[i]);
    assert(packages.contains(packages[i]));
    packages.lemma_filter_len(|p: Change| !is_completed(done, p.package.attr));
    let one = |p: Change| !is_completed(done, p.package.attr);
    let two = |p: Change|
        forall|k: int| 0 <= k < done.len() ==> (#[trigger] done[k]).attr != p.package.attr;
    assert forall|p: Change| #[trigger] one(p) == two(p) by {}
    assert(one =~= two);
}

/// What remains of two parts is what remains of each.
pub proof fn law_remaining_of_parts(one: Seq<Change>, two: Seq<Change>, done: Seq<ResultText>)
    ensures
        remaining(one + two, done) == remaining(one, done) + remaining(two, done),
{
    Seq::filter_distributes_over_add(
        one,
        two,
        |p: Change| !is_completed(done, p.package.attr),
    );
}

/// With nothing done, everything remains.
pub proof fn law_fresh_run_builds_all(packages: Seq<Change>)
    ensures
        remaining(packages, Seq::empty()) == packages,
    decreases packages.len(),
{
    reveal(Seq::filter);
    if packages.len() > 0 {
        law_fresh_run_builds_all(packages.drop_last());
        assert(!is_completed(Seq::empty(), packages.last().package.attr));
        assert(packages == packages.drop_last().push(packages.last()));
    } else {
        assert(remaining(packages, Seq::empty()) == packages);
    }
}

// ---------------------------------------------------------------------------
// Jobs

/// The builder and the number of jobs for a system: the local system builds with
/// the jobs asked for, another on the remote builder with its own.
pub fn system_jobs(
    system: &str,
    local: &str,
    build_jobs: usize,
    remote: Option<&RemoteBuilderConfig>,
) -> (out: (Option<String>, usize))
    ensures
        system@ == local@ ==> out.0 is None && out.1 == build_jobs,
        system@ != local@ ==> match remote {
            Some(rc) => opt_text(out.0) == Some(
                builders_arg(rc.ssh_target@, rc.system@, rc.max_jobs as nat),
            ) && out.1 == rc.max_jobs,
            None => out.0 is None && out.1 == build_jobs,
        },
{
    if same_text(system, local) {
        (None, build_jobs)
    } else {
        match remote {
            Some(rc) => (Some(rc.to_builders_arg()), rc.max_jobs),
            None => (None, build_jobs),
        }
    }
}

// ---------------------------------------------------------------------------
// Ends

/// Whether a package was built for a system.
pub open spec fn built_for(
    results: Seq<FullEvalBuildResult>,
    system: Seq<char>,
    attr: Seq<char>,
) -> bool {
    exists|i: int|
        0 <= i < results.len() && (#[trigger] results[i]).system@ == system && results[i].attr@
            == attr && results[i].package_success
}

/// Whether every package that changed for a system was built for it.
pub open spec fn all_changes_built(
    systems: Seq<String>,
    changed: Seq<Vec<ChangedPackage>>,
    results: Seq<FullEvalBuildResult>,
) -> bool {
    forall|s: int, k: int|
        0 <= s < changed.len() && 0 <= k < changed[s]@.len() ==> built_for(
            results,
            systems[s]@,
            (#[trigger] changed[s]@[k]).attr@,
        )
}

fn is_built_for(results: &Vec<FullEvalBuildResult>, system: &str, attr: &str) -> (yes: bool)
    ensures
        yes == built_for(results@, system@, attr@),
{
    let n: usize = results.len();
    for i in 0..n
        invariant
            n == results@.len(),
            forall|k: int|
                0 <= k < i ==> !((#[trigger] results@[k]).system@ == system@ && results@[k].attr@
                    == attr@ && results@[k].package_success),
    {
        if results[i].package_success && same_text(results[i].system.as_str(), system)
            && same_text(results[i].attr.as_str(), attr) {
            return true;
        }
    }
    false
}

/// Tells whether every package that changed was built, for every system: each has a
/// result of its own, and it is a success.
pub fn every_change_built(
    systems: &Vec<String>,
    changed: &Vec<Vec<ChangedPackage>>,
    results: &Vec<FullEvalBuildResult>,
) -> (yes: bool)
    requires
        systems@.len() == changed@.len(),
    ensures
        yes == all_changes_built(systems@, changed@, results@),
{
    let n: usize = changed.len();
    for s in 0..n
        invariant
            n == changed@.len(),
            systems@.len() == changed@.len(),
            forall|t: int, k: int|
                0 <= t < s && 0 <= k < changed@[t]@.len() ==> built_for(
                    results@,
                    systems@[t]@,
                    (#[trigger] changed@[t]@[k]).attr@,
                ),
    {
        let m: usize = changed[s].len();
        for k in 0..m
            invariant
                s < n,
                n == changed@.len(),
                m == changed@[s as int]@.len(),
                systems@.len() == changed@.len(),
                forall|j: int|
                    0 <= j < k ==> built_for(
                        results@,
                        systems@[s as int]@,
                        (#[trigger] changed@[s as int]@[j]).attr@,
                    ),
        {
            if !is_built_for(results, systems[s].as_str(), changed[s][k].attr.as_str()) {
                assert(!built_for(
                    results@,
                    systems@[s as int]@,
                    changed@[s as int]@[k as int].attr@,
                ));
                return false;
            }
        }
    }
    true
}

/// A changed package whose only result for its system is no success keeps the answer
/// from being yes, also where its failure is there on the base branch too.
pub proof fn law_failed_change_shows(
    systems: Seq<String>,
    changed: Seq<Vec<ChangedPackage>>,
    results: Seq<FullEvalBuildResult>,
    s: int,
    k: int,
)
    requires
        0 <= s < changed.len(),
        0 <= k < changed[s]@.len(),
        forall|i: int|
            0 <= i < results.len() && (#[trigger] results[i]).system@ == systems[s]@
                && results[i].attr@ == changed[s]@[k].attr@ ==> !results[i].package_success,
    ensures
        !all_changes_built(systems, changed, results),
{
    assert(!built_for(results, systems[s]@, changed[s]@[k].attr@));
}

/// Where everything was built, each package that changed for a system has a result of
/// that system and that package which is a success.
pub proof fn law_built_means_a_success_each(
    systems: Seq<String>,
    changed: Seq<Vec<ChangedPackage>>,
    results: Seq<FullEvalBuildResult>,
    s: int,
    k: int,
)
    requires
        all_changes_built(systems, changed, results),
        0 <= s < changed.len(),
        0 <= k < changed[s]@.len(),
    ensures
        exists|i: int|
            0 <= i < results.len() && (#[trigger] results[i]).system@ == systems[s]@
                && results[i].attr@ == changed[s]@[k].attr@ && results[i].package_success,
{
    assert(built_for(results, systems[s]@, changed[s]@[k].attr@));
}

/// Where not everything was built, some package that changed for a system has no such
/// result.
pub proof fn law_not_built_means_one_without(
    systems: Seq<String>,
    changed: Seq<Vec<ChangedPackage>>,
    results: Seq<FullEvalBuildResult>,
)
    requires
        !all_changes_built(systems, changed, results),
    ensures
        exists|s: int, k: int|
            0 <= s < changed.len() && 0 <= k < (#[trigger] changed[s])@.len() && (forall|i: int|
                0 <= i < results.len() && (#[trigger] results[i]).system@ == systems[s]@
                    && results[i].attr@ == (#[trigger] changed[s]@[k]).attr@
                    ==> !results[i].package_success),
{
    let (s, k) = choose|s: int, k: int|
        0 <= s < changed.len() && 0 <= k < changed[s]@.len() && !built_for(
            results,
            systems[s]@,
            (#[trigger] changed[s]@[k]).attr@,
        );
    assert(0 <= k < changed[s]@.len());
    let p = changed[s]@[k];
    assert forall|i: int|
        0 <= i < results.len() && (#[trigger] results[i]).system@ == systems[s]@
            && results[i].attr@ == p.attr@ implies !results[i].package_success by {}
}

/// A package that a kept run built counts as built where the run is taken up for its
/// system, also where the kept result names no system.
pub proof fn law_kept_success_counts(
    state: RunState,
    taken: Seq<FullEvalBuildResult>,
    k: int,
)
    requires
        result_texts(taken) == kept_results(state),
        0 <= k < state.completed_results@.len(),
        state.completed_results@[k].package_success,
        state.completed_results@[k].system@.len() == 0 || state.completed_results@[k].system@
            == state.system@,
    ensures
        built_for(taken, state.system@, state.completed_results@[k].attr@),
{
    let kept = state.completed_results@[k];
    assert(result_texts(state.completed_results@)[k] == kept@);
    assert(kept_results(state)[k] == taken_up(kept@, state.system@));
    assert(taken.len() == kept_results(state).len()) by {
        assert(result_texts(taken).len() == taken.len());
    }
    assert(result_texts(taken)[k] == taken[k]@);
    assert(taken[k].system@ == state.system@ && taken[k].attr@ == kept.attr@);
    assert(taken[k].package_success);
}

/// Where nothing changed there is nothing that was not built.
pub proof fn law_nothing_changed_is_built(
    systems: Seq<String>,
    changed: Seq<Vec<ChangedPackage>>,
    results: Seq<FullEvalBuildResult>,
)
    requires
        forall|s: int| 0 <= s < changed.len() ==> (#[trigger] changed[s])@.len() == 0,
    ensures
        all_changes_built(systems, changed, results),
{
}

/// The results of one system.
pub open spec fn of_system(results: Seq<ResultText>, system: Seq<char>) -> Seq<ResultText> {
    results.filter(|r: ResultText| r.system == system)
}

/// Copies the results of one system.
pub fn results_of_system(results: &Vec<FullEvalBuildResult>, system: &str) -> (out: Vec<
    FullEvalBuildResult,
>)
    ensures
        result_texts(out@) == of_system(result_texts(results@), system@),
{
    let n: usize = results.len();
    let ghost all = result_texts(results@);
    let mut out: Vec<FullEvalBuildResult> = Vec::new();
    proof {
        reveal(Seq::filter);
        assert(result_texts(out@) == of_system(all.take(0), system@));
    }
    for i in 0..n
        invariant
            n == results@.len(),
            all == result_texts(results@),
            result_texts(out@) == of_system(all.take(i as int), system@),
    {
        proof {
            reveal(Seq::filter);
            assert(all.take(i + 1).drop_last() == all.take(i as int));
            assert(all.take(i + 1).last() == results@[i as int]@);
        }
        if same_text(results[i].system.as_str(), system) {
            let copy = copy_result(&results[i]);
            let ghost before = result_texts(out@);
            let ghost here = copy@;
            out.push(copy);
            assert(result_texts(out@) == before.push(here));
        }
    }
    assert(all.take(n as int) == all);
    out
}

/// The results of a system are those that name it, all of them and in their order.
pub proof fn law_results_of_system(results: Seq<ResultText>, system: Seq<char>, r: ResultText)
    ensures
        of_system(results, system).contains(r) <==> results.contains(r) && r.system == system,
        of_system(results, system) == results.filter(|q: ResultText| q.system == system),
{
    let keep = |q: ResultText| q.system == system;
    if results.contains(r) && r.system == system {
        let i = choose|i: int| 0 <= i < results.len() && results[i] == r;
        results.lemma_filter_contains(keep, i);
    }
    if of_system(results, system).contains(r) {
        results.lemma_filter_contains_rev(keep, r);
        let list = of_system(results, system);
        let k = choose|k: int| 0 <= k < list.len() && list[k] == r;
        results.lemma_filter_pred(keep, k);
    }
}

/// Makes the state that is kept of a run: all packages of the local system, and its
/// results.
pub fn make_run_state(
    pr_num: u64,
    merge_base: &str,
    pr_head_sha: &str,
    local: &str,
    cli_command: &str,
    packages: &Vec<ChangedPackage>,
    results: &Vec<FullEvalBuildResult>,
) -> (state: RunState)
    ensures
        state.pr_num == pr_num,
        state.merge_base@ == merge_base@,
        state.pr_head_sha@ == pr_head_sha@,
        state.system@ == local@,
        state.cli_command@ == cli_command@,
        kept_texts(state.packages_to_build@) == changed_texts(packages@),
        state.intermediate_results@.len() == 0,
        result_texts(state.completed_results@) == of_system(result_texts(results@), local@),
        !state.intermediates_posted,
        can_resume(state, merge_base@, pr_head_sha@, local@, 1),
{
    RunState {
        pr_num,
        merge_base: merge_base.to_string(),
        pr_head_sha: pr_head_sha.to_string(),
        system: local.to_string(),
        cli_command: cli_command.to_string(),
        packages_to_build: packages_for_state(packages),
        intermediate_results: AttrMap::new(),
        completed_results: results_of_system(results, local),
        intermediates_posted: false,
    }
}

/// The address under which the logs of a run are found.
pub fn make_log_url_base(base: &str, log_dir_name: &str) -> (url: String)
    ensures
        url@ == base@ + "/logs/"@ + log_dir_name@,
{
    base.to_string().concat("/logs/").concat(log_dir_name)
}

/// What is reported where nothing changed.
pub fn no_changes_message(verify_full_drvs: bool) -> (message: String)
    ensures
        message@ == (if verify_full_drvs {
            "No packages with changed intermediates or drvPaths found!"@
        } else {
            "No packages with changed intermediates found!"@
        }),
{
    if verify_full_drvs {
        "No packages with changed intermediates or drvPaths found!".to_string()
    } else {
        "No packages with changed intermediates found!".to_string()
    }
}

/// The comment that is posted where nothing changed.
pub fn no_changes_comment(verify_full_drvs: bool) -> (comment: String)
    ensures
        comment@ == (if verify_full_drvs {
            "## srcbot: Full Evaluation Results\n\nNo packages with changed intermediates or drvPaths detected."@
        } else {
            "## srcbot: Full Evaluation Results\n\nNo packages with changed source intermediates detected."@
        }),
{
    if verify_full_drvs {
        "## srcbot: Full Evaluation Results\n\nNo packages with changed intermediates or drvPaths detected.".to_string()
    } else {
        "## srcbot: Full Evaluation Results\n\nNo packages with changed source intermediates detected.".to_string()
    }
}

} // verus!
