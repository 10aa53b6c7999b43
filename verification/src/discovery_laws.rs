//! What the search for the desktop shell promises, said of names, paths and what was found there.

use vstd::prelude::*;

use crate::desktop_discovery::{
    bundle_candidates, detect_step, earlier, first_set, flagged, is_newest, is_windows_shell,
    lemma_earlier_total, lemma_earlier_transitive, lemma_first_set, listed_paths,
    names_below_bundle, package_paths, package_version, printed, printed_paths, recorded_path,
    settling, shell_step, shells, BundleBase, BundleProbe, BundleView, DetectStep, Executable,
    FoundPackage, Platform, ShellSearch, ShellSource, ShellStep,
};
use crate::json::{parsed_json, JsonView};
use crate::text::{joined, parsed_u32, trimmed};
use crate::text_laws::{law_contained_texts, law_joined_texts_are_found_again};

verus! {

/// Law: what a command printed is taken without the whitespace around it, where the command ended
/// well and printed something other than whitespace.
pub proof fn law_what_was_printed(success: bool, output: Seq<char>)
    ensures
        !success ==> printed(success, output) is None,
        trimmed(output).len() == 0 ==> printed(success, output) is None,
        success && trimmed(output).len() > 0 ==> printed(success, output) == Some(trimmed(output)),
{
}

/// Law: the strings of a list are its paths, in their order; a single string is one path; and
/// anything else, or a text that is no document, lists none.
pub proof fn law_paths_are_listed_one_by_one(
    items: Seq<JsonView>,
    item: JsonView,
    value: JsonView,
    text: Seq<char>,
)
    ensures
        item matches JsonView::String(path) ==> listed_paths(JsonView::Array(items.push(item)))
            == listed_paths(JsonView::Array(items)).push(path),
        !(item is String) ==> listed_paths(JsonView::Array(items.push(item))) == listed_paths(
            JsonView::Array(items),
        ),
        listed_paths(JsonView::Array(Seq::empty())) == Seq::<Seq<char>>::empty(),
        value matches JsonView::String(path) ==> listed_paths(value) == seq![path],
        !(value is String) && !(value is Array) ==> listed_paths(value)
            == Seq::<Seq<char>>::empty(),
        printed_paths(None) == Seq::<Seq<char>>::empty(),
        parsed_json(text) is Err ==> printed_paths(Some(text)) == Seq::<Seq<char>>::empty(),
        parsed_json(text) matches Ok(document) ==> printed_paths(Some(text)) == listed_paths(
            document,
        ),
{
    let text_of = |item: JsonView| item.as_text();
    let all = items.push(item);
    all.lemma_filter_map_take_succ(text_of, items.len() as int);
    assert(all.take(items.len() as int) == items);
    assert(all.take(all.len() as int) == all);
}

/// The numbers that stand among pieces.
pub open spec fn numbers_of(parts: Seq<Seq<char>>) -> Seq<u32>
    decreases parts.len(),
{
    if parts.len() == 0 {
        Seq::empty()
    } else {
        match parsed_u32(parts.last()) {
            Some(number) => numbers_of(parts.drop_last()).push(number),
            None => numbers_of(parts.drop_last()),
        }
    }
}

/// The numbers among pieces are taken one by one.
proof fn lemma_numbers(parts: Seq<Seq<char>>)
    ensures
        parts.filter_map(|piece: Seq<char>| parsed_u32(piece)) == numbers_of(parts),
    decreases parts.len(),
{
    let number = |piece: Seq<char>| parsed_u32(piece);
    if parts.len() == 0 {
        assert(parts == Seq::<Seq<char>>::empty());
        assert(parts.filter_map(number) == Seq::<u32>::empty());
    } else {
        let rest = parts.drop_last();
        lemma_numbers(rest);
        parts.lemma_filter_map_take_succ(number, rest.len() as int);
        assert(parts.take(rest.len() as int) == rest);
        assert(parts.take(parts.len() as int) == parts);
    }
}

/// Law: the version of a package stands in its name between the first underscore and the second.
/// It is made of the numbers that stand between the dots there; what is no number is passed over.
pub proof fn law_the_version_stands_in_the_name(
    parts: Seq<Seq<char>>,
    numbers: Seq<Seq<char>>,
)
    requires
        parts.len() > 0,
        forall|i: int| 0 <= i < parts.len() ==> !(#[trigger] parts[i]).contains('_'),
        numbers.len() > 0,
        forall|i: int| 0 <= i < numbers.len() ==> !(#[trigger] numbers[i]).contains('.'),
        parts.len() > 1 ==> parts[1] == joined(numbers, seq!['.']),
    ensures
        parts.len() > 1 ==> package_version(joined(parts, seq!['_'])) == numbers_of(numbers),
        parts.len() == 1 ==> package_version(joined(parts, seq!['_'])) == Seq::<u32>::empty(),
{
    law_joined_texts_are_found_again(parts, '_');
    law_joined_texts_are_found_again(numbers, '.');
    lemma_numbers(numbers);
}

/// Whether two versions are the same up to a place, and the one has the smaller number there or
/// ends.
pub open spec fn falls_behind_at(one: Seq<u32>, other: Seq<u32>, place: int) -> bool {
    &&& 0 <= place < other.len()
    &&& place <= one.len()
    &&& forall|i: int| 0 <= i < place ==> one[i] == other[i]
    &&& place < one.len() ==> one[place] < other[place]
}

/// Law: a version comes before another if and only if it has the smaller number at the first place
/// at which they differ, or ends there.
pub proof fn law_versions_are_ordered(one: Seq<u32>, other: Seq<u32>)
    ensures
        earlier(one, other) <==> exists|place: int| falls_behind_at(one, other, place),
    decreases one.len(),
{
    if one.len() > 0 && other.len() > 0 && one[0] == other[0] {
        let a = one.drop_first();
        let b = other.drop_first();
        law_versions_are_ordered(a, b);
        if earlier(one, other) {
            let place = choose|place: int| falls_behind_at(a, b, place);
            assert forall|i: int| 0 <= i < place + 1 implies one[i] == other[i] by {
                if i > 0 {
                    assert(a[i - 1] == b[i - 1]);
                }
            }
            assert(falls_behind_at(one, other, place + 1));
        }
        if exists|place: int| falls_behind_at(one, other, place) {
            let place = choose|place: int| falls_behind_at(one, other, place);
            assert(place > 0);
            assert forall|i: int| 0 <= i < place - 1 implies a[i] == b[i] by {
                assert(one[i + 1] == other[i + 1]);
            }
            assert(falls_behind_at(a, b, place - 1));
        }
    } else {
        if earlier(one, other) {
            assert(falls_behind_at(one, other, 0));
        }
        if exists|place: int| falls_behind_at(one, other, place) {
            let place = choose|place: int| falls_behind_at(one, other, place);
            if place > 0 {
                assert(one[0] == other[0]);
            }
        }
    }
}

/// Whether what was found is a directory whose name starts as those of the packages of Codex do,
/// with a file at one of the paths at which the shell may be.
pub open spec fn is_codex_package(found: FoundPackage) -> bool {
    &&& "OpenAI.Codex"@.is_prefix_of(found.name@)
    &&& found.is_directory
    &&& exists|path: int| 0 <= path < found.present@.len() && #[trigger] found.present@[path]
}

/// A package has the shell if and only if it is one of Codex and some path is there.
proof fn lemma_has_shell(found: FoundPackage)
    ensures
        found.has_shell() <==> is_codex_package(found),
{
    lemma_first_set(found.present@);
}

/// Law: the newest package is one of Codex with the shell in it. No other such package has a
/// later version, and where one has the same it stands before. Where there is such a package at
/// all, there is a newest.
pub proof fn law_the_newest_package(found: Seq<FoundPackage>, i: int, j: int)
    requires
        0 <= j < found.len(),
        is_codex_package(found[j]),
    ensures
        is_newest(found, i) ==> {
            &&& 0 <= i < found.len()
            &&& is_codex_package(found[i])
            &&& !earlier(package_version(found[i].name@), package_version(found[j].name@))
            &&& package_version(found[i].name@) == package_version(found[j].name@) ==> j <= i
        },
        exists|k: int| is_newest(found, k),
{
    if is_newest(found, i) {
        lemma_has_shell(found[i]);
        lemma_has_shell(found[j]);
        lemma_earlier_total(found[i].version(), found[j].version());
        if j > i {
            assert(found[j].has_shell());
        }
    }
    lemma_has_shell(found[j]);
    let k = lemma_some_newest(found, found.len() as int, j);
    assert(found.take(found.len() as int) == found);
}

/// Of the first packages one is the newest, where one of them has the shell.
proof fn lemma_some_newest(found: Seq<FoundPackage>, n: int, j: int) -> (k: int)
    requires
        0 <= j < n <= found.len(),
        found[j].has_shell(),
    ensures
        is_newest(found.take(n), k),
    decreases n,
{
    let now = found.take(n);
    let last = n - 1;
    let before = found.take(last);
    if exists|i: int| 0 <= i < last && (#[trigger] found[i]).has_shell() {
        let i = choose|i: int| 0 <= i < last && (#[trigger] found[i]).has_shell();
        let b = lemma_some_newest(found, last, i);
        let best = found[b].version();
        assert(before[b] == found[b]);
        assert forall|i: int| 0 <= i < last && (#[trigger] now[i]).has_shell() implies !earlier(
            best,
            now[i].version(),
        ) by {
            assert(before[i].has_shell());
            if i > b {
                lemma_earlier_total(now[i].version(), best);
            } else if i == b {
                lemma_earlier_total(best, best);
            }
        }
        if found[last].has_shell() && !earlier(found[last].version(), best) {
            let this = found[last].version();
            assert forall|i: int| 0 <= i < last && (#[trigger] now[i]).has_shell() implies !earlier(
                this,
                now[i].version(),
            ) by {
                if earlier(this, now[i].version()) {
                    lemma_earlier_transitive(this, now[i].version(), best);
                }
            }
            assert(now[last] == found[last]);
            assert(is_newest(now, last));
            last
        } else {
            assert(now[b] == found[b]);
            assert forall|i: int| b < i < now.len() && (#[trigger] now[i]).has_shell() implies earlier(
                now[i].version(),
                now[b].version(),
            ) by {
                if i < last {
                    assert(before[i].has_shell());
                }
            }
            assert(is_newest(now, b));
            b
        }
    } else {
        assert(j == last);
        assert forall|i: int| 0 <= i < last implies !(#[trigger] now[i]).has_shell() by {
            assert(now[i] == found[i]);
        }
        assert(now[last] == found[last]);
        assert(is_newest(now, last));
        last
    }
}

/// Law: in a package the shell is looked for as `ChatGPT.exe`, then as `Codex.exe`, then as the
/// `Codex.exe` among the resources; and the first flag that is set is the first with none set
/// before it.
pub proof fn law_where_the_shell_is_in_a_package(flags: Seq<bool>, place: nat)
    ensures
        package_paths() == seq![
            r"app\ChatGPT.exe"@,
            r"app\Codex.exe"@,
            r"app\resources\Codex.exe"@,
        ],
        first_set(flags) == Some(place) <==> place < flags.len() && flags[place as int] && forall|
            i: int,
        |
            0 <= i < place ==> !#[trigger] flags[i],
        first_set(flags) is None <==> forall|i: int| 0 <= i < flags.len() ==> !#[trigger] flags[i],
{
    lemma_first_set(flags);
}

/// Law: of paths those are taken, in their order, whose flag is set; a missing flag is not set.
pub proof fn law_paths_are_taken_by_their_flags(
    paths: Seq<Seq<char>>,
    path: Seq<char>,
    flags: Seq<bool>,
)
    ensures
        flagged(Seq::empty(), flags) == Seq::<Seq<char>>::empty(),
        paths.len() < flags.len() && flags[paths.len() as int] ==> flagged(paths.push(path), flags)
            == flagged(paths, flags).push(path),
        !(paths.len() < flags.len() && flags[paths.len() as int]) ==> flagged(
            paths.push(path),
            flags,
        ) == flagged(paths, flags),
{
    assert(paths.push(path).drop_last() == paths);
}

/// Law: on Windows the shell is known by its name `Codex.exe`, wherever it is, and by its name
/// `ChatGPT.exe` where its path goes through a package of Codex; and by nothing else.
pub proof fn law_how_the_shell_is_known(name: Option<Seq<char>>, path: Seq<char>)
    ensures
        is_windows_shell(name, path) <==> name == Some("Codex.exe"@) || (name == Some(
            "ChatGPT.exe"@,
        ) && exists|before: Seq<char>, behind: Seq<char>|
            path == #[trigger] (before + r"\WindowsApps\OpenAI.Codex"@ + behind)),
{
    law_contained_texts(path, r"\WindowsApps\OpenAI.Codex"@);
}

/// Law: the path of a record is the string under `path`, and nothing else is.
pub proof fn law_the_path_of_a_record(value: JsonView, path: Seq<char>)
    ensures
        recorded_path(value) == Some(path) <==> value.get("path"@) == Some(JsonView::String(path)),
{
}

/// Law: on macOS the shell is looked for in the bundles of Codex and of ChatGPT that are for all
/// users, and then, where there is a home directory, in those of the user.
pub proof fn law_where_the_bundles_are()
    ensures
        bundle_candidates(false) == seq![
            (BundleView {
                base: BundleBase::Root,
                path: "Applications/"@ + "Codex"@ + ".app"@,
                executable: "Applications/"@ + "Codex"@ + ".app/Contents/MacOS/"@ + "Codex"@,
            }),
            (BundleView {
                base: BundleBase::Root,
                path: "Applications/"@ + "ChatGPT"@ + ".app"@,
                executable: "Applications/"@ + "ChatGPT"@ + ".app/Contents/MacOS/"@ + "ChatGPT"@,
            }),
        ],
        bundle_candidates(true) == bundle_candidates(false) + seq![
            (BundleView {
                base: BundleBase::Home,
                path: "Applications/"@ + "Codex"@ + ".app"@,
                executable: "Applications/"@ + "Codex"@ + ".app/Contents/MacOS/"@ + "Codex"@,
            }),
            (BundleView {
                base: BundleBase::Home,
                path: "Applications/"@ + "ChatGPT"@ + ".app"@,
                executable: "Applications/"@ + "ChatGPT"@ + ".app/Contents/MacOS/"@ + "ChatGPT"@,
            }),
        ],
{
}

/// Law: bundles are probed in turn until one runs, which is then taken, or until one could not be
/// asked, when none is taken; and where none of them runs none is taken.
pub proof fn law_the_first_running_bundle_is_taken(
    bundles: nat,
    probes: Seq<BundleProbe>,
    place: int,
)
    requires
        bundles <= usize::MAX,
        probes.len() <= usize::MAX,
        forall|i: int|
            0 <= i < place && i < probes.len() ==> !(#[trigger] probes[i] is Running) && !(
            probes[i] is Failed),
    ensures
        0 <= place < probes.len() && probes[place] is Running ==> detect_step(bundles, probes)
            == DetectStep::Done(Some(place as usize)),
        0 <= place < probes.len() && probes[place] is Failed ==> detect_step(bundles, probes)
            == DetectStep::Done(None),
        place >= probes.len() && probes.len() < bundles ==> detect_step(bundles, probes)
            == DetectStep::Probe(probes.len() as usize),
        place >= probes.len() && probes.len() >= bundles ==> detect_step(bundles, probes)
            == DetectStep::Done(None),
{
    let flags = settling(probes);
    lemma_first_set(flags);
    if first_set(flags) is Some {
        let found = first_set(flags)->0 as int;
        assert(flags[found] == (probes[found] is Running || probes[found] is Failed));
        if 0 <= place < found {
            assert(!flags[place]);
        }
    } else if 0 <= place < probes.len() {
        assert(!flags[place]);
    }
}

/// Law: as many names are dropped from the end of a path as stand behind the last that ends in
/// `.app`, and all where none does.
pub proof fn law_the_bundle_of_a_path(names: Seq<Seq<char>>, place: int)
    requires
        0 <= place <= names.len(),
        forall|i: int| 0 <= i < place ==> !".app"@.is_suffix_of(#[trigger] names[i]),
        place < names.len() ==> ".app"@.is_suffix_of(names[place]),
    ensures
        names_below_bundle(names) == place,
{
    let flags = names.map_values(|name: Seq<char>| ".app"@.is_suffix_of(name));
    lemma_first_set(flags);
    if first_set(flags) is Some {
        let found = first_set(flags)->0 as int;
        if found < place {
            assert(!".app"@.is_suffix_of(names[found]));
        }
        if place < found {
            assert(!flags[place]);
        }
    } else if place < names.len() {
        assert(!flags[place]);
    }
}

/// Whether an executable is the shell, by its name and its path.
pub open spec fn is_the_shell(executable: Executable) -> bool {
    match executable.name {
        Some(name) => name@ == "Codex.exe"@ || (name@ == "ChatGPT.exe"@ && exists|
            before: Seq<char>,
            behind: Seq<char>,
        |
            executable.path@ == #[trigger] (before + r"\WindowsApps\OpenAI.Codex"@ + behind)),
        None => false,
    }
}

/// Whether the first of some executables that is the shell stands at a place.
pub open spec fn is_first_shell(executables: Seq<Executable>, place: int) -> bool {
    &&& 0 <= place < executables.len()
    &&& is_the_shell(executables[place])
    &&& forall|i: int| 0 <= i < place ==> !is_the_shell(#[trigger] executables[i])
}

/// Whether none of some executables is the shell.
pub open spec fn has_no_shell(executables: Seq<Executable>) -> bool {
    forall|i: int| 0 <= i < executables.len() ==> !is_the_shell(#[trigger] executables[i])
}

/// The first shell stands where it is said to.
proof fn lemma_first_shell(executables: Seq<Executable>)
    ensures
        forall|place: int| #[trigger]
            is_first_shell(executables, place) ==> first_set(shells(executables)) == Some(
                place as nat,
            ),
        has_no_shell(executables) ==> first_set(shells(executables)) is None,
{
    let flags = shells(executables);
    lemma_first_set(flags);
    assert forall|i: int| 0 <= i < executables.len() implies #[trigger] flags[i] == is_the_shell(
        executables[i],
    ) by {
        law_contained_texts(executables[i].path@, r"\WindowsApps\OpenAI.Codex"@);
    }
    assert forall|place: int| #[trigger] is_first_shell(executables, place) implies first_set(flags)
        == Some(place as nat) by {
        assert(flags[place]);
        if first_set(flags) is Some {
            let found = first_set(flags)->0 as int;
            assert(flags[found]);
            if found < place {
                assert(!is_the_shell(executables[found]));
            }
            if place < found {
                assert(!flags[place]);
            }
        }
    }
    if has_no_shell(executables) && first_set(flags) is Some {
        let found = first_set(flags)->0 as int;
        assert(flags[found]);
    }
}

/// Law: the steps of the search. The shell that runs is remembered and then taken. Else a
/// remembered one is taken. Else, on Windows, the first shell among those of the packages is, and
/// else the first in the registry; on macOS the first bundle that is there; and elsewhere none.
pub proof fn law_how_the_shell_is_found(search: ShellSearch, place: usize)
    ensures
        search.running is None ==> shell_step(search) == ShellStep::DetectRunning,
        search.running == Some(true) && !search.noted ==> shell_step(search)
            == ShellStep::Remember,
        search.running == Some(true) && search.noted ==> shell_step(search) == ShellStep::Done(
            Some(ShellSource::Running),
        ),
        search.running == Some(false) && search.remembered is None ==> shell_step(search)
            == ShellStep::ReadRemembered,
        search.running == Some(false) && search.remembered == Some(true) ==> shell_step(search)
            == ShellStep::Done(Some(ShellSource::Remembered)),
        search.running == Some(false) && search.remembered == Some(false) ==> {
            &&& search.platform is Windows && search.discovered is None ==> shell_step(search)
                == ShellStep::DiscoverPackages
            &&& search.platform is Windows && search.discovered is Some && is_first_shell(
                search.discovered->0@,
                place as int,
            ) ==> shell_step(search) == ShellStep::Done(Some(ShellSource::Discovered(place)))
            &&& search.platform is Windows && search.discovered is Some && has_no_shell(
                search.discovered->0@,
            ) ==> {
                &&& search.registered is None ==> shell_step(search) == ShellStep::ReadRegistry
                &&& search.registered is Some && is_first_shell(
                    search.registered->0@,
                    place as int,
                ) ==> shell_step(search) == ShellStep::Done(Some(ShellSource::Registered(place)))
                &&& search.registered is Some && has_no_shell(search.registered->0@) ==> shell_step(
                    search,
                ) == ShellStep::Done(None)
            }
            &&& search.platform is MacOs && search.bundles is None ==> shell_step(search)
                == ShellStep::LookForBundles
            &&& search.platform is MacOs && search.bundles is Some ==> {
                let flags = search.bundles->0@;
                &&& place < flags.len() && flags[place as int] && (forall|i: int|
                    0 <= i < place ==> !#[trigger] flags[i]) ==> shell_step(search)
                    == ShellStep::Done(Some(ShellSource::Bundle(place)))
                &&& (forall|i: int| 0 <= i < flags.len() ==> !#[trigger] flags[i]) ==> shell_step(
                    search,
                ) == ShellStep::Done(None)
            }
            &&& search.platform is Other ==> shell_step(search) == ShellStep::Done(None)
        },
{
    if let Some(discovered) = search.discovered {
        lemma_first_shell(discovered@);
    }
    if let Some(registered) = search.registered {
        lemma_first_shell(registered@);
    }
    if let Some(bundles) = search.bundles {
        lemma_first_set(bundles@);
    }
}

} // verus!
