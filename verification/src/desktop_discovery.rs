//! Which executable is the desktop shell of Codex.
//!
//! The shell is `ChatGPT.exe`, or `Codex.exe` in older versions, inside the package
//! `OpenAI.Codex` on Windows, and inside an application bundle on macOS.

use vstd::prelude::*;
use vstd::string::StringExecFns;

use crate::json::{
    json_text, lemma_position_is, parsed_json, push_member, record, views, Json, JsonView,
};
use crate::text::{
    contains, contains_text, ends_with, parse_u32, parsed_u32, pieces, same_text, split,
    starts_with, str_view, string_view, texts, trim, trimmed,
};

verus! {

/// What a command that ended well printed, where it printed anything.
pub open spec fn printed(success: bool, output: Seq<char>) -> Option<Seq<char>> {
    if success && trimmed(output).len() > 0 {
        Some(trimmed(output))
    } else {
        None
    }
}

/// What a command printed, without the whitespace round it; nothing where it failed or printed
/// nothing.
pub fn printed_text(success: bool, output: &str) -> (text: Option<String>)
    ensures
        string_view(text) == printed(success, output@),
{
    if !success {
        return None;
    }
    let text = trim(output);
    if text.as_str().is_empty() {
        None
    } else {
        Some(text)
    }
}

/// The paths that a document lists: the strings of a list, or a single string.
pub open spec fn listed_paths(value: JsonView) -> Seq<Seq<char>> {
    match value {
        JsonView::Array(items) => items.filter_map(|item: JsonView| item.as_text()),
        JsonView::String(path) => seq![path],
        _ => Seq::empty(),
    }
}

/// The paths that a document lists.
pub fn paths_listed(value: &Json) -> (paths: Vec<String>)
    ensures
        texts(paths@) == listed_paths(value@),
{
    let mut paths: Vec<String> = Vec::new();
    assert(texts(paths@) == Seq::<Seq<char>>::empty());
    match value.as_array() {
        Some(items) => {
            let ghost all = views(items@);
            let ghost text = |item: JsonView| item.as_text();
            let mut i: usize = 0;
            assert(texts(paths@) == all.take(0).filter_map(text));
            while i < items.len()
                invariant
                    i <= items@.len(),
                    all == views(items@),
                    text == (|item: JsonView| item.as_text()),
                    texts(paths@) == all.take(i as int).filter_map(text),
                decreases items@.len() - i,
            {
                let ghost before = texts(paths@);
                proof {
                    all.lemma_filter_map_take_succ(text, i as int);
                    assert(all[i as int] == items@[i as int]@);
                }
                if let Some(path) = items[i].as_str() {
                    paths.push(path.to_owned());
                    assert(texts(paths@) == before.push(path@));
                }
                i = i + 1;
                assert(texts(paths@) == all.take(i as int).filter_map(text));
            }
            assert(all.take(all.len() as int) == all);
        },
        None => {
            if let Some(path) = value.as_str() {
                paths.push(path.to_owned());
                assert(texts(paths@) == seq![path@]);
            }
        },
    }
    paths
}

/// The paths that a listing of the packages printed; none where it printed nothing, or no JSON.
pub open spec fn printed_paths(printed: Option<Seq<char>>) -> Seq<Seq<char>> {
    match printed {
        Some(text) => match parsed_json(text) {
            Ok(value) => listed_paths(value),
            Err(_) => Seq::empty(),
        },
        None => Seq::empty(),
    }
}

/// The paths that a text lists; none where it is no JSON.
pub fn discovered_paths(text: &str) -> (paths: Vec<String>)
    ensures
        texts(paths@) == printed_paths(Some(text@)),
{
    match Json::parse(text) {
        Ok(value) => paths_listed(&value),
        Err(_) => {
            let none: Vec<String> = Vec::new();
            assert(texts(none@) == Seq::<Seq<char>>::empty());
            none
        },
    }
}

/// The version that the name of a package holds: of its second part, between the underscores,
/// those pieces between the dots that are numbers.
pub open spec fn package_version(name: Seq<char>) -> Seq<u32> {
    let parts = pieces(name, '_');
    if parts.len() > 1 {
        pieces(parts[1], '.').filter_map(|piece: Seq<char>| parsed_u32(piece))
    } else {
        Seq::empty()
    }
}

/// The numbers among the pieces of a version.
fn version_numbers(version: &str) -> (numbers: Vec<u32>)
    ensures
        numbers@ == pieces(version@, '.').filter_map(|piece: Seq<char>| parsed_u32(piece)),
{
    let parts = split(version, '.');
    let ghost all = pieces(version@, '.');
    let ghost number = |piece: Seq<char>| parsed_u32(piece);
    let mut numbers: Vec<u32> = Vec::new();
    let mut i: usize = 0;
    assert(numbers@ == all.take(0).filter_map(number));
    while i < parts.len()
        invariant
            i <= parts@.len(),
            all == texts(parts@),
            number == (|piece: Seq<char>| parsed_u32(piece)),
            numbers@ == all.take(i as int).filter_map(number),
        decreases parts@.len() - i,
    {
        proof {
            all.lemma_filter_map_take_succ(number, i as int);
            assert(all[i as int] == parts@[i as int]@);
        }
        if let Some(n) = parse_u32(parts[i].as_str()) {
            numbers.push(n);
        }
        i = i + 1;
        assert(numbers@ == all.take(i as int).filter_map(number));
    }
    assert(all.take(all.len() as int) == all);
    numbers
}

/// The version that the name of a package holds.
pub fn version_tuple_from_package_name(package_name: &str) -> (version: Vec<u32>)
    ensures
        version@ == package_version(package_name@),
{
    let parts = split(package_name, '_');
    let ghost all = pieces(package_name@, '_');
    assert(all.len() == parts@.len());
    if parts.len() > 1 {
        assert(all[1] == parts@[1]@);
        version_numbers(parts[1].as_str())
    } else {
        Vec::new()
    }
}

/// Whether the version `a` comes before `b`: at the first place at which they differ it has the
/// smaller number, or it ends.
pub open spec fn earlier(a: Seq<u32>, b: Seq<u32>) -> bool
    decreases a.len(),
{
    if b.len() == 0 {
        false
    } else if a.len() == 0 {
        true
    } else if a[0] == b[0] {
        earlier(a.drop_first(), b.drop_first())
    } else {
        a[0] < b[0]
    }
}

/// Whether the version `a` comes before `b`.
fn is_earlier(a: &Vec<u32>, b: &Vec<u32>) -> (yes: bool)
    ensures
        yes == earlier(a@, b@),
{
    let mut i: usize = 0;
    assert(a@.skip(0) == a@);
    assert(b@.skip(0) == b@);
    while i < a.len() && i < b.len()
        invariant
            i <= a@.len(),
            i <= b@.len(),
            earlier(a@, b@) == earlier(a@.skip(i as int), b@.skip(i as int)),
        decreases a@.len() - i,
    {
        assert(a@.skip(i as int).drop_first() == a@.skip(i + 1));
        assert(b@.skip(i as int).drop_first() == b@.skip(i + 1));
        if a[i] != b[i] {
            return a[i] < b[i];
        }
        i = i + 1;
    }
    i < b.len()
}

/// A version does not come before itself, and of two different ones one comes before the other.
pub proof fn lemma_earlier_total(a: Seq<u32>, b: Seq<u32>)
    ensures
        !earlier(a, a),
        a != b ==> earlier(a, b) != earlier(b, a),
    decreases a.len(),
{
    if a.len() > 0 {
        lemma_earlier_total(a.drop_first(), a.drop_first());
        if b.len() > 0 && a[0] == b[0] {
            lemma_earlier_total(a.drop_first(), b.drop_first());
            if a.drop_first() == b.drop_first() {
                assert(a == seq![a[0]] + a.drop_first());
                assert(b == seq![b[0]] + b.drop_first());
            }
        }
    } else if b.len() == 0 {
        assert(a == b);
    }
}

/// What comes before a version comes before what is not before that.
pub proof fn lemma_earlier_transitive(a: Seq<u32>, b: Seq<u32>, c: Seq<u32>)
    requires
        earlier(a, b),
        !earlier(c, b),
    ensures
        earlier(a, c),
    decreases a.len(),
{
    if a.len() > 0 && c.len() > 0 && a[0] == b[0] && b[0] == c[0] {
        lemma_earlier_transitive(a.drop_first(), b.drop_first(), c.drop_first());
    }
}

/// The first place at which a flag is set.
pub open spec fn first_set(flags: Seq<bool>) -> Option<nat>
    decreases flags.len(),
{
    if flags.len() == 0 {
        None
    } else if flags[0] {
        Some(0)
    } else {
        match first_set(flags.drop_first()) {
            Some(place) => Some(place + 1),
            None => None,
        }
    }
}

/// The view of a place that may be missing.
pub open spec fn place_view(place: Option<usize>) -> Option<nat> {
    match place {
        Some(place) => Some(place as nat),
        None => None,
    }
}

/// The first set flag is set, and none is before it.
pub proof fn lemma_first_set(flags: Seq<bool>)
    ensures
        match first_set(flags) {
            Some(place) => place < flags.len() && flags[place as int] && forall|i: int|
                0 <= i < place ==> !#[trigger] flags[i],
            None => forall|i: int| 0 <= i < flags.len() ==> !#[trigger] flags[i],
        },
    decreases flags.len(),
{
    if flags.len() > 0 && !flags[0] {
        let rest = flags.drop_first();
        lemma_first_set(rest);
        assert forall|i: int| 0 < i < flags.len() implies #[trigger] flags[i] == rest[i - 1] by {}
    }
}

/// A place is that of the first set flag if the flag is set and none is before it.
proof fn lemma_first_set_is(flags: Seq<bool>, place: int)
    requires
        0 <= place < flags.len(),
        flags[place],
        forall|i: int| 0 <= i < place ==> !#[trigger] flags[i],
    ensures
        first_set(flags) == Some(place as nat),
{
    lemma_first_set(flags);
}

/// No flag is the first set one if none is set.
proof fn lemma_first_set_none(flags: Seq<bool>)
    requires
        forall|i: int| 0 <= i < flags.len() ==> !#[trigger] flags[i],
    ensures
        first_set(flags) is None,
{
    lemma_first_set(flags);
}

/// The first place at which a flag is set.
fn first_set_flag(flags: &Vec<bool>) -> (place: Option<usize>)
    ensures
        place_view(place) == first_set(flags@),
{
    let mut i: usize = 0;
    while i < flags.len()
        invariant
            i <= flags@.len(),
            forall|j: int| 0 <= j < i ==> !#[trigger] flags@[j],
        decreases flags@.len() - i,
    {
        if flags[i] {
            proof {
                lemma_first_set_is(flags@, i as int);
            }
            return Some(i);
        }
        i = i + 1;
    }
    proof {
        lemma_first_set_none(flags@);
    }
    None
}

/// Where the desktop shell may be in the directory of a package, the likeliest first.
pub open spec fn package_paths() -> Seq<Seq<char>> {
    seq![r"app\ChatGPT.exe"@, r"app\Codex.exe"@, r"app\resources\Codex.exe"@]
}

/// Where the desktop shell may be in the directory of a package, the likeliest first.
pub fn package_executables() -> (paths: Vec<String>)
    ensures
        texts(paths@) == package_paths(),
{
    let mut paths: Vec<String> = Vec::new();
    paths.push(r"app\ChatGPT.exe".to_owned());
    paths.push(r"app\Codex.exe".to_owned());
    paths.push(r"app\resources\Codex.exe".to_owned());
    assert(texts(paths@) == package_paths());
    paths
}

/// What was found in the directory of the installed packages.
#[derive(Debug)]
pub struct FoundPackage {
    pub name: String,
    pub is_directory: bool,
    /// Of the paths at which the desktop shell may be, whether there is a file.
    pub present: Vec<bool>,
}

impl FoundPackage {
    /// Whether this is a package of Codex that has the desktop shell.
    pub open spec fn has_shell(self) -> bool {
        &&& "OpenAI.Codex"@.is_prefix_of(self.name@)
        &&& self.is_directory
        &&& first_set(self.present@) is Some
    }

    pub open spec fn version(self) -> Seq<u32> {
        package_version(self.name@)
    }
}

/// Whether the package at `i` is the newest that has the desktop shell: no other has a later
/// version, and none behind it has the same.
pub open spec fn is_newest(found: Seq<FoundPackage>, i: int) -> bool {
    &&& 0 <= i < found.len()
    &&& found[i].has_shell()
    &&& forall|j: int|
        0 <= j < i && (#[trigger] found[j]).has_shell() ==> !earlier(
            found[i].version(),
            found[j].version(),
        )
    &&& forall|j: int|
        i < j < found.len() && (#[trigger] found[j]).has_shell() ==> earlier(
            found[j].version(),
            found[i].version(),
        )
}

/// Law: one package at most is the newest.
pub proof fn law_newest_package_is_unique(found: Seq<FoundPackage>, i: int, j: int)
    requires
        is_newest(found, i),
        is_newest(found, j),
    ensures
        i == j,
{
    if i < j {
        assert(found[i].has_shell() && found[j].has_shell());
        lemma_earlier_total(found[i].version(), found[j].version());
    } else if j < i {
        assert(found[i].has_shell() && found[j].has_shell());
        lemma_earlier_total(found[i].version(), found[j].version());
    }
}

/// The place of the newest package that has the desktop shell, and the place of the path at which
/// it has it.
pub fn newest_package(found: &Vec<FoundPackage>) -> (newest: Option<(usize, usize)>)
    ensures
        match newest {
            Some((i, path)) => is_newest(found@, i as int) && first_set(
                found@[i as int].present@,
            ) == Some(path as nat),
            None => forall|i: int| 0 <= i < found@.len() ==> !(#[trigger] found@[i]).has_shell(),
        },
{
    let mut best: Option<(usize, usize)> = None;
    let mut version: Vec<u32> = Vec::new();
    let mut i: usize = 0;
    while i < found.len()
        invariant
            i <= found@.len(),
            match best {
                Some((b, path)) => is_newest(found@.take(i as int), b as int) && first_set(
                    found@[b as int].present@,
                ) == Some(path as nat) && version@ == found@[b as int].version(),
                None => forall|j: int| 0 <= j < i ==> !(#[trigger] found@[j]).has_shell(),
            },
        decreases found@.len() - i,
    {
        let package = &found[i];
        let ghost before = found@.take(i as int);
        let ghost now = found@.take(i + 1);
        assert forall|j: int| 0 <= j < i implies #[trigger] now[j] == before[j] by {}
        let mut better = false;
        if starts_with(package.name.as_str(), "OpenAI.Codex") && package.is_directory {
            if let Some(path) = first_set_flag(&package.present) {
                let this = version_tuple_from_package_name(package.name.as_str());
                better = match best {
                    Some(_) => !is_earlier(&this, &version),
                    None => true,
                };
                if better {
                    proof {
                        if best is Some {
                            let (chosen, _) = best->0;
                            let b = chosen as int;
                            assert forall|j: int|
                                0 <= j < i && (#[trigger] now[j]).has_shell() implies !earlier(
                                this@,
                                now[j].version(),
                            ) by {
                                assert(before[j].has_shell());
                                if earlier(this@, now[j].version()) {
                                    if j < b {
                                        lemma_earlier_transitive(
                                            this@,
                                            now[j].version(),
                                            before[b].version(),
                                        );
                                    } else if j > b {
                                        lemma_earlier_total(
                                            now[j].version(),
                                            before[b].version(),
                                        );
                                        lemma_earlier_transitive(
                                            this@,
                                            now[j].version(),
                                            before[b].version(),
                                        );
                                    }
                                }
                            }
                        } else {
                            assert forall|j: int|
                                0 <= j < i && (#[trigger] now[j]).has_shell() implies !earlier(
                                this@,
                                now[j].version(),
                            ) by {
                                assert(found@[j] == now[j]);
                            }
                        }
                        assert(is_newest(now, i as int));
                    }
                    best = Some((i, path));
                    version = this;
                }
            }
        }
        proof {
            if !better {
                match best {
                    Some((b, path)) => {
                        assert(now[b as int] == before[b as int]);
                        assert forall|j: int|
                            0 <= j < b && (#[trigger] now[j]).has_shell() implies !earlier(
                            now[b as int].version(),
                            now[j].version(),
                        ) by {
                            assert(before[j].has_shell());
                        }
                        assert forall|j: int|
                            b < j < now.len() && (#[trigger] now[j]).has_shell() implies earlier(
                            now[j].version(),
                            now[b as int].version(),
                        ) by {
                            if j < i {
                                assert(before[j].has_shell());
                            }
                        }
                        assert(is_newest(now, b as int));
                    },
                    None => {},
                }
            }
        }
        i = i + 1;
    }
    assert(found@.take(found@.len() as int) == found@);
    best
}

/// The paths whose flag is set.
pub open spec fn flagged(paths: Seq<Seq<char>>, flags: Seq<bool>) -> Seq<Seq<char>>
    decreases paths.len(),
{
    if paths.len() == 0 {
        Seq::empty()
    } else {
        let n = paths.len() - 1;
        let before = flagged(paths.drop_last(), flags);
        if n < flags.len() && flags[n] {
            before.push(paths.last())
        } else {
            before
        }
    }
}

/// The paths whose flag is set.
fn flagged_paths(paths: &Vec<String>, flags: &Vec<bool>) -> (chosen: Vec<String>)
    ensures
        texts(chosen@) == flagged(texts(paths@), flags@),
{
    let ghost all = texts(paths@);
    let mut chosen: Vec<String> = Vec::new();
    let mut i: usize = 0;
    assert(texts(chosen@) == flagged(all.take(0), flags@));
    while i < paths.len()
        invariant
            i <= paths@.len(),
            all == texts(paths@),
            texts(chosen@) == flagged(all.take(i as int), flags@),
        decreases paths@.len() - i,
    {
        let ghost before = texts(chosen@);
        assert(all.take(i + 1).drop_last() == all.take(i as int));
        assert(all.take(i + 1).last() == paths@[i as int]@);
        if i < flags.len() && flags[i] {
            chosen.push(paths[i].clone());
            assert(texts(chosen@) == before.push(paths@[i as int]@));
        }
        i = i + 1;
        assert(texts(chosen@) == flagged(all.take(i as int), flags@));
    }
    assert(all.take(all.len() as int) == all);
    chosen
}

/// What has been learned so far of the installed packages; what has not been looked for is
/// missing.
#[derive(Debug)]
pub struct PackageSearch {
    /// What the listing of the packages printed, if anything.
    pub printed: Option<Option<String>>,
    /// Of the paths that it printed, whether they are there.
    pub present: Option<Vec<bool>>,
    /// What is in the directories of the installed packages.
    pub found: Option<Vec<FoundPackage>>,
}

impl PackageSearch {
    /// The paths that the listing printed and that are there.
    pub open spec fn listed(self) -> Seq<Seq<char>> {
        match (self.printed, self.present) {
            (Some(printed), Some(present)) => flagged(
                printed_paths(string_view(printed)),
                present@,
            ),
            _ => Seq::empty(),
        }
    }
}

/// What is done next to learn which executables the installed packages have.
#[derive(Debug, PartialEq)]
pub enum PackageStep {
    /// Let the packages be listed.
    List,
    /// See whether the paths are there.
    Check(Vec<String>),
    /// Look into the directories of the installed packages.
    Scan,
    /// These were listed.
    Listed(Vec<String>),
    /// Of the packages in the directories this one is the newest, with the shell at this path.
    Newest(usize, usize),
    Nothing,
}

/// What is done next to learn which executables the installed packages have. What is listed and
/// there is taken, and only where nothing is are the directories looked into, for the newest
/// package that has the desktop shell.
pub fn discover_windows_codex_desktop_step(search: &PackageSearch) -> (step: PackageStep)
    ensures
        match step {
            PackageStep::List => search.printed is None,
            PackageStep::Check(paths) => search.printed is Some && search.present is None && texts(
                paths@,
            ) == printed_paths(string_view(search.printed->0)),
            PackageStep::Scan => search.printed is Some && search.present is Some
                && search.listed().len() == 0 && search.found is None,
            PackageStep::Listed(paths) => search.printed is Some && search.present is Some
                && search.listed().len() > 0 && texts(paths@) == search.listed(),
            PackageStep::Newest(i, path) => search.printed is Some && search.present is Some
                && search.listed().len() == 0 && search.found is Some && is_newest(
                search.found->0@,
                i as int,
            ) && first_set(search.found->0@[i as int].present@) == Some(path as nat),
            PackageStep::Nothing => search.printed is Some && search.present is Some
                && search.listed().len() == 0 && search.found is Some && forall|i: int|
                0 <= i < search.found->0@.len() ==> !(#[trigger] search.found->0@[i]).has_shell(),
        },
{
    let paths = match &search.printed {
        None => {
            return PackageStep::List;
        },
        Some(Some(text)) => discovered_paths(text.as_str()),
        Some(None) => {
            let none: Vec<String> = Vec::new();
            assert(texts(none@) == Seq::<Seq<char>>::empty());
            none
        },
    };
    let listed = match &search.present {
        None => {
            return PackageStep::Check(paths);
        },
        Some(present) => flagged_paths(&paths, present),
    };
    assert(texts(listed@) == search.listed());
    assert(texts(listed@).len() == listed@.len());
    if !listed.is_empty() {
        return PackageStep::Listed(listed);
    }
    match &search.found {
        None => PackageStep::Scan,
        Some(found) => match newest_package(found) {
            Some((package, path)) => PackageStep::Newest(package, path),
            None => PackageStep::Nothing,
        },
    }
}

/// Whether a file is the desktop shell on Windows, by its name and its whole path: `Codex.exe`,
/// or `ChatGPT.exe` in a package of Codex.
pub open spec fn is_windows_shell(name: Option<Seq<char>>, path: Seq<char>) -> bool {
    match name {
        Some(name) => name == "Codex.exe"@ || (name == "ChatGPT.exe"@ && contains_text(
            path,
            r"\WindowsApps\OpenAI.Codex"@,
        )),
        None => false,
    }
}

/// Whether a file is the desktop shell on Windows, by its name and its whole path.
pub fn is_windows_codex_desktop_executable(name: Option<&str>, path: &str) -> (yes: bool)
    ensures
        yes == is_windows_shell(str_view(name), path@),
{
    match name {
        Some(name) => same_text(name, "Codex.exe") || (same_text(name, "ChatGPT.exe") && contains(
            path,
            r"\WindowsApps\OpenAI.Codex",
        )),
        None => false,
    }
}

/// Law: the command line tool, whose name is all in small letters, is not taken for the desktop
/// shell, wherever it is.
pub proof fn law_command_line_tool_is_no_shell(path: Seq<char>)
    ensures
        !is_windows_shell(Some("codex.exe"@), path),
{
    reveal_strlit("codex.exe");
    reveal_strlit("Codex.exe");
    reveal_strlit("ChatGPT.exe");
    assert("codex.exe"@[0] != "Codex.exe"@[0]);
    assert("codex.exe"@.len() != "ChatGPT.exe"@.len());
}

/// The path that a remembered record holds.
pub open spec fn recorded_path(value: JsonView) -> Option<Seq<char>> {
    match value.get("path"@) {
        Some(path) => path.as_text(),
        None => None,
    }
}

/// The path that the text of a remembered record holds; none where it holds none. A path that was
/// recorded is given back.
pub fn remembered_path(text: &str) -> (path: Option<String>)
    ensures
        string_view(path) == match parsed_json(text@) {
            Ok(value) => recorded_path(value),
            Err(_) => None,
        },
        forall|recorded: Seq<char>|
            text@ == #[trigger] json_text(record("path"@, recorded)) ==> string_view(path) == Some(
                recorded,
            ),
{
    proof {
        assert forall|recorded: Seq<char>|
            text@ == #[trigger] json_text(record("path"@, recorded)) implies recorded_path(
            record("path"@, recorded),
        ) == Some(recorded) by {
            let members = record("path"@, recorded)->Object_0;
            lemma_position_is(members, "path"@, 0);
        }
    }
    match Json::parse(text) {
        Ok(value) => match value.get_str("path") {
            Some(path) => Some(path.to_owned()),
            None => None,
        },
        Err(_) => None,
    }
}

/// The text of the record that remembers `path`.
pub fn remembered_record(path: &str) -> (text: String)
    ensures
        text@ == json_text(record("path"@, path@)),
{
    let mut members: Vec<(String, Json)> = Vec::new();
    push_member(&mut members, "path", Json::text(path));
    let value = Json::object(members);
    assert(value@->Object_0 == record("path"@, path@)->Object_0);
    value.to_text()
}

/// The directory that the path of a bundle starts from.
#[derive(Debug, Clone, Copy, PartialEq)]
pub enum BundleBase {
    /// The root directory.
    Root,
    /// The home directory.
    Home,
}

/// An application bundle in which the desktop shell may be. Its paths are those from its base.
#[derive(Debug, PartialEq)]
pub struct Bundle {
    pub base: BundleBase,
    pub path: String,
    pub executable: String,
}

/// What a [`Bundle`] stands for.
#[verifier::ext_equal]
pub struct BundleView {
    pub base: BundleBase,
    pub path: Seq<char>,
    pub executable: Seq<char>,
}

impl View for Bundle {
    type V = BundleView;

    open spec fn view(&self) -> BundleView {
        BundleView { base: self.base, path: self.path@, executable: self.executable@ }
    }
}

/// The views of bundles.
pub open spec fn bundle_views(bundles: Seq<Bundle>) -> Seq<BundleView> {
    bundles.map_values(|bundle: Bundle| bundle@)
}

/// The bundle of the application `name` under `base`.
pub open spec fn bundle_in(base: BundleBase, name: Seq<char>) -> BundleView {
    BundleView {
        base,
        path: "Applications/"@ + name + ".app"@,
        executable: "Applications/"@ + name + ".app/Contents/MacOS/"@ + name,
    }
}

/// The bundles in which the desktop shell may be: those for all users, and those of the one user
/// where there is a home directory.
pub open spec fn bundle_candidates(has_home: bool) -> Seq<BundleView> {
    let common = seq![
        bundle_in(BundleBase::Root, "Codex"@),
        bundle_in(BundleBase::Root, "ChatGPT"@),
    ];
    if has_home {
        common + seq![
            bundle_in(BundleBase::Home, "Codex"@),
            bundle_in(BundleBase::Home, "ChatGPT"@),
        ]
    } else {
        common
    }
}

/// The bundle of the application `name` under `base`.
fn make_bundle(base: BundleBase, name: &str) -> (bundle: Bundle)
    ensures
        bundle@ == bundle_in(base, name@),
{
    Bundle {
        base,
        path: "Applications/".to_owned().concat(name).concat(".app"),
        executable: "Applications/".to_owned().concat(name).concat(".app/Contents/MacOS/").concat(
            name,
        ),
    }
}

/// The bundles in which the desktop shell may be.
pub fn macos_codex_common_bundle_candidates(has_home: bool) -> (bundles: Vec<Bundle>)
    ensures
        bundle_views(bundles@) == bundle_candidates(has_home),
{
    let mut bundles: Vec<Bundle> = Vec::new();
    bundles.push(make_bundle(BundleBase::Root, "Codex"));
    bundles.push(make_bundle(BundleBase::Root, "ChatGPT"));
    if has_home {
        bundles.push(make_bundle(BundleBase::Home, "Codex"));
        bundles.push(make_bundle(BundleBase::Home, "ChatGPT"));
    }
    assert(bundle_views(bundles@) == bundle_candidates(has_home));
    bundles
}

/// What was found of a bundle.
#[derive(Debug, Clone, Copy, PartialEq)]
pub enum BundleProbe {
    /// Its executable is not there.
    Missing,
    /// Its executable is there, and does not run.
    Idle,
    /// Its executable runs.
    Running,
    /// Whether its executable runs could not be asked.
    Failed,
}

/// Whether a probe ends the search for the bundle that runs.
pub open spec fn settles(probe: BundleProbe) -> bool {
    probe is Running || probe is Failed
}

/// Of probes, whether they end the search for the bundle that runs.
pub open spec fn settling(probes: Seq<BundleProbe>) -> Seq<bool> {
    probes.map_values(|probe: BundleProbe| settles(probe))
}

/// What is done next to find the bundle that runs.
#[derive(Debug, PartialEq)]
pub enum DetectStep {
    /// Probe the bundle at this place.
    Probe(usize),
    /// The bundle at this place runs, or none is known to.
    Done(Option<usize>),
}

/// What is done next to find the one of `bundles` that runs, where `probes` are those of the
/// first: the first that runs is taken, and none once one could not be asked.
pub open spec fn detect_step(bundles: nat, probes: Seq<BundleProbe>) -> DetectStep {
    match first_set(settling(probes)) {
        Some(place) => if probes[place as int] is Running {
            DetectStep::Done(Some(place as usize))
        } else {
            DetectStep::Done(None)
        },
        None => if probes.len() < bundles {
            DetectStep::Probe(probes.len() as usize)
        } else {
            DetectStep::Done(None)
        },
    }
}

/// What is done next to find the one of `bundles` that runs, where `probes` are those of the
/// first.
pub fn detect_running_step(bundles: &Vec<Bundle>, probes: &Vec<BundleProbe>) -> (step: DetectStep)
    ensures
        step == detect_step(bundles@.len(), probes@),
{
    let ghost flags = settling(probes@);
    let mut i: usize = 0;
    while i < probes.len()
        invariant
            i <= probes@.len(),
            flags == settling(probes@),
            forall|j: int| 0 <= j < i ==> !#[trigger] flags[j],
        decreases probes@.len() - i,
    {
        assert(flags[i as int] == settles(probes@[i as int]));
        match probes[i] {
            BundleProbe::Running => {
                proof {
                    lemma_first_set_is(flags, i as int);
                }
                return DetectStep::Done(Some(i));
            },
            BundleProbe::Failed => {
                proof {
                    lemma_first_set_is(flags, i as int);
                }
                return DetectStep::Done(None);
            },
            _ => {},
        }
        i = i + 1;
    }
    proof {
        lemma_first_set_none(flags);
    }
    if probes.len() < bundles.len() {
        DetectStep::Probe(probes.len())
    } else {
        DetectStep::Done(None)
    }
}

/// How many names have to be dropped from the end of a path to get to the bundle that it is in,
/// where `names` are the names of the path from its end on: all of them where it is in none.
pub open spec fn names_below_bundle(names: Seq<Seq<char>>) -> nat {
    match first_set(names.map_values(|name: Seq<char>| ".app"@.is_suffix_of(name))) {
        Some(place) => place,
        None => names.len(),
    }
}

/// How many names have to be dropped from the end of a path to get to the bundle that it is in.
pub fn steps_to_bundle(names: &Vec<String>) -> (steps: usize)
    ensures
        steps == names_below_bundle(texts(names@)),
{
    let ghost flags = texts(names@).map_values(|name: Seq<char>| ".app"@.is_suffix_of(name));
    let mut i: usize = 0;
    while i < names.len()
        invariant
            i <= names@.len(),
            flags == texts(names@).map_values(|name: Seq<char>| ".app"@.is_suffix_of(name)),
            forall|j: int| 0 <= j < i ==> !#[trigger] flags[j],
        decreases names@.len() - i,
    {
        if ends_with(names[i].as_str(), ".app") {
            assert(flags[i as int]);
            proof {
                lemma_first_set_is(flags, i as int);
            }
            return i;
        }
        assert(!flags[i as int]);
        i = i + 1;
    }
    proof {
        lemma_first_set_none(flags);
    }
    names.len()
}

/// The systems that the search for the desktop shell differs on.
#[derive(Debug, Clone, Copy, PartialEq)]
pub enum Platform {
    Windows,
    MacOs,
    Other,
}

/// An executable that may be the desktop shell.
#[derive(Debug, PartialEq)]
pub struct Executable {
    /// The last name of the path, where it has one.
    pub name: Option<String>,
    pub path: String,
}

impl Executable {
    pub open spec fn is_shell(self) -> bool {
        is_windows_shell(string_view(self.name), self.path@)
    }
}

/// Of executables, whether they are the desktop shell.
pub open spec fn shells(executables: Seq<Executable>) -> Seq<bool> {
    executables.map_values(|executable: Executable| executable.is_shell())
}

/// The place of the first executable that is the desktop shell.
pub fn first_shell(executables: &Vec<Executable>) -> (place: Option<usize>)
    ensures
        place_view(place) == first_set(shells(executables@)),
{
    let ghost flags = shells(executables@);
    let mut i: usize = 0;
    while i < executables.len()
        invariant
            i <= executables@.len(),
            flags == shells(executables@),
            forall|j: int| 0 <= j < i ==> !#[trigger] flags[j],
        decreases executables@.len() - i,
    {
        let executable = &executables[i];
        let name = match &executable.name {
            Some(name) => Some(name.as_str()),
            None => None,
        };
        assert(flags[i as int] == executable.is_shell());
        if is_windows_codex_desktop_executable(name, executable.path.as_str()) {
            proof {
                lemma_first_set_is(flags, i as int);
            }
            return Some(i);
        }
        i = i + 1;
    }
    proof {
        lemma_first_set_none(flags);
    }
    None
}

/// What has been learned so far in the search for the desktop shell; what has not been looked
/// for is missing.
#[derive(Debug)]
pub struct ShellSearch {
    pub platform: Platform,
    /// Whether the shell runs.
    pub running: Option<bool>,
    /// Whether the shell that runs has been remembered.
    pub noted: bool,
    /// Whether a shell is remembered that is still there.
    pub remembered: Option<bool>,
    /// The executables of the installed packages.
    pub discovered: Option<Vec<Executable>>,
    /// The executables of the registry.
    pub registered: Option<Vec<Executable>>,
    /// Of the bundles, whether the executable is there.
    pub bundles: Option<Vec<bool>>,
}

/// Where the desktop shell was found: the one that runs, the remembered one, or the one at a
/// place among those that were looked at.
#[derive(Debug, Clone, Copy, PartialEq)]
pub enum ShellSource {
    Running,
    Remembered,
    Discovered(usize),
    Registered(usize),
    Bundle(usize),
}

/// What is done next in the search for the desktop shell.
#[derive(Debug, Clone, Copy, PartialEq)]
pub enum ShellStep {
    DetectRunning,
    /// Remember the shell that runs.
    Remember,
    ReadRemembered,
    DiscoverPackages,
    ReadRegistry,
    LookForBundles,
    Done(Option<ShellSource>),
}

/// What is done next on Windows, where the shell does not run and is not remembered: the packages
/// come before the registry.
pub open spec fn windows_step(
    discovered: Option<Seq<Executable>>,
    registered: Option<Seq<Executable>>,
) -> ShellStep {
    match discovered {
        None => ShellStep::DiscoverPackages,
        Some(discovered) => match first_set(shells(discovered)) {
            Some(place) => ShellStep::Done(Some(ShellSource::Discovered(place as usize))),
            None => match registered {
                None => ShellStep::ReadRegistry,
                Some(registered) => match first_set(shells(registered)) {
                    Some(place) => ShellStep::Done(Some(ShellSource::Registered(place as usize))),
                    None => ShellStep::Done(None),
                },
            },
        },
    }
}

/// What is done next on macOS, where the shell does not run and is not remembered.
pub open spec fn macos_step(bundles: Option<Seq<bool>>) -> ShellStep {
    match bundles {
        None => ShellStep::LookForBundles,
        Some(bundles) => match first_set(bundles) {
            Some(place) => ShellStep::Done(Some(ShellSource::Bundle(place as usize))),
            None => ShellStep::Done(None),
        },
    }
}

/// The view of executables that may not have been looked for.
pub open spec fn executables_view(executables: Option<Vec<Executable>>) -> Option<
    Seq<Executable>,
> {
    match executables {
        Some(executables) => Some(executables@),
        None => None,
    }
}

/// The view of flags that may be missing.
pub open spec fn flags_view(flags: Option<Vec<bool>>) -> Option<Seq<bool>> {
    match flags {
        Some(flags) => Some(flags@),
        None => None,
    }
}

/// What is done next in the search for the desktop shell. The one that runs comes first, and it
/// is remembered; then comes the remembered one, then what the system has installed.
pub open spec fn shell_step(search: ShellSearch) -> ShellStep {
    match search.running {
        None => ShellStep::DetectRunning,
        Some(true) => if search.noted {
            ShellStep::Done(Some(ShellSource::Running))
        } else {
            ShellStep::Remember
        },
        Some(false) => match search.remembered {
            None => ShellStep::ReadRemembered,
            Some(true) => ShellStep::Done(Some(ShellSource::Remembered)),
            Some(false) => match search.platform {
                Platform::Windows => windows_step(
                    executables_view(search.discovered),
                    executables_view(search.registered),
                ),
                Platform::MacOs => macos_step(flags_view(search.bundles)),
                Platform::Other => ShellStep::Done(None),
            },
        },
    }
}

/// What is done next in the search for the desktop shell.
pub fn resolve_codex_desktop_executable_step(search: &ShellSearch) -> (step: ShellStep)
    ensures
        step == shell_step(*search),
{
    match search.running {
        None => {
            return ShellStep::DetectRunning;
        },
        Some(running) => {
            if running {
                return if search.noted {
                    ShellStep::Done(Some(ShellSource::Running))
                } else {
                    ShellStep::Remember
                };
            }
        },
    }
    match search.remembered {
        None => {
            return ShellStep::ReadRemembered;
        },
        Some(remembered) => {
            if remembered {
                return ShellStep::Done(Some(ShellSource::Remembered));
            }
        },
    }
    match search.platform {
        Platform::Windows => match &search.discovered {
            None => ShellStep::DiscoverPackages,
            Some(discovered) => match first_shell(discovered) {
                Some(place) => ShellStep::Done(Some(ShellSource::Discovered(place))),
                None => match &search.registered {
                    None => ShellStep::ReadRegistry,
                    Some(registered) => match first_shell(registered) {
                        Some(place) => ShellStep::Done(Some(ShellSource::Registered(place))),
                        None => ShellStep::Done(None),
                    },
                },
            },
        },
        Platform::MacOs => match &search.bundles {
            None => ShellStep::LookForBundles,
            Some(bundles) => match first_set_flag(bundles) {
                Some(place) => ShellStep::Done(Some(ShellSource::Bundle(place))),
                None => ShellStep::Done(None),
            },
        },
        Platform::Other => ShellStep::Done(None),
    }
}

/// Law: of the executables that the system has installed, only a desktop shell is taken.
pub proof fn law_only_a_shell_is_taken(search: ShellSearch)
    ensures
        match shell_step(search) {
            ShellStep::Done(Some(ShellSource::Discovered(place))) => search.discovered is Some
                && place < search.discovered->0@.len()
                && search.discovered->0@[place as int].is_shell(),
            ShellStep::Done(Some(ShellSource::Registered(place))) => search.registered is Some
                && place < search.registered->0@.len()
                && search.registered->0@[place as int].is_shell(),
            ShellStep::Done(Some(ShellSource::Bundle(place))) => search.bundles is Some && place
                < search.bundles->0@.len() && search.bundles->0@[place as int],
            _ => true,
        },
{
    if let Some(discovered) = search.discovered {
        lemma_first_set(shells(discovered@));
        assert(discovered@.len() == discovered.len());
    }
    if let Some(registered) = search.registered {
        lemma_first_set(shells(registered@));
        assert(registered@.len() == registered.len());
    }
    if let Some(bundles) = search.bundles {
        lemma_first_set(bundles@);
        assert(bundles@.len() == bundles.len());
    }
}

/// Law: a shell is remembered if and only if it runs and has not been remembered, and the one
/// that runs is taken only once it has been.
pub proof fn law_the_running_shell_is_remembered(search: ShellSearch)
    ensures
        shell_step(search) is Remember <==> search.running == Some(true) && !search.noted,
        shell_step(search) == ShellStep::Done(Some(ShellSource::Running)) <==> search.running
            == Some(true) && search.noted,
{
}

/// Law: nothing that is installed is looked at while the shell runs or one is remembered.
pub proof fn law_running_and_remembered_come_first(search: ShellSearch)
    requires
        search.running == Some(true) || search.remembered == Some(true),
    ensures
        match shell_step(search) {
            ShellStep::DetectRunning => search.running is None,
            ShellStep::Remember => search.running == Some(true),
            ShellStep::Done(Some(ShellSource::Running)) => search.running == Some(true),
            ShellStep::Done(Some(ShellSource::Remembered)) => search.running == Some(false),
            _ => false,
        },
{
}

} // verus!
