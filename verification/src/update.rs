//! Newer releases of the overlay.
use crate::lists::{find, lemma_place_is};
use crate::models::{AppUpdate, Progress};
use crate::text::{
    concat, contains, ends_in, ends_with, is_space, law_pieces_are_whole, law_trim_keeps, lower,
    maybe_text, natural, occurs, occurs_at, parse_natural, same, split, split_on, texts, to_lower, trim, trim_start_char,
    trimmed, unprefixed,
};
use vstd::prelude::*;

verus! {

/// Where the releases are.
pub const GITHUB_REPO: &'static str = "brandonrstone/league-of-legends-counterpicker";

/// What the installer is called where its own name cannot be used.
pub const DEFAULT_INSTALLER: &'static str = "RiftCounterpick-setup.exe";

/// The fewest bytes that an installer can have.
pub const SMALLEST_INSTALLER: usize = 1024;

/// A release.
#[derive(Debug)]
pub struct GithubRelease {
    pub tag_name: String,
    pub assets: Vec<GithubAsset>,
}

/// A file of a release.
#[derive(Debug)]
pub struct GithubAsset {
    pub name: String,
    pub browser_download_url: String,
}

// ------------------------------------------------------------ versions

/// A version without the white space and the `v` before it.
pub open spec fn normalized(raw: Seq<char>) -> Seq<char> {
    unprefixed(unprefixed(trimmed(raw), 'v'), 'V')
}

/// A version without the white space and the `v` before it.
pub fn normalize_version(raw: &str) -> (version: String)
    ensures
        version@ == normalized(raw@),
{
    trim_start_char(&trim_start_char(&trim(raw), 'v'), 'V')
}

/// A part of a version as a number; 0 where the part is missing.
pub open spec fn part_at(parts: Seq<Seq<char>>, i: int) -> Option<nat> {
    if i < parts.len() {
        match natural(parts[i], 10) {
            Some(n) => if n <= u64::MAX {
                Some(n)
            } else {
                None
            },
            None => None,
        }
    } else {
        Some(0)
    }
}

/// The three numbers of a version; further ones are passed over.
pub open spec fn version_of(raw: Seq<char>) -> Option<(nat, nat, nat)> {
    let parts = split_on(normalized(raw), '.');
    match (part_at(parts, 0), part_at(parts, 1), part_at(parts, 2)) {
        (Some(major), Some(minor), Some(patch)) => Some((major, minor, patch)),
        _ => None,
    }
}

fn read_part(parts: &Vec<String>, i: usize) -> (n: Option<u64>)
    ensures
        match n {
            Some(n) => part_at(texts(parts@), i as int) == Some(n as nat),
            None => part_at(texts(parts@), i as int) is None,
        },
{
    assert(texts(parts@).len() == parts@.len());
    if i < parts.len() {
        assert(texts(parts@)[i as int] == parts@[i as int]@);
        parse_natural(&parts[i], 10, u64::MAX)
    } else {
        Some(0)
    }
}

/// The three numbers of a version.
pub fn parse_version(raw: &str) -> (version: Option<(u64, u64, u64)>)
    ensures
        match version {
            Some((a, b, c)) => version_of(raw@) == Some((a as nat, b as nat, c as nat)),
            None => version_of(raw@) is None,
        },
{
    let parts = split(&normalize_version(raw), '.');
    match (read_part(&parts, 0), read_part(&parts, 1), read_part(&parts, 2)) {
        (Some(major), Some(minor), Some(patch)) => Some((major, minor, patch)),
        _ => None,
    }
}

/// The first version is above the second, number by number.
pub open spec fn above(a: (nat, nat, nat), b: (nat, nat, nat)) -> bool {
    a.0 > b.0 || (a.0 == b.0 && (a.1 > b.1 || (a.1 == b.1 && a.2 > b.2)))
}

/// Both are versions and the first is above the second.
pub open spec fn newer(remote: Seq<char>, current: Seq<char>) -> bool {
    match (version_of(remote), version_of(current)) {
        (Some(r), Some(c)) => above(r, c),
        _ => false,
    }
}

/// Whether both are versions and the first is above the second.
pub fn version_is_newer(remote: &str, current: &str) -> (r: bool)
    ensures
        r == newer(remote@, current@),
{
    match (parse_version(remote), parse_version(current)) {
        (Some(r), Some(c)) => r.0 > c.0 || (r.0 == c.0 && (r.1 > c.1 || (r.1 == c.1 && r.2
            > c.2))),
        _ => false,
    }
}

// ------------------------------------------------------------ files

/// The file is a program.
pub open spec fn is_program(name: Seq<char>) -> bool {
    ends_in(lower(name), ".exe"@)
}

/// The file is a program that calls itself a setup.
pub open spec fn is_setup(name: Seq<char>) -> bool {
    is_program(name) && occurs(lower(name), "setup"@)
}

/// The programs among files; only the setups, if so wanted.
pub open spec fn programs(setups_only: bool) -> spec_fn(GithubAsset) -> bool {
    |a: GithubAsset|
        if setups_only {
            is_setup(a.name@)
        } else {
            is_program(a.name@)
        }
}

/// The file to install from: the first setup, else the first program.
pub open spec fn setup_asset(assets: Seq<GithubAsset>) -> Option<GithubAsset> {
    match find(assets, programs(true)) {
        Some(asset) => Some(asset),
        None => find(assets, programs(false)),
    }
}

fn find_program(assets: &Vec<GithubAsset>, setups_only: bool) -> (found: Option<&GithubAsset>)
    ensures
        match found {
            Some(asset) => find(assets@, programs(setups_only)) == Some(*asset),
            None => find(assets@, programs(setups_only)) is None,
        },
{
    let ghost wanted = programs(setups_only);
    for i in 0..assets.len()
        invariant
            wanted == programs(setups_only),
            forall|j: int| 0 <= j < i ==> !wanted(#[trigger] assets@[j]),
    {
        let name = to_lower(&assets[i].name);
        if ends_with(&name, ".exe") && (!setups_only || contains(&name, "setup")) {
            proof {
                lemma_place_is(assets@, wanted, i as int);
            }
            return Some(&assets[i]);
        }
    }
    proof {
        lemma_place_is(assets@, wanted, assets@.len() as int);
    }
    None
}

/// The file to install from.
pub fn pick_setup_asset(assets: &Vec<GithubAsset>) -> (found: Option<&GithubAsset>)
    ensures
        match found {
            Some(asset) => setup_asset(assets@) == Some(*asset),
            None => setup_asset(assets@) is None,
        },
{
    match find_program(assets, true) {
        Some(asset) => Some(asset),
        None => find_program(assets, false),
    }
}

/// The systems that differ in what separates the parts of a path.
pub enum System {
    /// A slash does, and nothing else.
    Slashes,
    /// A slash or a backslash does, and a path may begin with a drive, a server or a
    /// mark that the rest is to be taken to the letter.
    Windows,
}

/// The last of the pieces that is neither empty nor the directory itself.
pub open spec fn last_piece(pieces: Seq<Seq<char>>) -> Option<Seq<char>>
    decreases pieces.len(),
{
    if pieces.len() == 0 {
        None
    } else if pieces.last().len() == 0 || pieces.last() == "."@ {
        last_piece(pieces.drop_last())
    } else {
        Some(pieces.last())
    }
}

/// The last part of a path whose parts are separated by slashes; none where it ends
/// in the directory above, or has no part.
pub open spec fn slash_end(path: Seq<char>) -> Option<Seq<char>> {
    match last_piece(split_on(path, '/')) {
        Some(piece) => if piece == ".."@ {
            None
        } else {
            Some(piece)
        },
        None => None,
    }
}

/// The second character is a colon, as it is behind the letter of a drive.
pub open spec fn has_drive_colon(path: Seq<char>) -> bool {
    path.len() >= 2 && path[1] == ':'
}

/// The path means the same on all systems: it holds no backslash, names no drive and
/// does not begin with two slashes.
pub open spec fn is_plain_path(path: Seq<char>) -> bool {
    !path.contains('\\') && !has_drive_colon(path) && !occurs_at(path, "//"@, 0)
}

/// The path begins as one that Windows takes to the letter.
pub open spec fn is_verbatim(path: Seq<char>) -> bool {
    occurs_at(path, r"\\?\"@, 0)
}

/// What can be said of the last part of a path on Windows: it is part of the path, not
/// empty and not the directory above, holds no backslash, and no slash unless the path
/// is taken to the letter; and in a path that means the same everywhere it is what it
/// is with slashes alone.
pub open spec fn may_end_on_windows(path: Seq<char>, last: Option<Seq<char>>) -> bool {
    &&& last matches Some(name) ==> name.len() > 0 && name != ".."@ && occurs(path, name)
        && !name.contains('\\') && (is_verbatim(path) || !name.contains('/'))
    &&& is_plain_path(path) ==> last == slash_end(path)
}

/// `last` can be the last part of a path on a system.
pub open spec fn ends_on(system: System, path: Seq<char>, last: Option<Seq<char>>) -> bool {
    match system {
        System::Slashes => last == slash_end(path),
        System::Windows => may_end_on_windows(path, last),
    }
}

/// `std::path::Path::file_name`, as far as it is text: the last part of a path. A
/// trailing slash and single dots do not count, and there is none where the path ends
/// in two dots. What else separates parts differs between systems: either slashes
/// alone do, or it is Windows, of which no more is said than [`may_end_on_windows`]
/// does.
#[verifier::external_body]
fn last_part(path: &str) -> (last: Option<String>)
    ensures
        ends_on(System::Slashes, path@, maybe_text(last)) || ends_on(
            System::Windows,
            path@,
            maybe_text(last),
        ),
{
    let name = std::path::Path::new(path).file_name()?;
    name.to_str().map(|s| s.to_string())
}

/// The name to save an installer under, where `last` is the last part of its own.
pub open spec fn installer_name(last: Option<Seq<char>>) -> Seq<char> {
    match last {
        Some(name) => if name.len() > 0 && name != "."@ && name != ".."@ {
            name
        } else {
            DEFAULT_INSTALLER@
        },
        None => DEFAULT_INSTALLER@,
    }
}

/// The name to save an installer under, where `last` is the last part of its own.
pub fn name_or_default(last: Option<String>) -> (name: String)
    ensures
        name@ == installer_name(maybe_text(last)),
{
    match last {
        Some(name) => if name.as_str().is_empty() || same(&name, ".") || same(&name, "..") {
            DEFAULT_INSTALLER.to_string()
        } else {
            name
        },
        None => DEFAULT_INSTALLER.to_string(),
    }
}

/// `safe` is the name that the file `name` is saved under on a system: its last part
/// where that can be used.
pub open spec fn is_safe_on(system: System, safe: Seq<char>, name: Seq<char>) -> bool {
    exists|last: Option<Seq<char>>|
        #[trigger] ends_on(system, name, last) && safe == installer_name(last)
}

/// `safe` is a name to save the file `name` under. It is not empty, stands for no
/// directory and, unless the name is one that is taken to the letter, holds no slash;
/// and in a path that means the same everywhere it is the last part, or else the
/// installer's own name.
pub open spec fn is_safe_name(safe: Seq<char>, name: Seq<char>) -> bool {
    &&& is_safe_on(System::Slashes, safe, name) || is_safe_on(System::Windows, safe, name)
    &&& safe.len() > 0 && safe != "."@ && safe != ".."@ && (is_verbatim(name) || !safe.contains(
        '/',
    ))
    &&& is_plain_path(name) ==> safe == installer_name(slash_end(name))
}

/// The name to save an installer under.
pub fn safe_filename(name: &str) -> (safe: String)
    ensures
        is_safe_name(safe@, name@),
{
    let last = last_part(name);
    let ghost part = maybe_text(last);
    let safe = name_or_default(last);
    proof {
        lemma_default_is_simple();
        lemma_slash_end(name@);
        if ends_on(System::Slashes, name@, part) {
            assert(is_safe_on(System::Slashes, safe@, name@));
        } else {
            assert(ends_on(System::Windows, name@, part));
            assert(is_safe_on(System::Windows, safe@, name@));
        }
    }
    safe
}

proof fn lemma_pieces_are_whole(s: Seq<char>, separator: char, i: int)
    requires
        0 <= i < split_on(s, separator).len(),
    ensures
        !split_on(s, separator)[i].contains(separator),
{
    law_pieces_are_whole(s, separator, i);
}

proof fn lemma_last_piece(pieces: Seq<Seq<char>>)
    ensures
        last_piece(pieces) matches Some(piece) ==> piece.len() > 0 && piece != "."@ && exists|i: int|
            0 <= i < pieces.len() && #[trigger] pieces[i] == piece,
    decreases pieces.len(),
{
    if pieces.len() > 0 {
        let rest = pieces.drop_last();
        if pieces.last().len() == 0 || pieces.last() == "."@ {
            lemma_last_piece(rest);
            if let Some(piece) = last_piece(rest) {
                let i = choose|i: int| 0 <= i < rest.len() && #[trigger] rest[i] == piece;
                assert(pieces[i] == piece);
            }
        } else {
            assert(pieces[pieces.len() - 1] == pieces.last());
        }
    }
}

/// The last part of a path with slashes is a name without them.
proof fn lemma_slash_end(path: Seq<char>)
    ensures
        slash_end(path) matches Some(name) ==> name.len() > 0 && name != "."@ && name != ".."@
            && !name.contains('/'),
{
    let pieces = split_on(path, '/');
    lemma_last_piece(pieces);
    if let Some(piece) = last_piece(pieces) {
        let i = choose|i: int| 0 <= i < pieces.len() && #[trigger] pieces[i] == piece;
        lemma_pieces_are_whole(path, '/', i);
    }
}

/// A name without a slash is its own last part.
proof fn lemma_name_ends_itself(name: Seq<char>)
    requires
        name.len() > 0,
        name != "."@,
        name != ".."@,
        !name.contains('/'),
    ensures
        slash_end(name) == Some(name),
{
    lemma_no_separator(name, '/');
    assert(split_on(name, '/').last() == name);
}

proof fn lemma_default_is_simple()
    ensures
        ({
            let name = DEFAULT_INSTALLER@;
            &&& name.len() > 0 && name != "."@ && name != ".."@
            &&& !name.contains('/') && !name.contains('\\') && !has_drive_colon(name)
        }),
{
    reveal_strlit("RiftCounterpick-setup.exe");
    reveal_strlit(".");
    reveal_strlit("..");
    let name = DEFAULT_INSTALLER@;
    assert(name == "RiftCounterpick-setup.exe"@);
    assert(name.len() == 25);
    assert forall|i: int| 0 <= i < name.len() implies name[i] != '/' && name[i] != '\\' && name[i]
        != ':' by {}
}

proof fn lemma_no_separator(s: Seq<char>, separator: char)
    requires
        !s.contains(separator),
    ensures
        split_on(s, separator) == seq![s],
    decreases s.len(),
{
    if s.len() > 0 {
        let rest = s.drop_last();
        assert(s[s.len() - 1] != separator);
        assert forall|i: int| 0 <= i < rest.len() implies rest[i] != separator by {
            assert(rest[i] == s[i]);
        }
        lemma_no_separator(rest, separator);
        assert(rest.push(s.last()) =~= s);
        assert(split_on(s, separator) =~= seq![s]);
    } else {
        assert(s =~= Seq::<char>::empty());
    }
}

// ------------------------------------------------------------ offers

/// The update that a release offers to those who run `current`: where it is newer
/// and has a file to install from.
pub open spec fn offered(release: GithubRelease, current: Seq<char>) -> Option<GithubAsset> {
    if newer(release.tag_name@, current) {
        setup_asset(release.assets@)
    } else {
        None
    }
}

/// `update` offers the release `tag` by way of one of its files.
pub open spec fn is_offer(update: AppUpdate, tag: Seq<char>, asset: GithubAsset) -> bool {
    &&& update.version@ == normalized(tag)
    &&& update.download_url@ == asset.browser_download_url@
    &&& is_safe_name(update.asset_name@, asset.name@)
    &&& update.status@ == "available"@
    &&& update.progress == Progress::fixed(0)
    &&& update.message@ == "Version "@ + normalized(tag) + " is available"@
}

/// The update that a release offers.
pub fn offer_from_release(release: &GithubRelease, current: &str) -> (offer: Option<AppUpdate>)
    ensures
        match (offer, offered(*release, current@)) {
            (Some(update), Some(asset)) => is_offer(update, release.tag_name@, asset),
            (None, None) => true,
            _ => false,
        },
{
    if !version_is_newer(&release.tag_name, current) {
        return None;
    }
    let asset = match pick_setup_asset(&release.assets) {
        Some(asset) => asset,
        None => {
            return None;
        },
    };
    assert(offered(*release, current@) == Some(*asset));
    let version = normalize_version(&release.tag_name);
    let message = concat(&concat("Version ", &version), " is available");
    Some(
        AppUpdate {
            version,
            download_url: asset.browser_download_url.clone(),
            asset_name: safe_filename(&asset.name),
            status: "available".to_string(),
            progress: Progress::at(0),
            message,
        },
    )
}

/// Where the newest release is described.
pub fn latest_release_url() -> (url: String)
    ensures
        url@ == "https://api.github.com/repos/"@ + GITHUB_REPO@ + "/releases/latest"@,
{
    concat(&concat("https://api.github.com/repos/", GITHUB_REPO), "/releases/latest")
}

/// Whether a download can be an installer, by its size.
pub fn is_plausible_installer(bytes: usize) -> (r: bool)
    ensures
        r == (bytes >= SMALLEST_INSTALLER),
{
    bytes >= SMALLEST_INSTALLER
}

// ------------------------------------------------------------ laws

/// Being newer is a strict order: nothing is newer than itself, of two versions
/// at most one is newer, and what is newer than something newer is newer.
pub proof fn law_newer_is_an_order(a: Seq<char>, b: Seq<char>, c: Seq<char>)
    ensures
        !newer(a, a),
        !(newer(a, b) && newer(b, a)),
        newer(a, b) && newer(b, c) ==> newer(a, c),
        version_of(a) is Some && version_of(b) is Some ==> newer(a, b) || newer(b, a) || version_of(
            a,
        ) == version_of(b),
{
}

/// What is installed is not offered again, nor anything older.
pub proof fn law_only_newer_is_offered(release: GithubRelease, current: Seq<char>)
    ensures
        offered(release, current) is Some ==> newer(release.tag_name@, current),
        offered(release, release.tag_name@) is None,
        newer(current, release.tag_name@) ==> offered(release, current) is None,
{
}

/// A name that an installer is saved under is saved under the same name again. Only on
/// Windows that can fail: where the second character is a colon, as in `b:c`, or where
/// the first name was taken to the letter and holds a slash.
pub proof fn law_safe_name_settles(
    system: System,
    name: Seq<char>,
    safe: Seq<char>,
    again: Seq<char>,
)
    requires
        is_safe_on(system, safe, name),
        is_safe_on(system, again, safe),
        system is Windows ==> !has_drive_colon(safe) && !safe.contains('/'),
    ensures
        again == safe,
{
    lemma_default_is_simple();
    lemma_slash_end(name);
    let first = choose|last: Option<Seq<char>>|
        #[trigger] ends_on(system, name, last) && safe == installer_name(last);
    let second = choose|last: Option<Seq<char>>|
        #[trigger] ends_on(system, safe, last) && again == installer_name(last);
    lemma_name_ends_itself(safe);
    if system is Windows {
        reveal_strlit("//");
        if occurs_at(safe, "//"@, 0) {
            assert(safe.subrange(0, 2)[0] == '/');
            assert(safe[0] == '/');
        }
        assert(is_plain_path(safe));
    }
}

/// A path that ends in no name, such as one of slashes and dots alone, gives the
/// installer's own name.
pub proof fn law_nameless_gets_default(name: Seq<char>, safe: Seq<char>)
    requires
        is_safe_name(safe, name),
        is_plain_path(name),
        slash_end(name) is None,
    ensures
        safe == DEFAULT_INSTALLER@,
{
}

/// A `v` before a version changes nothing, small or capital, nor does its lack.
pub proof fn law_v_changes_nothing(version: Seq<char>)
    requires
        version.len() > 0,
        version[0] != 'v',
        version[0] != 'V',
        !is_space(version[0]),
        !is_space(version.last()),
    ensures
        normalized(version) == version,
        normalized(seq!['v'] + version) == version,
        normalized(seq!['V'] + version) == version,
{
    law_trim_keeps(version);
    let small = seq!['v'] + version;
    let capital = seq!['V'] + version;
    law_trim_keeps(small);
    law_trim_keeps(capital);
    assert(small.drop_first() =~= version);
    assert(capital.drop_first() =~= version);
    assert(unprefixed(version, 'v') == version);
    assert(unprefixed(version, 'V') == version);
    assert(unprefixed(small, 'v') == unprefixed(version, 'v'));
    assert(unprefixed(capital, 'v') == capital);
    assert(unprefixed(capital, 'V') == unprefixed(version, 'V'));
}

/// The numbers of a version are its first three, in order; a missing one is zero, and a
/// part that is no number makes it no version.
pub proof fn law_version_numbers(raw: Seq<char>, i: int)
    requires
        0 <= i < 3,
    ensures
        ({
            let parts = split_on(normalized(raw), '.');
            let number = match version_of(raw) {
                Some(v) => if i == 0 {
                    v.0
                } else if i == 1 {
                    v.1
                } else {
                    v.2
                },
                None => 0,
            };
            &&& version_of(raw) is Some && i < parts.len() ==> natural(parts[i], 10) == Some(number)
            &&& version_of(raw) is Some && i >= parts.len() ==> number == 0
            &&& i < parts.len() && natural(parts[i], 10) is None ==> version_of(raw) is None
        }),
{
}

/// The first of three numbers that differs decides which version is newer: the larger one.
/// What is no version is neither newer nor older.
pub proof fn law_larger_number_is_newer(
    a: Seq<char>,
    b: Seq<char>,
    x: (nat, nat, nat),
    y: (nat, nat, nat),
)
    ensures
        version_of(a) == Some(x) && version_of(b) == Some(y) ==> {
            &&& x.0 > y.0 ==> newer(a, b)
            &&& x.0 == y.0 && x.1 > y.1 ==> newer(a, b)
            &&& x.0 == y.0 && x.1 == y.1 ==> (newer(a, b) <==> x.2 > y.2)
            &&& x.0 < y.0 ==> !newer(a, b)
        },
        version_of(a) is None || version_of(b) is None ==> !newer(a, b),
{
}

/// The file to install from is the first program that calls itself a setup; the first
/// program where none does; and there is none exactly where there is no program.
pub proof fn law_setup_first(assets: Seq<GithubAsset>)
    ensures
        ({
            let program = |a: GithubAsset| ends_in(lower(a.name@), ".exe"@);
            let setup = |a: GithubAsset|
                ends_in(lower(a.name@), ".exe"@) && occurs(lower(a.name@), "setup"@);
            let has_setup = exists|i: int| 0 <= i < assets.len() && setup(#[trigger] assets[i]);
            match setup_asset(assets) {
                Some(asset) => exists|i: int|
                    0 <= i < assets.len() && #[trigger] assets[i] == asset && program(asset) && (
                    has_setup ==> setup(asset)) && forall|j: int|
                        0 <= j < i ==> (if has_setup {
                            !setup(#[trigger] assets[j])
                        } else {
                            !program(assets[j])
                        }),
                None => forall|i: int| 0 <= i < assets.len() ==> !program(#[trigger] assets[i]),
            }
        }),
{
    let program = |a: GithubAsset| ends_in(lower(a.name@), ".exe"@);
    let setup = |a: GithubAsset|
        ends_in(lower(a.name@), ".exe"@) && occurs(lower(a.name@), "setup"@);
    crate::lists::lemma_place(assets, programs(true));
    crate::lists::lemma_place(assets, programs(false));
    let at = crate::lists::place(assets, programs(true));
    if at < assets.len() {
        assert(programs(true)(assets[at]));
        assert(setup(assets[at]));
        assert forall|j: int| 0 <= j < at implies !setup(#[trigger] assets[j]) by {
            assert(!programs(true)(assets[j]));
        }
        assert(setup_asset(assets) == Some(assets[at]));
    } else {
        assert forall|j: int| 0 <= j < assets.len() implies !setup(#[trigger] assets[j]) by {
            assert(!programs(true)(assets[j]));
        }
        let to = crate::lists::place(assets, programs(false));
        assert forall|j: int| 0 <= j < to implies !program(#[trigger] assets[j]) by {
            assert(!programs(false)(assets[j]));
        }
        if to < assets.len() {
            assert(programs(false)(assets[to]));
            assert(program(assets[to]));
            assert(setup_asset(assets) == Some(assets[to]));
        }
    }
}

/// Every newer release with a program is offered: under its version without the `v`, from
/// the address of that very program.
pub proof fn law_offer(
    release: GithubRelease,
    current: Seq<char>,
    update: AppUpdate,
    asset: GithubAsset,
)
    ensures
        newer(release.tag_name@, current) ==> offered(release, current) == setup_asset(
            release.assets@,
        ),
        is_offer(update, release.tag_name@, asset) ==> {
            &&& update.version@ == normalized(release.tag_name@)
            &&& update.download_url@ == asset.browser_download_url@
            &&& is_safe_name(update.asset_name@, asset.name@)
            &&& update.status@ == "available"@
            &&& update.message@ == "Version "@ + update.version@ + " is available"@
        },
{
}

/// An installer keeps the last part of its own name, and has the usual one only where that
/// stands for a directory or is missing.
pub proof fn law_installer_name(last: Seq<char>)
    ensures
        last.len() > 0 && last != "."@ && last != ".."@ ==> installer_name(Some(last)) == last,
        last.len() == 0 || last == "."@ || last == ".."@ ==> installer_name(Some(last))
            == "RiftCounterpick-setup.exe"@,
        installer_name(None) == "RiftCounterpick-setup.exe"@,
{
}

} // verus!
