//! Finding the port and the password of the running client.
use crate::text::{
    first_line, maybe_text, natural, parse_natural, push_text, same, split, split_on, texts, trim,
    trim_char, trimmed, unwrapped,
};
use vstd::prelude::*;

verus! {

/// The port in the client's command line.
pub const PORT_PATTERN: &'static str = r"--app-port=(\d+)";

/// The password in the client's command line.
pub const TOKEN_PATTERN: &'static str = r"--remoting-auth-token=([\w-]+)";

/// The directory of the game in the client's command line.
pub const INSTALL_PATTERN: &'static str = "--install-directory=(\"[^\"]+\"|\\S+)";

/// Where the client listens, and the password that it asks for.
#[derive(Debug, PartialEq, Eq)]
pub struct LockfileInfo {
    pub port: u16,
    pub password: String,
}

impl Clone for LockfileInfo {
    fn clone(&self) -> (copy: Self)
        ensures
            copy == *self,
    {
        LockfileInfo { port: self.port, password: self.password.clone() }
    }
}

/// The client is the one that was last seen.
pub open spec fn is_last_seen(last: Option<LockfileInfo>, info: LockfileInfo) -> bool {
    last matches Some(seen) && seen.port == info.port && seen.password@ == info.password@
}

/// Whether the client has to be connected to anew: it is not the one that was
/// last seen.
pub fn needs_reconnect(last: &Option<LockfileInfo>, info: &LockfileInfo) -> (r: bool)
    ensures
        r == !is_last_seen(*last, *info),
{
    match last {
        Some(seen) => !(seen.port == info.port && same(&seen.password, &info.password)),
        None => true,
    }
}

/// What is to be done about the client.
#[derive(Debug, Clone, Copy, PartialEq, Eq, Structural)]
pub enum LinkStep {
    /// It is not there: forget it.
    Forget,
    /// It is another one: connect to it.
    Connect,
    /// It is connected: ask it.
    Ask,
    /// It could not be connected to: wait for another.
    Wait,
}

/// The client that was last seen, and whether it could be connected to.
#[derive(Debug)]
pub struct Link {
    pub last: Option<LockfileInfo>,
    pub open: bool,
}

impl Link {
    /// No client has been seen yet.
    pub fn new() -> (link: Link)
        ensures
            link.last is None,
            !link.open,
    {
        Link { last: None, open: false }
    }

    /// What is to be done, given what is known of a client now. Each client is
    /// connected to once, and asked from then on.
    pub fn step(&mut self, found: &Option<LockfileInfo>) -> (step: LinkStep)
        ensures
            final(self).last == *found,
            match *found {
                None => step == LinkStep::Forget && !final(self).open,
                Some(info) => if is_last_seen(old(self).last, info) {
                    final(self).open == old(self).open && step == (if old(self).open {
                        LinkStep::Ask
                    } else {
                        LinkStep::Wait
                    })
                } else {
                    step == LinkStep::Connect && !final(self).open
                },
            },
    {
        match found {
            None => {
                self.last = None;
                self.open = false;
                LinkStep::Forget
            },
            Some(info) => {
                let anew = needs_reconnect(&self.last, info);
                self.last = Some(info.clone());
                if anew {
                    self.open = false;
                    LinkStep::Connect
                } else if self.open {
                    LinkStep::Ask
                } else {
                    LinkStep::Wait
                }
            },
        }
    }

    /// Notes whether the client could be connected to.
    pub fn connected(&mut self, open: bool)
        ensures
            final(self).open == open,
            final(self).last == old(self).last,
    {
        self.open = open;
    }
}

/// What the first group of a regular expression takes in where it first matches
/// in a text, by `regex::Regex::captures`; `None` where it does not match or is
/// no expression.
pub uninterp spec fn captured(pattern: Seq<char>, text: Seq<char>) -> Option<Seq<char>>;

/// `regex::Regex::captures` with the expression `pattern`, and of the match the
/// first group; a function of the two texts alone.
#[verifier::external_body]
fn capture(pattern: &str, text: &str) -> (group: Option<String>)
    ensures
        match group {
            Some(found) => captured(pattern@, text@) == Some(found@),
            None => captured(pattern@, text@) is None,
        },
{
    let expression = regex::Regex::new(pattern).ok()?;
    let found = expression.captures(text)?;
    found.get(1).map(|m| m.as_str().to_string())
}

/// The port and the password that two texts spell out.
pub open spec fn lockfile_of(port: Option<Seq<char>>, password: Option<Seq<char>>) -> Option<
    (int, Seq<char>),
> {
    match (port, password) {
        (Some(port), Some(password)) => match natural(port, 10) {
            Some(n) => if n <= 0xffff && password.len() > 0 {
                Some((n as int, password))
            } else {
                None
            },
            None => None,
        },
        _ => None,
    }
}

/// `info` is the port and the password that are there.
pub open spec fn is_info(info: Option<LockfileInfo>, found: Option<(int, Seq<char>)>) -> bool {
    match info {
        Some(info) => found == Some((info.port as int, info.password@)),
        None => found is None,
    }
}

/// The port and the password that two texts spell out: a port below 65536 and a
/// password that is not empty.
pub fn info_from_parts(port: &Option<String>, password: &Option<String>) -> (info: Option<
    LockfileInfo,
>)
    ensures
        is_info(info, lockfile_of(maybe_text(*port), maybe_text(*password))),
{
    match (port, password) {
        (Some(port), Some(password)) => match parse_natural(port, 10, 0xffff) {
            Some(n) => if password.as_str().is_empty() {
                None
            } else {
                Some(LockfileInfo { port: n as u16, password: password.clone() })
            },
            None => None,
        },
        _ => None,
    }
}

/// The port and the password in the client's command line.
pub open spec fn command_line_info(cmdline: Seq<char>) -> Option<(int, Seq<char>)> {
    lockfile_of(captured(PORT_PATTERN@, cmdline), captured(TOKEN_PATTERN@, cmdline))
}

/// The port and the password in the client's command line.
pub fn parse_command_line(cmdline: &str) -> (info: Option<LockfileInfo>)
    ensures
        is_info(info, command_line_info(cmdline@)),
{
    let port = capture(PORT_PATTERN, cmdline);
    let token = capture(TOKEN_PATTERN, cmdline);
    info_from_parts(&port, &token)
}

/// The port and the password in a lockfile: the third and the fourth of at least
/// five parts of its first line.
pub open spec fn contents_info(raw: Seq<char>) -> Option<(int, Seq<char>)> {
    let parts = split_on(trimmed(first_line(raw)), ':');
    if parts.len() < 5 {
        None
    } else {
        match natural(parts[2], 10) {
            Some(n) => if n <= 0xffff {
                Some((n as int, parts[3]))
            } else {
                None
            },
            None => None,
        }
    }
}

/// The port and the password in a lockfile.
pub fn parse_lockfile_contents(raw: &str) -> (info: Option<LockfileInfo>)
    ensures
        is_info(info, contents_info(raw@)),
{
    let lines = split(raw, '\n');
    assert(texts(lines@)[0] == lines@[0]@);
    let line = trim(&lines[0]);
    let parts = split(&line, ':');
    assert(texts(parts@).len() == parts@.len());
    if parts.len() < 5 {
        return None;
    }
    assert(texts(parts@)[2] == parts@[2]@ && texts(parts@)[3] == parts@[3]@);
    match parse_natural(&parts[2], 10, 0xffff) {
        Some(n) => Some(LockfileInfo { port: n as u16, password: parts[3].clone() }),
        None => None,
    }
}

/// The directory of the game, without the quotes around it.
pub open spec fn without_quotes(captured: Option<Seq<char>>) -> Option<Seq<char>> {
    match captured {
        Some(dir) => Some(unwrapped(dir, '"')),
        None => None,
    }
}

/// The directory of the game in the client's command line.
pub fn install_directory(cmdline: &str) -> (dir: Option<String>)
    ensures
        maybe_text(dir) == without_quotes(captured(INSTALL_PATTERN@, cmdline@)),
{
    match capture(INSTALL_PATTERN, cmdline) {
        Some(dir) => Some(trim_char(&dir, '"')),
        None => None,
    }
}

/// Where a lockfile may be, as the parts of its path.
pub open spec fn place_views(places: Seq<Vec<String>>) -> Seq<Seq<Seq<char>>> {
    Seq::new(places.len(), |i: int| texts(places[i]@))
}

/// Where lockfiles may be: in the directory that the command line names, on the
/// usual drives, and below the user's own directory.
pub open spec fn usual_places(dir: Option<Seq<char>>, home: Option<Seq<char>>) -> Seq<
    Seq<Seq<char>>,
> {
    let named = match dir {
        Some(dir) => seq![seq![dir, "lockfile"@]],
        None => Seq::empty(),
    };
    let own = match home {
        Some(home) => seq![
            seq![home, "Riot Games"@, "League of Legends"@, "lockfile"@],
        ],
        None => Seq::empty(),
    };
    named + seq![
        seq![r"C:\Riot Games\League of Legends\lockfile"@],
        seq![r"D:\Riot Games\League of Legends\lockfile"@],
        seq![r"E:\Riot Games\League of Legends\lockfile"@],
    ] + own
}

fn place_of(parts: Vec<String>, places: &mut Vec<Vec<String>>)
    ensures
        place_views(final(places)@) == place_views(old(places)@).push(texts(parts@)),
{
    places.push(parts);
    assert(place_views(places@) =~= place_views(old(places)@).push(texts(parts@)));
}

fn one_part(path: &str) -> (parts: Vec<String>)
    ensures
        texts(parts@) == seq![path@],
{
    let mut parts: Vec<String> = Vec::new();
    parts.push(path.to_string());
    assert(texts(parts@) =~= seq![path@]);
    parts
}

/// Where lockfiles may be, the likeliest place first.
pub fn lockfile_places(dir: &Option<String>, home: &Option<String>) -> (places: Vec<Vec<String>>)
    ensures
        place_views(places@) == usual_places(maybe_text(*dir), maybe_text(*home)),
{
    let mut places: Vec<Vec<String>> = Vec::new();
    assert(place_views(places@) =~= Seq::empty());
    if let Some(dir) = dir {
        let mut parts = one_part(dir);
        push_text(&mut parts, "lockfile".to_string());
        assert(texts(parts@) =~= seq![dir@, "lockfile"@]);
        place_of(parts, &mut places);
    }
    place_of(one_part(r"C:\Riot Games\League of Legends\lockfile"), &mut places);
    place_of(one_part(r"D:\Riot Games\League of Legends\lockfile"), &mut places);
    place_of(one_part(r"E:\Riot Games\League of Legends\lockfile"), &mut places);
    if let Some(home) = home {
        let mut parts = one_part(home);
        push_text(&mut parts, "Riot Games".to_string());
        push_text(&mut parts, "League of Legends".to_string());
        push_text(&mut parts, "lockfile".to_string());
        assert(texts(parts@) =~= seq![
            home@,
            "Riot Games"@,
            "League of Legends"@,
            "lockfile"@,
        ]);
        place_of(parts, &mut places);
    }
    assert(place_views(places@) =~= usual_places(maybe_text(*dir), maybe_text(*home)));
    places
}

/// What the first lockfile that can be read says.
pub open spec fn first_info(files: Seq<Option<String>>) -> Option<(int, Seq<char>)>
    decreases files.len(),
{
    if files.len() == 0 {
        None
    } else {
        let found = match files[0] {
            Some(raw) => contents_info(raw@),
            None => None,
        };
        if found is Some {
            found
        } else {
            first_info(files.drop_first())
        }
    }
}

/// What is known of the client: what its command line says, else what the first
/// lockfile says that can be read.
pub open spec fn discovered(cmdline: Option<Seq<char>>, files: Seq<Option<String>>) -> Option<
    (int, Seq<char>),
> {
    let told = match cmdline {
        Some(cmdline) => command_line_info(cmdline),
        None => None,
    };
    if told is Some {
        told
    } else {
        first_info(files)
    }
}

/// What is known of the client, by its command line and the lockfiles that there
/// are.
pub fn discover_lockfile(cmdline: &Option<String>, files: &Vec<Option<String>>) -> (info: Option<
    LockfileInfo,
>)
    ensures
        is_info(info, discovered(maybe_text(*cmdline), files@)),
{
    if let Some(cmdline) = cmdline {
        if let Some(info) = parse_command_line(cmdline) {
            return Some(info);
        }
    }
    assert(files@.subrange(0, files@.len() as int) =~= files@);
    assert(discovered(maybe_text(*cmdline), files@) == first_info(files@));
    for i in 0..files.len()
        invariant
            discovered(maybe_text(*cmdline), files@) == first_info(files@),
            first_info(files@) == first_info(files@.subrange(i as int, files@.len() as int)),
    {
        let ghost rest = files@.subrange(i as int, files@.len() as int);
        assert(rest.drop_first() =~= files@.subrange(i + 1, files@.len() as int));
        if let Some(raw) = &files[i] {
            if let Some(info) = parse_lockfile_contents(raw) {
                return Some(info);
            }
        }
    }
    None
}

// ------------------------------------------------------------ laws

/// A lockfile tells the port in the third and the password in the fourth part of its first
/// line, which has five parts or more; a port that does not fit makes it tell nothing.
pub proof fn law_lockfile_parts(raw: Seq<char>, port: nat)
    ensures
        ({
            let parts = split_on(trimmed(split_on(raw, '\n')[0]), ':');
            &&& parts.len() >= 5 && natural(parts[2], 10) == Some(port) && port <= 65535
                ==> contents_info(raw) == Some((port as int, parts[3]))
            &&& parts.len() < 5 ==> contents_info(raw) is None
            &&& parts.len() >= 5 && natural(parts[2], 10) == Some(port) && port > 65535
                ==> contents_info(raw) is None
            &&& parts.len() >= 5 && natural(parts[2], 10) is None ==> contents_info(raw) is None
        }),
{
}

/// The command line tells the port behind `--app-port=` and the password behind
/// `--remoting-auth-token=`; both must be there, the one fit and the other not be empty.
pub proof fn law_command_line(cmdline: Seq<char>, port: Seq<char>, password: Seq<char>, n: nat)
    ensures
        ({
            let found = command_line_info(cmdline);
            &&& captured(r"--app-port=(\d+)"@, cmdline) == Some(port) && captured(
                r"--remoting-auth-token=([\w-]+)"@,
                cmdline,
            ) == Some(password) && natural(port, 10) == Some(n) && n <= 65535 && password.len() > 0
                ==> found == Some((n as int, password))
            &&& captured(r"--app-port=(\d+)"@, cmdline) is None ==> found is None
            &&& captured(r"--remoting-auth-token=([\w-]+)"@, cmdline) is None ==> found is None
            &&& found is Some ==> 0 <= (found->0).0 <= 65535 && (found->0).1.len() > 0
        }),
{
}

/// What the command line tells counts before any lockfile, and of the lockfiles the first
/// that tells something.
pub proof fn law_who_is_believed(cmdline: Seq<char>, files: Seq<Option<String>>, at: int)
    ensures
        command_line_info(cmdline) is Some ==> discovered(Some(cmdline), files)
            == command_line_info(cmdline),
        command_line_info(cmdline) is None ==> discovered(Some(cmdline), files) == discovered(
            None,
            files,
        ),
        0 <= at < files.len() && tells(files[at]) && (forall|j: int|
            0 <= j < at ==> !tells(#[trigger] files[j])) ==> discovered(None, files)
            == contents_info(files[at]->0@),
        (forall|j: int| 0 <= j < files.len() ==> !tells(#[trigger] files[j])) ==> discovered(
            None,
            files,
        ) is None,
{
    lemma_first_info(files, at);
}

/// The lockfile can be read and tells something.
pub open spec fn tells(file: Option<String>) -> bool {
    file is Some && contents_info(file->0@) is Some
}

proof fn lemma_first_info(files: Seq<Option<String>>, at: int)
    ensures
        0 <= at < files.len() && tells(files[at]) && (forall|j: int|
            0 <= j < at ==> !tells(#[trigger] files[j])) ==> first_info(files) == contents_info(
            files[at]->0@,
        ),
        (forall|j: int| 0 <= j < files.len() ==> !tells(#[trigger] files[j])) ==> first_info(
            files,
        ) is None,
    decreases files.len(),
{
    if files.len() > 0 {
        let rest = files.drop_first();
        lemma_first_info(rest, at - 1);
        if 0 < at < files.len() {
            assert(rest[at - 1] == files[at]);
        }
        if forall|j: int| 0 <= j < at ==> !tells(#[trigger] files[j]) {
            assert forall|j: int| 0 <= j < at - 1 && j < rest.len() implies !tells(
                #[trigger] rest[j],
            ) by {
                assert(rest[j] == files[j + 1]);
            }
            if 0 < at {
                assert(!tells(files[0]));
            }
        }
        if forall|j: int| 0 <= j < files.len() ==> !tells(#[trigger] files[j]) {
            assert(!tells(files[0]));
            assert forall|j: int| 0 <= j < rest.len() implies !tells(#[trigger] rest[j]) by {
                assert(rest[j] == files[j + 1]);
            }
        }
    }
}

/// The directory that the command line names is looked in first, then the usual place on
/// the drives C, D and E, and last the user's own directory.
pub proof fn law_usual_places(dir: Seq<char>, home: Seq<char>)
    ensures
        usual_places(Some(dir), Some(home)).len() == 5,
        usual_places(Some(dir), Some(home))[0] == seq![dir, "lockfile"@],
        usual_places(Some(dir), Some(home))[1] == seq![
            r"C:\Riot Games\League of Legends\lockfile"@,
        ],
        usual_places(Some(dir), Some(home))[2] == seq![
            r"D:\Riot Games\League of Legends\lockfile"@,
        ],
        usual_places(Some(dir), Some(home))[3] == seq![
            r"E:\Riot Games\League of Legends\lockfile"@,
        ],
        usual_places(Some(dir), Some(home))[4] == seq![
            home,
            "Riot Games"@,
            "League of Legends"@,
            "lockfile"@,
        ],
        usual_places(None, Some(home)) =~= usual_places(Some(dir), Some(home)).drop_first(),
        usual_places(Some(dir), None) =~= usual_places(Some(dir), Some(home)).drop_last(),
{
}

/// The client is another one as soon as its port or its password is.
pub proof fn law_another_client(seen: LockfileInfo, info: LockfileInfo)
    ensures
        is_last_seen(Some(seen), info) <==> seen.port == info.port && seen.password@
            == info.password@,
        !is_last_seen(None, info),
{
}

/// What is handed out is the port and the password that were found, and nothing only where
/// nothing was.
pub proof fn law_info(info: LockfileInfo, port: int, password: Seq<char>)
    ensures
        is_info(Some(info), Some((port, password))) <==> info.port == port && info.password@
            == password,
        !is_info(Some(info), None),
        !is_info(None, Some((port, password))),
        is_info(None, None),
{
}

/// The directory is taken without the quotes around it.
pub proof fn law_directory(dir: Seq<char>)
    ensures
        without_quotes(Some(dir)) == Some(unwrapped(dir, '"')),
        without_quotes(None) is None,
{
}

} // verus!
