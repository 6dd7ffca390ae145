//! The champions of the game, as Data Dragon lists them.
use crate::models::ChampionInfo;
use crate::text::{
    concat, integer, lower, parse_i64, same, show_i64, signed_decimal, split, split_on,
    squash, squashed, texts, to_lower,
};
use std::collections::HashMap;
use vstd::prelude::*;

verus! {

broadcast use vstd::std_specs::hash::group_hash_axioms;

/// Where Data Dragon lists its versions, newest first.
pub const VERSIONS_URL: &'static str = "https://ddragon.leagueoflegends.com/api/versions.json";

/// What the address of a version's files begins with.
pub const CDN_URL: &'static str = "https://ddragon.leagueoflegends.com/cdn/";

/// What the address of the champion list ends with.
pub const CHAMPIONS_FILE: &'static str = "/data/en_US/champion.json";

/// What the address of a champion's icon begins with.
pub const ICONS_URL: &'static str =
    "https://raw.communitydragon.org/latest/plugins/rcp-be-lol-game-data/global/default/v1/champion-icons/";

/// The champions by id, and the patch that they are of.
#[derive(Debug)]
pub struct Catalog {
    pub patch: String,
    pub ddragon_version: String,
    pub by_id: HashMap<i64, ChampionInfo>,
    pub slug_by_id: HashMap<i64, String>,
}

impl Clone for Catalog {
    fn clone(&self) -> (copy: Self)
        ensures
            copy.patch == self.patch,
            copy.ddragon_version == self.ddragon_version,
            copy.by_id@ == self.by_id@,
            copy.slug_by_id@ == self.slug_by_id@,
    {
        let by_id = self.by_id.clone();
        let slug_by_id = self.slug_by_id.clone();
        Catalog {
            patch: self.patch.clone(),
            ddragon_version: self.ddragon_version.clone(),
            by_id,
            slug_by_id,
        }
    }
}

impl Default for Catalog {
    fn default() -> (catalog: Self)
        ensures
            catalog.patch@ == Seq::<char>::empty(),
            catalog.ddragon_version@ == Seq::<char>::empty(),
            catalog.by_id@ == Map::<i64, ChampionInfo>::empty(),
            catalog.slug_by_id@ == Map::<i64, String>::empty(),
    {
        Catalog {
            patch: String::new(),
            ddragon_version: String::new(),
            by_id: HashMap::new(),
            slug_by_id: HashMap::new(),
        }
    }
}

/// A champion as Data Dragon describes it.
#[derive(Debug)]
pub struct DdragonChampion {
    pub id: String,
    /// The champion's number, in decimal.
    pub key: String,
    pub name: String,
}

/// The patch of a version: its first two numbers.
pub open spec fn patch_of(version: Seq<char>) -> Seq<char> {
    let parts = split_on(version, '.');
    if parts.len() >= 2 {
        parts[0] + "."@ + parts[1]
    } else {
        version
    }
}

/// The patch of a version: its first two numbers.
pub fn ddragon_to_patch(version: &str) -> (patch: String)
    ensures
        patch@ == patch_of(version@),
{
    let parts = split(version, '.');
    assert(texts(parts@).len() == parts@.len());
    if parts.len() >= 2 {
        assert(texts(parts@)[0] == parts@[0]@ && texts(parts@)[1] == parts@[1]@);
        concat(&concat(&parts[0], "."), &parts[1])
    } else {
        version.to_string()
    }
}

/// The name under which Lolalytics knows a champion.
pub open spec fn slug_of(dd_id: Seq<char>, name: Seq<char>) -> Seq<char> {
    if lower(dd_id) == "monkeyking"@ {
        "wukong"@
    } else if lower(dd_id) == "nunu"@ {
        "nunu"@
    } else {
        squashed(name)
    }
}

/// The name under which Lolalytics knows a champion.
pub fn lolalytics_slug(dd_id: &str, name: &str) -> (slug: String)
    ensures
        slug@ == slug_of(dd_id@, name@),
{
    let lower = to_lower(dd_id);
    if same(&lower, "monkeyking") {
        "wukong".to_string()
    } else if same(&lower, "nunu") {
        "nunu".to_string()
    } else {
        squash(name)
    }
}

/// The number of a champion, where it has one that can be used.
pub open spec fn champion_number(champion: DdragonChampion) -> Option<i64> {
    match integer(champion.key@) {
        Some(n) => if 0 < n <= i64::MAX {
            Some(n as i64)
        } else {
            None
        },
        None => None,
    }
}

/// `info` is the catalog's entry for `champion`.
pub open spec fn is_entry(info: ChampionInfo, champion: DdragonChampion) -> bool {
    &&& champion_number(champion) == Some(info.id)
    &&& info.key@ == champion.key@
    &&& info.name@ == champion.name@
    &&& info.slug@ == slug_of(champion.id@, champion.name@)
    &&& info.icon_url@ == ICONS_URL@ + signed_decimal(info.id as int) + ".png"@
}

/// The last of the champions that has the number `id`.
pub open spec fn listed(champions: Seq<DdragonChampion>, id: i64) -> Option<DdragonChampion>
    decreases champions.len(),
{
    if champions.len() == 0 {
        None
    } else if champion_number(champions.last()) == Some(id) {
        Some(champions.last())
    } else {
        listed(champions.drop_last(), id)
    }
}

impl Catalog {
    /// The catalog holds an entry for each of the champions with a number that
    /// can be used, and nothing else.
    pub open spec fn holds(self, champions: Seq<DdragonChampion>) -> bool {
        forall|id: i64|
            match #[trigger] listed(champions, id) {
                Some(champion) => {
                    &&& self.by_id@.contains_key(id)
                    &&& is_entry(self.by_id@[id], champion)
                    &&& self.slug_by_id@.contains_key(id)
                    &&& self.slug_by_id@[id]@ == self.by_id@[id].slug@
                },
                None => !self.by_id@.contains_key(id) && !self.slug_by_id@.contains_key(id),
            }
    }
}

/// The newest of the versions.
pub fn latest_version(versions: &Vec<String>) -> (version: Option<String>)
    ensures
        match version {
            Some(v) => versions@.len() > 0 && v@ == versions@[0]@,
            None => versions@.len() == 0,
        },
{
    if versions.len() > 0 {
        Some(versions[0].clone())
    } else {
        None
    }
}

/// Where a version's champion list is.
pub fn champions_url(version: &str) -> (url: String)
    ensures
        url@ == CDN_URL@ + version@ + CHAMPIONS_FILE@,
{
    concat(&concat(CDN_URL, version), CHAMPIONS_FILE)
}

/// The catalog of a version's champions. Those without a number that can be used
/// are left out.
pub fn build_catalog(version: &str, champions: &Vec<DdragonChampion>) -> (catalog: Catalog)
    ensures
        catalog.patch@ == patch_of(version@),
        catalog.ddragon_version@ == version@,
        catalog.holds(champions@),
{
    let mut catalog = Catalog {
        patch: ddragon_to_patch(version),
        ddragon_version: version.to_string(),
        by_id: HashMap::new(),
        slug_by_id: HashMap::new(),
    };
    for i in 0..champions.len()
        invariant
            catalog.patch@ == patch_of(version@),
            catalog.ddragon_version@ == version@,
            catalog.holds(champions@.take(i as int)),
    {
        let champion = &champions[i];
        let ghost before = catalog;
        let ghost so_far = champions@.take(i as int);
        let ghost next = champions@.take(i + 1);
        assert(next.drop_last() =~= so_far);
        assert(next.last() == champion);
        let id = match parse_i64(&champion.key) {
            Some(n) => n,
            None => 0,
        };
        if id > 0 {
            let slug = lolalytics_slug(&champion.id, &champion.name);
            let info = ChampionInfo {
                id,
                key: champion.key.clone(),
                name: champion.name.clone(),
                slug: slug.clone(),
                icon_url: concat(&concat(ICONS_URL, &show_i64(id)), ".png"),
            };
            catalog.by_id.insert(id, info);
            catalog.slug_by_id.insert(id, slug);
        }
        assert forall|other: i64|
            match #[trigger] listed(next, other) {
                Some(champion) => {
                    &&& catalog.by_id@.contains_key(other)
                    &&& is_entry(catalog.by_id@[other], champion)
                    &&& catalog.slug_by_id@.contains_key(other)
                    &&& catalog.slug_by_id@[other]@ == catalog.by_id@[other].slug@
                },
                None => !catalog.by_id@.contains_key(other) && !catalog.slug_by_id@.contains_key(
                    other,
                ),
            } by {
            let earlier = listed(so_far, other);
            assert(champion_number(*champion) == (if id > 0 {
                Some(id)
            } else {
                None
            }));
        }
    }
    assert(champions@.take(champions@.len() as int) =~= champions@);
    catalog
}

// ------------------------------------------------------------------ laws

/// The patch of a version with two numbers or more is its first two, with a dot between;
/// anything shorter is its own patch.
pub proof fn law_patch(version: Seq<char>)
    ensures
        split_on(version, '.').len() >= 2 ==> patch_of(version) == split_on(version, '.')[0] + "."@
            + split_on(version, '.')[1],
        split_on(version, '.').len() < 2 ==> patch_of(version) == version,
{
}

/// Two champions go by names of their own at the source; every other goes by its name
/// without anything but letters and digits.
pub proof fn law_slugs(dd_id: Seq<char>, name: Seq<char>)
    ensures
        lower(dd_id) == "monkeyking"@ ==> slug_of(dd_id, name) == "wukong"@,
        lower(dd_id) == "nunu"@ ==> slug_of(dd_id, name) == "nunu"@,
        lower(dd_id) != "monkeyking"@ && lower(dd_id) != "nunu"@ ==> slug_of(dd_id, name)
            == squashed(name),
{
    reveal_strlit("monkeyking");
    reveal_strlit("nunu");
    assert("monkeyking"@.len() == 10 && "nunu"@.len() == 4);
}

/// The champion that counts for a number is the last of the list with that number.
pub proof fn law_listed(champions: Seq<DdragonChampion>, id: i64)
    ensures
        match listed(champions, id) {
            Some(champion) => exists|i: int|
                0 <= i < champions.len() && #[trigger] champions[i] == champion && integer(
                    champion.key@,
                ) == Some(id as int) && id > 0 && forall|j: int|
                    i < j < champions.len() ==> integer((#[trigger] champions[j]).key@) != Some(
                        id as int,
                    ),
            None => id <= 0 || forall|i: int|
                0 <= i < champions.len() ==> integer((#[trigger] champions[i]).key@) != Some(
                    id as int,
                ),
        },
    decreases champions.len(),
{
    if champions.len() > 0 {
        let rest = champions.drop_last();
        let last = champions.len() - 1;
        law_listed(rest, id);
        if champion_number(champions.last()) == Some(id) {
            assert(champions[last] == champions.last());
        } else {
            match listed(rest, id) {
                Some(champion) => {
                    let i = choose|i: int|
                        0 <= i < rest.len() && #[trigger] rest[i] == champion && integer(
                            champion.key@,
                        ) == Some(id as int) && id > 0 && forall|j: int|
                            i < j < rest.len() ==> integer((#[trigger] rest[j]).key@) != Some(
                                id as int,
                            );
                    assert(champions[i] == champion);
                    assert forall|j: int| i < j < champions.len() implies integer(
                        (#[trigger] champions[j]).key@,
                    ) != Some(id as int) by {
                        if j < last {
                            assert(rest[j] == champions[j]);
                        }
                    }
                },
                None => {
                    if id > 0 {
                        assert forall|i: int| 0 <= i < champions.len() implies integer(
                            (#[trigger] champions[i]).key@,
                        ) != Some(id as int) by {
                            if i < last {
                                assert(rest[i] == champions[i]);
                            }
                        }
                    }
                },
            }
        }
    }
}

/// The catalog of a list has each champion under its number with its own name, the name
/// that the source has for it and the icon of its number, and has no one else.
pub proof fn law_catalog(catalog: Catalog, champions: Seq<DdragonChampion>, id: i64)
    requires
        catalog.holds(champions),
    ensures
        match listed(champions, id) {
            Some(champion) => {
                let info = catalog.by_id@[id];
                &&& catalog.by_id@.contains_key(id)
                &&& catalog.slug_by_id@.contains_key(id)
                &&& info.id == id
                &&& info.key@ == champion.key@
                &&& info.name@ == champion.name@
                &&& info.slug@ == slug_of(champion.id@, champion.name@)
                &&& catalog.slug_by_id@[id]@ == slug_of(champion.id@, champion.name@)
                &&& info.icon_url@
                    == "https://raw.communitydragon.org/latest/plugins/rcp-be-lol-game-data/global/default/v1/champion-icons/"@
                    + signed_decimal(id as int) + ".png"@
            },
            None => !catalog.by_id@.contains_key(id) && !catalog.slug_by_id@.contains_key(id),
        },
{
    if let Some(champion) = listed(champions, id) {
        law_listed(champions, id);
        assert(is_entry(catalog.by_id@[id], champion));
    }
}

} // verus!
