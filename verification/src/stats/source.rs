//! Where Lolalytics has its tables.
use crate::text::{concat, same};
use vstd::prelude::*;
use vstd::utf8::encode_utf8;

verus! {

/// What a browser says of itself; the source answers no one else.
pub const USER_AGENT: &'static str =
    "Mozilla/5.0 (Windows NT 10.0; Win64; x64) AppleWebKit/537.36 (KHTML, like Gecko) Chrome/128.0.0.0 Safari/537.36";

/// The bytes that stand for themselves in an address.
pub open spec fn is_plain(byte: u8) -> bool {
    ||| 0x30 <= byte <= 0x39
    ||| 0x41 <= byte <= 0x5a
    ||| 0x61 <= byte <= 0x7a
    ||| byte == 0x2d || byte == 0x2e || byte == 0x5f || byte == 0x7e
}

/// A hexadecimal digit, with capital letters.
pub open spec fn hex_digit(n: u8) -> char {
    if n < 10 {
        (0x30 + n) as char
    } else {
        (0x41 + n - 10) as char
    }
}

/// Bytes as they are written in an address: letters, digits, `-`, `.`, `_` and
/// `~` as they are, every other byte as a percent sign and two digits.
pub open spec fn percent_encoded(bytes: Seq<u8>) -> Seq<char>
    decreases bytes.len(),
{
    if bytes.len() == 0 {
        Seq::empty()
    } else {
        let before = percent_encoded(bytes.drop_last());
        let byte = bytes.last();
        if is_plain(byte) {
            before.push(byte as char)
        } else {
            before + seq!['%', hex_digit(byte / 16), hex_digit(byte % 16)]
        }
    }
}

/// `urlencoding::encode`, which percent-encodes the UTF-8 bytes of the text other
/// than ASCII letters and digits and `-`, `.`, `_`, `~`.
#[verifier::external_body]
fn encode(text: &str) -> (encoded: String)
    ensures
        encoded@ == percent_encoded(encode_utf8(text@)),
{
    urlencoding::encode(text).into_owned()
}

/// A text as it is written in an address.
pub open spec fn in_url(text: Seq<char>) -> Seq<char> {
    percent_encoded(encode_utf8(text))
}

/// The tier that the source is asked for: a bracket stands for itself and all
/// above it.
pub open spec fn tier_of(rank: Seq<char>) -> Seq<char> {
    if rank == "emerald"@ {
        "emerald_plus"@
    } else if rank == "diamond"@ {
        "diamond_plus"@
    } else if rank == "platinum"@ {
        "platinum_plus"@
    } else if rank == "gold"@ {
        "gold_plus"@
    } else {
        rank
    }
}

/// The tier that the source is asked for.
pub fn lolalytics_tier(rank: &str) -> (tier: String)
    ensures
        tier@ == tier_of(rank@),
{
    if same(rank, "emerald") {
        "emerald_plus".to_string()
    } else if same(rank, "diamond") {
        "diamond_plus".to_string()
    } else if same(rank, "platinum") {
        "platinum_plus".to_string()
    } else if same(rank, "gold") {
        "gold_plus".to_string()
    } else {
        rank.to_string()
    }
}

/// One more parameter of an address.
fn with(url: String, name: &str, value: &str) -> (longer: String)
    ensures
        longer@ == url@ + name@ + in_url(value@),
{
    concat(&concat(&url, name), &encode(value))
}

/// The patch as a parameter, where one is asked for.
pub open spec fn patch_part(patch: Option<Seq<char>>) -> Seq<char> {
    match patch {
        Some(patch) => "&patch="@ + in_url(patch),
        None => Seq::empty(),
    }
}

/// The text that is there, mathematically.
pub open spec fn opt_text(text: Option<&str>) -> Option<Seq<char>> {
    match text {
        Some(text) => Some(text@),
        None => None,
    }
}

fn with_patch(url: String, patch: Option<&str>) -> (longer: String)
    ensures
        longer@ == url@ + patch_part(opt_text(patch)),
{
    match patch {
        Some(patch) => {
            let longer = with(url, "&patch=", patch);
            assert(longer@ =~= url@ + patch_part(Some(patch@)));
            longer
        },
        None => {
            assert(url@ =~= url@ + patch_part(None));
            url
        },
    }
}

/// Where the list of a role's champions is, of one patch or of the source's own.
pub open spec fn list_address(
    patch: Option<Seq<char>>,
    role: Seq<char>,
    tier: Seq<char>,
) -> Seq<char> {
    "https://a1.lolalytics.com/mega/?ep=list&v=1"@ + patch_part(patch) + "&lane="@ + in_url(role)
        + "&tier="@ + in_url(tier) + "&queue=ranked&region=all"@
}

/// Where the list of a role's champions is, of one patch or of the source's own.
pub fn list_url(patch: Option<&str>, role: &str, tier: &str) -> (url: String)
    ensures
        url@ == list_address(opt_text(patch), role@, tier@),
{
    let mut url = "https://a1.lolalytics.com/mega/?ep=list&v=1".to_string();
    url = with_patch(url, patch);
    url = with(url, "&lane=", role);
    url = with(url, "&tier=", tier);
    concat(&url, "&queue=ranked&region=all")
}

/// Where the table of a champion's allies is.
pub open spec fn team_address(
    patch: Option<Seq<char>>,
    slug: Seq<char>,
    role: Seq<char>,
    tier: Seq<char>,
) -> Seq<char> {
    "https://a1.lolalytics.com/mega/?ep=build-team&v=1"@ + patch_part(patch) + "&c="@ + in_url(slug)
        + "&lane="@ + in_url(role) + "&tier="@ + in_url(tier) + "&queue=ranked&region=all"@
}

/// Where the table of a champion's allies is.
pub fn team_url(patch: Option<&str>, slug: &str, role: &str, tier: &str) -> (url: String)
    ensures
        url@ == team_address(opt_text(patch), slug@, role@, tier@),
{
    let mut url = "https://a1.lolalytics.com/mega/?ep=build-team&v=1".to_string();
    url = with_patch(url, patch);
    url = with(url, "&c=", slug);
    url = with(url, "&lane=", role);
    url = with(url, "&tier=", tier);
    concat(&url, "&queue=ranked&region=all")
}

/// Where the table of a champion's matchups against one role is.
pub open spec fn counter_address(
    patch: Option<Seq<char>>,
    slug: Seq<char>,
    role: Seq<char>,
    vs_role: Seq<char>,
    tier: Seq<char>,
) -> Seq<char> {
    "https://a1.lolalytics.com/mega/?ep=counter&v=1"@ + "&c="@ + in_url(slug) + "&lane="@ + in_url(
        role,
    ) + "&vslane="@ + in_url(vs_role) + "&tier="@ + in_url(tier) + "&queue=ranked&region=all"@
        + patch_part(patch)
}

/// Where the table of a champion's matchups against one role is.
pub fn counter_url(patch: Option<&str>, slug: &str, role: &str, vs_role: &str, tier: &str) -> (url:
    String)
    ensures
        url@ == counter_address(opt_text(patch), slug@, role@, vs_role@, tier@),
{
    let mut url = "https://a1.lolalytics.com/mega/?ep=counter&v=1".to_string();
    url = with(url, "&c=", slug);
    url = with(url, "&lane=", role);
    url = with(url, "&vslane=", vs_role);
    url = with(url, "&tier=", tier);
    url = concat(&url, "&queue=ranked&region=all");
    with_patch(url, patch)
}

/// Where a champion's build page is.
pub open spec fn build_address(slug: Seq<char>, role: Seq<char>, tier: Seq<char>) -> Seq<char> {
    "https://lolalytics.com/lol/"@ + in_url(slug) + "/build/?lane="@ + in_url(role) + "&tier="@
        + in_url(tier)
}

/// Where a champion's build page is.
pub fn build_url(slug: &str, role: &str, tier: &str) -> (url: String)
    ensures
        url@ == build_address(slug@, role@, tier@),
{
    let mut url = concat("https://lolalytics.com/lol/", &encode(slug));
    url = with(url, "/build/?lane=", role);
    with(url, "&tier=", tier)
}

} // verus!
