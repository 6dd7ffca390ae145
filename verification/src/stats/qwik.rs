//! The matchup tables that a Lolalytics build page carries in its Qwik state.
//!
//! The state is a list of objects that point to one another by their place in
//! the list, written in base 36. Rows are `[id, wr, d1, d2, pr, n]`.
use crate::json::{document, parse_json, part, trees, Json, Tree};
use crate::number::{Real, EIGHTY, TWENTY};
use crate::text::{
    chars_of, find_from, first_from, natural, parse_natural, same, slice_string, trim,
    trim_start_char, trimmed, unprefixed,
};
use vstd::prelude::*;

verus! {

/// What stands before the state in the page.
pub const SCRIPT_TAG: &'static str = "<script type=\"qwik/json\">";

/// What stands after the state in the page.
pub const SCRIPT_END: &'static str = "</script>";

/// One matchup of a table.
#[derive(Debug, Clone, Copy)]
pub struct MatchupRow {
    pub champion_id: i64,
    pub winrate: Real,
    /// The win rate's distance from what was to be expected; where the row gives
    /// none, its distance from 50.
    pub delta: Option<Real>,
    pub games: i64,
}

/// The matchups against each role.
#[derive(Debug)]
pub struct EnemyTables {
    pub top: Vec<MatchupRow>,
    pub jungle: Vec<MatchupRow>,
    pub middle: Vec<MatchupRow>,
    pub bottom: Vec<MatchupRow>,
    pub support: Vec<MatchupRow>,
}

impl Default for EnemyTables {
    fn default() -> (tables: Self)
        ensures
            tables.blank(),
    {
        EnemyTables {
            top: Vec::new(),
            jungle: Vec::new(),
            middle: Vec::new(),
            bottom: Vec::new(),
            support: Vec::new(),
        }
    }
}

/// The rows, each with the role that it is about.
pub open spec fn labelled(role: &'static str, rows: Seq<MatchupRow>) -> Seq<
    (&'static str, MatchupRow),
> {
    Seq::new(rows.len(), |i: int| (role, rows[i]))
}

impl EnemyTables {
    /// There is no row in any table.
    pub open spec fn blank(self) -> bool {
        &&& self.top@.len() == 0
        &&& self.jungle@.len() == 0
        &&& self.middle@.len() == 0
        &&& self.bottom@.len() == 0
        &&& self.support@.len() == 0
    }

    /// The table for a role; the one for the middle where the role is not known.
    pub open spec fn table(self, role: Seq<char>) -> Seq<MatchupRow> {
        if role == "top"@ {
            self.top@
        } else if role == "jungle"@ {
            self.jungle@
        } else if role == "bottom"@ {
            self.bottom@
        } else if role == "support"@ {
            self.support@
        } else {
            self.middle@
        }
    }

    /// All rows, each with the role that it is about.
    pub open spec fn labelled_rows(self) -> Seq<(&'static str, MatchupRow)> {
        labelled("top", self.top@) + labelled("jungle", self.jungle@) + labelled(
            "middle",
            self.middle@,
        ) + labelled("bottom", self.bottom@) + labelled("support", self.support@)
    }

    /// Whether there is no row in any table.
    pub fn is_empty(&self) -> (r: bool)
        ensures
            r == self.blank(),
    {
        self.top.len() == 0 && self.jungle.len() == 0 && self.middle.len() == 0
            && self.bottom.len() == 0 && self.support.len() == 0
    }

    /// The table for a role; the one for the middle where the role is not known.
    pub fn for_role(&self, role: &str) -> (rows: &Vec<MatchupRow>)
        ensures
            rows@ == self.table(role@),
    {
        if same(role, "top") {
            &self.top
        } else if same(role, "jungle") {
            &self.jungle
        } else if same(role, "bottom") {
            &self.bottom
        } else if same(role, "support") {
            &self.support
        } else {
            &self.middle
        }
    }

    /// All rows, each with the role that it is about.
    pub fn all_rows(&self) -> (rows: Vec<(&'static str, MatchupRow)>)
        ensures
            rows@ == self.labelled_rows(),
    {
        let mut rows: Vec<(&'static str, MatchupRow)> = Vec::new();
        add_labelled(&mut rows, "top", &self.top);
        add_labelled(&mut rows, "jungle", &self.jungle);
        add_labelled(&mut rows, "middle", &self.middle);
        add_labelled(&mut rows, "bottom", &self.bottom);
        add_labelled(&mut rows, "support", &self.support);
        rows
    }
}

fn add_labelled(
    rows: &mut Vec<(&'static str, MatchupRow)>,
    role: &'static str,
    table: &Vec<MatchupRow>,
)
    ensures
        final(rows)@ == old(rows)@ + labelled(role, table@),
{
    for i in 0..table.len()
        invariant
            rows@ == old(rows)@ + labelled(role, table@.take(i as int)),
    {
        rows.push((role, table[i]));
        assert(rows@ =~= old(rows)@ + labelled(role, table@.take(i + 1)));
    }
    assert(table@.take(table@.len() as int) =~= table@);
}

// ------------------------------------------------------------ the page

/// The state that a page carries.
pub open spec fn script_text(html: Seq<char>) -> Option<Seq<char>> {
    match first_from(html, SCRIPT_TAG@, 0) {
        Some(tag) => {
            let start = tag + SCRIPT_TAG@.len();
            match first_from(html, SCRIPT_END@, start) {
                Some(end) => Some(trimmed(unprefixed(html.subrange(start, end), '\u{feff}'))),
                None => None,
            }
        },
        None => None,
    }
}

/// The state that a page carries.
pub fn extract_qwik_json(html: &str) -> (state: Option<String>)
    ensures
        match state {
            Some(text) => script_text(html@) == Some(text@),
            None => script_text(html@) is None,
        },
{
    let chars = chars_of(html);
    let tag = chars_of(SCRIPT_TAG);
    match find_from(&chars, SCRIPT_TAG, 0) {
        Some(at) => {
            assert(at + tag@.len() <= chars.len());
            let start = at + tag.len();
            match find_from(&chars, SCRIPT_END, start) {
                Some(end) => Some(
                    trim(&trim_start_char(&slice_string(&chars, start, end), '\u{feff}')),
                ),
                None => None,
            }
        },
        None => None,
    }
}

// ------------------------------------------------------------ the objects

/// The object that a token points to.
pub open spec fn referred(objs: Seq<Tree>, token: Seq<char>) -> Option<Tree> {
    match natural(token, 36) {
        Some(n) => if n < objs.len() {
            Some(objs[n as int])
        } else {
            None
        },
        None => None,
    }
}

/// The object that a token points to.
pub fn deref<'a>(objs: &'a Vec<Json>, token: &str) -> (obj: Option<&'a Json>)
    ensures
        part(obj) == referred(trees(objs@), token@),
{
    let count = objs.len() as u64;
    match parse_natural(token, 36, u64::MAX) {
        Some(n) => {
            if n < count {
                assert(trees(objs@)[n as int] == objs@[n as int]@);
                Some(&objs[n as usize])
            } else {
                None
            }
        },
        None => None,
    }
}

/// The text under `enemy` in the first object that has one there.
pub open spec fn enemy_token(objs: Seq<Tree>) -> Option<Seq<char>>
    decreases objs.len(),
{
    if objs.len() == 0 {
        None
    } else {
        match objs[0].field("enemy"@) {
            Some(Tree::Text(token)) => Some(token),
            _ => enemy_token(objs.drop_first()),
        }
    }
}

/// The text under `enemy` in the first object that has one there.
pub fn find_enemy_ref(objs: &Vec<Json>) -> (token: Option<String>)
    ensures
        match token {
            Some(text) => enemy_token(trees(objs@)) == Some(text@),
            None => enemy_token(trees(objs@)) is None,
        },
{
    let ghost all = trees(objs@);
    assert(all.subrange(0, all.len() as int) =~= all);
    for i in 0..objs.len()
        invariant
            all == trees(objs@),
            enemy_token(all) == enemy_token(all.subrange(i as int, all.len() as int)),
    {
        let ghost rest = all.subrange(i as int, all.len() as int);
        assert(rest[0] == objs@[i as int]@);
        assert(rest.drop_first() =~= all.subrange(i + 1, all.len() as int));
        if let Some(Json::Text(token)) = objs[i].get("enemy") {
            return Some(token.clone());
        }
    }
    None
}

/// What a node stands for: where it is a text the object that it points to, if
/// there is one.
pub open spec fn followed(objs: Seq<Tree>, node: Tree) -> Option<Tree> {
    match node {
        Tree::Text(token) => referred(objs, token),
        _ => Some(node),
    }
}

/// The matchup that a row writes down: at least six cells, a number for the
/// champion, a win rate from 20 to 80 and a count of games.
pub open spec fn row_of(tree: Tree) -> Option<MatchupRow> {
    match tree.items() {
        Some(cells) => if cells.len() < 6 {
            None
        } else {
            match (cells[0].rough_whole(), cells[1].value(), cells[5].rough_whole()) {
                (Some(id), Some(winrate), Some(games)) => if id > 0 && winrate.ge(
                    Real { bits: TWENTY },
                ) && (Real { bits: EIGHTY }).ge(winrate) {
                    Some(
                        MatchupRow {
                            champion_id: id as i64,
                            winrate,
                            delta: cells[2].value(),
                            games: games as i64,
                        },
                    )
                } else {
                    None
                },
                _ => None,
            }
        },
        None => None,
    }
}

/// The matchup that a row writes down.
pub fn parse_row(value: &Json) -> (row: Option<MatchupRow>)
    ensures
        row == row_of(value@),
{
    let cells = match value.as_array() {
        Some(cells) => cells,
        None => {
            return None;
        },
    };
    if cells.len() < 6 {
        return None;
    }
    assert(trees(cells@)[0] == cells@[0]@);
    assert(trees(cells@)[1] == cells@[1]@);
    assert(trees(cells@)[2] == cells@[2]@);
    assert(trees(cells@)[5] == cells@[5]@);
    match (cells[0].as_rough_i64(), cells[1].as_value(), cells[5].as_rough_i64()) {
        (Some(champion_id), Some(winrate), Some(games)) => {
            if champion_id > 0 && winrate.at_least(Real { bits: TWENTY }) && (Real {
                bits: EIGHTY,
            }).at_least(winrate) {
                Some(MatchupRow { champion_id, winrate, delta: cells[2].as_value(), games })
            } else {
                None
            }
        },
        _ => None,
    }
}

/// The matchups of the rows that can be read. A row that points nowhere is taken
/// as it stands.
pub open spec fn rows_in(objs: Seq<Tree>, items: Seq<Tree>) -> Seq<MatchupRow>
    decreases items.len(),
{
    if items.len() == 0 {
        Seq::empty()
    } else {
        let before = rows_in(objs, items.drop_last());
        let item = items.last();
        let row = match followed(objs, item) {
            Some(tree) => row_of(tree),
            None => row_of(item),
        };
        match row {
            Some(row) => before.push(row),
            None => before,
        }
    }
}

/// The matchups of a table; none where there is no table.
pub open spec fn rows_of(objs: Seq<Tree>, node: Option<Tree>) -> Seq<MatchupRow> {
    match node {
        Some(node) => match followed(objs, node) {
            Some(table) => match table.items() {
                Some(items) => rows_in(objs, items),
                None => Seq::empty(),
            },
            None => Seq::empty(),
        },
        None => Seq::empty(),
    }
}

fn follow<'a>(objs: &'a Vec<Json>, node: &'a Json) -> (found: Option<&'a Json>)
    ensures
        part(found) == followed(trees(objs@), node@),
{
    match node {
        Json::Text(token) => deref(objs, token),
        _ => Some(node),
    }
}

/// The matchups of a table; none where there is no table.
pub fn resolve_rows(objs: &Vec<Json>, node: Option<&Json>) -> (rows: Vec<MatchupRow>)
    ensures
        rows@ == rows_of(trees(objs@), part(node)),
{
    let mut rows: Vec<MatchupRow> = Vec::new();
    let node = match node {
        Some(node) => node,
        None => {
            return rows;
        },
    };
    let table = match follow(objs, node) {
        Some(table) => table,
        None => {
            return rows;
        },
    };
    let items = match table.as_array() {
        Some(items) => items,
        None => {
            return rows;
        },
    };
    let ghost all = trees(items@);
    for i in 0..items.len()
        invariant
            all == trees(items@),
            rows@ == rows_in(trees(objs@), all.take(i as int)),
    {
        let item = &items[i];
        assert(all.take(i + 1).drop_last() =~= all.take(i as int));
        assert(all.take(i + 1).last() == item@);
        let row = match follow(objs, item) {
            Some(found) => parse_row(found),
            None => parse_row(item),
        };
        if let Some(row) = row {
            rows.push(row);
        }
    }
    assert(all.take(all.len() as int) =~= all);
    rows
}

// ------------------------------------------------------------ the tables

/// The object that holds the tables, in the list of objects.
pub open spec fn enemy_object(root: Tree) -> Option<(Seq<Tree>, Tree)> {
    match root.field("objs"@) {
        Some(list) => match list.items() {
            Some(objs) => match enemy_token(objs) {
                Some(token) => match referred(objs, token) {
                    Some(object) => Some((objs, object)),
                    None => None,
                },
                None => None,
            },
            None => None,
        },
        None => None,
    }
}

impl EnemyTables {
    /// The tables are those of the object.
    pub open spec fn read_from(self, objs: Seq<Tree>, object: Tree) -> bool {
        &&& self.top@ == rows_of(objs, object.field("top"@))
        &&& self.jungle@ == rows_of(objs, object.field("jungle"@))
        &&& self.middle@ == rows_of(objs, object.field("middle"@))
        &&& self.bottom@ == rows_of(objs, object.field("bottom"@))
        &&& self.support@ == rows_of(objs, object.field("support"@))
    }
}

/// The object has no row for any role.
pub open spec fn no_rows(objs: Seq<Tree>, object: Tree) -> bool {
    &&& rows_of(objs, object.field("top"@)).len() == 0
    &&& rows_of(objs, object.field("jungle"@)).len() == 0
    &&& rows_of(objs, object.field("middle"@)).len() == 0
    &&& rows_of(objs, object.field("bottom"@)).len() == 0
    &&& rows_of(objs, object.field("support"@)).len() == 0
}

/// `tables` is what a state says of matchups: the tables of its enemy object, so
/// long as there is a row in one of them.
pub open spec fn are_tables_of(tables: Option<EnemyTables>, root: Tree) -> bool {
    match enemy_object(root) {
        Some((objs, object)) => match tables {
            Some(t) => t.read_from(objs, object) && !no_rows(objs, object),
            None => no_rows(objs, object),
        },
        None => tables is None,
    }
}

/// The rows that a state has for each role.
pub open spec fn rows_in_state(root: Tree) -> Seq<(&'static str, MatchupRow)> {
    match enemy_object(root) {
        Some((objs, object)) => labelled("top", rows_of(objs, object.field("top"@))) + labelled(
            "jungle",
            rows_of(objs, object.field("jungle"@)),
        ) + labelled("middle", rows_of(objs, object.field("middle"@))) + labelled(
            "bottom",
            rows_of(objs, object.field("bottom"@)),
        ) + labelled("support", rows_of(objs, object.field("support"@))),
        None => Seq::empty(),
    }
}

/// The rows that a build page has for each role.
pub open spec fn rows_on_page(html: Seq<char>) -> Seq<(&'static str, MatchupRow)> {
    match script_text(html) {
        Some(text) => match document(text) {
            Some(root) => rows_in_state(root),
            None => Seq::empty(),
        },
        None => Seq::empty(),
    }
}

/// The tables of a state hold all its rows, and where there are no tables there
/// is no row.
pub proof fn law_tables_hold_all_rows(tables: Option<EnemyTables>, root: Tree)
    requires
        are_tables_of(tables, root),
    ensures
        match tables {
            Some(t) => t.labelled_rows() == rows_in_state(root) && rows_in_state(root).len() > 0,
            None => rows_in_state(root) == Seq::<(&'static str, MatchupRow)>::empty(),
        },
{
    if tables is None {
        assert(rows_in_state(root) =~= Seq::empty());
    }
}

/// What a state says of matchups.
pub fn enemy_tables(root: &Json) -> (tables: Option<EnemyTables>)
    ensures
        are_tables_of(tables, root@),
{
    let objs = match root.get("objs") {
        Some(list) => match list.as_array() {
            Some(objs) => objs,
            None => {
                return None;
            },
        },
        None => {
            return None;
        },
    };
    let token = match find_enemy_ref(objs) {
        Some(token) => token,
        None => {
            return None;
        },
    };
    let object = match deref(objs, &token) {
        Some(object) => object,
        None => {
            return None;
        },
    };
    let tables = EnemyTables {
        top: resolve_rows(objs, object.get("top")),
        jungle: resolve_rows(objs, object.get("jungle")),
        middle: resolve_rows(objs, object.get("middle")),
        bottom: resolve_rows(objs, object.get("bottom")),
        support: resolve_rows(objs, object.get("support")),
    };
    if tables.is_empty() {
        None
    } else {
        Some(tables)
    }
}

/// The matchup tables of a build page.
pub fn parse_enemy_matchups(html: &str) -> (tables: Option<EnemyTables>)
    ensures
        match script_text(html@) {
            Some(text) => match document(text) {
                Some(root) => are_tables_of(tables, root),
                None => tables is None,
            },
            None => tables is None,
        },
{
    match extract_qwik_json(html) {
        Some(text) => match parse_json(&text) {
            Some(root) => enemy_tables(&root),
            None => None,
        },
        None => None,
    }
}

// ------------------------------------------------------------ laws

/// A row tells the champion in its first cell, the win rate and the edge in the second and
/// third and the games in the sixth; it counts where the champion's number is above zero
/// and the win rate lies from 20 to 80, both included.
pub proof fn law_row(tree: Tree, cells: Seq<Tree>)
    requires
        tree == Tree::Array(cells),
    ensures
        match row_of(tree) {
            Some(row) => {
                &&& cells.len() >= 6
                &&& cells[0].rough_whole() == Some(row.champion_id as int)
                &&& row.champion_id > 0
                &&& cells[1].value() == Some(row.winrate)
                &&& !row.winrate.is_nan()
                &&& (Real { bits: 0x4034_0000_0000_0000 }).scaled() <= row.winrate.scaled() <= (
                Real { bits: 0x4054_0000_0000_0000 }).scaled()
                &&& row.delta == cells[2].value()
                &&& cells[5].rough_whole() == Some(row.games as int)
            },
            None => {
                ||| cells.len() < 6
                ||| cells[0].rough_whole() is None || cells[0].rough_whole()->0 <= 0
                ||| cells[5].rough_whole() is None
                ||| cells[1].value() is None
                ||| cells[1].value()->0.is_nan()
                ||| cells[1].value()->0.scaled() < (Real { bits: 0x4034_0000_0000_0000 }).scaled()
                ||| cells[1].value()->0.scaled() > (Real { bits: 0x4054_0000_0000_0000 }).scaled()
            },
        },
{
    assert(!(Real { bits: 0x4034_0000_0000_0000 }).is_nan());
    assert(!(Real { bits: 0x4054_0000_0000_0000 }).is_nan());
}

/// Every row of a table that counts is there, in order: what its item points to, or the
/// item itself where it points nowhere.
pub proof fn law_rows(objs: Seq<Tree>, items: Seq<Tree>, item: Tree)
    ensures
        rows_in(objs, Seq::empty()).len() == 0,
        ({
            let seen = match item {
                Tree::Text(token) => match referred(objs, token) {
                    Some(tree) => tree,
                    None => item,
                },
                _ => item,
            };
            match row_of(seen) {
                Some(row) => rows_in(objs, items.push(item)) == rows_in(objs, items).push(row),
                None => rows_in(objs, items.push(item)) == rows_in(objs, items),
            }
        }),
{
    assert(items.push(item).drop_last() =~= items);
}

/// A token points to the object at its number, read to the base of 36.
pub proof fn law_tokens(objs: Seq<Tree>, token: Seq<char>, n: nat)
    ensures
        natural(token, 36) == Some(n) && n < objs.len() ==> referred(objs, token) == Some(
            objs[n as int],
        ),
        natural(token, 36) == Some(n) && n >= objs.len() ==> referred(objs, token) is None,
        natural(token, 36) is None ==> referred(objs, token) is None,
{
}

/// The tables of the enemies are those that the first object with a text under `enemy`
/// points to.
pub proof fn law_enemy_token(objs: Seq<Tree>, at: int, token: Seq<char>)
    requires
        0 <= at < objs.len(),
        objs[at].field("enemy"@) == Some(Tree::Text(token)),
        forall|j: int|
            0 <= j < at ==> !((#[trigger] objs[j]).field("enemy"@) matches Some(Tree::Text(_))),
    ensures
        enemy_token(objs) == Some(token),
    decreases at,
{
    if at > 0 {
        let rest = objs.drop_first();
        assert(rest[at - 1] == objs[at]);
        assert forall|j: int| 0 <= j < at - 1 implies !((#[trigger] rest[j]).field(
            "enemy"@,
        ) matches Some(Tree::Text(_))) by {
            assert(rest[j] == objs[j + 1]);
        }
        law_enemy_token(rest, at - 1, token);
        assert(!(objs[0].field("enemy"@) matches Some(Tree::Text(_))));
    }
}

/// Each row of a page is told with the role whose table it stands in: the one that the
/// tables keep under that role's own name.
pub proof fn law_rows_by_role(tables: EnemyTables, root: Tree, objs: Seq<Tree>, object: Tree)
    requires
        are_tables_of(Some(tables), root),
        enemy_object(root) == Some((objs, object)),
    ensures
        tables.table("top"@) == rows_of(objs, object.field("top"@)),
        tables.table("jungle"@) == rows_of(objs, object.field("jungle"@)),
        tables.table("middle"@) == rows_of(objs, object.field("middle"@)),
        tables.table("bottom"@) == rows_of(objs, object.field("bottom"@)),
        tables.table("support"@) == rows_of(objs, object.field("support"@)),
        forall|i: int|
            0 <= i < rows_in_state(root).len() ==> tables.table(
                (#[trigger] rows_in_state(root)[i]).0@,
            ).contains(rows_in_state(root)[i].1),
        rows_in_state(root).len() == tables.top@.len() + tables.jungle@.len() + tables.middle@.len()
            + tables.bottom@.len() + tables.support@.len(),
{
    reveal_strlit("top");
    reveal_strlit("jungle");
    reveal_strlit("middle");
    reveal_strlit("bottom");
    reveal_strlit("support");
    assert("top"@[0] == 't' && "jungle"@[0] == 'j' && "middle"@[0] == 'm' && "bottom"@[0] == 'b'
        && "support"@[0] == 's');
    let rows = rows_in_state(root);
    let (a, b, c, d) = (
        tables.top@.len(),
        tables.jungle@.len(),
        tables.middle@.len(),
        tables.bottom@.len(),
    );
    assert forall|i: int| 0 <= i < rows.len() implies tables.table(
        (#[trigger] rows[i]).0@,
    ).contains(rows[i].1) by {
        if i < a {
            assert(rows[i] == ("top", tables.top@[i]));
        } else if i < a + b {
            assert(rows[i] == ("jungle", tables.jungle@[i - a]));
        } else if i < a + b + c {
            assert(rows[i] == ("middle", tables.middle@[i - a - b]));
        } else if i < a + b + c + d {
            assert(rows[i] == ("bottom", tables.bottom@[i - a - b - c]));
        } else {
            assert(rows[i] == ("support", tables.support@[i - a - b - c - d]));
        }
    }
}

/// The state of a page is what stands between the first tag of its kind and the first end
/// of a script behind it, without a byte order mark and white space around it; a page
/// without the two has none.
pub proof fn law_script(html: Seq<char>, tag: int, end: int)
    ensures
        ({
            let begin = "<script type=\"qwik/json\">"@;
            &&& first_from(html, begin, 0) == Some(tag) && first_from(
                html,
                "</script>"@,
                tag + begin.len(),
            ) == Some(end) ==> script_text(html) == Some(
                trimmed(unprefixed(html.subrange(tag + begin.len(), end), '\u{feff}')),
            )
            &&& first_from(html, begin, 0) is None ==> script_text(html) is None
            &&& first_from(html, begin, 0) == Some(tag) && first_from(
                html,
                "</script>"@,
                tag + begin.len(),
            ) is None ==> script_text(html) is None
        }),
{
}

} // verus!
