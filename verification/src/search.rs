//! Shaping of store search results: the engine reads each raw item as
//! plain values and keeps, of the first few, exactly those that carry
//! both a numeric id and a name.
use vstd::prelude::*;
use crate::models::clone_opt_string;
use crate::text::{dec_digits, u64_to_string};

verus! {

/// How many search results are offered at most.
pub const SEARCH_RESULT_LIMIT: usize = 10;

/// One game offered to the caller.
pub struct SteamGameResult {
    pub app_id: String,
    pub name: String,
    pub icon: Option<String>,
}

/// The mathematical value of a shaped search result.
pub struct GameView {
    pub app_id: Seq<char>,
    pub name: Seq<char>,
    pub icon: Option<Seq<char>>,
}

impl View for SteamGameResult {
    type V = GameView;

    open spec fn view(&self) -> GameView {
        GameView {
            app_id: self.app_id@,
            name: self.name@,
            icon: crate::models::opt_str_view(self.icon),
        }
    }
}

/// One raw search item as plain values: what the engine reads of it —
/// a numeric id, a name and a thumbnail, each possibly missing.
pub struct GameEntry {
    pub id: Option<u64>,
    pub name: Option<String>,
    pub icon: Option<String>,
}

/// The mathematical value of a raw search item.
pub struct EntryView {
    pub id: Option<u64>,
    pub name: Option<Seq<char>>,
    pub icon: Option<Seq<char>>,
}

impl View for GameEntry {
    type V = EntryView;

    open spec fn view(&self) -> EntryView {
        EntryView {
            id: self.id,
            name: crate::models::opt_str_view(self.name),
            icon: crate::models::opt_str_view(self.icon),
        }
    }
}

pub open spec fn entry_views(v: Seq<GameEntry>) -> Seq<EntryView> {
    v.map_values(|e: GameEntry| e@)
}

pub open spec fn game_views(v: Seq<SteamGameResult>) -> Seq<GameView> {
    v.map_values(|g: SteamGameResult| g@)
}

/// An item is kept exactly when it has an id and a name; the id is
/// rendered in decimal.
pub open spec fn shape_one(e: EntryView) -> Option<GameView> {
    if e.id is Some && e.name is Some {
        Option::Some(
            GameView { app_id: dec_digits(e.id.unwrap() as int), name: e.name.unwrap(), icon: e.icon },
        )
    } else {
        Option::None
    }
}

/// The shaped results of the first `k` raw items, in order.
pub open spec fn shape_limit(s: Seq<EntryView>, k: int) -> Seq<GameView>
    decreases s.len(),
{
    if s.len() == 0 || k <= 0 {
        Seq::empty()
    } else {
        let rest = shape_limit(s.drop_first(), k - 1);
        match shape_one(s[0]) {
            Option::Some(g) => seq![g] + rest,
            Option::None => rest,
        }
    }
}

proof fn lemma_shape_limit_step(s: Seq<EntryView>, i: int, k: int)
    requires
        0 <= i < s.len(),
        i < k,
    ensures
        shape_limit(s.skip(i), k - i) == match shape_one(s[i]) {
            Option::Some(g) => seq![g] + shape_limit(s.skip(i + 1), k - i - 1),
            Option::None => shape_limit(s.skip(i + 1), k - i - 1),
        },
{
    assert(s.skip(i).len() == s.len() - i);
    assert(s.skip(i)[0] == s[i]);
    assert(s.skip(i).drop_first() =~= s.skip(i + 1));
}

/// Keep, of the first few raw items, those with an id and a name.
pub fn shape_search_results(items: &Vec<GameEntry>) -> (r: Vec<SteamGameResult>)
    ensures
        game_views(r@) == shape_limit(entry_views(items@), SEARCH_RESULT_LIMIT as int),
{
    let ghost full: Seq<EntryView> = entry_views(items@);
    let ghost limit: int = SEARCH_RESULT_LIMIT as int;
    let n = items.len();
    let mut out: Vec<SteamGameResult> = Vec::new();
    let mut i: usize = 0;
    proof {
        assert(full.skip(0) =~= full);
        assert(game_views(out@) =~= Seq::<GameView>::empty());
    }
    while i < n && i < SEARCH_RESULT_LIMIT
        invariant
            0 <= i <= n,
            i <= SEARCH_RESULT_LIMIT,
            n == items@.len(),
            full == entry_views(items@),
            limit == SEARCH_RESULT_LIMIT as int,
            shape_limit(full, limit) == game_views(out@) + shape_limit(
                full.skip(i as int),
                limit - i,
            ),
        decreases n - i,
    {
        let ghost pre_out = out@;
        proof {
            lemma_shape_limit_step(full, i as int, limit);
        }
        let kept: bool;
        match (&items[i].id, &items[i].name) {
            (Option::Some(id), Option::Some(nm)) => {
                let g = SteamGameResult {
                    app_id: u64_to_string(*id),
                    name: nm.clone(),
                    icon: clone_opt_string(&items[i].icon),
                };
                proof {
                    assert(Option::Some(g@) == shape_one(full[i as int]));
                }
                out.push(g);
                kept = true;
            },
            _ => {
                proof {
                    assert(shape_one(full[i as int]) is None);
                }
                kept = false;
            },
        }
        proof {
            if kept {
                let gv = shape_one(full[i as int]).unwrap();
                assert(game_views(out@) =~= game_views(pre_out).push(gv));
                assert(game_views(pre_out).push(gv) =~= game_views(pre_out) + seq![gv]);
                assert(game_views(pre_out) + seq![gv] + shape_limit(full.skip(i + 1), limit - i - 1)
                    =~= game_views(pre_out) + (seq![gv] + shape_limit(
                    full.skip(i + 1),
                    limit - i - 1,
                )));
            }
        }
        i += 1;
    }
    proof {
        if i == n {
            assert(full.skip(i as int) =~= Seq::<EntryView>::empty());
        }
        assert(shape_limit(full.skip(i as int), limit - i) =~= Seq::<GameView>::empty());
        assert(game_views(out@) + Seq::<GameView>::empty() =~= game_views(out@));
    }
    out
}

} // verus!
