//! The persisted state of the engine, as one explicit value.
//!
//! The host loads this state before an operation and stores it afterwards;
//! the operations themselves are pure functions of it.

use crate::types::{Config, Flip, FlipScore, TodoFlip};
use vstd::prelude::*;

verus! {

/// How many settled flips the result history retains.
pub const FLIPS_HISTORY_LIMIT: usize = 5;

/// One row of the score table: the score of one account.
#[derive(Debug)]
pub struct ScoreEntry {
    pub wallet: String,
    pub score: FlipScore,
}

/// No two rows of a score table belong to the same account.
pub open spec fn distinct_wallets(s: Seq<ScoreEntry>) -> bool {
    forall|i: int, j: int| 0 <= i < j < s.len() ==> s[i].wallet@ != s[j].wallet@
}

/// The finite map a score table stands for.
pub open spec fn assoc_map(s: Seq<ScoreEntry>) -> Map<Seq<char>, FlipScore>
    decreases s.len(),
{
    if s.len() == 0 {
        Map::empty()
    } else {
        assoc_map(s.drop_last()).insert(s.last().wallet@, s.last().score)
    }
}

/// Every row of a distinct score table is visible in its map.
pub proof fn lemma_assoc_map_index(s: Seq<ScoreEntry>, i: int)
    requires
        distinct_wallets(s),
        0 <= i < s.len(),
    ensures
        assoc_map(s).contains_key(s[i].wallet@),
        assoc_map(s)[s[i].wallet@] == s[i].score,
    decreases s.len(),
{
    if i < s.len() - 1 {
        assert(distinct_wallets(s.drop_last()));
        lemma_assoc_map_index(s.drop_last(), i);
        assert(s[i].wallet@ != s.last().wallet@);
    }
}

/// An account on no row of a score table is absent from its map.
pub proof fn lemma_assoc_map_absent(s: Seq<ScoreEntry>, w: Seq<char>)
    requires
        forall|i: int| 0 <= i < s.len() ==> s[i].wallet@ != w,
    ensures
        !assoc_map(s).contains_key(w),
    decreases s.len(),
{
    if s.len() > 0 {
        lemma_assoc_map_absent(s.drop_last(), w);
    }
}

/// Replacing the score on one row updates the map at that account alone.
pub proof fn lemma_assoc_map_update(s: Seq<ScoreEntry>, i: int, v: ScoreEntry)
    requires
        distinct_wallets(s),
        0 <= i < s.len(),
        v.wallet@ == s[i].wallet@,
    ensures
        assoc_map(s.update(i, v)) =~= assoc_map(s).insert(v.wallet@, v.score),
        distinct_wallets(s.update(i, v)),
    decreases s.len(),
{
    let t = s.update(i, v);
    assert(distinct_wallets(t));
    if i == s.len() - 1 {
        assert(t.drop_last() =~= s.drop_last());
    } else {
        assert(t.drop_last() =~= s.drop_last().update(i, v));
        assert(distinct_wallets(s.drop_last()));
        lemma_assoc_map_update(s.drop_last(), i, v);
        assert(s[i].wallet@ != s.last().wallet@);
        assert(t.last() == s.last());
    }
}

/// Appending a row for a fresh account inserts it into the map.
pub proof fn lemma_assoc_map_push(s: Seq<ScoreEntry>, v: ScoreEntry)
    requires
        distinct_wallets(s),
        forall|i: int| 0 <= i < s.len() ==> s[i].wallet@ != v.wallet@,
    ensures
        assoc_map(s.push(v)) == assoc_map(s).insert(v.wallet@, v.score),
        distinct_wallets(s.push(v)),
{
    assert(s.push(v).drop_last() =~= s);
}

/// The row of one account in the score table, if there is one.
pub fn find_score_index(scores: &Vec<ScoreEntry>, wallet: &String) -> (r: Option<usize>)
    ensures
        r matches Some(i) ==> i < scores.len() && scores@[i as int].wallet@ == wallet@,
        r is None ==> forall|k: int| 0 <= k < scores.len() ==> scores@[k].wallet@ != wallet@,
{
    let n = scores.len();
    let mut i: usize = 0;
    while i < n
        invariant
            i <= n,
            n == scores.len(),
            forall|k: int| 0 <= k < i ==> scores@[k].wallet@ != wallet@,
        decreases n - i,
    {
        if scores[i].wallet == *wallet {
            return Some(i);
        }
        i = i + 1;
    }
    None
}

/// The whole persisted state of the engine.
#[derive(Debug)]
pub struct FlipState {
    pub config: Config,
    pub fees: u128,
    pub flips: Vec<Flip>,
    pub todo_flips: Vec<TodoFlip>,
    pub scores: Vec<ScoreEntry>,
    pub flip_id: Option<u64>,
}

impl FlipState {
    /// The score map this state stands for.
    pub open spec fn scores_map(&self) -> Map<Seq<char>, FlipScore> {
        assoc_map(self.scores@)
    }

    /// The state invariant every operation preserves:
    /// - the configuration is usable,
    /// - the result history never exceeds its limit,
    /// - each account has at most one row in the score table,
    /// - each account has at most one pending wager, and
    /// - every queued stake passed the bet-limit checks.
    pub open spec fn wf(&self) -> bool {
        &&& self.config.wf()
        &&& self.flips.len() <= FLIPS_HISTORY_LIMIT
        &&& distinct_wallets(self.scores@)
        &&& forall|i: int, j: int|
            0 <= i < j < self.todo_flips.len() ==> self.todo_flips[i].wallet@
                != self.todo_flips[j].wallet@
        &&& forall|i: int|
            0 <= i < self.todo_flips.len() ==> crate::contract::MIN_BET
                <= #[trigger] self.todo_flips[i].amount.amount <= crate::contract::MAX_BET
    }
}

/// The id of the last wager created, if any was.
pub fn get_flip_id(state: &FlipState) -> (r: Option<u64>)
    ensures
        r == state.flip_id,
{
    state.flip_id
}

/// The id the next wager will get: zero at first, then always one more.
pub fn get_next_flip_id(state: &FlipState) -> (r: u64)
    requires
        state.flip_id matches Some(id) ==> id < u64::MAX,
    ensures
        r == match state.flip_id {
            Some(id) => id + 1,
            None => 0,
        },
{
    match state.flip_id {
        Some(id) => id + 1,
        None => 0,
    }
}

} // verus!
