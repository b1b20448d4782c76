//! Walking a board's post IDs: where to resume, how far to go, and when a run
//! of missing posts ends the scan.
use vstd::prelude::*;

use crate::error::DownloaderError;
use crate::text::{chars_of, parse_usize, parse_usize_spec, split_chars, split_seq, string_views, views};

verus! {

/// The post ID that an archive entry's name embeds: its fourth `_`-separated field.
pub open spec fn name_id(name: Seq<char>) -> Option<usize> {
    let f = split_seq(name, '_');
    if f.len() > 3 {
        parse_usize_spec(f[3])
    } else {
        None
    }
}

/// The largest ID that the names embed, or 0 where none does.
pub open spec fn max_id(names: Seq<Seq<char>>) -> nat
    decreases names.len(),
{
    if names.len() == 0 {
        0
    } else {
        let m = max_id(names.drop_last());
        match name_id(names.last()) {
            Some(id) => if id as nat > m {
                id as nat
            } else {
                m
            },
            None => m,
        }
    }
}

/// The ID of the first post to fetch, given the names of the entries already
/// archived: one past the largest embedded ID, or 1 where there is none. `None`
/// where the largest ID is `usize::MAX`, which has no successor.
pub fn get_first_id(names: &Vec<String>) -> (r: Option<usize>)
    ensures
        max_id(string_views(names@)) < usize::MAX ==> r == Some((max_id(string_views(names@)) + 1) as usize),
        max_id(string_views(names@)) >= usize::MAX ==> r is None,
{
    let ghost nv = string_views(names@);
    let mut m: usize = 0;
    let mut i: usize = 0;
    while i < names.len()
        invariant
            i <= names.len(),
            nv == string_views(names@),
            m as nat == max_id(nv.take(i as int)),
        decreases names.len() - i,
    {
        let ghost t = nv.take(i + 1);
        assert(t.drop_last() =~= nv.take(i as int));
        assert(t.last() == names@[i as int]@);
        let text = chars_of(names[i].as_str());
        let fields = split_chars(&text, '_');
        if fields.len() > 3 {
            assert(views(fields@)[3] == fields@[3]@);
            match parse_usize(&fields[3]) {
                Some(id) => {
                    if id > m {
                        m = id;
                    }
                },
                None => {},
            }
        }
        i = i + 1;
    }
    assert(nv.take(i as int) =~= nv);
    if m == usize::MAX {
        None
    } else {
        Some(m + 1)
    }
}

/// One post of a board listing.
#[derive(Debug, Clone)]
pub struct CafeArticle {
    pub dataid: usize,
    pub board: String,
}

/// A board listing: the latest posts of a target.
#[derive(Debug, Clone)]
pub struct CafeBoardArticles {
    pub articles: Vec<CafeArticle>,
}

/// The largest ID among the listed posts of `board`, if any is listed.
pub open spec fn latest_spec(arts: Seq<CafeArticle>, board: Seq<char>) -> Option<usize>
    decreases arts.len(),
{
    if arts.len() == 0 {
        None
    } else {
        let p = latest_spec(arts.drop_last(), board);
        let a = arts.last();
        if a.board@ == board {
            match p {
                Some(m) => if a.dataid > m {
                    Some(a.dataid)
                } else {
                    Some(m)
                },
                None => Some(a.dataid),
            }
        } else {
            p
        }
    }
}

/// The scan ceiling of a board: the largest ID that the listing gives for it;
/// `APILatestArticle` where the listing holds no post of that board.
pub fn get_latest_id(listing: &CafeBoardArticles, board: &str) -> (r: Result<usize, DownloaderError>)
    ensures
        match latest_spec(listing.articles@, board@) {
            Some(m) => r == Ok::<usize, DownloaderError>(m),
            None => r == Err::<usize, DownloaderError>(DownloaderError::APILatestArticle),
        },
{
    let arts = &listing.articles;
    let target = board.to_owned();
    let mut best: Option<usize> = None;
    let mut i: usize = 0;
    while i < arts.len()
        invariant
            i <= arts.len(),
            target@ == board@,
            best == latest_spec(arts@.take(i as int), board@),
        decreases arts.len() - i,
    {
        let ghost t = arts@.take(i + 1);
        assert(t.drop_last() =~= arts@.take(i as int));
        assert(t.last() == arts@[i as int]);
        if arts[i].board == target {
            let id = arts[i].dataid;
            best = match best {
                Some(m) => if id > m {
                    Some(id)
                } else {
                    Some(m)
                },
                None => Some(id),
            };
        }
        i = i + 1;
    }
    assert(arts@.take(i as int) =~= arts@);
    match best {
        Some(m) => Ok(m),
        None => Err(DownloaderError::APILatestArticle),
    }
}

/// When the scan of a board ends.
#[derive(Debug, Clone, Copy, PartialEq, Eq)]
pub enum StopPolicy {
    /// Scan up to and including the latest ID that the board listing gives.
    Bounded { ceiling: usize },
    /// Scan on until `limit` fetches in a row have given no post.
    Streak { limit: usize },
}

/// Where the scan of a board stands.
#[derive(Debug, Clone, Copy, PartialEq, Eq)]
pub struct ScanState {
    /// The next post ID to fetch.
    pub next_id: usize,
    /// How many fetches in a row have given no post.
    pub streak: usize,
}

/// What fetching one post ID gave.
#[derive(Debug, Clone, PartialEq, Eq)]
pub enum FetchOutcome {
    /// A post, now archived.
    Post,
    /// The post was deleted.
    Deleted,
    /// The answer could not be decoded.
    Undecodable,
    /// The API refused the post with this error.
    Rejected(DownloaderError),
}

/// The scan state to start a board with.
pub fn start_scan(first_id: usize) -> (r: ScanState)
    ensures
        r == (ScanState { next_id: first_id, streak: 0 }),
{
    ScanState { next_id: first_id, streak: 0 }
}

/// Whether the scan goes on to `state.next_id`.
pub open spec fn continues_spec(policy: StopPolicy, state: ScanState) -> bool {
    match policy {
        StopPolicy::Bounded { ceiling } => state.next_id <= ceiling,
        StopPolicy::Streak { limit } => state.streak < limit,
    }
}

/// Whether the scan goes on to `state.next_id`.
pub fn scan_continues(policy: StopPolicy, state: ScanState) -> (r: bool)
    ensures
        r == continues_spec(policy, state),
{
    match policy {
        StopPolicy::Bounded { ceiling } => state.next_id <= ceiling,
        StopPolicy::Streak { limit } => state.streak < limit,
    }
}

/// The state after fetching `state.next_id`. A refused session ends the run.
/// Bounded: any other refusal ends the board; posts, deleted posts and
/// undecodable answers move on. Streak: a post moves on and clears the streak;
/// anything else moves on and adds one to it.
pub open spec fn advance_spec(policy: StopPolicy, state: ScanState, outcome: FetchOutcome) -> Result<
    ScanState,
    DownloaderError,
> {
    let next = (state.next_id + 1) as usize;
    if outcome == FetchOutcome::Rejected(DownloaderError::NotAuthorized) {
        Err(DownloaderError::NotAuthorized)
    } else {
        match policy {
            StopPolicy::Bounded { .. } => match outcome {
                FetchOutcome::Rejected(e) => Err(e),
                _ => Ok(ScanState { next_id: next, streak: 0 }),
            },
            StopPolicy::Streak { .. } => match outcome {
                FetchOutcome::Post => Ok(ScanState { next_id: next, streak: 0 }),
                _ => Ok(ScanState { next_id: next, streak: (state.streak + 1) as usize }),
            },
        }
    }
}

/// The state after fetching `state.next_id` and getting `outcome`.
pub fn advance_scan(policy: StopPolicy, state: ScanState, outcome: FetchOutcome) -> (r: Result<
    ScanState,
    DownloaderError,
>)
    requires
        state.next_id < usize::MAX,
        state.streak < usize::MAX,
    ensures
        r == advance_spec(policy, state, outcome),
{
    let next = state.next_id + 1;
    match outcome {
        FetchOutcome::Rejected(DownloaderError::NotAuthorized) => Err(DownloaderError::NotAuthorized),
        FetchOutcome::Rejected(e) => match policy {
            StopPolicy::Bounded { .. } => Err(e),
            StopPolicy::Streak { .. } => Ok(ScanState { next_id: next, streak: state.streak + 1 }),
        },
        FetchOutcome::Post => Ok(ScanState { next_id: next, streak: 0 }),
        _ => match policy {
            StopPolicy::Bounded { .. } => Ok(ScanState { next_id: next, streak: 0 }),
            StopPolicy::Streak { .. } => Ok(ScanState { next_id: next, streak: state.streak + 1 }),
        },
    }
}

/// The state after a run of outcomes, or the error that ended it.
pub open spec fn run_scan(policy: StopPolicy, state: ScanState, outcomes: Seq<FetchOutcome>) -> Result<
    ScanState,
    DownloaderError,
>
    decreases outcomes.len(),
{
    if outcomes.len() == 0 {
        Ok(state)
    } else {
        match run_scan(policy, state, outcomes.drop_last()) {
            Ok(s) => advance_spec(policy, s, outcomes.last()),
            Err(e) => Err(e),
        }
    }
}

/// A fetch that gave no post and did not find the session refused.
pub open spec fn is_miss(o: FetchOutcome) -> bool {
    o != FetchOutcome::Post && o != FetchOutcome::Rejected(DownloaderError::NotAuthorized)
}

/// Under a streak limit, each miss adds one to the streak and moves on without
/// error, so `limit` misses in a row from a cleared streak end the scan, fewer
/// keep it going, and a post after any run of misses clears the streak again.
pub proof fn lemma_streak_stop(limit: usize, state: ScanState, misses: Seq<FetchOutcome>)
    requires
        forall|i: int| 0 <= i < misses.len() ==> is_miss(#[trigger] misses[i]),
        state.next_id + misses.len() < usize::MAX,
        state.streak + misses.len() < usize::MAX,
    ensures
        run_scan(StopPolicy::Streak { limit }, state, misses) == Ok::<ScanState, DownloaderError>(
            ScanState {
                next_id: (state.next_id + misses.len()) as usize,
                streak: (state.streak + misses.len()) as usize,
            },
        ),
        state.streak == 0 && misses.len() == limit ==> !continues_spec(
            StopPolicy::Streak { limit },
            run_scan(StopPolicy::Streak { limit }, state, misses)->Ok_0,
        ),
        state.streak + misses.len() < limit ==> continues_spec(
            StopPolicy::Streak { limit },
            run_scan(StopPolicy::Streak { limit }, state, misses)->Ok_0,
        ),
        run_scan(StopPolicy::Streak { limit }, state, misses.push(FetchOutcome::Post))
            == Ok::<ScanState, DownloaderError>(
            ScanState { next_id: (state.next_id + misses.len() + 1) as usize, streak: 0 },
        ),
    decreases misses.len(),
{
    let p = StopPolicy::Streak { limit };
    if misses.len() > 0 {
        let m = misses.drop_last();
        assert forall|i: int| 0 <= i < m.len() implies is_miss(#[trigger] m[i]) by {
            assert(m[i] == misses[i]);
        }
        lemma_streak_stop(limit, state, m);
        assert(is_miss(misses[misses.len() - 1]));
    }
    let with_post = misses.push(FetchOutcome::Post);
    assert(with_post.drop_last() =~= misses);
}

} // verus!
