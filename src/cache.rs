use crate::error::HelperError;
use crate::inventory::{classified, pools_of, reports_first_malformed, Pools, RecipeSet};
use crate::item::{Item, StashData};
use crate::recipe::{bundles_from, recipe_queue};
use std::collections::VecDeque;
use vstd::prelude::*;

verus! {

/// What the coordinator answers.
#[derive(Debug, PartialEq)]
pub enum ResponseFromNetwork {
    /// The items of one recipe bundle (empty when none is left) and whether the
    /// tab is double-sized.
    ChaosRecipe((Vec<Item>, bool)),
    /// The classified inventory and how many bundles it made.
    StashStatus((RecipeSet, usize)),
}

/// The coordinator's state as a mathematical value.
pub struct CacheState {
    /// The classified inventory of the last snapshot taken in.
    pub inventory: Pools,
    /// The bundles not handed out yet.
    pub queue: Seq<Seq<Item>>,
    /// How many bundles the inventory made when the queue was rebuilt.
    pub total: nat,
    /// Whether the tab of the last snapshot taken in is double-sized.
    pub is_double_stash: bool,
    /// A refresh was started and its result has not come back yet.
    pub refresh_pending: bool,
}

/// The state of a coordinator that has taken in no snapshot.
pub open spec fn initial_state() -> CacheState {
    let inventory = pools_of(Seq::empty());
    CacheState {
        inventory,
        queue: bundles_from(inventory),
        total: bundles_from(inventory).len(),
        is_double_stash: false,
        refresh_pending: false,
    }
}

/// A bundle request: the front bundle leaves the queue; an empty queue gives
/// an empty bundle. The double-size flag comes with either.
pub open spec fn bundle_next(s: CacheState) -> (CacheState, Seq<Item>, bool) {
    if s.queue.len() == 0 {
        (s, Seq::empty(), s.is_double_stash)
    } else {
        (CacheState { queue: s.queue.drop_first(), ..s }, s.queue[0], s.is_double_stash)
    }
}

/// A status request starts a refresh unless one is pending; a result that has
/// come back means the pending refresh is over.
pub open spec fn fetch_started(s: CacheState, fetched: Seq<Result<StashData, HelperError>>) -> bool {
    fetched.len() > 0 || !s.refresh_pending
}

/// The state after a status request that found `fetched` (oldest first) come
/// back. Only the latest result counts; a failed fetch or a malformed snapshot
/// leaves the cache as it was, an unchanged inventory keeps the queue, and a
/// changed one rebuilds it.
pub open spec fn status_next(s: CacheState, fetched: Seq<Result<StashData, HelperError>>) -> CacheState {
    let s1 = CacheState { refresh_pending: true, ..s };
    if fetched.len() == 0 {
        s1
    } else {
        match fetched.last() {
            Err(_) => s1,
            Ok(data) => match classified(data.items@) {
                None => s1,
                Some(inv) => if inv == s.inventory {
                    CacheState { is_double_stash: data.quad_layout, ..s1 }
                } else {
                    CacheState {
                        inventory: inv,
                        queue: bundles_from(inv),
                        total: bundles_from(inv).len(),
                        is_double_stash: data.quad_layout,
                        refresh_pending: true,
                    }
                },
            },
        }
    }
}

/// The status a request answers with (inventory and bundle count), or `None`
/// when it answers with the failure of the latest result.
pub open spec fn status_reply(s: CacheState, fetched: Seq<Result<StashData, HelperError>>) -> Option<
    (Pools, nat),
> {
    let s2 = status_next(s, fetched);
    if fetched.len() == 0 {
        Some((s2.inventory, s2.total))
    } else {
        match fetched.last() {
            Err(_) => None,
            Ok(data) => if classified(data.items@) is None {
                None
            } else {
                Some((s2.inventory, s2.total))
            },
        }
    }
}

/// `e` is the failure that the latest result of `fetched` gives.
pub open spec fn failure_of(fetched: Seq<Result<StashData, HelperError>>, e: HelperError) -> bool {
    match fetched.last() {
        Err(f) => e == f,
        Ok(data) => reports_first_malformed(data.items@, e),
    }
}

/// Two status requests in a row, the second finding no result come back, give
/// the same cached content: the second answers with the inventory and count
/// that the first left, which is what the first answered when it succeeded.
pub proof fn lemma_status_stable(s: CacheState, fetched: Seq<Result<StashData, HelperError>>)
    ensures
        ({
            let s1 = status_next(s, fetched);
            let none = Seq::<Result<StashData, HelperError>>::empty();
            &&& status_reply(s1, none) == Some((s1.inventory, s1.total))
            &&& status_reply(s, fetched) is Some ==> status_reply(s1, none) == status_reply(s, fetched)
            &&& status_next(s1, none) == s1
        }),
{
}

/// Two status requests with no fetch result coming back in between start at
/// most one refresh; none starts while one is pending.
pub proof fn lemma_refresh_coalesced(s: CacheState)
    ensures
        ({
            let none = Seq::<Result<StashData, HelperError>>::empty();
            &&& s.refresh_pending ==> !fetch_started(s, none)
            &&& !(fetch_started(s, none) && fetch_started(status_next(s, none), none))
        }),
{
}

/// At most one fetch is ever outstanding. Let `outstanding` count the fetches
/// started whose result the coordinator has not taken in; each result handed
/// to a status request belongs to one of them. If the count is one exactly
/// when a refresh is pending, the same holds after the request, so it never
/// exceeds one, whatever the order of requests and results.
pub proof fn lemma_one_fetch_outstanding(
    s: CacheState,
    fetched: Seq<Result<StashData, HelperError>>,
    outstanding: nat,
)
    requires
        outstanding == (if s.refresh_pending { 1nat } else { 0nat }),
        fetched.len() <= outstanding,
    ensures
        ({
            let after = (outstanding - fetched.len() + (if fetch_started(s, fetched) { 1int } else { 0int }));
            after == (if status_next(s, fetched).refresh_pending { 1int } else { 0int })
        }),
{
}

/// Owns the classified inventory and the queue of bundles, and answers bundle
/// and status requests. Fetching is done elsewhere: a status request says
/// whether a refresh should start and takes the results that came back.
pub struct Coordinator {
    map: RecipeSet,
    chaos_queue: VecDeque<Vec<Item>>,
    total_count: usize,
    is_quad_stash: bool,
    refresh_pending: bool,
}

impl View for Coordinator {
    type V = CacheState;

    closed spec fn view(&self) -> CacheState {
        CacheState {
            inventory: self.map@,
            queue: self.chaos_queue@.map_values(|b: Vec<Item>| b@),
            total: self.total_count as nat,
            is_double_stash: self.is_quad_stash,
            refresh_pending: self.refresh_pending,
        }
    }
}

impl Coordinator {
    pub fn new() -> (r: Coordinator)
        ensures
            r@ == initial_state(),
    {
        let map = RecipeSet::new();
        let chaos_queue = recipe_queue(&map);
        let total_count = chaos_queue.len();
        Coordinator { map, chaos_queue, total_count, is_quad_stash: false, refresh_pending: false }
    }

    /// Hands out the front bundle of the queue, or an empty bundle when none is
    /// left, with the double-size flag. Never fails and never fetches.
    pub fn request_bundle(&mut self) -> (r: ResponseFromNetwork)
        ensures
            ({
                let (s2, b, quad) = bundle_next(old(self)@);
                &&& final(self)@ == s2
                &&& r matches ResponseFromNetwork::ChaosRecipe((items, q)) && items@ == b && q == quad
            }),
    {
        let ghost old_queue = self.chaos_queue@;
        match self.chaos_queue.pop_front() {
            Some(chaos_list) => {
                assert(self.chaos_queue@.map_values(|b: Vec<Item>| b@) =~= old_queue.map_values(
                    |b: Vec<Item>| b@,
                ).drop_first());
                ResponseFromNetwork::ChaosRecipe((chaos_list, self.is_quad_stash))
            },
            None => ResponseFromNetwork::ChaosRecipe((Vec::new(), self.is_quad_stash)),
        }
    }

    /// Answers a status request. `fetched` holds the fetch results that came
    /// back since the last request, oldest first. Gives whether a refresh
    /// should start now, and the reply: the cached inventory and bundle count
    /// (updated from the latest result when it is a valid snapshot), or the
    /// failure of the latest result.
    pub fn request_status(&mut self, fetched: Vec<Result<StashData, HelperError>>) -> (r: (
        bool,
        Result<ResponseFromNetwork, HelperError>,
    ))
        ensures
            final(self)@ == status_next(old(self)@, fetched@),
            r.0 == fetch_started(old(self)@, fetched@),
            match status_reply(old(self)@, fetched@) {
                Some((inv, n)) => r.1 matches Ok(ResponseFromNetwork::StashStatus((set, c))) && set@
                    == inv && c == n,
                None => r.1 matches Err(e) && failure_of(fetched@, e),
            },
    {
        let ghost all = fetched@;
        let start = fetched.len() > 0 || !self.refresh_pending;
        self.refresh_pending = true;
        let mut fetched = fetched;
        match fetched.pop() {
            None => {},
            Some(Err(e)) => {
                return (start, Err(e));
            },
            Some(Ok(data)) => {
                match RecipeSet::classify(&data) {
                    Err(e) => {
                        return (start, Err(e));
                    },
                    Ok(new_map) => {
                        self.is_quad_stash = data.quad_layout;
                        if !new_map.eq(&self.map) {
                            self.map = new_map;
                            self.chaos_queue = recipe_queue(&self.map);
                            self.total_count = self.chaos_queue.len();
                        }
                    },
                }
            },
        }
        (start, Ok(ResponseFromNetwork::StashStatus((self.map.clone(), self.total_count))))
    }

    /// The double-size flag of the last snapshot taken in.
    pub fn is_double_stash(&self) -> (r: bool)
        ensures
            r == self@.is_double_stash,
    {
        self.is_quad_stash
    }
}

} // verus!
