use vstd::hash_set::StringHashSet;
use vstd::prelude::*;
use vstd::string::*;

verus! {

/// Backward offset, in milliseconds, from "now" at which a new epoch starts, so that
/// events whose ingestion lagged behind the wall clock are still picked up.
pub const SAFETY_MARGIN_MS: i64 = 300000;

/// Pause between two polls, in milliseconds.
pub const POLL_INTERVAL_MS: u64 = 3000;

/// Largest number of events asked for in one query.
pub const PAGE_LIMIT: i64 = 10000;

/// One event as the log store returns it.
pub struct LogEvent {
    pub event_id: String,
    pub timestamp: i64,
    pub message: String,
}

/// The scope of one query to the log store.
pub struct QueryRequest {
    pub group: String,
    pub start_time: Option<i64>,
    pub next_token: Option<String>,
    pub limit: i64,
}

/// One page of results.
pub struct QueryResponse {
    pub events: Vec<LogEvent>,
    pub next_token: Option<String>,
}

/// A failed query; fatal to the engine.
pub struct QueryError {
    pub detail: String,
}

/// What the caller is to do after a query has been answered.
pub enum TailAction {
    /// Print these messages, in this order, then wait and poll again.
    Emit(Vec<String>),
    /// Stop following, and report this error.
    Stop(QueryError),
}

/// A query as a mathematical value.
pub struct RequestModel {
    pub group: Seq<char>,
    pub start_time: Option<i64>,
    pub next_token: Option<String>,
    pub limit: i64,
}

impl View for QueryRequest {
    type V = RequestModel;

    open spec fn view(&self) -> RequestModel {
        RequestModel {
            group: self.group@,
            start_time: self.start_time,
            next_token: self.next_token,
            limit: self.limit,
        }
    }
}

/// The engine's state as a mathematical value: the query window (`start_time`,
/// `next_token`), the identifiers already emitted in this epoch, and whether a
/// query has failed.
pub struct TailModel {
    pub group: Seq<char>,
    pub start_time: i64,
    pub next_token: Option<String>,
    pub seen: Set<Seq<char>>,
    pub stopped: bool,
}

/// The log group that holds the logs of a function.
pub open spec fn log_group_of(function_name: Seq<char>) -> Seq<char> {
    "/aws/lambda/"@ + function_name
}

/// Where a new epoch's window starts when it begins at `now`: the safety margin
/// before it, or the earliest representable time if that would underflow.
pub open spec fn window_start(now: i64) -> i64 {
    if now >= i64::MIN + SAFETY_MARGIN_MS {
        (now - SAFETY_MARGIN_MS) as i64
    } else {
        i64::MIN
    }
}

/// Where a window that begins at `now` starts; see [`window_start`].
pub fn epoch_start(now: i64) -> (r: i64)
    ensures
        r == window_start(now),
{
    if now >= i64::MIN + SAFETY_MARGIN_MS {
        now - SAFETY_MARGIN_MS
    } else {
        i64::MIN
    }
}

/// The identifiers known after `events` have been handled, in order, starting from `seen`.
pub open spec fn seen_after(seen: Set<Seq<char>>, events: Seq<LogEvent>) -> Set<Seq<char>>
    decreases events.len(),
{
    if events.len() == 0 {
        seen
    } else {
        seen_after(seen, events.drop_last()).insert(events.last().event_id@)
    }
}

/// The events of one page that are emitted: those whose identifier is neither in
/// `seen` nor carried by an earlier event of the same page, in page order.
pub open spec fn fresh_events(seen: Set<Seq<char>>, events: Seq<LogEvent>) -> Seq<LogEvent>
    decreases events.len(),
{
    if events.len() == 0 {
        Seq::empty()
    } else {
        let earlier = fresh_events(seen, events.drop_last());
        if seen_after(seen, events.drop_last()).contains(events.last().event_id@) {
            earlier
        } else {
            earlier.push(events.last())
        }
    }
}

pub open spec fn messages_of(events: Seq<LogEvent>) -> Seq<Seq<char>> {
    events.map_values(|e: LogEvent| e.message@)
}

pub open spec fn ids_of(events: Seq<LogEvent>) -> Seq<Seq<char>> {
    events.map_values(|e: LogEvent| e.event_id@)
}

pub open spec fn texts(v: Seq<String>) -> Seq<Seq<char>> {
    v.map_values(|s: String| s@)
}

/// The next query: none once a query has failed; otherwise the window's start and,
/// when the last page named one, its continuation token.
pub open spec fn request_for(m: TailModel) -> Option<RequestModel> {
    if m.stopped {
        None
    } else {
        Some(
            RequestModel {
                group: m.group,
                start_time: Some(m.start_time),
                next_token: m.next_token,
                limit: PAGE_LIMIT,
            },
        )
    }
}

/// The state after a page with `events` and `next_token` arrived at time `now`.
/// A page without a token ends the epoch: the window moves up to `now` less the
/// safety margin and the identifiers seen are forgotten.
pub open spec fn after_response(
    m: TailModel,
    events: Seq<LogEvent>,
    next_token: Option<String>,
    now: i64,
) -> TailModel {
    match next_token {
        Some(t) => TailModel { next_token: Some(t), seen: seen_after(m.seen, events), ..m },
        None => TailModel {
            start_time: window_start(now),
            next_token: None,
            seen: Set::empty(),
            ..m
        },
    }
}

/// The state after a query failed.
pub open spec fn after_error(m: TailModel) -> TailModel {
    TailModel { stopped: true, ..m }
}

/// The log-following state machine.
pub struct TailEngine {
    group: String,
    start_time: i64,
    next_token: Option<String>,
    seen: StringHashSet,
    stopped: bool,
}

impl View for TailEngine {
    type V = TailModel;

    closed spec fn view(&self) -> TailModel {
        TailModel {
            group: self.group@,
            start_time: self.start_time,
            next_token: self.next_token,
            seen: self.seen@,
            stopped: self.stopped,
        }
    }
}

impl TailEngine {
    /// An engine for the logs of `function_name`, whose first window starts at `since`.
    pub fn new(function_name: &str, since: i64) -> (r: TailEngine)
        requires
            function_name@.len() > 0,
        ensures
            r@ == (TailModel {
                group: log_group_of(function_name@),
                start_time: since,
                next_token: None,
                seen: Set::empty(),
                stopped: false,
            }),
    {
        let group = String::from_str("/aws/lambda/").concat(function_name);
        TailEngine {
            group,
            start_time: since,
            next_token: None,
            seen: StringHashSet::new(),
            stopped: false,
        }
    }

    /// The query to make next, or `None` once a query has failed.
    pub fn next_request(&self) -> (r: Option<QueryRequest>)
        ensures
            match r {
                Some(q) => request_for(self@) == Some(q@),
                None => request_for(self@) is None,
            },
    {
        if self.stopped {
            None
        } else {
            Some(
                QueryRequest {
                    group: self.group.clone(),
                    start_time: Some(self.start_time),
                    next_token: self.next_token.clone(),
                    limit: PAGE_LIMIT,
                },
            )
        }
    }

    /// Hands the engine the outcome of the query that `next_request` gave.
    /// A page yields its fresh messages in page order and moves the window; an
    /// error stops the engine, which then asks for no further query. Events are
    /// never filtered by timestamp: an identifier new to the epoch is enough.
    pub fn on_result(&mut self, result: Result<QueryResponse, QueryError>, now: i64) -> (r:
        TailAction)
        requires
            !old(self)@.stopped,
        ensures
            match result {
                Ok(page) => {
                    &&& final(self)@ == after_response(old(self)@, page.events@, page.next_token, now)
                    &&& match r {
                        TailAction::Emit(lines) => texts(lines@) == messages_of(
                            fresh_events(old(self)@.seen, page.events@),
                        ),
                        TailAction::Stop(_) => false,
                    }
                },
                Err(e) => final(self)@ == after_error(old(self)@) && r == TailAction::Stop(e),
            },
    {
        match result {
            Err(e) => {
                self.stopped = true;
                TailAction::Stop(e)
            },
            Ok(page) => {
                let ghost seen0 = self@.seen;
                let mut lines: Vec<String> = Vec::new();
                let mut i: usize = 0;
                while i < page.events.len()
                    invariant
                        i <= page.events@.len(),
                        self.group == old(self).group,
                        self.start_time == old(self).start_time,
                        self.next_token == old(self).next_token,
                        self.stopped == old(self).stopped,
                        self@.seen == seen_after(seen0, page.events@.take(i as int)),
                        texts(lines@) == messages_of(fresh_events(seen0, page.events@.take(i as int))),
                    decreases page.events@.len() - i,
                {
                    let ghost evs = page.events@.take(i as int + 1);
                    assert(evs.drop_last() =~= page.events@.take(i as int));
                    let event = &page.events[i];
                    if !self.seen.contains(event.event_id.as_str()) {
                        let ghost prev_lines = lines@;
                        lines.push(event.message.clone());
                        assert(texts(lines@) =~= texts(prev_lines).push(event.message@));
                        assert(messages_of(fresh_events(seen0, evs)) =~= messages_of(
                            fresh_events(seen0, page.events@.take(i as int)),
                        ).push(event.message@));
                        self.seen.insert(event.event_id.clone());
                    }
                    i += 1;
                }
                assert(page.events@.take(page.events@.len() as int) =~= page.events@);
                match page.next_token {
                    Some(t) => {
                        self.next_token = Some(t);
                    },
                    None => {
                        self.next_token = None;
                        self.seen.clear();
                        self.start_time = epoch_start(now);
                    },
                }
                TailAction::Emit(lines)
            },
        }
    }
}

/// One answered query: the page's events, the token it named, and when it arrived.
pub type Page = (Seq<LogEvent>, Option<String>, i64);

/// The state after a run of pages, each handled by `after_response` in turn.
pub open spec fn replay(m: TailModel, pages: Seq<Page>) -> TailModel
    decreases pages.len(),
{
    if pages.len() == 0 {
        m
    } else {
        let p = pages.last();
        after_response(replay(m, pages.drop_last()), p.0, p.1, p.2)
    }
}

/// The events emitted over a run of pages, in the order they are emitted.
pub open spec fn replay_emitted(m: TailModel, pages: Seq<Page>) -> Seq<LogEvent>
    decreases pages.len(),
{
    if pages.len() == 0 {
        Seq::empty()
    } else {
        replay_emitted(m, pages.drop_last()) + fresh_events(
            replay(m, pages.drop_last()).seen,
            pages.last().0,
        )
    }
}

proof fn lemma_fresh(seen: Set<Seq<char>>, events: Seq<LogEvent>)
    ensures
        ids_of(fresh_events(seen, events)).no_duplicates(),
        forall|k: int|
            0 <= k < fresh_events(seen, events).len() ==> {
                &&& !seen.contains(#[trigger] fresh_events(seen, events)[k].event_id@)
                &&& seen_after(seen, events).contains(fresh_events(seen, events)[k].event_id@)
            },
        forall|x: Seq<char>| seen.contains(x) ==> #[trigger] seen_after(seen, events).contains(x),
    decreases events.len(),
{
    if events.len() > 0 {
        let init = events.drop_last();
        lemma_fresh(seen, init);
        let f0 = fresh_events(seen, init);
        let f = fresh_events(seen, events);
        if !seen_after(seen, init).contains(events.last().event_id@) {
            assert(f == f0.push(events.last()));
            assert(ids_of(f) =~= ids_of(f0).push(events.last().event_id@));
            assert forall|a: int, b: int|
                0 <= a < ids_of(f).len() && 0 <= b < ids_of(f).len() && a != b implies ids_of(f)[a]
                != ids_of(f)[b] by {
                if a < f0.len() && b < f0.len() {
                    assert(ids_of(f0)[a] != ids_of(f0)[b]);
                } else if a < f0.len() {
                    assert(seen_after(seen, init).contains(f0[a].event_id@));
                } else if b < f0.len() {
                    assert(seen_after(seen, init).contains(f0[b].event_id@));
                }
            }
            assert forall|k: int| 0 <= k < f.len() implies !seen.contains(
                #[trigger] f[k].event_id@,
            ) by {
                if k < f0.len() {
                    assert(f[k] == f0[k]);
                }
            }
        }
    }
}

proof fn lemma_epoch(m: TailModel, pages: Seq<Page>)
    requires
        forall|k: int| 0 <= k < pages.len() ==> (#[trigger] pages[k]).1 is Some,
    ensures
        ids_of(replay_emitted(m, pages)).no_duplicates(),
        forall|k: int|
            0 <= k < replay_emitted(m, pages).len() ==> {
                &&& !m.seen.contains(#[trigger] replay_emitted(m, pages)[k].event_id@)
                &&& replay(m, pages).seen.contains(replay_emitted(m, pages)[k].event_id@)
            },
        forall|x: Seq<char>| m.seen.contains(x) ==> #[trigger] replay(m, pages).seen.contains(x),
    decreases pages.len(),
{
    if pages.len() > 0 {
        let init = pages.drop_last();
        assert forall|k: int| 0 <= k < init.len() implies (#[trigger] init[k]).1 is Some by {
            assert(init[k] == pages[k]);
        }
        lemma_epoch(m, init);
        let m0 = replay(m, init);
        let e0 = replay_emitted(m, init);
        let page = pages.last();
        assert(pages[pages.len() - 1].1 is Some);
        lemma_fresh(m0.seen, page.0);
        let f = fresh_events(m0.seen, page.0);
        let e = replay_emitted(m, pages);
        assert(e == e0 + f);
        assert(replay(m, pages).seen == seen_after(m0.seen, page.0));
        assert forall|a: int, b: int|
            0 <= a < ids_of(e).len() && 0 <= b < ids_of(e).len() && a != b implies ids_of(e)[a]
            != ids_of(e)[b] by {
            if a < e0.len() && b < e0.len() {
                assert(ids_of(e0)[a] != ids_of(e0)[b]);
            } else if a >= e0.len() && b >= e0.len() {
                assert(ids_of(f)[a - e0.len()] != ids_of(f)[b - e0.len()]);
            } else if a < e0.len() {
                assert(m0.seen.contains(e0[a].event_id@));
                assert(!m0.seen.contains(f[b - e0.len()].event_id@));
            } else {
                assert(m0.seen.contains(e0[b].event_id@));
                assert(!m0.seen.contains(f[a - e0.len()].event_id@));
            }
        }
        assert forall|k: int| 0 <= k < e.len() implies {
            &&& !m.seen.contains(#[trigger] e[k].event_id@)
            &&& replay(m, pages).seen.contains(e[k].event_id@)
        } by {
            if k < e0.len() {
                assert(e[k] == e0[k]);
            } else {
                assert(e[k] == f[k - e0.len()]);
            }
        }
    }
}

/// Within one epoch, that is over pages that each name a continuation token, no
/// event identifier is emitted twice, nor one that the epoch had already seen.
pub proof fn law_no_duplicate_within_epoch(m: TailModel, pages: Seq<Page>)
    requires
        forall|k: int| 0 <= k < pages.len() ==> (#[trigger] pages[k]).1 is Some,
    ensures
        ids_of(replay_emitted(m, pages)).no_duplicates(),
        forall|k: int|
            0 <= k < replay_emitted(m, pages).len() ==> !m.seen.contains(
                #[trigger] replay_emitted(m, pages)[k].event_id@,
            ),
        forall|id: Seq<char>| #[trigger] ids_of(replay_emitted(m, pages)).to_multiset().count(id) <= 1,
{
    lemma_epoch(m, pages);
    ids_of(replay_emitted(m, pages)).lemma_multiset_has_no_duplicates();
}

spec fn fresh_positions(seen: Set<Seq<char>>, events: Seq<LogEvent>) -> Seq<int>
    decreases events.len(),
{
    if events.len() == 0 {
        Seq::empty()
    } else {
        let earlier = fresh_positions(seen, events.drop_last());
        if seen_after(seen, events.drop_last()).contains(events.last().event_id@) {
            earlier
        } else {
            earlier.push(events.len() - 1)
        }
    }
}

proof fn lemma_positions(seen: Set<Seq<char>>, events: Seq<LogEvent>)
    ensures
        fresh_positions(seen, events).len() == fresh_events(seen, events).len(),
        forall|k: int|
            0 <= k < fresh_positions(seen, events).len() ==> {
                &&& 0 <= #[trigger] fresh_positions(seen, events)[k] < events.len()
                &&& fresh_events(seen, events)[k] == events[fresh_positions(seen, events)[k]]
            },
        forall|a: int, b: int|
            0 <= a < b < fresh_positions(seen, events).len() ==> #[trigger] fresh_positions(
                seen,
                events,
            )[a] < #[trigger] fresh_positions(seen, events)[b],
    decreases events.len(),
{
    if events.len() > 0 {
        let init = events.drop_last();
        lemma_positions(seen, init);
        let p0 = fresh_positions(seen, init);
        let p = fresh_positions(seen, events);
        let f0 = fresh_events(seen, init);
        let f = fresh_events(seen, events);
        assert forall|k: int| 0 <= k < p.len() implies {
            &&& 0 <= #[trigger] p[k] < events.len()
            &&& f[k] == events[p[k]]
        } by {
            if k < p0.len() {
                assert(p[k] == p0[k]);
                assert(f[k] == f0[k]);
                assert(init[p0[k]] == events[p0[k]]);
            }
        }
        assert forall|a: int, b: int| 0 <= a < b < p.len() implies #[trigger] p[a] < #[trigger] p[b] by {
            if b < p0.len() {
                assert(p0[a] < p0[b]);
            } else {
                assert(p[a] == p0[a]);
            }
        }
    }
}

/// `chosen` is `events` taken at the strictly increasing positions `pos`.
pub open spec fn taken_in_order(chosen: Seq<LogEvent>, events: Seq<LogEvent>, pos: Seq<int>) -> bool {
    &&& pos.len() == chosen.len()
    &&& forall|k: int|
        0 <= k < pos.len() ==> 0 <= #[trigger] pos[k] < events.len() && chosen[k] == events[pos[k]]
    &&& forall|a: int, b: int| 0 <= a < b < pos.len() ==> #[trigger] pos[a] < #[trigger] pos[b]
}

/// The events emitted for a page are some of its events, taken at strictly
/// increasing positions: the page's order is kept.
pub proof fn law_page_order_kept(seen: Set<Seq<char>>, events: Seq<LogEvent>)
    ensures
        exists|pos: Seq<int>| #[trigger] taken_in_order(fresh_events(seen, events), events, pos),
{
    lemma_positions(seen, events);
    assert(taken_in_order(fresh_events(seen, events), events, fresh_positions(seen, events)));
}

/// A page whose identifiers are distinct and new to the epoch is emitted whole,
/// message for message, in page order.
pub proof fn law_fresh_page_emitted_whole(seen: Set<Seq<char>>, events: Seq<LogEvent>)
    requires
        ids_of(events).no_duplicates(),
        forall|k: int| 0 <= k < events.len() ==> !seen.contains(#[trigger] events[k].event_id@),
    ensures
        messages_of(fresh_events(seen, events)) == messages_of(events),
{
    lemma_whole(seen, events);
    assert(messages_of(fresh_events(seen, events)) =~= messages_of(events));
}

proof fn lemma_whole(seen: Set<Seq<char>>, events: Seq<LogEvent>)
    requires
        ids_of(events).no_duplicates(),
        forall|k: int| 0 <= k < events.len() ==> !seen.contains(#[trigger] events[k].event_id@),
    ensures
        fresh_events(seen, events) == events,
        forall|x: Seq<char>| #[trigger] seen_after(seen, events).contains(x) ==> seen.contains(x) || ids_of(events).contains(x),
    decreases events.len(),
{
    if events.len() > 0 {
        let init = events.drop_last();
        assert forall|a: int, b: int| 0 <= a < init.len() && 0 <= b < init.len() && a != b implies ids_of(init)[a] != ids_of(init)[b] by {
            assert(ids_of(events)[a] != ids_of(events)[b]);
        }
        assert forall|k: int| 0 <= k < init.len() implies !seen.contains(#[trigger] init[k].event_id@) by {
            assert(init[k] == events[k]);
        }
        lemma_whole(seen, init);
        let last = events.last();
        if seen_after(seen, init).contains(last.event_id@) {
            if seen.contains(last.event_id@) {
                assert(!seen.contains(events[events.len() - 1].event_id@));
            } else {
                let j = choose|j: int| 0 <= j < ids_of(init).len() && ids_of(init)[j] == last.event_id@;
                assert(ids_of(events)[j] == ids_of(events)[events.len() - 1]);
            }
        }
        assert(events == init.push(last));
        assert forall|x: Seq<char>| #[trigger] seen_after(seen, events).contains(x) implies seen.contains(x) || ids_of(events).contains(x) by {
            if x != last.event_id@ {
                assert(seen_after(seen, init).contains(x));
                if !seen.contains(x) {
                    let j = choose|j: int| 0 <= j < ids_of(init).len() && ids_of(init)[j] == x;
                    assert(ids_of(events)[j] == x);
                }
            } else {
                assert(ids_of(events)[events.len() - 1] == x);
            }
        }
    }
}

/// A page that names a token `t` makes the next query carry `t`, together with
/// the window start the epoch already had, whatever the time it arrived.
pub proof fn law_token_precedence(m: TailModel, events: Seq<LogEvent>, t: String, now: i64)
    requires
        !m.stopped,
    ensures
        request_for(after_response(m, events, Some(t), now)) == Some(
            RequestModel {
                group: m.group,
                start_time: Some(m.start_time),
                next_token: Some(t),
                limit: PAGE_LIMIT,
            },
        ),
{
}

/// The epoch ends exactly on a page without a token: then the identifiers seen are
/// forgotten and the window starts at the arrival time less the safety margin; a page
/// with a token forgets nothing and keeps the window's start.
pub proof fn law_epoch_reset_on_exhaustion(
    m: TailModel,
    events: Seq<LogEvent>,
    next_token: Option<String>,
    now: i64,
)
    requires
        !m.stopped,
    ensures
        next_token is None ==> {
            &&& after_response(m, events, next_token, now).seen == Set::<Seq<char>>::empty()
            &&& after_response(m, events, next_token, now).start_time == window_start(now)
            &&& now >= i64::MIN + SAFETY_MARGIN_MS ==> after_response(
                m,
                events,
                next_token,
                now,
            ).start_time == now - SAFETY_MARGIN_MS
            &&& request_for(after_response(m, events, next_token, now)) == Some(
                RequestModel {
                    group: m.group,
                    start_time: Some(window_start(now)),
                    next_token: None,
                    limit: PAGE_LIMIT,
                },
            )
        },
        next_token is Some ==> {
            &&& m.seen.subset_of(after_response(m, events, next_token, now).seen)
            &&& after_response(m, events, next_token, now).start_time == m.start_time
        },
{
    if next_token is Some {
        lemma_fresh(m.seen, events);
    }
}

proof fn lemma_first_occurrence_emitted(seen: Set<Seq<char>>, events: Seq<LogEvent>, k: int)
    requires
        0 <= k < events.len(),
        !seen.contains(events[k].event_id@),
        forall|j: int| 0 <= j < k ==> (#[trigger] events[j]).event_id@ != events[k].event_id@,
    ensures
        fresh_events(seen, events).contains(events[k]),
    decreases events.len(),
{
    let init = events.drop_last();
    if k == events.len() - 1 {
        lemma_seen_after_members(seen, init);
        if seen_after(seen, init).contains(events[k].event_id@) {
            let j = choose|j: int| 0 <= j < init.len() && init[j].event_id@ == events[k].event_id@;
            assert(events[j] == init[j]);
        }
        assert(fresh_events(seen, events) == fresh_events(seen, init).push(events[k]));
        assert(fresh_events(seen, events)[fresh_events(seen, init).len() as int] == events[k]);
    } else {
        assert forall|j: int| 0 <= j < k implies (#[trigger] init[j]).event_id@ != init[k].event_id@ by {
            assert(init[j] == events[j]);
        }
        lemma_first_occurrence_emitted(seen, init, k);
        let f0 = fresh_events(seen, init);
        let j = choose|j: int| 0 <= j < f0.len() && f0[j] == init[k];
        assert(fresh_events(seen, events)[j] == events[k]);
    }
}

proof fn lemma_seen_after_members(seen: Set<Seq<char>>, events: Seq<LogEvent>)
    ensures
        forall|x: Seq<char>|
            #[trigger] seen_after(seen, events).contains(x) ==> seen.contains(x) || exists|j: int|
                0 <= j < events.len() && (#[trigger] events[j]).event_id@ == x,
    decreases events.len(),
{
    if events.len() > 0 {
        let init = events.drop_last();
        lemma_seen_after_members(seen, init);
        assert forall|x: Seq<char>| #[trigger] seen_after(seen, events).contains(x) implies seen.contains(x)
            || exists|j: int| 0 <= j < events.len() && (#[trigger] events[j]).event_id@ == x by {
            if x == events.last().event_id@ {
                assert(events[events.len() - 1].event_id@ == x);
            } else if !seen.contains(x) {
                assert(seen_after(seen, init).contains(x));
                let j = choose|j: int| 0 <= j < init.len() && (#[trigger] init[j]).event_id@ == x;
                assert(events[j] == init[j]);
            }
        }
    }
}

/// After a page without a token, the next page is judged by an empty set: each of
/// its events that is the first with its identifier in that page is emitted, even
/// if the ending epoch had emitted that identifier already.
pub proof fn law_reemitted_after_reset(
    m: TailModel,
    events: Seq<LogEvent>,
    now: i64,
    next: Seq<LogEvent>,
    k: int,
)
    requires
        0 <= k < next.len(),
        forall|j: int| 0 <= j < k ==> (#[trigger] next[j]).event_id@ != next[k].event_id@,
    ensures
        fresh_events(after_response(m, events, None, now).seen, next).contains(next[k]),
{
    lemma_first_occurrence_emitted(Set::empty(), next, k);
}

/// A failed query stops the engine: no further query is asked for.
pub proof fn law_fatal_on_error(m: TailModel)
    ensures
        after_error(m).stopped,
        request_for(after_error(m)) is None,
{
}

} // verus!
