//! The application's session and the commands the front end calls: the ledger, the cycle
//! the session works in, the environment and the clock of the live-reward session.
use vstd::prelude::*;

use crate::application::{
    calendar_month_outcome, current_cycle_available, current_cycle_id, current_salary, cycle_taken_or_made,
    frozen_with_other_salary, live_synced, next_salary_setting, salary_initialized, salary_text_makes_cycle,
    snapshot_in_range, initialized_in, offline_reconciled_at, pending_events_shown, shows_snapshot,
    stored_settings, usable_context, AppSettingsDto, AppSnapshotDto, ApplicationContext,
    ApplicationEnvironment, ApplicationError, ApplicationService, CalendarMonthDto,
    CollectionLedgerEntryDto, LiveRewardEventDto, OfflineRewardBagDto, SalaryConfigurationDto,
    SalaryConfigurationService, unclaimed_bags_shown,
};
use crate::persistence::{
    claim_outcome, collect_outcome, ensure_outcome, package_outcome, PayrollCycleRecord, pending_of, LedgerStore, LiveRewardEvent, LiveRewardStatus,
    OfflineRewardBag, PersistenceError,
};
use crate::time::{instant_lt, Instant};

verus! {

/// A live session whose last sync is older than this many seconds is over: its pending
/// events are packaged into offline bags.
pub const LIVE_SESSION_STALE_AFTER_SECONDS: i64 = 15;

/// No live event is pending.
pub open spec fn none_pending(events: Seq<LiveRewardEvent>) -> bool {
    forall|j: int| 0 <= j < events.len() ==> (#[trigger] events[j]).status != LiveRewardStatus::Pending
}

/// The live session whose last sync was at `last` is over at `at`: more than
/// `LIVE_SESSION_STALE_AFTER_SECONDS` have passed.
pub open spec fn session_stale(last: (int, int), at: (int, int)) -> bool {
    instant_lt((last.0 + LIVE_SESSION_STALE_AFTER_SECONDS, last.1), at)
}

/// The later of two instants.
pub open spec fn latest(a: (int, int), b: (int, int)) -> (int, int) {
    if instant_lt(a, b) {
        b
    } else {
        a
    }
}

/// With no event pending, no cycle has a pending event.
pub proof fn lemma_none_pending(events: Seq<LiveRewardEvent>, cycle: Seq<char>)
    requires
        none_pending(events),
    ensures
        pending_of(events, cycle).len() == 0,
    decreases events.len(),
{
    reveal(Seq::filter);
    if events.len() > 0 {
        let rest = events.drop_last();
        assert forall|j: int| 0 <= j < rest.len() implies (#[trigger] rest[j]).status != LiveRewardStatus::Pending by {
            assert(rest[j] == events[j]);
        }
        lemma_none_pending(rest, cycle);
        assert(events[events.len() - 1].status != LiveRewardStatus::Pending);
    }
}

/// Closing a session at `at`: every pending live event is packaged into offline bags (the
/// ledger `mid` is what that leaves), then the cycle's offline entitlements are reconciled.
/// `res` is the outcome: a refused packaging returns its error and changes nothing, a
/// refused reconciliation returns its error.
pub open spec fn session_closed(
    old: LedgerStore,
    new: LedgerStore,
    context: ApplicationContext,
    at: Instant,
    res: Result<(), ApplicationError>,
) -> bool {
    exists|mid: LedgerStore, packaged: Result<Vec<OfflineRewardBag>, PersistenceError>|
        #[trigger] package_outcome(old, mid, at, packaged) && match packaged {
            Err(e) => res == Err::<(), ApplicationError>(ApplicationError::Persistence(e)) && new == mid,
            Ok(_) => exists|r: Result<Option<OfflineRewardBagDto>, ApplicationError>|
                #[trigger] offline_reconciled_at(mid, new, context, at, r) && match r {
                    Ok(_) => res is Ok,
                    Err(e) => res == Err::<(), ApplicationError>(e),
                },
        }
}

/// The application's session.
pub struct AppState {
    pub repository: LedgerStore,
    pub context: Option<ApplicationContext>,
    pub environment: ApplicationEnvironment,
    pub last_live_sync_at: Instant,
}

impl AppState {
    /// The session's cycle, when there is one, has workdays.
    pub open spec fn wf(self) -> bool {
        self.context is Some ==> self.context->0.cycle.workday_count > 0
    }

    /// Ends what a previous session left open: packages every pending live event into
    /// offline bags, then reconciles the cycle's offline entitlements.
    fn close_previous_session(repository: &mut LedgerStore, context: &ApplicationContext, at_utc: Instant) -> (res:
        Result<(), ApplicationError>)
        requires
            context.cycle.workday_count > 0,
        ensures
            res is Ok ==> none_pending(final(repository).events_view()),
            session_closed(*old(repository), *final(repository), *context, at_utc, res),
    {
        let ghost before = *repository;
        match ApplicationService::package_pending_live_rewards(repository, at_utc) {
            Ok(_) => {},
            Err(e) => {
                return Err(e);
            },
        }
        let ghost packaged = repository.events_view();
        let ghost mid = *repository;
        let r = ApplicationService::reconcile_offline(repository, context, at_utc);
        proof {
            assert(offline_reconciled_at(mid, *repository, *context, at_utc, r));
        }
        match r {
            Ok(_) => {},
            Err(e) => {
                return Err(e);
            },
        }
        assert(repository.events_view() == packaged);
        Ok(())
    }

    /// A session in a configured cycle: the previous session is closed first.
    pub fn initialize(repository: LedgerStore, context: ApplicationContext, at_utc: Instant) -> (res: Result<
        AppState,
        ApplicationError,
    >)
        requires
            context.cycle.workday_count > 0,
        ensures
            res matches Ok(state) ==> {
                &&& state.wf()
                &&& state.context is Some
                &&& state.context->0.cycle_id@ == context.cycle_id@
                &&& state.context->0.cycle.start_date == context.cycle.start_date
                &&& state.context->0.cycle.end_date == context.cycle.end_date
                &&& state.context->0.cycle.monthly_salary == context.cycle.monthly_salary
                &&& state.environment.timezone@ == context.cycle.timezone@
                &&& state.environment.calendar.version_view() == context.calendar.version_view()
                &&& state.environment.calendar.holiday_days() == context.calendar.holiday_days()
                &&& state.last_live_sync_at == at_utc
                &&& none_pending(state.repository.events_view())
                &&& session_closed(repository, state.repository, context, at_utc, Ok(()))
            },
            res is Err ==> exists|closed: LedgerStore|
                session_closed(repository, closed, context, at_utc, Err(res->Err_0)),
    {
        let mut store = repository;
        let closed = Self::close_previous_session(&mut store, &context, at_utc);
        match closed {
            Ok(()) => {},
            Err(e) => {
                let res: Result<AppState, ApplicationError> = Err(e);
                proof {
                    assert(session_closed(repository, store, context, at_utc, Err(res->Err_0)));
                }
                return res;
            },
        }
        let environment = ApplicationEnvironment::from_calendar(context.cycle.timezone.clone(), context.calendar.clone());
        Ok(AppState { repository: store, context: Some(context), environment, last_live_sync_at: at_utc })
    }

    /// The session of an environment: the cycle is the current one once a salary is
    /// configured, and then the previous session is closed.
    pub fn open(repository: LedgerStore, environment: ApplicationEnvironment, at_utc: Instant) -> (res: Result<
        AppState,
        ApplicationError,
    >)
        ensures
            res matches Ok(state) ==> {
                &&& state.wf()
                &&& (state.context is Some <==> initialized_in(repository))
                &&& state.context matches Some(c) ==> usable_context(c, environment) && c.cycle_id@
                    == current_cycle_id(environment, at_utc) && none_pending(state.repository.events_view())
                &&& state.environment == environment
                &&& state.last_live_sync_at == at_utc
            },
            !initialized_in(repository) ==> res is Ok && res->Ok_0.repository.unchanged_from(repository),
            initialized_in(repository) && !current_cycle_available(repository, environment, at_utc) ==> res is Err,
            res is Ok && res->Ok_0.context is Some ==> cycle_taken_or_made(repository, res->Ok_0.context->0)
                && exists|mid: LedgerStore|
                #[trigger] session_closed(mid, res->Ok_0.repository, res->Ok_0.context->0, at_utc, Ok(())),
    {
        let ghost input = repository;
        let mut repository = repository;
        let fetched = SalaryConfigurationService::get_salary_configuration(&mut repository, &environment, at_utc);
        let context = match fetched {
            Ok(pair) => pair.1,
            Err(e) => {
                return Err(e);
            },
        };
        assert(context matches Some(c) ==> cycle_taken_or_made(input, c));
        let ghost mid = repository;
        match &context {
            Some(c) => {
                let r = Self::close_previous_session(&mut repository, c, at_utc);
                proof {
                    assert(session_closed(mid, repository, *c, at_utc, r));
                }
                match r {
                    Ok(()) => {},
                    Err(e) => {
                        return Err(e);
                    },
                }
                assert(session_closed(mid, repository, *c, at_utc, Ok(())));
            },
            None => {},
        }
        Ok(AppState { repository, context, environment, last_live_sync_at: at_utc })
    }
}

/// The message a refused command answers when no salary is configured.
fn not_initialized() -> (res: String)
    ensures
        res@ == "salary has not been initialized"@,
{
    ApplicationError::SalaryNotInitialized.message()
}

/// Syncs the live rewards at `at_utc`. When the live session is stale, it is closed: its
/// pending events are packaged into offline bags and the offline entitlements reconciled,
/// so that nothing is pending; otherwise today's live events are materialized. Answers the
/// cycle's pending events; the session clock moves forward to `at_utc`.
pub fn sync_live_rewards_at(state: &mut AppState, at_utc: Instant) -> (res: Result<Vec<LiveRewardEventDto>, String>)
    requires
        old(state).wf(),
    ensures
        final(state).wf(),
        final(state).context == old(state).context,
        final(state).environment == old(state).environment,
        old(state).context is None ==> res is Err && res->Err_0@ == "salary has not been initialized"@
            && final(state).repository.unchanged_from(old(state).repository),
        res is Ok ==> final(state).last_live_sync_at@ == latest(old(state).last_live_sync_at@, at_utc@),
        res is Err ==> final(state).last_live_sync_at == old(state).last_live_sync_at,
        res matches Ok(events) ==> pending_events_shown(
            events@,
            final(state).repository,
            old(state).context->0,
        ),
        res is Ok && session_stale(old(state).last_live_sync_at@, at_utc@) ==> res->Ok_0@.len() == 0
            && none_pending(final(state).repository.events_view()) && session_closed(
            old(state).repository,
            final(state).repository,
            old(state).context->0,
            at_utc,
            Ok(()),
        ),
        old(state).context is Some && !session_stale(old(state).last_live_sync_at@, at_utc@) ==> exists|
            r: Result<Vec<LiveRewardEventDto>, ApplicationError>,
        |
            #[trigger] live_synced(
                old(state).repository,
                final(state).repository,
                old(state).context->0,
                at_utc,
                r,
            ) && match r {
                Ok(events) => res == Ok::<Vec<LiveRewardEventDto>, String>(events),
                Err(e) => res is Err && res->Err_0@ == e.message_spec(),
            },
{
    let stale = match state.last_live_sync_at.plus_seconds(LIVE_SESSION_STALE_AFTER_SECONDS) {
        Some(t) => t.is_before(&at_utc),
        None => false,
    };
    proof {
        use_type_invariant(&at_utc);
        use_type_invariant(&state.last_live_sync_at);
        assert(stale == session_stale(state.last_live_sync_at@, at_utc@));
    }
    let events = match &state.context {
        None => {
            return Err(not_initialized());
        },
        Some(context) => {
            if stale {
                match AppState::close_previous_session(&mut state.repository, context, at_utc) {
                    Ok(()) => {},
                    Err(e) => {
                        return Err(e.message());
                    },
                }
                let events = ApplicationService::list_pending_live_rewards(&state.repository, context);
                proof {
                    lemma_none_pending(state.repository.events_view(), context.cycle_id@);
                }
                events
            } else {
                let ghost before = state.repository;
                let r = ApplicationService::sync_live_rewards(&mut state.repository, context, at_utc);
                proof {
                    assert(live_synced(before, state.repository, *context, at_utc, r));
                }
                match r {
                    Ok(events) => events,
                    Err(e) => {
                        return Err(e.message());
                    },
                }
            }
        },
    };
    if state.last_live_sync_at.is_before(&at_utc) {
        state.last_live_sync_at = at_utc;
    }
    Ok(events)
}

/// The cycle's pending live events.
pub fn list_pending_live_rewards_from_state(state: &AppState) -> (res: Result<Vec<LiveRewardEventDto>, String>)
    ensures
        state.context is None ==> res is Err && res->Err_0@ == "salary has not been initialized"@,
        state.context is Some ==> res is Ok && pending_events_shown(
            res->Ok_0@,
            state.repository,
            state.context->0,
        ),
{
    match &state.context {
        Some(c) => Ok(ApplicationService::list_pending_live_rewards(&state.repository, c)),
        None => Err(not_initialized()),
    }
}

/// Collects a pending live event into the wallet.
pub fn collect_live_reward_at(state: &mut AppState, event_id: &str, at_utc: Instant) -> (res: Result<
    CollectionLedgerEntryDto,
    String,
>)
    requires
        old(state).wf(),
    ensures
        final(state).wf(),
        final(state).context == old(state).context,
        final(state).environment == old(state).environment,
        final(state).last_live_sync_at == old(state).last_live_sync_at,
        old(state).context is None ==> res is Err && res->Err_0@ == "salary has not been initialized"@
            && final(state).repository.unchanged_from(old(state).repository),
        old(state).context is Some ==> exists|r: Result<crate::persistence::CollectionLedgerEntry, crate::persistence::PersistenceError>|
            collect_outcome(old(state).repository, final(state).repository, event_id@, at_utc, r) && match r {
                Ok(entry) => (res is Ok && res->Ok_0.transaction_id@ == entry.transaction_id@
                    && res->Ok_0.source_id@ == event_id@),
                Err(e) => res is Err && res->Err_0@ == e.message_spec(),
            },
{
    if state.context.is_none() {
        return Err(not_initialized());
    }
    let ghost before = state.repository;
    let r = ApplicationService::collect_live_reward(&mut state.repository, event_id, at_utc);
    let ghost w = choose|w: Result<crate::persistence::CollectionLedgerEntry, crate::persistence::PersistenceError>|
        collect_outcome(before, state.repository, event_id@, at_utc, w) && match w {
            Ok(entry) => (r is Ok && r->Ok_0.transaction_id@ == entry.transaction_id@ && r->Ok_0.source_id@ == event_id@),
            Err(e) => r == Err::<CollectionLedgerEntryDto, ApplicationError>(ApplicationError::Persistence(e)),
        };
    let res = match r {
        Ok(entry) => Ok(entry),
        Err(e) => Err(e.message()),
    };
    assert(collect_outcome(before, state.repository, event_id@, at_utc, w));
    res
}

/// The session's picture at `at_utc`.
pub fn get_app_snapshot_at(state: &mut AppState, at_utc: Instant) -> (res: Result<AppSnapshotDto, String>)
    requires
        old(state).wf(),
    ensures
        final(state).wf(),
        final(state).context == old(state).context,
        final(state).environment == old(state).environment,
        final(state).last_live_sync_at == old(state).last_live_sync_at,
        old(state).context is None ==> res is Err && res->Err_0@ == "salary has not been initialized"@
            && final(state).repository.unchanged_from(old(state).repository),
        res matches Ok(dto) ==> shows_snapshot(dto, final(state).repository, old(state).context->0, at_utc),
        old(state).context matches Some(c) ==> exists|r: Result<PayrollCycleRecord, PersistenceError>|
            #[trigger] ensure_outcome(
                old(state).repository,
                final(state).repository,
                c.cycle_id@,
                c.cycle,
                at_utc,
                r,
            ) && (r is Err ==> res is Err && res->Err_0@ == ApplicationError::Persistence(r->Err_0).message_spec())
                && (r is Ok && c.cycle.calendar_version@ == c.calendar.version_view() && snapshot_in_range(
                final(state).repository,
                c,
                at_utc,
            ) ==> res is Ok),
{
    match &state.context {
        Some(context) => {
            let ghost before = state.repository;
            let r = ApplicationService::get_app_snapshot(&mut state.repository, context, at_utc);
            let ghost w = choose|w: Result<PayrollCycleRecord, PersistenceError>|
                ensure_outcome(before, state.repository, context.cycle_id@, context.cycle, at_utc, w)
                    && (w is Err ==> r == Err::<AppSnapshotDto, ApplicationError>(
                    ApplicationError::Persistence(w->Err_0),
                )) && (w is Ok ==> (r is Err && r->Err_0 is Persistence ==> !snapshot_in_range(
                    state.repository,
                    *context,
                    at_utc,
                ))) && (w is Ok && context.cycle.calendar_version@ == context.calendar.version_view()
                    && snapshot_in_range(state.repository, *context, at_utc) ==> r is Ok);
            let res = match r {
                Ok(dto) => Ok(dto),
                Err(e) => Err(e.message()),
            };
            assert(ensure_outcome(before, state.repository, context.cycle_id@, context.cycle, at_utc, w));
            res
        },
        None => Err(not_initialized()),
    }
}

/// The unclaimed offline bags.
pub fn list_offline_reward_bags_from_state(state: &AppState) -> (res: Result<Vec<OfflineRewardBagDto>, String>)
    ensures
        state.context is None ==> res is Err && res->Err_0@ == "salary has not been initialized"@,
        state.context is Some ==> res is Ok && unclaimed_bags_shown(res->Ok_0@, state.repository),
{
    match &state.context {
        Some(_) => Ok(ApplicationService::list_offline_reward_bags(&state.repository)),
        None => Err(not_initialized()),
    }
}

/// Claims an offline bag into the wallet.
pub fn claim_offline_reward_bag_at(state: &mut AppState, bag_id: &str, at_utc: Instant) -> (res: Result<
    CollectionLedgerEntryDto,
    String,
>)
    requires
        old(state).wf(),
    ensures
        final(state).wf(),
        final(state).context == old(state).context,
        final(state).environment == old(state).environment,
        final(state).last_live_sync_at == old(state).last_live_sync_at,
        old(state).context is None ==> res is Err && res->Err_0@ == "salary has not been initialized"@
            && final(state).repository.unchanged_from(old(state).repository),
        old(state).context is Some ==> exists|r: Result<crate::persistence::CollectionLedgerEntry, crate::persistence::PersistenceError>|
            claim_outcome(old(state).repository, final(state).repository, bag_id@, at_utc, r) && match r {
                Ok(entry) => (res is Ok && res->Ok_0.transaction_id@ == entry.transaction_id@
                    && res->Ok_0.source_id@ == bag_id@),
                Err(e) => res is Err && res->Err_0@ == e.message_spec(),
            },
{
    if state.context.is_none() {
        return Err(not_initialized());
    }
    let ghost before = state.repository;
    let r = ApplicationService::claim_offline_reward_bag(&mut state.repository, bag_id, at_utc);
    let ghost w = choose|w: Result<crate::persistence::CollectionLedgerEntry, crate::persistence::PersistenceError>|
        claim_outcome(before, state.repository, bag_id@, at_utc, w) && match w {
            Ok(entry) => (r is Ok && r->Ok_0.transaction_id@ == entry.transaction_id@ && r->Ok_0.source_id@ == bag_id@),
            Err(e) => r == Err::<CollectionLedgerEntryDto, ApplicationError>(ApplicationError::Persistence(e)),
        };
    let res = match r {
        Ok(entry) => Ok(entry),
        Err(e) => Err(e.message()),
    };
    assert(claim_outcome(before, state.repository, bag_id@, at_utc, w));
    res
}

/// The application settings.
pub fn get_app_settings_from_state(state: &AppState) -> (res: Result<AppSettingsDto, String>)
    ensures
        state.context is None ==> res is Err && res->Err_0@ == "salary has not been initialized"@,
        state.context is Some ==> res is Ok && stored_settings(state.repository, res->Ok_0),
{
    match &state.context {
        Some(_) => Ok(ApplicationService::get_app_settings(&state.repository)),
        None => Err(not_initialized()),
    }
}

/// Stores the application settings and answers them.
pub fn update_app_settings_at(state: &mut AppState, settings: AppSettingsDto, at_utc: Instant) -> (res: Result<
    AppSettingsDto,
    String,
>)
    requires
        old(state).wf(),
    ensures
        final(state).wf(),
        final(state).context == old(state).context,
        final(state).environment == old(state).environment,
        final(state).last_live_sync_at == old(state).last_live_sync_at,
        old(state).context is None ==> res is Err && res->Err_0@ == "salary has not been initialized"@
            && final(state).repository.unchanged_from(old(state).repository),
        old(state).context is Some ==> res == Ok::<AppSettingsDto, String>(settings) && stored_settings(
            final(state).repository,
            settings,
        ) && final(state).repository.same_rows_but_settings(old(state).repository),
{
    if state.context.is_none() {
        return Err(not_initialized());
    }
    match ApplicationService::update_app_settings(&mut state.repository, settings, at_utc) {
        Ok(s) => Ok(s),
        Err(e) => Err(e.message()),
    }
}

/// The salary configuration at `at_utc`; the session moves to the current cycle.
pub fn get_salary_configuration_at(state: &mut AppState, at_utc: Instant) -> (res: Result<SalaryConfigurationDto, String>)
    requires
        old(state).wf(),
    ensures
        final(state).wf(),
        final(state).environment == old(state).environment,
        final(state).last_live_sync_at == old(state).last_live_sync_at,
        !initialized_in(old(state).repository) ==> res is Ok && !res->Ok_0.is_initialized
            && final(state).repository.unchanged_from(old(state).repository)
            && final(state).context == old(state).context,
        res matches Ok(dto) ==> dto.is_initialized == initialized_in(old(state).repository)
            && dto.timezone@ == old(state).environment.timezone@,
        res is Ok && initialized_in(old(state).repository) ==> final(state).context is Some && usable_context(
            final(state).context->0,
            old(state).environment,
        ) && final(state).context->0.cycle_id@ == current_cycle_id(old(state).environment, at_utc),
        res is Err ==> final(state).context == old(state).context,
        initialized_in(old(state).repository) && current_cycle_available(
            old(state).repository,
            old(state).environment,
            at_utc,
        ) && next_salary_setting(old(state).repository) is Some ==> res is Ok,
        res is Ok && initialized_in(old(state).repository) ==> cycle_taken_or_made(
            old(state).repository,
            final(state).context->0,
        ) && res->Ok_0.current_cycle is Some,
        crate::persistence::cycle_lookup(
            old(state).repository.cycles_view(),
            current_cycle_id(old(state).environment, at_utc),
        ) is Some ==> final(state).repository.cycles_view() == old(state).repository.cycles_view(),
{
    let (configuration, context) = match SalaryConfigurationService::get_salary_configuration(
        &mut state.repository,
        &state.environment,
        at_utc,
    ) {
        Ok(p) => p,
        Err(e) => {
            return Err(e.message());
        },
    };
    match context {
        Some(c) => {
            state.context = Some(c);
        },
        None => {},
    }
    Ok(configuration)
}

/// Initializes the salary; the offline entitlements of the new cycle are reconciled and the
/// session moves to that cycle.
pub fn initialize_salary_at(state: &mut AppState, monthly_salary_exact: &str, at_utc: Instant) -> (res: Result<
    SalaryConfigurationDto,
    String,
>)
    requires
        old(state).wf(),
    ensures
        final(state).wf(),
        final(state).environment == old(state).environment,
        final(state).last_live_sync_at == old(state).last_live_sync_at,
        crate::application::positive_salary_of(monthly_salary_exact@) is None ==> res is Err && res->Err_0@
            == "monthly salary must be a positive decimal amount"@ && final(state).repository.unchanged_from(
            old(state).repository,
        ) && final(state).context == old(state).context,
        res is Ok ==> res->Ok_0.is_initialized && initialized_in(final(state).repository)
            && final(state).context is Some && usable_context(final(state).context->0, old(state).environment)
            && final(state).context->0.cycle_id@ == current_cycle_id(old(state).environment, at_utc),
        res is Err ==> final(state).context == old(state).context,
        initialized_in(old(state).repository) && crate::application::positive_salary_of(monthly_salary_exact@)
            is Some && current_cycle_available(old(state).repository, old(state).environment, at_utc)
            && next_salary_setting(old(state).repository) is Some && !crate::money::money_value_eq(
            current_salary(old(state).repository, old(state).environment, at_utc),
            crate::application::positive_salary_of(monthly_salary_exact@)->0,
        ) ==> res is Err && res->Err_0@ == ApplicationError::SalaryAlreadyInitialized.message_spec(),
        !initialized_in(old(state).repository) && crate::application::positive_salary_of(monthly_salary_exact@)
            is Some && frozen_with_other_salary(
            old(state).repository,
            current_cycle_id(old(state).environment, at_utc),
            crate::application::positive_salary_of(monthly_salary_exact@)->0,
        ) ==> res is Err && res->Err_0@ == ApplicationError::SalaryAlreadyInitialized.message_spec()
            && final(state).repository.unchanged_from(old(state).repository),
        res is Ok && initialized_in(old(state).repository) ==> cycle_taken_or_made(
            old(state).repository,
            final(state).context->0,
        ),
        res is Ok && !initialized_in(old(state).repository) ==> next_salary_setting(final(state).repository)
            == Some(
            crate::money::spec_decimal_text(
                crate::application::positive_salary_of(monthly_salary_exact@)->0,
            ),
        ) && final(state).context->0.cycle.monthly_salary@ == crate::application::positive_salary_of(
            monthly_salary_exact@,
        )->0,
        res matches Ok(dto) ==> dto.next_cycle_salary_exact is Some && next_salary_setting(
            final(state).repository,
        ) == Some(dto.next_cycle_salary_exact->0@),
        exists|
            mid: LedgerStore,
            r: Result<(SalaryConfigurationDto, ApplicationContext), ApplicationError>,
        |
            #[trigger] salary_initialized(
                old(state).repository,
                mid,
                old(state).environment,
                monthly_salary_exact@,
                at_utc,
                r,
            ) && match r {
                Err(e) => res is Err && res->Err_0@ == e.message_spec() && final(state).repository == mid,
                Ok(pair) => exists|rr: Result<Option<OfflineRewardBagDto>, ApplicationError>|
                    #[trigger] offline_reconciled_at(mid, final(state).repository, pair.1, at_utc, rr) && match rr {
                        Ok(_) => res == Ok::<SalaryConfigurationDto, String>(pair.0) && final(state).context == Some(
                            pair.1,
                        ),
                        Err(e) => res is Err && res->Err_0@ == e.message_spec(),
                    },
            },
{
    let ghost before = state.repository;
    let r = SalaryConfigurationService::initialize_salary(
        &mut state.repository,
        &state.environment,
        monthly_salary_exact,
        at_utc,
    );
    let ghost mid = state.repository;
    assert(salary_initialized(before, mid, state.environment, monthly_salary_exact@, at_utc, r));
    let (configuration, context) = match r {
        Ok(p) => p,
        Err(e) => {
            return Err(e.message());
        },
    };
    let rr = ApplicationService::reconcile_offline(&mut state.repository, &context, at_utc);
    assert(offline_reconciled_at(mid, state.repository, context, at_utc, rr));
    match rr {
        Ok(_) => {},
        Err(e) => {
            return Err(e.message());
        },
    }
    state.context = Some(context);
    Ok(configuration)
}

/// Sets the salary of the next cycles.
pub fn update_next_cycle_salary_at(state: &mut AppState, monthly_salary_exact: &str, at_utc: Instant) -> (res:
    Result<SalaryConfigurationDto, String>)
    requires
        old(state).wf(),
    ensures
        final(state).wf(),
        final(state).context == old(state).context,
        final(state).environment == old(state).environment,
        final(state).last_live_sync_at == old(state).last_live_sync_at,
        !initialized_in(old(state).repository) ==> res is Err && res->Err_0@ == "salary has not been initialized"@
            && final(state).repository.unchanged_from(old(state).repository),
        initialized_in(old(state).repository) && crate::application::positive_salary_of(monthly_salary_exact@)
            is None ==> res is Err && res->Err_0@ == "monthly salary must be a positive decimal amount"@
            && final(state).repository.unchanged_from(old(state).repository),
        res is Ok ==> res->Ok_0.next_cycle_salary_exact is Some && res->Ok_0.next_cycle_salary_exact->0@
            == crate::money::spec_decimal_text(
            crate::application::positive_salary_of(monthly_salary_exact@).unwrap(),
        ),
        initialized_in(old(state).repository) && crate::application::positive_salary_of(monthly_salary_exact@)
            is Some && (crate::persistence::cycle_lookup(
            old(state).repository.cycles_view(),
            current_cycle_id(old(state).environment, at_utc),
        ) matches Some(r) && r.calendar_version@ == old(state).environment.calendar.version_view()) ==> res is Ok,
        initialized_in(old(state).repository) && crate::application::positive_salary_of(monthly_salary_exact@)
            is Some && crate::persistence::cycle_lookup(
            old(state).repository.cycles_view(),
            current_cycle_id(old(state).environment, at_utc),
        ) is None ==> (res is Ok <==> salary_text_makes_cycle(
            crate::money::spec_decimal_text(crate::application::positive_salary_of(monthly_salary_exact@)->0),
            old(state).environment,
            at_utc,
        )),
        crate::persistence::cycle_lookup(
            old(state).repository.cycles_view(),
            current_cycle_id(old(state).environment, at_utc),
        ) is Some ==> final(state).repository.cycles_view() == old(state).repository.cycles_view(),
{
    match SalaryConfigurationService::update_next_cycle_salary(
        &mut state.repository,
        &state.environment,
        monthly_salary_exact,
        at_utc,
    ) {
        Ok(dto) => Ok(dto),
        Err(e) => Err(e.message()),
    }
}

/// The calendar of a month.
pub fn get_calendar_month_from_state(state: &AppState, year: i32, month: u32) -> (res: Result<
    CalendarMonthDto,
    String,
>)
    ensures
        exists|r: Result<CalendarMonthDto, ApplicationError>|
            calendar_month_outcome(r, state.repository, state.environment, year, month) && match r {
                Ok(dto) => res == Ok::<CalendarMonthDto, String>(dto),
                Err(_) => res is Err,
            },
{
    match SalaryConfigurationService::get_calendar_month(&state.repository, &state.environment, year, month) {
        Ok(dto) => Ok(dto),
        Err(e) => Err(e.message()),
    }
}

} // verus!
