//! The application's operations on the current payroll cycle: snapshots, offline
//! reconciliation, live rewards and settings.
use vstd::prelude::*;

use super::{
    AppSettingsDto, AppSnapshotDto, ApplicationError, CollectedWalletDto, CollectionLedgerEntryDto,
    LiveRewardEventDto, LiveRewardStatusDto, LiveRewardTypeDto, OfflineRewardBagDto, OfflineSummaryDto,
    PayrollCycleDto, RealPayrollDto, RewardCountsDto, RewardEntitlementDto, RewardValuesDto,
    WalletDisplayMode,
};
use crate::domain::payroll::{
    calculate_payroll_snapshot, effective_work_seconds, elapsed_seconds_spec, is_salary_scalable_at,
    proportional_salary_spec, salary_scalable_at, spec_effective_seconds, spec_work_status, today_seconds_spec,
    total_cycle_seconds, PayrollCycle, WorkCalendar, WORK_SECONDS_PER_DAY,
};
use crate::domain::rewards::{counts_for_seconds, counts_of_seconds, total_in_range, reward_snapshot_from_payroll, RewardCounts, RewardType, RewardValues};
use crate::money::{decimal_sum, spec_decimal_text, sum_within_range, Money};
use crate::persistence::{
    last_value_for, bag_lookup, bags_of, cycle_lookup, daily_lookup, ensure_outcome, has_word_char, ledger_of, ledger_value_sum, ledger_count_sums, ledger_values_in_range, triple_fits_u64, pending_of, claim_outcome, collect_outcome, package_outcome, packaged_with_ids, setting_lookup, CollectionLedgerEntry,
    LedgerStore, LiveRewardEvent, LiveRewardStatus, OfflineRewardBag, PersistenceError,
};
use crate::services::{
    duplicate_at, entitlement_rows, invalid_at, live_materialized, offline_reconciled, DailyEntitlement,
    RewardLedgerService,
};
use crate::text::{is_word_char, text_eq};
use crate::time::{
    instant_in_range, instant_lt, spec_date_text, spec_instant_of_local, spec_local_parts, spec_local_text, spec_utc_text, Date, Instant, TimeOfDay,
    TimeZone, MAX_DAY,
};

verus! {

pub const SETTING_WALLET_DISPLAY_MODE: &'static str = "wallet_display_mode";

pub const SETTING_SOUND_ENABLED: &'static str = "sound_enabled";

pub const SETTING_AUTO_COLLECT_ENABLED: &'static str = "auto_collect_enabled";

/// The cycle the application works in, with its frozen payroll snapshot and calendar.
#[derive(Debug)]
pub struct ApplicationContext {
    pub cycle_id: String,
    pub cycle: PayrollCycle,
    pub calendar: WorkCalendar,
}

impl ApplicationContext {
    pub fn new(cycle_id: String, cycle: PayrollCycle, calendar: WorkCalendar) -> (res: ApplicationContext)
        ensures
            res.cycle_id == cycle_id,
            res.cycle == cycle,
            res.calendar == calendar,
    {
        ApplicationContext { cycle_id, cycle, calendar }
    }
}

impl Clone for ApplicationContext {
    fn clone(&self) -> (res: ApplicationContext)
        ensures
            res.cycle_id@ == self.cycle_id@,
            res.cycle.salary_month == self.cycle.salary_month,
            res.cycle.start_date == self.cycle.start_date,
            res.cycle.end_date == self.cycle.end_date,
            res.cycle.monthly_salary == self.cycle.monthly_salary,
            res.cycle.workday_count == self.cycle.workday_count,
            res.cycle.timezone@ == self.cycle.timezone@,
            res.cycle.calendar_version@ == self.cycle.calendar_version@,
            res.calendar.version_view() == self.calendar.version_view(),
            res.calendar.holiday_days() == self.calendar.holiday_days(),
    {
        ApplicationContext {
            cycle_id: self.cycle_id.clone(),
            cycle: self.cycle.clone(),
            calendar: self.calendar.clone(),
        }
    }
}

// ---------------------------------------------------------------------------------------
// Plain values for the front end
// ---------------------------------------------------------------------------------------

impl RewardCountsDto {
    pub fn from_counts(value: RewardCounts) -> (res: RewardCountsDto)
        ensures
            res.silver == value.silver && res.gold == value.gold && res.diamond == value.diamond,
    {
        RewardCountsDto { silver: value.silver, gold: value.gold, diamond: value.diamond }
    }
}

impl OfflineRewardBagDto {
    pub fn from_bag(value: &OfflineRewardBag) -> (res: OfflineRewardBagDto)
        ensures
            res.bag_id@ == value.bag_id@,
            res.cycle_id@ == value.cycle_id@,
            res.period_start@ == spec_utc_text(value.period_start@.0, value.period_start@.1),
            res.period_end@ == spec_utc_text(value.period_end@.0, value.period_end@.1),
            res.counts.silver == value.counts.silver,
            res.counts.gold == value.counts.gold,
            res.counts.diamond == value.counts.diamond,
            res.exact_value@ == spec_decimal_text(value.exact_value@),
            res.created_at@ == spec_utc_text(value.created_at@.0, value.created_at@.1),
    {
        OfflineRewardBagDto {
            bag_id: value.bag_id.clone(),
            cycle_id: value.cycle_id.clone(),
            period_start: value.period_start.to_rfc3339(),
            period_end: value.period_end.to_rfc3339(),
            counts: RewardCountsDto::from_counts(value.counts),
            exact_value: value.exact_value.to_text(),
            created_at: value.created_at.to_rfc3339(),
        }
    }
}

impl CollectionLedgerEntryDto {
    pub fn from_entry(value: &CollectionLedgerEntry) -> (res: CollectionLedgerEntryDto)
        ensures
            res.transaction_id@ == value.transaction_id@,
            res.cycle_id@ == value.cycle_id@,
            res.source_type@ == value.source_type@,
            res.source_id@ == value.source_id@,
            res.counts.silver == value.counts.silver,
            res.counts.gold == value.counts.gold,
            res.counts.diamond == value.counts.diamond,
            res.exact_value@ == spec_decimal_text(value.exact_value@),
            res.created_at@ == spec_utc_text(value.created_at@.0, value.created_at@.1),
    {
        CollectionLedgerEntryDto {
            transaction_id: value.transaction_id.clone(),
            cycle_id: value.cycle_id.clone(),
            source_type: value.source_type.clone(),
            source_id: value.source_id.clone(),
            counts: RewardCountsDto::from_counts(value.counts),
            exact_value: value.exact_value.to_text(),
            created_at: value.created_at.to_rfc3339(),
        }
    }
}

/// The front end's name of a reward type.
pub open spec fn type_dto(t: RewardType) -> LiveRewardTypeDto {
    match t {
        RewardType::Silver => LiveRewardTypeDto::Silver,
        RewardType::Gold => LiveRewardTypeDto::Gold,
        RewardType::Diamond => LiveRewardTypeDto::Diamond,
    }
}

/// The front end's name of a live event status.
pub open spec fn status_dto(s: LiveRewardStatus) -> LiveRewardStatusDto {
    match s {
        LiveRewardStatus::Pending => LiveRewardStatusDto::Pending,
        LiveRewardStatus::Collected => LiveRewardStatusDto::Collected,
        LiveRewardStatus::Packaged => LiveRewardStatusDto::Packaged,
    }
}

/// `d` shows the live event `e`.
pub open spec fn shows_event(d: LiveRewardEventDto, e: LiveRewardEvent) -> bool {
    &&& d.event_id@ == e.event_id@
    &&& d.cycle_id@ == e.cycle_id@
    &&& d.work_date@ == spec_date_text(e.work_date@)
    &&& d.effective_second_boundary == e.effective_second_boundary
    &&& d.event_index == e.event_index
    &&& d.reward_type == type_dto(e.reward_type)
    &&& d.status == status_dto(e.status)
    &&& d.exact_value@ == spec_decimal_text(e.exact_value@)
    &&& d.created_at@ == spec_utc_text(e.created_at@.0, e.created_at@.1)
}

impl LiveRewardEventDto {
    pub fn from_event(value: &LiveRewardEvent) -> (res: LiveRewardEventDto)
        ensures
            shows_event(res, *value),
    {
        LiveRewardEventDto {
            event_id: value.event_id.clone(),
            cycle_id: value.cycle_id.clone(),
            work_date: value.work_date.to_text(),
            effective_second_boundary: value.effective_second_boundary,
            event_index: value.event_index,
            reward_type: match value.reward_type {
                RewardType::Silver => LiveRewardTypeDto::Silver,
                RewardType::Gold => LiveRewardTypeDto::Gold,
                RewardType::Diamond => LiveRewardTypeDto::Diamond,
            },
            status: match value.status {
                LiveRewardStatus::Pending => LiveRewardStatusDto::Pending,
                LiveRewardStatus::Collected => LiveRewardStatusDto::Collected,
                LiveRewardStatus::Packaged => LiveRewardStatusDto::Packaged,
            },
            exact_value: value.exact_value.to_text(),
            created_at: value.created_at.to_rfc3339(),
        }
    }
}

/// The events, shown one by one.
fn events_to_dtos(events: &Vec<LiveRewardEvent>) -> (res: Vec<LiveRewardEventDto>)
    ensures
        res@.len() == events@.len(),
        forall|i: int| 0 <= i < events@.len() ==> shows_event(#[trigger] res@[i], events@[i]),
{
    let mut out: Vec<LiveRewardEventDto> = Vec::new();
    let mut i: usize = 0;
    while i < events.len()
        invariant
            i <= events@.len(),
            out@.len() == i,
            forall|k: int| 0 <= k < i ==> shows_event(#[trigger] out@[k], events@[k]),
        decreases events@.len() - i,
    {
        out.push(LiveRewardEventDto::from_event(&events[i]));
        i = i + 1;
    }
    out
}

/// `d` shows the bag `b`.
pub open spec fn shows_bag(d: OfflineRewardBagDto, b: OfflineRewardBag) -> bool {
    &&& d.bag_id@ == b.bag_id@
    &&& d.cycle_id@ == b.cycle_id@
    &&& d.counts.silver == b.counts.silver
    &&& d.counts.gold == b.counts.gold
    &&& d.counts.diamond == b.counts.diamond
    &&& d.exact_value@ == spec_decimal_text(b.exact_value@)
}

/// The bags, shown one by one.
fn bags_to_dtos(bags: &Vec<OfflineRewardBag>) -> (res: Vec<OfflineRewardBagDto>)
    ensures
        res@.len() == bags@.len(),
        forall|i: int| 0 <= i < bags@.len() ==> shows_bag(#[trigger] res@[i], bags@[i]),
{
    let mut out: Vec<OfflineRewardBagDto> = Vec::new();
    let mut i: usize = 0;
    while i < bags.len()
        invariant
            i <= bags@.len(),
            out@.len() == i,
            forall|k: int| 0 <= k < i ==> shows_bag(#[trigger] out@[k], bags@[k]),
        decreases bags@.len() - i,
    {
        out.push(OfflineRewardBagDto::from_bag(&bags[i]));
        i = i + 1;
    }
    out
}

// ---------------------------------------------------------------------------------------
// Offline entitlements
// ---------------------------------------------------------------------------------------

/// The effective seconds a work date of the cycle is entitled to when the local time is
/// `secs` on `today`: a full workday before today, today's effective seconds on today.
pub open spec fn entitled_seconds(calendar: WorkCalendar, day: int, today: int, secs: int) -> int {
    if day < today {
        WORK_SECONDS_PER_DAY as int
    } else {
        spec_effective_seconds(calendar, day, secs)
    }
}

/// The entitlements of the workdays from `start` to `hi`, in date order.
pub open spec fn expected_entitlements(calendar: WorkCalendar, start: int, hi: int, today: int, secs: int) -> Seq<
    (int, int),
>
    decreases hi - start + 1,
{
    if hi < start {
        Seq::empty()
    } else {
        let rest = expected_entitlements(calendar, start, hi - 1, today, secs);
        if calendar.spec_is_workday(hi) {
            rest.push((hi, entitled_seconds(calendar, hi, today, secs)))
        } else {
            rest
        }
    }
}

/// The entitlements as work dates and seconds.
pub open spec fn entitlement_pairs(ents: Seq<DailyEntitlement>) -> Seq<(int, int)> {
    ents.map_values(|e: DailyEntitlement| (e.work_date@, e.effective_work_seconds as int))
}

/// The last date that counts toward the cycle at `today`: today, but no later than the
/// cycle's end.
pub open spec fn last_counted_day(cycle: PayrollCycle, today: int) -> int {
    if today <= cycle.end_date@ {
        today
    } else {
        cycle.end_date@
    }
}

/// The instant 08:40 on a local date, if the zone has exactly one.
pub open spec fn work_start_instant(zone: Seq<char>, day: int) -> Option<(int, int)> {
    spec_instant_of_local(day, 31200int, zone)
}

/// The unclaimed bags, in stored order.
pub open spec fn unclaimed_of(s: Seq<OfflineRewardBag>) -> Seq<OfflineRewardBag> {
    s.filter(|b: OfflineRewardBag| !b.claimed)
}

/// The exact values of the bags, added up from zero as `Decimal` adds them.
pub open spec fn bag_value_sum(s: Seq<OfflineRewardBag>) -> (int, nat)
    decreases s.len(),
{
    if s.len() == 0 {
        (0, 0)
    } else {
        decimal_sum(bag_value_sum(s.drop_last()), s.last().exact_value@)
    }
}

/// Adding up the bags' exact values from zero stays inside the decimal range at every step.
pub open spec fn bag_values_in_range(s: Seq<OfflineRewardBag>) -> bool
    decreases s.len(),
{
    s.len() == 0 || (bag_values_in_range(s.drop_last()) && sum_within_range(
        bag_value_sum(s.drop_last()),
        s.last().exact_value@,
    ))
}

/// Every amount that a snapshot at `at_utc` computes stays inside the decimal range: the
/// earned salary, today's entitlement value, today's collected value, the cycle's wallet
/// totals and the total of the unclaimed bags.
pub open spec fn snapshot_in_range(repository: LedgerStore, context: ApplicationContext, at_utc: Instant) -> bool {
    let day = local_today(context, at_utc);
    let seconds = today_seconds_spec(context.cycle, context.calendar, day, local_secs(context, at_utc));
    let rates = context.cycle.pay_rates_spec();
    let workdays = context.cycle.workday_count as int;
    let entries = ledger_of(repository.ledger_view(), Some(context.cycle_id@));
    &&& salary_scalable_at(context.cycle, context.calendar, at_utc)
    &&& total_in_range(rates.1, rates.0, workdays, counts_of_seconds(seconds as u64))
    &&& (daily_lookup(repository.daily_view(), context.cycle_id@, day) matches Some(st) ==> total_in_range(
        rates.1,
        rates.0,
        workdays,
        st.collected,
    ))
    &&& triple_fits_u64(ledger_count_sums(entries))
    &&& ledger_values_in_range(entries)
    &&& bag_values_in_range(unclaimed_of(repository.bags_view()))
}

/// What syncing the live rewards at `at_utc` does and answers: a calendar version
/// mismatch or a salary that cannot be scaled is refused with the ledger unchanged;
/// otherwise today's live events are materialized, and the cycle's pending events are
/// answered unless that was refused.
pub open spec fn live_synced(
    old: LedgerStore,
    new: LedgerStore,
    context: ApplicationContext,
    at_utc: Instant,
    res: Result<Vec<LiveRewardEventDto>, ApplicationError>,
) -> bool {
    let versions = context.cycle.calendar_version@ == context.calendar.version_view();
    &&& !versions ==> (res is Err && res->Err_0 is Payroll && new.unchanged_from(old))
    &&& (res matches Err(ApplicationError::Payroll(e)) ==> e is CalendarVersionMismatch && new.unchanged_from(old))
    &&& versions && !salary_scalable_at(context.cycle, context.calendar, at_utc) ==> (res is Err
        && res->Err_0 is AmountOutOfRange && new.unchanged_from(old))
    &&& (res matches Err(ApplicationError::AmountOutOfRange) ==> !salary_scalable_at(
        context.cycle,
        context.calendar,
        at_utc,
    ))
    &&& (res matches Ok(events) ==> pending_events_shown(events@, new, context))
    &&& salary_scalable_at(context.cycle, context.calendar, at_utc) && versions ==> exists|
        work_date: Date,
        r: Result<Vec<LiveRewardEvent>, PersistenceError>,
    |
        {
            &&& work_date@ == local_today(context, at_utc)
            &&& #[trigger] live_materialized(
                old,
                new,
                context.cycle_id@,
                context.cycle,
                work_date,
                today_seconds_spec(
                    context.cycle,
                    context.calendar,
                    local_today(context, at_utc),
                    local_secs(context, at_utc),
                ) as u64,
                at_utc,
                r,
            )
            &&& match r {
                Ok(_) => res is Ok,
                Err(e) => res == Err::<Vec<LiveRewardEventDto>, ApplicationError>(
                    ApplicationError::Persistence(e),
                ),
            }
        }
}

/// Where the bags add up inside the range, so does every step of the addition.
pub proof fn lemma_bag_values_step(s: Seq<OfflineRewardBag>, i: int)
    requires
        bag_values_in_range(s),
        0 <= i < s.len(),
    ensures
        sum_within_range(bag_value_sum(s.take(i)), s[i].exact_value@),
    decreases s.len(),
{
    if i == s.len() - 1 {
        assert(s.take(i) == s.drop_last());
    } else {
        lemma_bag_values_step(s.drop_last(), i);
        assert(s.drop_last().take(i) == s.take(i));
    }
}

/// Keeping the bags of every cycle keeps all of them.
pub proof fn lemma_bags_of_all(s: Seq<OfflineRewardBag>)
    ensures
        bags_of(s, None) == s,
    decreases s.len(),
{
    reveal(Seq::filter);
    if s.len() > 0 {
        lemma_bags_of_all(s.drop_last());
        assert(s.drop_last().push(s.last()) == s);
    }
}

/// The boolean a setting holds: `true`, `false`, or the default for anything else.
pub open spec fn bool_setting(value: Option<Seq<char>>, default: bool) -> bool {
    if value == Some("true"@) {
        true
    } else if value == Some("false"@) {
        false
    } else {
        default
    }
}

/// `dto` shows the cycle's state at `at_utc` over the ledger `repository`: local work
/// status and seconds, today's entitlement, the real salary earned, and the unclaimed bags.
pub open spec fn shows_snapshot(dto: AppSnapshotDto, repository: LedgerStore, context: ApplicationContext, at_utc: Instant) -> bool {
            let (day, secs) = spec_local_parts(at_utc@.0, at_utc@.1, context.cycle.timezone@);
            let seconds = today_seconds_spec(context.cycle, context.calendar, day, secs);
            &&& cycle_lookup(repository.cycles_view(), context.cycle_id@) is Some
            &&& dto.work_status@ == spec_work_status(context.calendar, day, secs).code_spec()
            &&& dto.effective_work_seconds_today as int == seconds
            &&& (dto.reward_entitlement.today.silver as int, dto.reward_entitlement.today.gold as int,
                dto.reward_entitlement.today.diamond as int) == counts_for_seconds(seconds)
            &&& dto.payroll_cycle.cycle_id@ == context.cycle_id@
            &&& dto.payroll_cycle.workday_count == context.cycle.workday_count
            &&& dto.payroll_cycle.monthly_salary_exact@ == spec_decimal_text(context.cycle.monthly_salary@)
            &&& dto.real_payroll.today_real_earned_exact@ == spec_decimal_text(
                proportional_salary_spec(
                    context.cycle.monthly_salary@,
                    seconds,
                    total_cycle_seconds(context.cycle),
                ),
            )
            &&& dto.real_payroll.cycle_real_earned_exact@ == spec_decimal_text(
                proportional_salary_spec(
                    context.cycle.monthly_salary@,
                    elapsed_seconds_spec(context.cycle, context.calendar, day, secs),
                    total_cycle_seconds(context.cycle),
                ),
            )
            &&& dto.current_local_time@ == spec_local_text(at_utc@.0, at_utc@.1, context.cycle.timezone@)
            &&& dto.payroll_cycle.start_date@ == spec_date_text(context.cycle.start_date@)
            &&& dto.payroll_cycle.end_date@ == spec_date_text(context.cycle.end_date@)
            &&& dto.payroll_cycle.daily_salary_exact@ == spec_decimal_text(context.cycle.pay_rates_spec().0)
            &&& dto.payroll_cycle.hourly_salary_exact@ == spec_decimal_text(context.cycle.pay_rates_spec().1)
            &&& forall|v: RewardValues| #[trigger] v.derived_from(context.cycle) ==> {
                &&& dto.reward_entitlement.values.silver_exact@ == spec_decimal_text(v.silver@)
                &&& dto.reward_entitlement.values.gold_exact@ == spec_decimal_text(v.gold@)
                &&& dto.reward_entitlement.values.diamond_exact@ == spec_decimal_text(v.diamond@)
                &&& dto.collected_wallet.today_collected_exact@ == spec_decimal_text(
                    match daily_lookup(repository.daily_view(), context.cycle_id@, day) {
                        Some(st) => v.total_value_spec(st.collected),
                        None => (0int, 0nat),
                    },
                )
            }
            &&& dto.collected_wallet.cycle_collected_exact@ == spec_decimal_text(
                ledger_value_sum(ledger_of(repository.ledger_view(), Some(context.cycle_id@))),
            )
            &&& dto.offline.unclaimed_bag_count == unclaimed_of(repository.bags_view()).len()
            &&& dto.offline.unclaimed_exact_total@ == spec_decimal_text(
                bag_value_sum(unclaimed_of(repository.bags_view())),
            )
}

/// `s` is what the stored settings give, with the defaults for what is not set.
pub open spec fn stored_settings(repository: LedgerStore, s: AppSettingsDto) -> bool {
    &&& (s.wallet_display_mode == WalletDisplayMode::CollectedWallet) <==> setting_lookup(
        repository.settings_view(),
        SETTING_WALLET_DISPLAY_MODE@,
    ) == Some("COLLECTED_WALLET"@)
    &&& s.sound_enabled == bool_setting(setting_lookup(repository.settings_view(), SETTING_SOUND_ENABLED@), true)
    &&& s.auto_collect_enabled == bool_setting(
        setting_lookup(repository.settings_view(), SETTING_AUTO_COLLECT_ENABLED@),
        true,
    )
}

/// `shown` shows the pending live events of the context's cycle in the ledger, in order.
pub open spec fn pending_events_shown(
    shown: Seq<LiveRewardEventDto>,
    repository: LedgerStore,
    context: ApplicationContext,
) -> bool {
    &&& shown.len() == pending_of(repository.events_view(), context.cycle_id@).len()
    &&& forall|i: int|
        0 <= i < shown.len() ==> shows_event(#[trigger] shown[i], pending_of(repository.events_view(), context.cycle_id@)[i])
}

/// `shown` shows the unclaimed bags of the ledger, in stored order.
pub open spec fn unclaimed_bags_shown(shown: Seq<OfflineRewardBagDto>, repository: LedgerStore) -> bool {
    &&& shown.len() == unclaimed_of(repository.bags_view()).len()
    &&& forall|i: int| 0 <= i < shown.len() ==> shows_bag(#[trigger] shown[i], unclaimed_of(repository.bags_view())[i])
}

/// The entitlements the cycle has at local date `today` and second `secs`: nothing before
/// the cycle starts, otherwise each workday from the cycle's start through today (or the
/// cycle's end), a full day before today and today's effective seconds on today.
pub open spec fn cycle_entitlements(context: ApplicationContext, today: int, secs: int) -> Seq<(int, int)> {
    if today < context.cycle.start_date@ {
        Seq::<(int, int)>::empty()
    } else {
        expected_entitlements(
            context.calendar,
            context.cycle.start_date@,
            last_counted_day(context.cycle, today),
            today,
            secs,
        )
    }
}

/// What reconciling the cycle's offline entitlements at `at_utc` does and returns: refused
/// (changing nothing) when the cycle ends before it starts although it has begun, or when
/// 08:40 of its first day has no single instant; otherwise the cycle's entitlements are
/// reconciled over the period from that instant (or `at_utc`, if earlier) to `at_utc`.
pub open spec fn offline_reconciled_at(
    old: LedgerStore,
    new: LedgerStore,
    context: ApplicationContext,
    at_utc: Instant,
    res: Result<Option<OfflineRewardBagDto>, ApplicationError>,
) -> bool {
    let (today, secs) = spec_local_parts(at_utc@.0, at_utc@.1, context.cycle.timezone@);
    let start = work_start_instant(context.cycle.timezone@, context.cycle.start_date@);
    if (today >= context.cycle.start_date@ && context.cycle.end_date@ < context.cycle.start_date@) || !(
    start is Some && instant_in_range(start->0)) {
        &&& res is Err
        &&& res->Err_0 is InvalidLocalDateTime
        &&& new.unchanged_from(old)
    } else {
        exists|
            ents: Seq<DailyEntitlement>,
            period_start: Instant,
            r: Result<Option<OfflineRewardBag>, PersistenceError>,
        |
            {
                &&& entitlement_pairs(ents) == cycle_entitlements(context, today, secs)
                &&& period_start@ == if instant_lt(at_utc@, start->0) {
                    at_utc@
                } else {
                    start->0
                }
                &&& offline_reconciled(
                    old,
                    new,
                    context.cycle_id@,
                    context.cycle,
                    period_start,
                    at_utc,
                    entitlement_rows(ents),
                    at_utc,
                    r,
                )
                &&& match r {
                    Ok(Some(b)) => res is Ok && res->Ok_0 is Some && shows_bag(res->Ok_0->0, b),
                    Ok(None) => res == Ok::<Option<OfflineRewardBagDto>, ApplicationError>(None),
                    Err(e) => res == Err::<Option<OfflineRewardBagDto>, ApplicationError>(
                        ApplicationError::Persistence(e),
                    ),
                }
            }
    }
}

/// The local date of `at_utc` in the cycle's zone.
pub open spec fn local_today(context: ApplicationContext, at_utc: Instant) -> int {
    spec_local_parts(at_utc@.0, at_utc@.1, context.cycle.timezone@).0
}

/// The local second of the day of `at_utc` in the cycle's zone.
pub open spec fn local_secs(context: ApplicationContext, at_utc: Instant) -> int {
    spec_local_parts(at_utc@.0, at_utc@.1, context.cycle.timezone@).1
}

pub struct ApplicationService;

impl ApplicationService {
    /// The entitlements of the cycle's workdays from its start through today (or its end),
    /// as of `at_utc`.
    fn daily_entitlements(context: &ApplicationContext, at_utc: Instant) -> (res: Result<Vec<DailyEntitlement>, ApplicationError>)
        ensures
            ({
                let (today, secs) = spec_local_parts(at_utc@.0, at_utc@.1, context.cycle.timezone@);
                &&& res is Err <==> today >= context.cycle.start_date@ && context.cycle.end_date@ < context.cycle.start_date@
                &&& res matches Err(e) ==> e is InvalidLocalDateTime
                &&& res matches Ok(ents) ==> forall|i: int|
                    0 <= i < ents@.len() ==> (#[trigger] ents@[i]).effective_work_seconds <= WORK_SECONDS_PER_DAY
                &&& res matches Ok(ents) ==> forall|i: int, j: int|
                    0 <= i < j < ents@.len() ==> (#[trigger] ents@[i]).work_date@ < (#[trigger] ents@[j]).work_date@
                &&& res matches Ok(ents) ==> entitlement_pairs(ents@) == if today < context.cycle.start_date@ {
                    Seq::<(int, int)>::empty()
                } else {
                    expected_entitlements(
                        context.calendar,
                        context.cycle.start_date@,
                        last_counted_day(context.cycle, today),
                        today,
                        secs,
                    )
                }
            }),
    {
        let local = at_utc.in_zone(&context.cycle.timezone);
        let local_date = local.date;
        let ghost today = local_date@;
        let ghost secs = local.time@;
        let mut entitlements: Vec<DailyEntitlement> = Vec::new();
        if local_date.is_before(&context.cycle.start_date) {
            assert(entitlement_pairs(entitlements@) == Seq::<(int, int)>::empty());
            return Ok(entitlements);
        }
        if context.cycle.end_date.is_before(&context.cycle.start_date) {
            return Err(ApplicationError::InvalidLocalDateTime);
        }
        let last_date = local_date.earliest(context.cycle.end_date);
        let mut date = context.cycle.start_date;
        proof {
            use_type_invariant(&last_date);
            assert(entitlement_pairs(entitlements@) == Seq::<(int, int)>::empty());
        }
        loop
            invariant_except_break
                forall|i: int|
                    0 <= i < entitlements@.len() ==> (#[trigger] entitlements@[i]).work_date@ < date@,
                entitlement_pairs(entitlements@) == expected_entitlements(
                    context.calendar,
                    context.cycle.start_date@,
                    date@ - 1,
                    today,
                    secs,
                ),
            invariant
                forall|i: int|
                    0 <= i < entitlements@.len() ==> (#[trigger] entitlements@[i]).effective_work_seconds
                        <= WORK_SECONDS_PER_DAY,
                forall|i: int|
                    0 <= i < entitlements@.len() ==> (#[trigger] entitlements@[i]).work_date@ <= date@,
                forall|i: int, j: int|
                    0 <= i < j < entitlements@.len() ==> (#[trigger] entitlements@[i]).work_date@ < (
                    #[trigger] entitlements@[j]).work_date@,
                context.cycle.start_date@ <= date@ <= last_date@,
                last_date@ == last_counted_day(context.cycle, today),
                last_date@ <= MAX_DAY,
                today == local_date@,
                secs == local.time@,
                (today, secs) == spec_local_parts(at_utc@.0, at_utc@.1, context.cycle.timezone@),
            ensures
                entitlement_pairs(entitlements@) == expected_entitlements(
                    context.calendar,
                    context.cycle.start_date@,
                    last_date@,
                    today,
                    secs,
                ),
            decreases last_date@ - date@,
        {
            let ghost before = entitlements@;
            proof {
                use_type_invariant(&date);
            }
            if context.calendar.is_workday(date) {
                let seconds: u64 = if date.is_before(&local_date) {
                    WORK_SECONDS_PER_DAY as u64
                } else {
                    effective_work_seconds(date, local.time, &context.calendar) as u64
                };
                entitlements.push(DailyEntitlement { work_date: date, effective_work_seconds: seconds });
                proof {
                    assert(entitlement_pairs(entitlements@) == entitlement_pairs(before).push(
                        (date@, seconds as int),
                    ));
                }
            }
            if date.same_day(&last_date) {
                break;
            }
            date = match date.succ() {
                Some(d) => d,
                None => {
                    break;
                },
            };
        }
        Ok(entitlements)
    }

    /// The UTC instant of 08:40 on a local date of a zone.
    fn local_work_start_utc(timezone: &TimeZone, date: Date) -> (res: Result<Instant, ApplicationError>)
        ensures
            res matches Ok(i) ==> Some(i@) == work_start_instant(timezone@, date@),
            res is Ok <==> work_start_instant(timezone@, date@) is Some && instant_in_range(
                work_start_instant(timezone@, date@)->0,
            ),
            res matches Err(e) ==> e is InvalidLocalDateTime,
    {
        let start = match TimeOfDay::from_hms(8, 40, 0) {
            Some(t) => t,
            None => {
                return Err(ApplicationError::InvalidLocalDateTime);
            },
        };
        match timezone.instant_of_local(date, start) {
            Some(i) => {
                proof {
                    use_type_invariant(&i);
                }
                Ok(i)
            },
            None => Err(ApplicationError::InvalidLocalDateTime),
        }
    }

    /// Reconciles the cycle's offline entitlements up to `at_utc`, over the period from the
    /// cycle's first 08:40 (or `at_utc`, if earlier) to `at_utc`.
    pub fn reconcile_offline(
        repository: &mut LedgerStore,
        context: &ApplicationContext,
        at_utc: Instant,
    ) -> (res: Result<Option<OfflineRewardBagDto>, ApplicationError>)
        requires
            context.cycle.workday_count > 0,
        ensures
            work_start_instant(context.cycle.timezone@, context.cycle.start_date@) is None ==> res is Err
                && final(repository).unchanged_from(*old(repository)),
            offline_reconciled_at(*old(repository), *final(repository), *context, at_utc, res),
            final(repository).events_view() == old(repository).events_view(),
            final(repository).settings_view() == old(repository).settings_view(),
            res matches Ok(Some(dto)) ==> exists|b: OfflineRewardBag|
                shows_bag(dto, b) && bag_lookup(final(repository).bags_view(), b.bag_id@) == Some(b)
                    && b.cycle_id@ == context.cycle_id@ && !b.claimed,
    {
        let entitlements = match Self::daily_entitlements(context, at_utc) {
            Ok(e) => e,
            Err(e) => {
                return Err(e);
            },
        };
        let cycle_start = match Self::local_work_start_utc(&context.cycle.timezone, context.cycle.start_date) {
            Ok(i) => i,
            Err(e) => {
                return Err(e);
            },
        };
        let period_start = cycle_start.earliest(at_utc);
        proof {
            assert forall|k: int| 0 <= k < entitlements@.len() implies !#[trigger] invalid_at(entitlements@, k) by {
                if duplicate_at(entitlements@, k) {
                    let j = choose|j: int| 0 <= j < k && (#[trigger] entitlements@[j]).work_date@ == entitlements@[k].work_date@;
                    assert(entitlements@[j].work_date@ < entitlements@[k].work_date@);
                }
            }
        }
        let ghost before = *repository;
        let r = RewardLedgerService::reconcile_offline(
            repository,
            context.cycle_id.as_str(),
            &context.cycle,
            period_start,
            at_utc,
            entitlements.as_slice(),
            at_utc,
        );
        proof {
            assert(entitlement_pairs(entitlements@) == cycle_entitlements(*context, local_today(*context, at_utc), local_secs(*context, at_utc)));
        }
        let out = match r {
            Ok(Some(bag)) => {
                let dto = OfflineRewardBagDto::from_bag(&bag);
                proof {
                    assert(shows_bag(dto, bag));
                    assert(bag_lookup(repository.bags_view(), bag.bag_id@) == Some(bag));
                    assert(exists|b: OfflineRewardBag|
                        shows_bag(dto, b) && bag_lookup(repository.bags_view(), b.bag_id@) == Some(b)
                            && b.cycle_id@ == context.cycle_id@ && !b.claimed);
                }
                let out: Result<Option<OfflineRewardBagDto>, ApplicationError> = Ok(Some(dto));
                proof {
                    assert(out matches Ok(Some(d)) ==> shows_bag(d, bag));
                    assert(out matches Ok(Some(d)) ==> exists|b: OfflineRewardBag|
                        shows_bag(d, b) && bag_lookup(repository.bags_view(), b.bag_id@) == Some(b)
                            && b.cycle_id@ == context.cycle_id@ && !b.claimed);
                }
                out
            },
            Ok(None) => Ok(None),
            Err(e) => Err(ApplicationError::Persistence(e)),
        };
        proof {
            assert(offline_reconciled(
                before,
                *repository,
                context.cycle_id@,
                context.cycle,
                period_start,
                at_utc,
                entitlement_rows(entitlements@),
                at_utc,
                r,
            ));
        }
        out
    }
}

impl ApplicationService {
    /// The unclaimed bags, by creation time.
    fn unclaimed_bags(repository: &LedgerStore) -> (res: Vec<OfflineRewardBag>)
        ensures
            res@ == unclaimed_of(repository.bags_view()),
    {
        let all = repository.offline_reward_bags(None);
        let ghost s = repository.bags_view();
        proof {
            lemma_bags_of_all(s);
        }
        let mut out: Vec<OfflineRewardBag> = Vec::new();
        let mut i: usize = 0;
        assert(unclaimed_of(s.take(0)) == Seq::<OfflineRewardBag>::empty()) by {
            reveal(Seq::filter);
        }
        while i < all.len()
            invariant
                all@ == s,
                i <= s.len(),
                out@ == unclaimed_of(s.take(i as int)),
            decreases s.len() - i,
        {
            proof {
                reveal(Seq::filter);
                assert(s.take(i + 1).drop_last() == s.take(i as int));
                assert(s.take(i + 1).last() == s[i as int]);
            }
            if !all[i].claimed {
                out.push(all[i].clone());
            }
            i = i + 1;
        }
        assert(s.take(i as int) == s);
        out
    }

    /// The current picture of the cycle at `at_utc`: local time and work status, the real
    /// salary earned, today's reward entitlement, the collected wallet and the unclaimed
    /// offline bags. The cycle's payroll snapshot is frozen first.
    pub fn get_app_snapshot(repository: &mut LedgerStore, context: &ApplicationContext, at_utc: Instant) -> (res:
        Result<AppSnapshotDto, ApplicationError>)
        requires
            context.cycle.workday_count > 0,
        ensures
            res matches Ok(dto) ==> shows_snapshot(dto, *final(repository), *context, at_utc),
            exists|r: Result<crate::persistence::PayrollCycleRecord, PersistenceError>|
                ensure_outcome(*old(repository), *final(repository), context.cycle_id@, context.cycle, at_utc, r)
                    && (r is Err ==> res == Err::<AppSnapshotDto, ApplicationError>(
                    ApplicationError::Persistence(r->Err_0),
                )) && (r is Ok ==> (res is Err && res->Err_0 is Persistence ==> !snapshot_in_range(
                    *final(repository),
                    *context,
                    at_utc,
                ))) && (r is Ok && context.cycle.calendar_version@ == context.calendar.version_view()
                    && snapshot_in_range(*final(repository), *context, at_utc) ==> res is Ok),
            res matches Err(ApplicationError::Payroll(e)) ==> e is CalendarVersionMismatch
                && context.cycle.calendar_version@ != context.calendar.version_view(),
            res matches Err(ApplicationError::AmountOutOfRange) ==> !snapshot_in_range(
                *final(repository),
                *context,
                at_utc,
            ),
    {
        let ghost before = *repository;
        let ensured = repository.ensure_payroll_cycle(context.cycle_id.as_str(), &context.cycle, at_utc);
        let ghost ensured_g = ensured;
        match ensured {
            Ok(_) => {},
            Err(e) => {
                return Err(ApplicationError::Persistence(e));
            },
        }
        if !is_salary_scalable_at(&context.cycle, &context.calendar, at_utc) && text_eq(
            context.cycle.calendar_version.as_str(),
            context.calendar.version(),
        ) {
            return Err(ApplicationError::AmountOutOfRange);
        }
        let payroll = match calculate_payroll_snapshot(&context.cycle, &context.calendar, at_utc) {
            Ok(p) => p,
            Err(e) => {
                return Err(ApplicationError::Payroll(e));
            },
        };
        let rewards = match reward_snapshot_from_payroll(&context.cycle, &payroll) {
            Some(r) => r,
            None => {
                proof {
                    assert(!snapshot_in_range(*repository, *context, at_utc));
                }
                return Err(ApplicationError::AmountOutOfRange);
            },
        };
        let reward_values = RewardValues::for_cycle(&context.cycle);
        let local_date = payroll.local_datetime.date;
        let today_collected = match repository.daily_reward_state(context.cycle_id.as_str(), local_date) {
            Some(state) => match reward_values.total_value(state.collected) {
                Some(v) => v,
                None => {
                    proof {
                        assert(!snapshot_in_range(*repository, *context, at_utc));
                    }
                    return Err(ApplicationError::AmountOutOfRange);
                },
            },
            None => Money::zero(),
        };
        let cycle_collected = match repository.cycle_wallet_totals(context.cycle_id.as_str()) {
            Ok(t) => t,
            Err(e) => {
                proof {
                    assert(!snapshot_in_range(*repository, *context, at_utc));
                }
                return Err(ApplicationError::Persistence(e));
            },
        };
        let unclaimed = Self::unclaimed_bags(repository);
        let mut total = Money::zero();
        let mut i: usize = 0;
        assert(unclaimed@.take(0) == Seq::<OfflineRewardBag>::empty());
        while i < unclaimed.len()
            invariant
                i <= unclaimed@.len(),
                total@ == bag_value_sum(unclaimed@.take(i as int)),
                unclaimed@ == unclaimed_of(repository.bags_view()),
                ensure_outcome(before, *repository, context.cycle_id@, context.cycle, at_utc, ensured_g),
                ensured_g is Ok,
                before == *old(repository),
            decreases unclaimed@.len() - i,
        {
            proof {
                assert(unclaimed@.take(i + 1).drop_last() == unclaimed@.take(i as int));
            }
            total = match total.checked_add(unclaimed[i].exact_value) {
                Some(v) => v,
                None => {
                    proof {
                        if bag_values_in_range(unclaimed@) {
                            lemma_bag_values_step(unclaimed@, i as int);
                        }
                        assert(!snapshot_in_range(*repository, *context, at_utc));
                    }
                    return Err(ApplicationError::AmountOutOfRange);
                },
            };
            i = i + 1;
        }
        assert(unclaimed@.take(i as int) == unclaimed@);
        let rates = context.cycle.pay_rates();
        Ok(
            AppSnapshotDto {
                current_local_time: payroll.local_datetime.to_rfc3339(),
                work_status: payroll.work_status.as_code().to_string(),
                effective_work_seconds_today: payroll.effective_work_seconds_today,
                payroll_cycle: PayrollCycleDto {
                    cycle_id: context.cycle_id.clone(),
                    start_date: context.cycle.start_date.to_text(),
                    end_date: context.cycle.end_date.to_text(),
                    workday_count: context.cycle.workday_count,
                    monthly_salary_exact: context.cycle.monthly_salary.to_text(),
                    daily_salary_exact: rates.daily.to_text(),
                    hourly_salary_exact: rates.hourly.to_text(),
                },
                real_payroll: RealPayrollDto {
                    today_real_earned_exact: payroll.today_earned.to_text(),
                    cycle_real_earned_exact: payroll.cycle_earned.to_text(),
                },
                reward_entitlement: RewardEntitlementDto {
                    today: RewardCountsDto::from_counts(rewards.counts),
                    values: RewardValuesDto {
                        silver_exact: rewards.values.silver.to_text(),
                        gold_exact: rewards.values.gold.to_text(),
                        diamond_exact: rewards.values.diamond.to_text(),
                    },
                },
                collected_wallet: CollectedWalletDto {
                    today_collected_exact: today_collected.to_text(),
                    cycle_collected_exact: cycle_collected.exact_value.to_text(),
                },
                offline: OfflineSummaryDto {
                    unclaimed_bag_count: unclaimed.len() as u64,
                    unclaimed_exact_total: total.to_text(),
                },
            },
        )
    }

    /// The unclaimed offline bags, by creation time.
    pub fn list_offline_reward_bags(repository: &LedgerStore) -> (res: Vec<OfflineRewardBagDto>)
        ensures
            unclaimed_bags_shown(res@, *repository),
    {
        let bags = Self::unclaimed_bags(repository);
        bags_to_dtos(&bags)
    }

    /// Claims an offline bag into the wallet.
    pub fn claim_offline_reward_bag(repository: &mut LedgerStore, bag_id: &str, at_utc: Instant) -> (res: Result<
        CollectionLedgerEntryDto,
        ApplicationError,
    >)
        ensures
            exists|r: Result<CollectionLedgerEntry, PersistenceError>|
                claim_outcome(*old(repository), *final(repository), bag_id@, at_utc, r) && match r {
                    Ok(entry) => (res is Ok && res->Ok_0.transaction_id@ == entry.transaction_id@
                        && res->Ok_0.source_id@ == bag_id@),
                    Err(e) => res == Err::<CollectionLedgerEntryDto, ApplicationError>(ApplicationError::Persistence(e)),
                },
    {
        match RewardLedgerService::claim_offline_bag(repository, bag_id, at_utc) {
            Ok(entry) => Ok(CollectionLedgerEntryDto::from_entry(&entry)),
            Err(e) => Err(ApplicationError::Persistence(e)),
        }
    }

    /// Materializes the live events entitled so far today and returns the cycle's pending
    /// events.
    pub fn sync_live_rewards(repository: &mut LedgerStore, context: &ApplicationContext, at_utc: Instant) -> (res:
        Result<Vec<LiveRewardEventDto>, ApplicationError>)
        requires
            context.cycle.workday_count > 0,
        ensures
            live_synced(*old(repository), *final(repository), *context, at_utc, res),
    {
        if !is_salary_scalable_at(&context.cycle, &context.calendar, at_utc) && text_eq(
            context.cycle.calendar_version.as_str(),
            context.calendar.version(),
        ) {
            return Err(ApplicationError::AmountOutOfRange);
        }
        let payroll = match calculate_payroll_snapshot(&context.cycle, &context.calendar, at_utc) {
            Ok(p) => p,
            Err(e) => {
                return Err(ApplicationError::Payroll(e));
            },
        };
        let ghost before = *repository;
        let r = RewardLedgerService::materialize_live_rewards(
            repository,
            context.cycle_id.as_str(),
            &context.cycle,
            payroll.local_datetime.date,
            payroll.effective_work_seconds_today as u64,
            at_utc,
        );
        proof {
            assert(live_materialized(
                before,
                *repository,
                context.cycle_id@,
                context.cycle,
                payroll.local_datetime.date,
                payroll.effective_work_seconds_today as u64,
                at_utc,
                r,
            ));
            let ghost secs = today_seconds_spec(
                context.cycle,
                context.calendar,
                local_today(*context, at_utc),
                local_secs(*context, at_utc),
            ) as u64;
            assert(secs == payroll.effective_work_seconds_today as u64);
            assert(live_materialized(
                before,
                *repository,
                context.cycle_id@,
                context.cycle,
                payroll.local_datetime.date,
                secs,
                at_utc,
                r,
            ));
        }
        match r {
            Ok(events) => Ok(events_to_dtos(&events)),
            Err(e) => Err(ApplicationError::Persistence(e)),
        }
    }

    /// The cycle's pending live events, by work date and event index.
    pub fn list_pending_live_rewards(repository: &LedgerStore, context: &ApplicationContext) -> (res: Vec<
        LiveRewardEventDto,
    >)
        ensures
            pending_events_shown(res@, *repository, *context),
    {
        let events = repository.pending_live_rewards(context.cycle_id.as_str());
        events_to_dtos(&events)
    }

    /// Collects a pending live event into the wallet.
    pub fn collect_live_reward(repository: &mut LedgerStore, event_id: &str, at_utc: Instant) -> (res: Result<
        CollectionLedgerEntryDto,
        ApplicationError,
    >)
        ensures
            exists|r: Result<CollectionLedgerEntry, PersistenceError>|
                collect_outcome(*old(repository), *final(repository), event_id@, at_utc, r) && match r {
                    Ok(entry) => (res is Ok && res->Ok_0.transaction_id@ == entry.transaction_id@
                        && res->Ok_0.source_id@ == event_id@),
                    Err(e) => res == Err::<CollectionLedgerEntryDto, ApplicationError>(ApplicationError::Persistence(e)),
                },
    {
        match RewardLedgerService::collect_live_reward(repository, event_id, at_utc) {
            Ok(entry) => Ok(CollectionLedgerEntryDto::from_entry(&entry)),
            Err(e) => Err(ApplicationError::Persistence(e)),
        }
    }

    /// Packages every pending live event into offline bags, one per cycle.
    pub fn package_pending_live_rewards(repository: &mut LedgerStore, at_utc: Instant) -> (res: Result<
        Vec<OfflineRewardBagDto>,
        ApplicationError,
    >)
        ensures
            exists|r: Result<Vec<OfflineRewardBag>, PersistenceError>|
                package_outcome(*old(repository), *final(repository), at_utc, r) && match r {
                    Ok(bags) => (res is Ok && res->Ok_0@.len() == bags@.len() && forall|i: int|
                        0 <= i < bags@.len() ==> shows_bag(#[trigger] res->Ok_0@[i], bags@[i])),
                    Err(e) => res == Err::<Vec<OfflineRewardBagDto>, ApplicationError>(ApplicationError::Persistence(e)),
                },
            exists|ids: Seq<Seq<char>>, r: Result<Vec<OfflineRewardBag>, PersistenceError>|
                #[trigger] packaged_with_ids(*old(repository), *final(repository), ids, at_utc, r) && match r {
                    Ok(bags) => (res is Ok && res->Ok_0@.len() == bags@.len() && forall|i: int|
                        0 <= i < bags@.len() ==> shows_bag(#[trigger] res->Ok_0@[i], bags@[i])),
                    Err(e) => res == Err::<Vec<OfflineRewardBagDto>, ApplicationError>(ApplicationError::Persistence(e)),
                },
    {
        let ghost before = *repository;
        let r = RewardLedgerService::package_pending_live_rewards(repository, at_utc);
        let ghost ids = choose|ids: Seq<Seq<char>>| packaged_with_ids(before, *repository, ids, at_utc, r);
        assert(packaged_with_ids(before, *repository, ids, at_utc, r));
        match r {
            Ok(bags) => Ok(bags_to_dtos(&bags)),
            Err(e) => Err(ApplicationError::Persistence(e)),
        }
    }

    /// The application settings, with the defaults for what is not set.
    pub fn get_app_settings(repository: &LedgerStore) -> (res: AppSettingsDto)
        ensures
            stored_settings(*repository, res),
    {
        let defaults = AppSettingsDto::default();
        let wallet_display_mode = match repository.setting(SETTING_WALLET_DISPLAY_MODE) {
            Some(v) => {
                proof {
                    reveal_strlit("COLLECTED_WALLET");
                }
                if text_eq(v.as_str(), "COLLECTED_WALLET") {
                    WalletDisplayMode::CollectedWallet
                } else {
                    defaults.wallet_display_mode
                }
            },
            None => defaults.wallet_display_mode,
        };
        AppSettingsDto {
            wallet_display_mode,
            sound_enabled: read_bool_setting(repository, SETTING_SOUND_ENABLED, defaults.sound_enabled),
            auto_collect_enabled: read_bool_setting(
                repository,
                SETTING_AUTO_COLLECT_ENABLED,
                defaults.auto_collect_enabled,
            ),
        }
    }

    /// Stores the application settings and returns them as stored.
    pub fn update_app_settings(repository: &mut LedgerStore, settings: AppSettingsDto, at_utc: Instant) -> (res:
        Result<AppSettingsDto, ApplicationError>)
        ensures
            res == Ok::<AppSettingsDto, ApplicationError>(settings),
            stored_settings(*final(repository), settings),
            final(repository).same_rows_but_settings(*old(repository)),
    {
        let display_mode = match settings.wallet_display_mode {
            WalletDisplayMode::RealSalary => "REAL_SALARY",
            WalletDisplayMode::CollectedWallet => "COLLECTED_WALLET",
        };
        let mut pairs: Vec<(String, String)> = Vec::new();
        pairs.push((SETTING_WALLET_DISPLAY_MODE.to_string(), display_mode.to_string()));
        pairs.push((SETTING_SOUND_ENABLED.to_string(), bool_text(settings.sound_enabled)));
        pairs.push((SETTING_AUTO_COLLECT_ENABLED.to_string(), bool_text(settings.auto_collect_enabled)));
        proof {
            reveal_strlit("wallet_display_mode");
            reveal_strlit("sound_enabled");
            reveal_strlit("auto_collect_enabled");
            assert forall|i: int| 0 <= i < pairs@.len() implies has_word_char((#[trigger] pairs@[i]).0@) by {
                assert(is_word_char(pairs@[i].0@[0]));
            }
        }
        match repository.set_settings(pairs.as_slice(), at_utc) {
            Ok(()) => {},
            Err(e) => {
                return Err(ApplicationError::Persistence(e));
            },
        }
        proof {
            reveal_strlit("COLLECTED_WALLET");
            reveal_strlit("REAL_SALARY");
            reveal_strlit("true");
            reveal_strlit("false");
            reveal_strlit("wallet_display_mode");
            reveal_strlit("sound_enabled");
            reveal_strlit("auto_collect_enabled");
            let k0 = SETTING_WALLET_DISPLAY_MODE@;
            let k1 = SETTING_SOUND_ENABLED@;
            let k2 = SETTING_AUTO_COLLECT_ENABLED@;
            assert(k0 == "wallet_display_mode"@ && k1 == "sound_enabled"@ && k2 == "auto_collect_enabled"@);
            assert(k0 != k1 && k0 != k2 && k1 != k2) by {
                assert(k0[0] != k1[0]);
                assert(k0[0] != k2[0]);
                assert(k1[0] != k2[0]);
            }
            assert(pairs@.len() == 3);
            assert(pairs@[0].0@ == k0 && pairs@[1].0@ == k1 && pairs@[2].0@ == k2);
            assert(last_value_for(pairs@, k0) == Some(pairs@[0].1@)) by {
                reveal_with_fuel(last_value_for, 4);
                assert(pairs@.drop_last().drop_last().drop_last() == Seq::<(String, String)>::empty());
            }
            assert(last_value_for(pairs@, k1) == Some(pairs@[1].1@)) by {
                reveal_with_fuel(last_value_for, 3);
            }
            assert(last_value_for(pairs@, k2) == Some(pairs@[2].1@));
            assert(setting_lookup(repository.settings_view(), k0) == Some(display_mode@));
            assert(setting_lookup(repository.settings_view(), k1) == Some(pairs@[1].1@));
            assert(setting_lookup(repository.settings_view(), k2) == Some(pairs@[2].1@));
            assert("REAL_SALARY"@ != "COLLECTED_WALLET"@) by {
                assert("REAL_SALARY"@[0] != "COLLECTED_WALLET"@[0]);
            }
            assert("true"@ != "false"@) by {
                assert("true"@[0] != "false"@[0]);
            }
            assert(display_mode@ == "COLLECTED_WALLET"@ <==> settings.wallet_display_mode == WalletDisplayMode::CollectedWallet);
        }
        let out = Self::get_app_settings(repository);
        proof {
            assert(out.wallet_display_mode == settings.wallet_display_mode);
        }
        Ok(out)
    }
}

/// `bool`'s `Display`.
fn bool_text(b: bool) -> (res: String)
    ensures
        res@ == if b {
            "true"@
        } else {
            "false"@
        },
{
    if b {
        "true".to_string()
    } else {
        "false".to_string()
    }
}

/// A boolean setting: `true`, `false`, or the default for anything else.
pub fn read_bool_setting(repository: &LedgerStore, key: &str, default: bool) -> (res: bool)
    ensures
        res == bool_setting(setting_lookup(repository.settings_view(), key@), default),
{
    proof {
        reveal_strlit("true");
        reveal_strlit("false");
    }
    match repository.setting(key) {
        Some(v) => {
            if text_eq(v.as_str(), "true") {
                true
            } else if text_eq(v.as_str(), "false") {
                false
            } else {
                default
            }
        },
        None => default,
    }
}


/// Settings read back what was written: the stored settings determine what is read, so
/// after `update_app_settings` wrote `written`, `get_app_settings` reads exactly `written`.
pub proof fn law_settings_read_back(repository: LedgerStore, written: AppSettingsDto, read: AppSettingsDto)
    requires
        stored_settings(repository, written),
        stored_settings(repository, read),
    ensures
        read == written,
{
}

} // verus!
