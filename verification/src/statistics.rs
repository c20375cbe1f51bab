//! Usage statistics: records of service usage, numbered in the order they
//! were submitted, and found again by number, by service uuid, by user key
//! or by the service's provider.
use vstd::prelude::*;
use crate::account::AccountId;
use crate::storage::{AccountLists, StringLists, appended, ids_under, positions_of, lemma_positions_push, law_positions_of};
use crate::market::ServicesMarket;

verus! {

/// One submitted use of a service.
#[derive(Debug)]
pub struct UsageRecord {
    /// The record's number.
    pub id: u64,
    pub service_uuid: String,
    pub user_key: String,
    pub start_time: u64,
    pub end_time: u64,
    pub usage: u64,
    pub price_plan: String,
    pub cost: u64,
}

impl Clone for UsageRecord {
    fn clone(&self) -> (res: Self)
        ensures
            res == *self,
    {
        UsageRecord {
            id: self.id,
            service_uuid: self.service_uuid.clone(),
            user_key: self.user_key.clone(),
            start_time: self.start_time,
            end_time: self.end_time,
            usage: self.usage,
            price_plan: self.price_plan.clone(),
            cost: self.cost,
        }
    }
}

/// Announces a submitted usage record.
#[derive(Debug)]
pub struct SubmitUsageRecordEvent {
    pub id: u64,
    pub service_uuid: String,
    pub user_key: String,
    pub start_time: u64,
    pub end_time: u64,
}

/// The key a record is filed under: its user key when `by_user`, else its
/// service uuid.
pub open spec fn key_of(r: UsageRecord, by_user: bool) -> Seq<char> {
    if by_user {
        r.user_key@
    } else {
        r.service_uuid@
    }
}

/// Whether a record is filed under `key`.
pub open spec fn has_key(by_user: bool, key: Seq<char>) -> spec_fn(UsageRecord) -> bool {
    |r: UsageRecord| key_of(r, by_user) == key
}

/// The numbers of the records filed under `key`, in increasing order.
pub open spec fn ids_with_key(records: Seq<UsageRecord>, by_user: bool, key: Seq<char>) -> Seq<u64>
    decreases records.len(),
{
    if records.len() == 0 {
        Seq::empty()
    } else {
        let prev = ids_with_key(records.drop_last(), by_user, key);
        if key_of(records.last(), by_user) == key {
            prev.push((records.len() - 1) as u64)
        } else {
            prev
        }
    }
}

/// The records whose numbers are listed in `ids`, in that order.
pub open spec fn at_ids(records: Seq<UsageRecord>, ids: Seq<u64>) -> Seq<UsageRecord> {
    ids.map_values(|id: u64| records[id as int])
}

/// The key of each record, by record number.
pub open spec fn keys_of(records: Seq<UsageRecord>, by_user: bool) -> Seq<Seq<char>> {
    records.map_values(|r: UsageRecord| key_of(r, by_user))
}

/// The record that `submit_usage` stores under number `id`.
pub open spec fn make_record(
    id: u64,
    service_uuid: String,
    user_key: String,
    start_time: u64,
    end_time: u64,
    usage: u64,
    price_plan: String,
    cost: u64,
) -> UsageRecord {
    UsageRecord { id, service_uuid, user_key, start_time, end_time, usage, price_plan, cost }
}

/// The statistics' contents, as values.
pub struct StatisticsView {
    pub owner: AccountId,
    /// The address of the market whose services are used.
    pub services: AccountId,
    /// Records by number: the record numbered `i` stands at position `i`.
    pub records: Seq<UsageRecord>,
    pub by_uuid: Map<Seq<char>, Seq<u64>>,
    pub by_user_key: Map<Seq<char>, Seq<u64>>,
    pub by_provider: Map<Seq<u8>, Seq<u64>>,
    /// The provider each record was filed under, by record number.
    pub providers: Seq<Seq<u8>>,
}

impl StatisticsView {
    /// Records are numbered by position; each uuid and user key files exactly
    /// the records that carry it, in order; each provider files exactly the
    /// records submitted for its services, in order.
    pub open spec fn wf(self) -> bool {
        &&& self.records.len() <= u64::MAX
        &&& self.by_uuid.dom().finite()
        &&& self.by_uuid.dom().len() <= self.records.len()
        &&& self.by_user_key.dom().finite()
        &&& self.by_user_key.dom().len() <= self.records.len()
        &&& self.by_provider.dom().finite()
        &&& self.by_provider.dom().len() <= self.records.len()
        &&& forall|i: int| 0 <= i < self.records.len() ==> #[trigger] self.records[i].id == i
        &&& forall|k: Seq<char>|
            #[trigger] ids_with_key(self.records, false, k) == ids_under(self.by_uuid, k)
        &&& forall|k: Seq<char>|
            #[trigger] ids_with_key(self.records, true, k) == ids_under(self.by_user_key, k)
        &&& forall|k: Seq<char>| #[trigger] self.by_uuid.contains_key(k) ==> self.by_uuid[k].len() > 0
        &&& forall|k: Seq<char>|
            #[trigger] self.by_user_key.contains_key(k) ==> self.by_user_key[k].len() > 0
        &&& forall|p: Seq<u8>, j: int|
            #[trigger] self.by_provider.contains_key(p) && 0 <= j < self.by_provider[p].len()
                ==> #[trigger] self.by_provider[p][j] < self.records.len()
        &&& self.providers.len() == self.records.len()
        &&& forall|p: Seq<u8>| #[trigger] positions_of(self.providers, p) == ids_under(self.by_provider, p)
        &&& forall|p: Seq<u8>| #[trigger] self.by_provider.contains_key(p) ==> self.by_provider[p].len() > 0
    }

    /// The statistics once record `r` is submitted for a service of `provider`.
    pub open spec fn after_submit(self, r: UsageRecord, provider: AccountId) -> StatisticsView {
        StatisticsView {
            records: self.records.push(r),
            by_uuid: appended(self.by_uuid, r.service_uuid@, r.id),
            by_user_key: appended(self.by_user_key, r.user_key@, r.id),
            by_provider: appended(self.by_provider, provider@, r.id),
            providers: self.providers.push(provider@),
            ..self
        }
    }

    /// The index by service uuid, or by user key when `by_user`.
    pub open spec fn key_index(self, by_user: bool) -> Map<Seq<char>, Seq<u64>> {
        if by_user {
            self.by_user_key
        } else {
            self.by_uuid
        }
    }

    /// The records whose numbers are listed in `ids`, in that order.
    pub open spec fn records_at(self, ids: Seq<u64>) -> Seq<UsageRecord> {
        at_ids(self.records, ids)
    }
}

/// Appending a record extends the list of its key by its number and leaves
/// the other keys' lists alone.
pub proof fn lemma_ids_with_key_push(
    records: Seq<UsageRecord>,
    r: UsageRecord,
    by_user: bool,
    key: Seq<char>,
)
    ensures
        ids_with_key(records.push(r), by_user, key) == if key_of(r, by_user) == key {
            ids_with_key(records, by_user, key).push(records.len() as u64)
        } else {
            ids_with_key(records, by_user, key)
        },
{
    assert(records.push(r).drop_last() =~= records);
}

/// The numbers filed under a key all name records.
pub proof fn lemma_ids_with_key_bounded(records: Seq<UsageRecord>, by_user: bool, key: Seq<char>)
    ensures
        forall|j: int|
            0 <= j < ids_with_key(records, by_user, key).len()
                ==> #[trigger] ids_with_key(records, by_user, key)[j] < records.len(),
    decreases records.len(),
{
    if records.len() > 0 {
        let prev = records.drop_last();
        lemma_ids_with_key_bounded(prev, by_user, key);
        let ids = ids_with_key(records, by_user, key);
        assert forall|j: int| 0 <= j < ids.len() implies #[trigger] ids[j] < records.len() by {
            if j < ids_with_key(prev, by_user, key).len() {
                assert(ids_with_key(prev, by_user, key)[j] < prev.len());
            }
        }
    }
}

/// Submitting a record keeps each provider's list equal to the positions of
/// the provider among the records' providers.
proof fn lemma_after_submit_providers(s: StatisticsView, r: UsageRecord, provider: AccountId)
    requires
        s.wf(),
        r.id == s.records.len(),
    ensures
        forall|p: Seq<u8>| #[trigger] positions_of(s.after_submit(r, provider).providers, p)
            == ids_under(s.after_submit(r, provider).by_provider, p),
{
    let t = s.after_submit(r, provider);
    assert forall|p: Seq<u8>| #[trigger] positions_of(t.providers, p) == ids_under(t.by_provider, p) by {
        lemma_positions_push(s.providers, provider@, p);
        assert(positions_of(s.providers, p) == ids_under(s.by_provider, p));
    }
}

/// The numbers filed under a key are its positions among the records' keys.
proof fn lemma_ids_with_key_positions(records: Seq<UsageRecord>, by_user: bool, key: Seq<char>)
    ensures
        ids_with_key(records, by_user, key) == positions_of(keys_of(records, by_user), key),
    decreases records.len(),
{
    if records.len() > 0 {
        lemma_ids_with_key_positions(records.drop_last(), by_user, key);
        assert(keys_of(records, by_user).drop_last() =~= keys_of(records.drop_last(), by_user));
    }
}

/// The usage statistics of the services of one market.
pub struct ServicesStatistics {
    owner: AccountId,
    services: AccountId,
    statistics_index: u64,
    statistics_map: Vec<UsageRecord>,
    services_map_by_uuid: StringLists,
    services_map_by_user_key: StringLists,
    services_map_by_provider: AccountLists,
    record_providers: Ghost<Seq<Seq<u8>>>,
}

impl View for ServicesStatistics {
    type V = StatisticsView;

    closed spec fn view(&self) -> StatisticsView {
        StatisticsView {
            owner: self.owner,
            services: self.services,
            records: self.statistics_map@,
            by_uuid: self.services_map_by_uuid@,
            by_user_key: self.services_map_by_user_key@,
            by_provider: self.services_map_by_provider@,
            providers: self.record_providers@,
        }
    }
}

impl ServicesStatistics {
    pub closed spec fn wf(&self) -> bool {
        &&& self.statistics_index == self.statistics_map.len()
        &&& self@.wf()
    }

    /// Empty statistics owned by `controller`, for the market at `services_addr`.
    pub fn new(controller: AccountId, services_addr: AccountId) -> (res: Self)
        ensures
            res.wf(),
            res@.owner == controller,
            res@.services == services_addr,
            res@.records.len() == 0,
            res@.by_uuid == Map::<Seq<char>, Seq<u64>>::empty(),
            res@.by_user_key == Map::<Seq<char>, Seq<u64>>::empty(),
            res@.by_provider == Map::<Seq<u8>, Seq<u64>>::empty(),
    {
        let res = ServicesStatistics {
            owner: controller,
            services: services_addr,
            statistics_index: 0,
            statistics_map: Vec::new(),
            services_map_by_uuid: StringLists::new(),
            services_map_by_user_key: StringLists::new(),
            services_map_by_provider: AccountLists::new(),
            record_providers: Ghost(Seq::empty()),
        };
        assert forall|p: Seq<u8>| #[trigger] positions_of(res@.providers, p) == ids_under(res@.by_provider, p) by {
            assert(positions_of(res@.providers, p) =~= Seq::<u64>::empty());
        }
        assert forall|k: Seq<char>| #[trigger] ids_with_key(res@.records, false, k) == ids_under(res@.by_uuid, k) by {
            assert(ids_with_key(res@.records, false, k) =~= Seq::<u64>::empty());
        }
        assert forall|k: Seq<char>| #[trigger] ids_with_key(res@.records, true, k) == ids_under(res@.by_user_key, k) by {
            assert(ids_with_key(res@.records, true, k) =~= Seq::<u64>::empty());
        }
        res
    }

    /// A well-formed statistics' contents satisfy the statistics invariant.
    pub proof fn lemma_wf(&self)
        requires
            self.wf(),
        ensures
            self@.wf(),
    {
    }

    /// The address of the market whose services are used.
    pub fn services_addr(&self) -> (res: AccountId)
        ensures
            res == self@.services,
    {
        self.services
    }

    /// Records one use of the service `service_uuid` of the market this
    /// statistics was created for (the one at `services_addr`), filing it under
    /// the uuid, the user key and the service's provider; returns `true` and
    /// the event to announce. Only the service's provider may submit.
    pub fn submit_usage(
        &mut self,
        caller: &AccountId,
        market: &ServicesMarket,
        service_uuid: String,
        user_key: String,
        start_time: u64,
        end_time: u64,
        usage: u64,
        price_plan: String,
        cost: u64,
    ) -> (res: (bool, SubmitUsageRecordEvent))
        requires
            old(self).wf(),
            market.wf(),
            market@.address == old(self)@.services,
            market@.by_uuid.contains_key(service_uuid@),
            caller@ == market@.service_by_uuid(service_uuid@).provider_owner@,
            old(self)@.records.len() < u32::MAX,
        ensures
            final(self).wf(),
            final(self)@ == old(self)@.after_submit(
                make_record(
                    old(self)@.records.len() as u64,
                    service_uuid,
                    user_key,
                    start_time,
                    end_time,
                    usage,
                    price_plan,
                    cost,
                ),
                market@.service_by_uuid(service_uuid@).provider_owner,
            ),
            final(self)@.records.len() == old(self)@.records.len() + 1,
            ({
                let r = final(self)@.records[old(self)@.records.len() as int];
                &&& r.id == old(self)@.records.len()
                &&& r.service_uuid == service_uuid
                &&& r.user_key == user_key
                &&& r.start_time == start_time
                &&& r.end_time == end_time
                &&& r.usage == usage
                &&& r.price_plan == price_plan
                &&& r.cost == cost
            }),
            res.0,
            res.1 == (SubmitUsageRecordEvent {
                id: old(self)@.records.len() as u64,
                service_uuid,
                user_key,
                start_time,
                end_time,
            }),
    {
        let service = market.query_service_by_uuid(service_uuid.clone());
        let id = self.statistics_index;
        let ghost r = make_record(
            id, service_uuid, user_key, start_time, end_time, usage, price_plan, cost,
        );
        let ghost old_view = self@;
        self.statistics_map.push(
            UsageRecord {
                id,
                service_uuid: service_uuid.clone(),
                user_key: user_key.clone(),
                start_time,
                end_time,
                price_plan,
                usage,
                cost,
            },
        );
        self.services_map_by_uuid.push_id(service_uuid.clone(), id);
        self.services_map_by_user_key.push_id(user_key.clone(), id);
        self.services_map_by_provider.push_id(&service.provider_owner, id);
        self.statistics_index = id + 1;
        self.record_providers = Ghost(self.record_providers@.push(service.provider_owner@));
        proof {
            assert(self@ =~= old_view.after_submit(r, service.provider_owner));
            lemma_after_submit_providers(old_view, r, service.provider_owner);
            assert forall|k: Seq<char>| #[trigger] ids_with_key(self@.records, false, k) == ids_under(self@.by_uuid, k) by {
                lemma_ids_with_key_push(old_view.records, r, false, k);
                assert(ids_with_key(old_view.records, false, k) == ids_under(old_view.by_uuid, k));
            }
            assert forall|k: Seq<char>| #[trigger] ids_with_key(self@.records, true, k) == ids_under(self@.by_user_key, k) by {
                lemma_ids_with_key_push(old_view.records, r, true, k);
                assert(ids_with_key(old_view.records, true, k) == ids_under(old_view.by_user_key, k));
            }
        }
        let event = SubmitUsageRecordEvent {
            id,
            service_uuid,
            user_key,
            start_time,
            end_time,
        };
        (true, event)
    }

    /// Whether some record is filed under the service uuid `uuid`.
    pub fn has_service_uuid(&self, uuid: &String) -> (res: bool)
        ensures
            res == self@.by_uuid.contains_key(uuid@),
    {
        self.services_map_by_uuid.get(uuid).is_some()
    }

    /// Whether some record is filed under the user key `user_key`.
    pub fn has_user_key(&self, user_key: &String) -> (res: bool)
        ensures
            res == self@.by_user_key.contains_key(user_key@),
    {
        self.services_map_by_user_key.get(user_key).is_some()
    }

    /// Whether some record is filed under `provider`.
    pub fn has_provider(&self, provider: &AccountId) -> (res: bool)
        ensures
            res == self@.by_provider.contains_key(provider@),
    {
        self.services_map_by_provider.get(provider).is_some()
    }

    /// Number of records.
    pub fn len(&self) -> (res: u64)
        requires
            self.wf(),
        ensures
            res == self@.records.len(),
    {
        self.statistics_index
    }

    /// All records, in order of number.
    pub fn list_all_statistics(&self) -> (res: Vec<UsageRecord>)
        requires
            self.wf(),
        ensures
            res@ == self@.records,
    {
        let mut record_vec: Vec<UsageRecord> = Vec::new();
        let mut i: usize = 0;
        while i < self.statistics_map.len()
            invariant
                i <= self.statistics_map.len(),
                record_vec@ == self.statistics_map@.subrange(0, i as int),
            decreases self.statistics_map.len() - i,
        {
            record_vec.push(self.statistics_map[i].clone());
            i += 1;
            assert(record_vec@ =~= self.statistics_map@.subrange(0, i as int));
        }
        assert(self.statistics_map@.subrange(0, i as int) =~= self.statistics_map@);
        record_vec
    }

    /// The record numbered `id`.
    pub fn query_by_index(&self, id: u64) -> (res: UsageRecord)
        requires
            self.wf(),
            id < self@.records.len(),
        ensures
            res == self@.records[id as int],
            res.id == id,
    {
        self.statistics_map[id as usize].clone()
    }

    /// The records numbered in `ids`, in that order.
    fn records_for(&self, ids: &Vec<u64>) -> (res: Vec<UsageRecord>)
        requires
            self.wf(),
            forall|j: int| 0 <= j < ids.len() ==> #[trigger] ids@[j] < self@.records.len(),
        ensures
            res@ == self@.records_at(ids@),
    {
        let mut record_vec: Vec<UsageRecord> = Vec::new();
        let mut i: usize = 0;
        while i < ids.len()
            invariant
                self.wf(),
                forall|j: int| 0 <= j < ids.len() ==> #[trigger] ids@[j] < self@.records.len(),
                i <= ids.len(),
                record_vec@ == self@.records_at(ids@.subrange(0, i as int)),
            decreases ids.len() - i,
        {
            let id = ids[i];
            assert(ids@[i as int] < self@.records.len());
            record_vec.push(self.statistics_map[id as usize].clone());
            i += 1;
            assert(record_vec@ =~= self@.records_at(ids@.subrange(0, i as int)));
        }
        assert(ids@.subrange(0, i as int) =~= ids@);
        record_vec
    }

    /// The records of the service `uuid`, in order of number.
    pub fn query_by_service_uuid(&self, uuid: String) -> (res: Vec<UsageRecord>)
        requires
            self.wf(),
            self@.by_uuid.contains_key(uuid@),
        ensures
            res@ == self@.records_at(self@.by_uuid[uuid@]),
            res@.len() == self@.by_uuid[uuid@].len(),
            forall|j: int| 0 <= j < res@.len() ==> #[trigger] res@[j] == self@.records[self@.by_uuid[uuid@][j] as int],
    {
        let ids = self.services_map_by_uuid.get(&uuid).unwrap();
        proof {
            lemma_ids_with_key_bounded(self@.records, false, uuid@);
            assert(ids_with_key(self@.records, false, uuid@) == ids_under(self@.by_uuid, uuid@));
        }
        self.records_for(ids)
    }

    /// The records of the user `user_key`, in order of number.
    pub fn query_by_user_key(&self, user_key: String) -> (res: Vec<UsageRecord>)
        requires
            self.wf(),
            self@.by_user_key.contains_key(user_key@),
        ensures
            res@ == self@.records_at(self@.by_user_key[user_key@]),
            res@.len() == self@.by_user_key[user_key@].len(),
            forall|j: int| 0 <= j < res@.len() ==> #[trigger] res@[j] == self@.records[self@.by_user_key[user_key@][j] as int],
    {
        let ids = self.services_map_by_user_key.get(&user_key).unwrap();
        proof {
            lemma_ids_with_key_bounded(self@.records, true, user_key@);
            assert(ids_with_key(self@.records, true, user_key@) == ids_under(self@.by_user_key, user_key@));
        }
        self.records_for(ids)
    }

    /// The records filed under `provider`, in order of number.
    pub fn query_by_provider(&self, provider: AccountId) -> (res: Vec<UsageRecord>)
        requires
            self.wf(),
            self@.by_provider.contains_key(provider@),
        ensures
            res@ == self@.records_at(self@.by_provider[provider@]),
            res@.len() == self@.by_provider[provider@].len(),
            forall|j: int| 0 <= j < res@.len() ==> #[trigger] res@[j] == self@.records[self@.by_provider[provider@][j] as int],
    {
        let ids = self.services_map_by_provider.get(&provider).unwrap();
        proof {
            assert forall|j: int| 0 <= j < ids.len() implies #[trigger] ids@[j] < self@.records.len() by {
                assert(self@.by_provider[provider@][j] < self@.records.len());
            }
        }
        self.records_for(ids)
    }
}


/// Looking records up by the numbers filed under a uuid (or a user key)
/// gives exactly the records that carry it, in the order they were submitted.
pub proof fn law_keyed_lookup_is_filter(records: Seq<UsageRecord>, by_user: bool, key: Seq<char>)
    requires
        records.len() <= u64::MAX,
    ensures
        at_ids(records, ids_with_key(records, by_user, key)) == records.filter(has_key(by_user, key)),
    decreases records.len(),
{
    reveal_with_fuel(Seq::<_>::filter, 1);
    let ids = ids_with_key(records, by_user, key);
    if records.len() == 0 {
        assert(at_ids(records, ids) =~= records.filter(has_key(by_user, key)));
    } else {
        let prev = records.drop_last();
        let prev_ids = ids_with_key(prev, by_user, key);
        law_keyed_lookup_is_filter(prev, by_user, key);
        lemma_ids_with_key_bounded(prev, by_user, key);
        assert(at_ids(records, prev_ids) =~= at_ids(prev, prev_ids));
        if key_of(records.last(), by_user) == key {
            assert(ids == prev_ids.push((records.len() - 1) as u64));
            assert(at_ids(records, ids) =~= at_ids(records, prev_ids).push(records.last()));
        } else {
            assert(at_ids(records, ids) =~= at_ids(records, prev_ids));
        }
    }
}

/// A uuid (or user key) has a list exactly when some record carries it, and
/// its list holds just the records that carry it, in the order submitted.
pub proof fn law_query_by_key(s: StatisticsView, by_user: bool, key: Seq<char>)
    requires
        s.wf(),
    ensures
        s.key_index(by_user).contains_key(key)
            <==> exists|i: int| 0 <= i < s.records.len() && key_of(#[trigger] s.records[i], by_user) == key,
        s.key_index(by_user).contains_key(key) ==>
            s.records_at(s.key_index(by_user)[key])
                == s.records.filter(has_key(by_user, key)),
{
    let m = s.key_index(by_user);
    assert(ids_with_key(s.records, by_user, key) == ids_under(m, key));
    law_keyed_lookup_is_filter(s.records, by_user, key);
    lemma_ids_with_key_bounded(s.records, by_user, key);
    let f = s.records.filter(has_key(by_user, key));
    broadcast use vstd::seq_lib::group_filter_ensures;
    if m.contains_key(key) {
        assert(m[key].len() > 0);
        let id = m[key][0];
        assert(at_ids(s.records, m[key])[0] == s.records[id as int]);
        assert(f.contains(s.records[id as int]));
        assert(has_key(by_user, key)(s.records[id as int]));
    }
    if exists|i: int| 0 <= i < s.records.len() && key_of(#[trigger] s.records[i], by_user) == key {
        let i = choose|i: int| 0 <= i < s.records.len() && key_of(#[trigger] s.records[i], by_user) == key;
        assert(has_key(by_user, key)(s.records[i]));
        assert(f.contains(s.records[i]));
        if !m.contains_key(key) {
            assert(f.len() == 0);
        }
    }
}

/// A submitted record is found again by its number, with the values it was
/// submitted with; the statistics stay well formed and gain one record.
pub proof fn law_record_after_submit(s: StatisticsView, r: UsageRecord, provider: AccountId)
    requires
        s.wf(),
        r.id == s.records.len(),
        s.records.len() < u32::MAX,
    ensures
        s.after_submit(r, provider).wf(),
        s.after_submit(r, provider).records.len() == s.records.len() + 1,
        s.after_submit(r, provider).records[r.id as int] == r,
        forall|i: int| 0 <= i < s.records.len() ==> s.after_submit(r, provider).records[i] == s.records[i],
{
    let t = s.after_submit(r, provider);
    lemma_after_submit_providers(s, r, provider);
    assert forall|k: Seq<char>| #[trigger] ids_with_key(t.records, false, k) == ids_under(t.by_uuid, k) by {
        lemma_ids_with_key_push(s.records, r, false, k);
        assert(ids_with_key(s.records, false, k) == ids_under(s.by_uuid, k));
    }
    assert forall|k: Seq<char>| #[trigger] ids_with_key(t.records, true, k) == ids_under(t.by_user_key, k) by {
        lemma_ids_with_key_push(s.records, r, true, k);
        assert(ids_with_key(s.records, true, k) == ids_under(s.by_user_key, k));
    }
}

/// After a submission, the records of its uuid, of its user key and of its
/// provider are those from before followed by the new record; other keys'
/// records are unchanged.
pub proof fn law_queries_after_submit(s: StatisticsView, r: UsageRecord, provider: AccountId)
    requires
        s.wf(),
        r.id == s.records.len(),
        s.records.len() < u32::MAX,
    ensures
        ({
            let t = s.after_submit(r, provider);
            &&& t.records_at(t.by_uuid[r.service_uuid@]) == s.records_at(ids_under(s.by_uuid, r.service_uuid@)).push(r)
            &&& t.records_at(t.by_user_key[r.user_key@]) == s.records_at(ids_under(s.by_user_key, r.user_key@)).push(r)
            &&& t.records_at(t.by_provider[provider@]) == s.records_at(ids_under(s.by_provider, provider@)).push(r)
            &&& forall|k: Seq<char>| k != r.service_uuid@ && #[trigger] s.by_uuid.contains_key(k) ==>
                t.by_uuid.contains_key(k) && t.records_at(t.by_uuid[k]) == s.records_at(s.by_uuid[k])
            &&& forall|k: Seq<char>| k != r.user_key@ && #[trigger] s.by_user_key.contains_key(k) ==>
                t.by_user_key.contains_key(k) && t.records_at(t.by_user_key[k]) == s.records_at(s.by_user_key[k])
        }),
{
    let t = s.after_submit(r, provider);
    let n = s.records.len();
    // Every number filed before names an old record, which stays in place.
    assert forall|ids: Seq<u64>| (forall|j: int| 0 <= j < ids.len() ==> #[trigger] ids[j] < n) implies
        #[trigger] at_ids(t.records, ids) == at_ids(s.records, ids) by {
        assert(at_ids(t.records, ids) =~= at_ids(s.records, ids));
    }
    lemma_ids_with_key_bounded(s.records, false, r.service_uuid@);
    lemma_ids_with_key_bounded(s.records, true, r.user_key@);
    assert(ids_with_key(s.records, false, r.service_uuid@) == ids_under(s.by_uuid, r.service_uuid@));
    assert(ids_with_key(s.records, true, r.user_key@) == ids_under(s.by_user_key, r.user_key@));
    let u = ids_under(s.by_uuid, r.service_uuid@);
    assert(at_ids(t.records, u) == at_ids(s.records, u));
    assert(at_ids(t.records, u.push(r.id)) =~= at_ids(t.records, u).push(r));
    let k = ids_under(s.by_user_key, r.user_key@);
    assert(at_ids(t.records, k) == at_ids(s.records, k));
    assert(at_ids(t.records, k.push(r.id)) =~= at_ids(t.records, k).push(r));
    let p = ids_under(s.by_provider, provider@);
    assert forall|j: int| 0 <= j < p.len() implies #[trigger] p[j] < n by {
        assert(s.by_provider[provider@][j] < n);
    }
    assert(at_ids(t.records, p) == at_ids(s.records, p));
    assert(at_ids(t.records, p.push(r.id)) =~= at_ids(t.records, p).push(r));
    assert forall|k2: Seq<char>| k2 != r.service_uuid@ && #[trigger] s.by_uuid.contains_key(k2) implies
        t.by_uuid.contains_key(k2) && t.records_at(t.by_uuid[k2]) == s.records_at(s.by_uuid[k2]) by {
        lemma_ids_with_key_bounded(s.records, false, k2);
        assert(ids_with_key(s.records, false, k2) == ids_under(s.by_uuid, k2));
        assert(at_ids(t.records, s.by_uuid[k2]) == at_ids(s.records, s.by_uuid[k2]));
    }
    assert forall|k2: Seq<char>| k2 != r.user_key@ && #[trigger] s.by_user_key.contains_key(k2) implies
        t.by_user_key.contains_key(k2) && t.records_at(t.by_user_key[k2]) == s.records_at(s.by_user_key[k2]) by {
        lemma_ids_with_key_bounded(s.records, true, k2);
        assert(ids_with_key(s.records, true, k2) == ids_under(s.by_user_key, k2));
        assert(at_ids(t.records, s.by_user_key[k2]) == at_ids(s.records, s.by_user_key[k2]));
    }
}


/// The list filed under a uuid (or a user key) is strictly increasing, names
/// only records carrying that key, and names every such record.
pub proof fn law_key_list_exact(s: StatisticsView, by_user: bool, key: Seq<char>)
    requires
        s.wf(),
    ensures
        forall|j: int|
            0 <= j < ids_under(s.key_index(by_user), key).len() ==> {
                &&& #[trigger] ids_under(s.key_index(by_user), key)[j] < s.records.len()
                &&& key_of(s.records[ids_under(s.key_index(by_user), key)[j] as int], by_user) == key
            },
        forall|j1: int, j2: int|
            0 <= j1 < j2 < ids_under(s.key_index(by_user), key).len() ==> #[trigger] ids_under(
                s.key_index(by_user),
                key,
            )[j1] < #[trigger] ids_under(s.key_index(by_user), key)[j2],
        forall|i: int|
            0 <= i < s.records.len() && key_of(#[trigger] s.records[i], by_user) == key ==> exists|j: int|
                0 <= j < ids_under(s.key_index(by_user), key).len() && #[trigger] ids_under(
                    s.key_index(by_user),
                    key,
                )[j] == i,
{
    let ks = keys_of(s.records, by_user);
    assert(ids_with_key(s.records, by_user, key) == ids_under(s.key_index(by_user), key));
    lemma_ids_with_key_positions(s.records, by_user, key);
    law_positions_of(ks, key);
    let ids = ids_under(s.key_index(by_user), key);
    assert forall|i: int| 0 <= i < s.records.len() && key_of(#[trigger] s.records[i], by_user) == key implies exists|j: int|
        0 <= j < ids.len() && #[trigger] ids[j] == i by {
        assert(ks[i] == key);
    }
    assert forall|j: int| 0 <= j < ids.len() implies key_of(s.records[ids[j] as int], by_user) == key by {
        assert(ks[ids[j] as int] == key);
    }
}

/// The list filed under a provider is strictly increasing, names only records
/// submitted for that provider's services, and names every such record.
pub proof fn law_provider_list_exact(s: StatisticsView, p: Seq<u8>)
    requires
        s.wf(),
    ensures
        forall|j: int|
            0 <= j < ids_under(s.by_provider, p).len() ==> {
                &&& #[trigger] ids_under(s.by_provider, p)[j] < s.records.len()
                &&& s.providers[ids_under(s.by_provider, p)[j] as int] == p
            },
        forall|j1: int, j2: int|
            0 <= j1 < j2 < ids_under(s.by_provider, p).len() ==> #[trigger] ids_under(
                s.by_provider,
                p,
            )[j1] < #[trigger] ids_under(s.by_provider, p)[j2],
        forall|i: int|
            0 <= i < s.records.len() && #[trigger] s.providers[i] == p ==> exists|j: int|
                0 <= j < ids_under(s.by_provider, p).len() && #[trigger] ids_under(s.by_provider, p)[j]
                    == i,
{
    assert(positions_of(s.providers, p) == ids_under(s.by_provider, p));
    law_positions_of(s.providers, p);
}


/// A submission stores exactly the values given: the new record, found by the
/// next free number, carries every submitted value under its own name, and
/// every earlier record is left as it was.
pub proof fn law_submit_stores_arguments(
    s: StatisticsView,
    service_uuid: String,
    user_key: String,
    start_time: u64,
    end_time: u64,
    usage: u64,
    price_plan: String,
    cost: u64,
    provider: AccountId,
)
    requires
        s.wf(),
        s.records.len() < u32::MAX,
    ensures
        ({
            let t = s.after_submit(
                make_record(
                    s.records.len() as u64,
                    service_uuid,
                    user_key,
                    start_time,
                    end_time,
                    usage,
                    price_plan,
                    cost,
                ),
                provider,
            );
            let r = t.records[s.records.len() as int];
            &&& t.wf()
            &&& t.records.len() == s.records.len() + 1
            &&& r.id == s.records.len()
            &&& r.service_uuid == service_uuid
            &&& r.user_key == user_key
            &&& r.start_time == start_time
            &&& r.end_time == end_time
            &&& r.usage == usage
            &&& r.price_plan == price_plan
            &&& r.cost == cost
            &&& forall|i: int| 0 <= i < s.records.len() ==> #[trigger] t.records[i] == s.records[i]
        }),
{
    let r = make_record(
        s.records.len() as u64,
        service_uuid,
        user_key,
        start_time,
        end_time,
        usage,
        price_plan,
        cost,
    );
    law_record_after_submit(s, r, provider);
}

} // verus!
