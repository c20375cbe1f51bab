//! The service market: a catalogue of services, numbered in the order they
//! were first added, and found again by number, by uuid or by provider.
use vstd::prelude::*;
use vstd::string::*;
use crate::account::{AccountId, same_account};
use crate::storage::{AccountLists, UuidIndex, appended, ids_under, positions_of, lemma_positions_push, law_positions_of};
use crate::page::{PageParams, PageResult, page_params_ok, page_start, page_end, page_count, page_of, first_pages, law_pages_rebuild_list, law_page_of, law_page_count};

verus! {

/// A service offered on the market.
#[derive(Debug)]
pub struct Service {
    /// The service's number in the market.
    pub index: u64,
    pub uuid: String,
    pub provider_name: String,
    pub provider_owner: AccountId,
    pub create_time: u64,
    pub name: String,
    pub logo: String,
    pub desc: String,
    pub schema: String,
    pub usage: String,
    pub price_plan: String,
    pub declaimer: String,
}

impl Clone for Service {
    fn clone(&self) -> (res: Self)
        ensures
            res == *self,
    {
        Service {
            index: self.index,
            uuid: self.uuid.clone(),
            provider_name: self.provider_name.clone(),
            provider_owner: self.provider_owner,
            create_time: self.create_time,
            name: self.name.clone(),
            logo: self.logo.clone(),
            desc: self.desc.clone(),
            schema: self.schema.clone(),
            usage: self.usage.clone(),
            price_plan: self.price_plan.clone(),
            declaimer: self.declaimer.clone(),
        }
    }
}

/// Announces a service added under a new uuid.
#[derive(Debug)]
pub struct AddServiceEvent {
    pub service_id: u64,
    pub service_uuid: String,
    pub provider_owner: AccountId,
    pub create_time: u64,
}

/// Announces a service whose uuid was known, rewritten in place.
#[derive(Debug)]
pub struct UpdateServiceEvent {
    pub service_id: u64,
    pub service_uuid: String,
    pub provider_owner: AccountId,
    pub create_time: u64,
}

/// What `add_service` announces.
#[derive(Debug)]
pub enum ServiceEvent {
    Added(AddServiceEvent),
    Updated(UpdateServiceEvent),
}

/// The market's contents, as values.
pub struct MarketView {
    pub owner: AccountId,
    /// The account the market is deployed at.
    pub address: AccountId,
    /// Services by number: the service numbered `i` stands at position `i`.
    pub services: Seq<Service>,
    /// The number of the service with each uuid.
    pub by_uuid: Map<Seq<char>, u64>,
    /// The numbers of the services added by each provider, in the order added.
    pub by_provider: Map<Seq<u8>, Seq<u64>>,
    /// The provider each service was filed under when its uuid was first added.
    pub first_providers: Seq<Seq<u8>>,
}

/// The service that `add_service` stores under number `index`.
pub open spec fn make_service(
    index: u64,
    uuid: String,
    name: String,
    desc: String,
    logo: String,
    create_time: u64,
    provider_name: String,
    provider_owner: AccountId,
    usage: String,
    schema: String,
    price_plan: String,
    declaimer: String,
) -> Service {
    Service {
        index,
        uuid,
        provider_name,
        provider_owner,
        create_time,
        name,
        logo,
        desc,
        schema,
        usage,
        price_plan,
        declaimer,
    }
}

impl MarketView {
    /// Services are numbered by position, each uuid names exactly one service,
    /// and every number filed under a provider names a service.
    pub open spec fn wf(self) -> bool {
        &&& self.services.len() <= u64::MAX
        &&& self.by_uuid.dom().finite()
        &&& self.by_uuid.dom().len() == self.services.len()
        &&& self.by_provider.dom().finite()
        &&& self.by_provider.dom().len() <= self.services.len()
        &&& forall|i: int| 0 <= i < self.services.len() ==> #[trigger] self.services[i].index == i
        &&& forall|i: int|
            0 <= i < self.services.len() ==> {
                &&& self.by_uuid.contains_key(#[trigger] self.services[i].uuid@)
                &&& self.by_uuid[self.services[i].uuid@] == i
            }
        &&& forall|u: Seq<char>|
            #[trigger] self.by_uuid.contains_key(u) ==> {
                &&& self.by_uuid[u] < self.services.len()
                &&& self.services[self.by_uuid[u] as int].uuid@ == u
            }
        &&& forall|p: Seq<u8>, j: int|
            #[trigger] self.by_provider.contains_key(p) && 0 <= j < self.by_provider[p].len()
                ==> #[trigger] self.by_provider[p][j] < self.services.len()
        &&& self.first_providers.len() == self.services.len()
        &&& forall|p: Seq<u8>| #[trigger] positions_of(self.first_providers, p) == ids_under(self.by_provider, p)
        &&& forall|p: Seq<u8>| #[trigger] self.by_provider.contains_key(p) ==> self.by_provider[p].len() > 0
    }

    /// The number a service added under `uuid` gets: its old number if the uuid
    /// is known, else the next free number.
    pub open spec fn index_for(self, uuid: Seq<char>) -> u64 {
        if self.by_uuid.contains_key(uuid) {
            self.by_uuid[uuid]
        } else {
            self.services.len() as u64
        }
    }

    /// The market once `s` is added: a known uuid has its service rewritten in
    /// place, and nothing else changes; a new uuid gets the next number, and the
    /// number is filed under the uuid and under the provider.
    pub open spec fn after_add(self, s: Service) -> MarketView {
        if self.by_uuid.contains_key(s.uuid@) {
            MarketView { services: self.services.update(s.index as int, s), ..self }
        } else {
            MarketView {
                services: self.services.push(s),
                by_uuid: self.by_uuid.insert(s.uuid@, s.index),
                by_provider: appended(self.by_provider, s.provider_owner@, s.index),
                first_providers: self.first_providers.push(s.provider_owner@),
                ..self
            }
        }
    }

    /// The service with the given uuid.
    pub open spec fn service_by_uuid(self, uuid: Seq<char>) -> Service {
        self.services[self.by_uuid[uuid] as int]
    }

    /// The services numbered in `ids`, in that order.
    pub open spec fn services_at(self, ids: Seq<u64>) -> Seq<Service> {
        ids.map_values(|id: u64| self.services[id as int])
    }

    /// The services filed under a provider, in the order filed.
    pub open spec fn services_of(self, provider: Seq<u8>) -> Seq<Service> {
        self.services_at(self.by_provider[provider])
    }
}

/// Adding a service under a new uuid keeps the provider index equal to the
/// positions of each provider among the first providers.
proof fn lemma_after_add_providers(m: MarketView, s: Service)
    requires
        m.wf(),
        !m.by_uuid.contains_key(s.uuid@),
        s.index == m.services.len(),
    ensures
        forall|p: Seq<u8>| #[trigger] positions_of(m.after_add(s).first_providers, p)
            == ids_under(m.after_add(s).by_provider, p),
        forall|p: Seq<u8>| #[trigger] m.after_add(s).by_provider.contains_key(p)
            ==> m.after_add(s).by_provider[p].len() > 0,
{
    let t = m.after_add(s);
    assert forall|p: Seq<u8>| #[trigger] positions_of(t.first_providers, p) == ids_under(t.by_provider, p) by {
        lemma_positions_push(m.first_providers, s.provider_owner@, p);
        assert(positions_of(m.first_providers, p) == ids_under(m.by_provider, p));
    }
}

/// The market: services by number, with indexes by uuid and by provider.
pub struct ServicesMarket {
    owner: AccountId,
    address: AccountId,
    services_index: u64,
    services_map: Vec<Service>,
    services_map_by_uuid: UuidIndex,
    services_map_by_provider: AccountLists,
    first_providers: Ghost<Seq<Seq<u8>>>,
}

impl View for ServicesMarket {
    type V = MarketView;

    closed spec fn view(&self) -> MarketView {
        MarketView {
            owner: self.owner,
            address: self.address,
            services: self.services_map@,
            by_uuid: self.services_map_by_uuid@,
            by_provider: self.services_map_by_provider@,
            first_providers: self.first_providers@,
        }
    }
}

impl ServicesMarket {
    pub closed spec fn wf(&self) -> bool {
        &&& self.services_index == self.services_map.len()
        &&& self@.wf()
    }

    /// An empty market owned by `controller`, deployed at `address`.
    pub fn new(controller: AccountId, address: AccountId) -> (res: Self)
        ensures
            res.wf(),
            res@.owner == controller,
            res@.address == address,
            res@.services.len() == 0,
            res@.by_uuid == Map::<Seq<char>, u64>::empty(),
            res@.by_provider == Map::<Seq<u8>, Seq<u64>>::empty(),
    {
        let res = ServicesMarket {
            owner: controller,
            address,
            services_index: 0,
            services_map: Vec::new(),
            services_map_by_uuid: UuidIndex::new(),
            services_map_by_provider: AccountLists::new(),
            first_providers: Ghost(Seq::empty()),
        };
        assert forall|p: Seq<u8>| #[trigger] positions_of(res@.first_providers, p) == ids_under(res@.by_provider, p) by {
            assert(positions_of(res@.first_providers, p) =~= Seq::<u64>::empty());
        }
        res
    }

    /// A well-formed market's contents satisfy the market invariant.
    pub proof fn lemma_wf(&self)
        requires
            self.wf(),
        ensures
            self@.wf(),
    {
    }

    /// The account the market is deployed at.
    pub fn address(&self) -> (res: AccountId)
        ensures
            res == self@.address,
    {
        self.address
    }

    /// The market's owner.
    pub fn owner(&self) -> (res: AccountId)
        ensures
            res == self@.owner,
    {
        self.owner
    }

    /// Whether `caller` owns the market, and so may add services.
    pub fn is_owner(&self, caller: &AccountId) -> (res: bool)
        ensures
            res == (caller@ == self@.owner@),
    {
        same_account(caller, &self.owner)
    }

    /// Whether some service has the given uuid.
    pub fn has_uuid(&self, uuid: &String) -> (res: bool)
        ensures
            res == self@.by_uuid.contains_key(uuid@),
    {
        self.services_map_by_uuid.get(uuid).is_some()
    }

    /// Whether `caller` is the provider of the service with the given uuid.
    pub fn is_provider(&self, caller: &AccountId, uuid: &String) -> (res: bool)
        requires
            self.wf(),
            self@.by_uuid.contains_key(uuid@),
        ensures
            res == (caller@ == self@.service_by_uuid(uuid@).provider_owner@),
    {
        let id = self.services_map_by_uuid.get(uuid).unwrap();
        same_account(caller, &self.services_map[id as usize].provider_owner)
    }

    /// Whether some service is filed under `provider`.
    pub fn has_provider(&self, provider: &AccountId) -> (res: bool)
        ensures
            res == self@.by_provider.contains_key(provider@),
    {
        self.services_map_by_provider.get(provider).is_some()
    }

    /// Number of services in the market.
    pub fn len(&self) -> (res: u64)
        requires
            self.wf(),
        ensures
            res == self@.services.len(),
    {
        self.services_index
    }

    /// Adds a service, or, where a service with this uuid exists, rewrites it
    /// under its old number (the provider index is then left as it was).
    /// Only the owner may call; returns `true` and the event to announce.
    pub fn add_service(
        &mut self,
        caller: &AccountId,
        uuid: String,
        name: String,
        desc: String,
        logo: String,
        create_time: u64,
        provider_name: String,
        provider_owner: AccountId,
        usage: String,
        schema: String,
        price_plan: String,
        declaimer: String,
    ) -> (res: (bool, ServiceEvent))
        requires
            old(self).wf(),
            caller@ == old(self)@.owner@,
            !old(self)@.by_uuid.contains_key(uuid@) ==> old(self)@.services.len() < u32::MAX,
        ensures
            final(self).wf(),
            final(self)@ == old(self)@.after_add(
                make_service(
                    old(self)@.index_for(uuid@),
                    uuid,
                    name,
                    desc,
                    logo,
                    create_time,
                    provider_name,
                    provider_owner,
                    usage,
                    schema,
                    price_plan,
                    declaimer,
                ),
            ),
            final(self)@.by_uuid.contains_key(uuid@),
            final(self)@.by_uuid[uuid@] == old(self)@.index_for(uuid@),
            ({
                let s = final(self)@.services[old(self)@.index_for(uuid@) as int];
                &&& s.index == old(self)@.index_for(uuid@)
                &&& s.uuid == uuid
                &&& s.name == name
                &&& s.desc == desc
                &&& s.logo == logo
                &&& s.create_time == create_time
                &&& s.provider_name == provider_name
                &&& s.provider_owner == provider_owner
                &&& s.usage == usage
                &&& s.schema == schema
                &&& s.price_plan == price_plan
                &&& s.declaimer == declaimer
            }),
            res.0,
            old(self)@.by_uuid.contains_key(uuid@) ==> res.1 == ServiceEvent::Updated(
                (UpdateServiceEvent {
                    service_id: old(self)@.index_for(uuid@),
                    service_uuid: uuid,
                    provider_owner,
                    create_time,
                }),
            ),
            !old(self)@.by_uuid.contains_key(uuid@) ==> res.1 == ServiceEvent::Added(
                (AddServiceEvent {
                    service_id: old(self)@.index_for(uuid@),
                    service_uuid: uuid,
                    provider_owner,
                    create_time,
                }),
            ),
    {
        let found = self.services_map_by_uuid.get(&uuid);
        if let Some(index) = found {
            let ghost s = make_service(
                index, uuid, name, desc, logo, create_time, provider_name, provider_owner,
                usage, schema, price_plan, declaimer,
            );
            let svc = Service {
                index,
                uuid: uuid.clone(),
                name,
                create_time,
                provider_name,
                provider_owner,
                desc,
                logo,
                price_plan,
                usage,
                schema,
                declaimer,
            };
            self.services_map.set(index as usize, svc);
            assert(self@ == old(self)@.after_add(s));
            let event = UpdateServiceEvent {
                service_id: index,
                service_uuid: uuid,
                provider_owner,
                create_time,
            };
            return (true, ServiceEvent::Updated(event));
        }
        let index = self.services_index;
        let ghost s = make_service(
            index, uuid, name, desc, logo, create_time, provider_name, provider_owner,
            usage, schema, price_plan, declaimer,
        );
        let svc = Service {
            index,
            uuid: uuid.clone(),
            name,
            create_time,
            provider_name,
            provider_owner,
            desc,
            logo,
            price_plan,
            usage,
            schema,
            declaimer,
        };
        self.services_map.push(svc);
        self.services_map_by_uuid.insert(uuid.clone(), index);
        self.services_map_by_provider.push_id(&provider_owner, index);
        self.services_index = index + 1;
        self.first_providers = Ghost(self.first_providers@.push(provider_owner@));
        assert(self@ =~= old(self)@.after_add(s));
        proof {
            lemma_after_add_providers(old(self)@, s);
        }
        let event = AddServiceEvent {
            service_id: index,
            service_uuid: uuid,
            provider_owner,
            create_time,
        };
        (true, ServiceEvent::Added(event))
    }

    /// The service numbered `index`.
    pub fn query_service_by_index(&self, index: u64) -> (res: Service)
        requires
            self.wf(),
            index < self@.services.len(),
        ensures
            res == self@.services[index as int],
            res.index == index,
    {
        self.services_map[index as usize].clone()
    }

    /// The service with the given uuid.
    pub fn query_service_by_uuid(&self, uuid: String) -> (res: Service)
        requires
            self.wf(),
            self@.by_uuid.contains_key(uuid@),
        ensures
            res == self@.service_by_uuid(uuid@),
            res == self@.services[self@.by_uuid[uuid@] as int],
            res.uuid@ == uuid@,
            res.index == self@.by_uuid[uuid@],
    {
        let id = self.services_map_by_uuid.get(&uuid).unwrap();
        self.services_map[id as usize].clone()
    }

    /// All services, in order of number.
    pub fn list_services(&self) -> (res: Vec<Service>)
        requires
            self.wf(),
        ensures
            res@ == self@.services,
            forall|i: int| 0 <= i < res@.len() ==> #[trigger] res@[i].index == i,
    {
        let mut service_vec: Vec<Service> = Vec::new();
        let mut i: usize = 0;
        while i < self.services_map.len()
            invariant
                i <= self.services_map.len(),
                service_vec@ == self.services_map@.subrange(0, i as int),
            decreases self.services_map.len() - i,
        {
            service_vec.push(self.services_map[i].clone());
            i += 1;
            assert(service_vec@ =~= self.services_map@.subrange(0, i as int));
        }
        assert(self.services_map@.subrange(0, i as int) =~= self.services_map@);
        service_vec
    }

    /// First position, end position and number of pages of `total` items cut
    /// into pages as `params` says.
    #[allow(non_snake_case)]
    pub fn calPages(&self, params: &PageParams, total: u64) -> (res: (u64, u64, u64))
        requires
            page_params_ok(*params),
        ensures
            res.0 == page_start(*params),
            res.1 == page_end(*params, total as int),
            res.2 == page_count(total as int, params.page_size as int),
            res.0 == params.page_index * params.page_size,
            res.1 == if params.page_index * params.page_size + params.page_size > total {
                total as int
            } else {
                params.page_index * params.page_size + params.page_size
            },
            res.2 * params.page_size >= total,
            res.2 == 0 || (res.2 - 1) * params.page_size < total,
            params.page_size <= 0 || res.0 >= total || res.0 < res.1,
    {
        let start = params.page_index * params.page_size;
        let mut end = start + params.page_size;
        if end > total {
            end = total;
        }
        let size = params.page_size;
        let mut pages = total / size;
        if total % size > 0 {
            assert(total / size < u64::MAX) by {
                assert(size >= 2) by (nonlinear_arith)
                    requires
                        size > 0,
                        total % size > 0,
                ;
                vstd::arithmetic::div_mod::lemma_div_is_ordered_by_denominator(
                    total as int,
                    2,
                    size as int,
                );
            }
            pages += 1;
        }
        proof {
            law_page_count(total as int, params.page_size as int);
        }
        (start, end, pages)
    }

    /// One page of the services, in order of number.
    pub fn list_services_by_page(&self, params: PageParams) -> (res: PageResult<Service>)
        requires
            self.wf(),
            page_params_ok(params),
        ensures
            res.success,
            res.err@ == "success"@,
            res.total == self@.services.len(),
            res.pages == page_count(self@.services.len() as int, params.page_size as int),
            res.page_index == params.page_index,
            res.page_size == params.page_size,
            res.data@ == page_of(self@.services, params),
            res.pages * params.page_size >= res.total,
            res.pages == 0 || (res.pages - 1) * params.page_size < res.total,
            params.page_index * params.page_size >= self@.services.len() ==> res.data@.len() == 0,
            params.page_index * params.page_size + params.page_size <= self@.services.len()
                ==> res.data@.len() == params.page_size,
            params.page_index * params.page_size < self@.services.len() < params.page_index
                * params.page_size + params.page_size ==> res.data@.len() == self@.services.len()
                - params.page_index * params.page_size,
            forall|j: int|
                0 <= j < res.data@.len() ==> #[trigger] res.data@[j] == self@.services[params.page_index
                    * params.page_size + j],
    {
        let total = self.services_index;
        let (start, end, pages) = self.calPages(&params, total);
        let mut service_vec: Vec<Service> = Vec::new();
        let mut i: u64 = start;
        while i < end
            invariant
                self.wf(),
                total == self@.services.len(),
                start <= i,
                start < end ==> i <= end,
                end <= total,
                start < end ==> service_vec@ == self@.services.subrange(start as int, i as int),
                start >= end ==> service_vec@.len() == 0,
            decreases end - i,
        {
            service_vec.push(self.services_map[i as usize].clone());
            i += 1;
            assert(service_vec@ =~= self@.services.subrange(start as int, i as int));
        }
        proof {
            if start < end {
                assert(i == end);
            } else {
                assert(service_vec@ =~= Seq::<Service>::empty());
            }
            law_page_of(self@.services, params);
        }
        PageResult {
            success: true,
            err: String::from_str("success"),
            total,
            pages,
            page_index: params.page_index,
            page_size: params.page_size,
            data: service_vec,
        }
    }

    /// The services filed under `provider`, in the order they were added.
    pub fn list_services_provider(&self, provider: AccountId) -> (res: Vec<Service>)
        requires
            self.wf(),
            self@.by_provider.contains_key(provider@),
        ensures
            res@ == self@.services_of(provider@),
            res@.len() == self@.by_provider[provider@].len(),
            forall|j: int|
                0 <= j < res@.len() ==> #[trigger] res@[j] == self@.services[self@.by_provider[provider@][j] as int],
    {
        let provider_ids = self.services_map_by_provider.get(&provider).unwrap();
        let mut service_vec: Vec<Service> = Vec::new();
        let mut i: usize = 0;
        while i < provider_ids.len()
            invariant
                self.wf(),
                provider_ids@ == self@.by_provider[provider@],
                self@.by_provider.contains_key(provider@),
                i <= provider_ids.len(),
                service_vec@ == provider_ids@.subrange(0, i as int).map_values(
                    |id: u64| self@.services[id as int],
                ),
            decreases provider_ids.len() - i,
        {
            let id = provider_ids[i];
            assert(id < self@.services.len());
            service_vec.push(self.services_map[id as usize].clone());
            i += 1;
            assert(service_vec@ =~= provider_ids@.subrange(0, i as int).map_values(
                |id: u64| self@.services[id as int],
            ));
        }
        assert(provider_ids@.subrange(0, i as int) =~= provider_ids@);
        service_vec
    }

    /// One page of the services filed under `provider`, in the order they
    /// were added.
    pub fn list_services_provider_by_page(&self, provider: AccountId, params: PageParams) -> (res:
        PageResult<Service>)
        requires
            self.wf(),
            self@.by_provider.contains_key(provider@),
            page_params_ok(params),
        ensures
            res.success,
            res.err@ == "success"@,
            res.total == self@.by_provider[provider@].len(),
            res.pages == page_count(
                self@.by_provider[provider@].len() as int,
                params.page_size as int,
            ),
            res.page_index == params.page_index,
            res.page_size == params.page_size,
            res.data@ == page_of(self@.services_of(provider@), params),
            res.pages * params.page_size >= res.total,
            res.pages == 0 || (res.pages - 1) * params.page_size < res.total,
            params.page_index * params.page_size >= self@.by_provider[provider@].len() ==> res.data@.len()
                == 0,
            params.page_index * params.page_size + params.page_size <= self@.by_provider[provider@].len()
                ==> res.data@.len() == params.page_size,
            params.page_index * params.page_size < self@.by_provider[provider@].len()
                < params.page_index * params.page_size + params.page_size ==> res.data@.len()
                == self@.by_provider[provider@].len() - params.page_index * params.page_size,
            forall|j: int|
                0 <= j < res.data@.len() ==> #[trigger] res.data@[j] == self@.services[self@.by_provider[provider@][params.page_index
                    * params.page_size + j] as int],
    {
        let provider_ids = self.services_map_by_provider.get(&provider).unwrap();
        let total = provider_ids.len() as u64;
        let (start, end, pages) = self.calPages(&params, total);
        let ghost all = self@.services_of(provider@);
        let mut service_vec: Vec<Service> = Vec::new();
        let mut i: u64 = start;
        while i < end
            invariant
                self.wf(),
                provider_ids@ == self@.by_provider[provider@],
                self@.by_provider.contains_key(provider@),
                all == self@.services_of(provider@),
                total == provider_ids.len(),
                start <= i,
                start < end ==> i <= end,
                end <= total,
                start < end ==> service_vec@ == all.subrange(start as int, i as int),
                start >= end ==> service_vec@.len() == 0,
            decreases end - i,
        {
            let id = provider_ids[i as usize];
            assert(id < self@.services.len());
            service_vec.push(self.services_map[id as usize].clone());
            i += 1;
            assert(service_vec@ =~= all.subrange(start as int, i as int));
        }
        proof {
            if start < end {
                assert(i == end);
            } else {
                assert(service_vec@ =~= Seq::<Service>::empty());
            }
            law_page_of(all, params);
            assert forall|j: int| 0 <= j < service_vec@.len() implies #[trigger] service_vec@[j] == self@.services[self@.by_provider[provider@][params.page_index * params.page_size + j] as int] by {
                assert(service_vec@[j] == all[params.page_index * params.page_size + j]);
            }
        }
        PageResult {
            success: true,
            err: String::from_str("success"),
            total,
            pages,
            page_index: params.page_index,
            page_size: params.page_size,
            data: service_vec,
        }
    }
}


/// Reading after writing: once a service is added, its uuid finds it, with the
/// values it was added with; a new uuid gets the next free number and grows
/// the market by one, a known uuid keeps its number and the market's size;
/// every other service and every other uuid's number stay as they were, and
/// the market stays well formed.
pub proof fn law_query_after_add(m: MarketView, s: Service)
    requires
        m.wf(),
        s.index == m.index_for(s.uuid@),
        !m.by_uuid.contains_key(s.uuid@) ==> m.services.len() < u32::MAX,
    ensures
        m.after_add(s).wf(),
        m.after_add(s).owner == m.owner,
        m.after_add(s).address == m.address,
        m.after_add(s).by_uuid.contains_key(s.uuid@),
        m.after_add(s).service_by_uuid(s.uuid@) == s,
        m.after_add(s).services[s.index as int] == s,
        m.by_uuid.contains_key(s.uuid@) ==> {
            &&& s.index == m.by_uuid[s.uuid@]
            &&& m.after_add(s).services.len() == m.services.len()
            &&& m.after_add(s).first_providers == m.first_providers
        },
        !m.by_uuid.contains_key(s.uuid@) ==> {
            &&& s.index == m.services.len()
            &&& m.after_add(s).services.len() == m.services.len() + 1
            &&& m.after_add(s).first_providers == m.first_providers.push(s.provider_owner@)
        },
        forall|i: int|
            0 <= i < m.services.len() && i != s.index ==> #[trigger] m.after_add(s).services[i]
                == m.services[i],
        forall|u: Seq<char>|
            u != s.uuid@ ==> {
                &&& #[trigger] m.after_add(s).by_uuid.contains_key(u) == m.by_uuid.contains_key(u)
                &&& m.by_uuid.contains_key(u) ==> m.after_add(s).by_uuid[u] == m.by_uuid[u]
            },
{
    let t = m.after_add(s);
    if !m.by_uuid.contains_key(s.uuid@) {
        lemma_after_add_providers(m, s);
        assert forall|p: Seq<u8>, j: int|
            #[trigger] t.by_provider.contains_key(p) && 0 <= j < t.by_provider[p].len() implies
            #[trigger] t.by_provider[p][j] < t.services.len() by {
            if p != s.provider_owner@ || m.by_provider.contains_key(p) {
                if j < ids_under(m.by_provider, p).len() {
                    assert(m.by_provider[p][j] < m.services.len());
                }
            }
        }
    }
}

/// The provider index: a service added under a new uuid is filed at the end of
/// its provider's list; rewriting a known uuid leaves the index as it was.
pub proof fn law_provider_list_after_add(m: MarketView, s: Service)
    requires
        m.wf(),
        s.index == m.index_for(s.uuid@),
        !m.by_uuid.contains_key(s.uuid@) ==> m.services.len() < u32::MAX,
    ensures
        !m.by_uuid.contains_key(s.uuid@) ==> {
            &&& m.after_add(s).by_provider.contains_key(s.provider_owner@)
            &&& m.after_add(s).by_provider[s.provider_owner@] == ids_under(
                m.by_provider,
                s.provider_owner@,
            ).push(s.index)
            &&& m.after_add(s).services_of(s.provider_owner@) == m.services_at(
                ids_under(m.by_provider, s.provider_owner@),
            ).push(s)
        },
        m.by_uuid.contains_key(s.uuid@) ==> m.after_add(s).by_provider == m.by_provider,
{
    if !m.by_uuid.contains_key(s.uuid@) {
        let t = m.after_add(s);
        let old_ids = ids_under(m.by_provider, s.provider_owner@);
        assert forall|j: int| 0 <= j < old_ids.len() implies #[trigger] old_ids[j] < m.services.len() by {
            assert(m.by_provider[s.provider_owner@][j] < m.services.len());
        }
        assert(t.services_at(old_ids) =~= m.services_at(old_ids));
        assert(t.services_at(old_ids.push(s.index)) =~= t.services_at(old_ids).push(s));
    }
}


/// The provider index is exact: the list filed under a provider is strictly
/// increasing, names only services first added under that provider, and names
/// every such service.
pub proof fn law_provider_list_exact(m: MarketView, p: Seq<u8>)
    requires
        m.wf(),
    ensures
        forall|j: int|
            0 <= j < ids_under(m.by_provider, p).len() ==> {
                &&& #[trigger] ids_under(m.by_provider, p)[j] < m.services.len()
                &&& m.first_providers[ids_under(m.by_provider, p)[j] as int] == p
            },
        forall|j1: int, j2: int|
            0 <= j1 < j2 < ids_under(m.by_provider, p).len() ==> #[trigger] ids_under(
                m.by_provider,
                p,
            )[j1] < #[trigger] ids_under(m.by_provider, p)[j2],
        forall|i: int|
            0 <= i < m.services.len() && #[trigger] m.first_providers[i] == p ==> exists|j: int|
                0 <= j < ids_under(m.by_provider, p).len() && #[trigger] ids_under(m.by_provider, p)[j]
                    == i,
{
    assert(positions_of(m.first_providers, p) == ids_under(m.by_provider, p));
    law_positions_of(m.first_providers, p);
}


/// Listing a provider's services page by page, one page after the other,
/// gives every service filed under the provider once, in increasing order of
/// number.
pub proof fn law_provider_pages(m: MarketView, p: Seq<u8>, size: u64)
    requires
        m.wf(),
        m.by_provider.contains_key(p),
        size > 0,
    ensures
        first_pages(
            m.services_of(p),
            size,
            page_count(m.by_provider[p].len() as int, size as int) as nat,
        ) == m.services_of(p),
        m.services_of(p).len() == m.by_provider[p].len(),
        forall|j: int|
            0 <= j < m.by_provider[p].len() ==> #[trigger] m.services_of(p)[j].index
                == m.by_provider[p][j],
        forall|j1: int, j2: int|
            0 <= j1 < j2 < m.by_provider[p].len() ==> #[trigger] m.services_of(p)[j1].index
                < #[trigger] m.services_of(p)[j2].index,
{
    law_provider_list_exact(m, p);
    assert(positions_of(m.first_providers, p) == ids_under(m.by_provider, p));
    law_positions_of(m.first_providers, p);
    law_pages_rebuild_list(m.services_of(p), size);
    assert forall|j: int| 0 <= j < m.by_provider[p].len() implies #[trigger] m.services_of(p)[j].index
        == m.by_provider[p][j] by {
        assert(ids_under(m.by_provider, p)[j] < m.services.len());
    }
    assert forall|j1: int, j2: int| 0 <= j1 < j2 < m.by_provider[p].len() implies #[trigger] m.services_of(p)[j1].index
        < #[trigger] m.services_of(p)[j2].index by {
        assert(ids_under(m.by_provider, p)[j1] < ids_under(m.by_provider, p)[j2]);
        assert(ids_under(m.by_provider, p)[j1] < m.services.len());
        assert(ids_under(m.by_provider, p)[j2] < m.services.len());
    }
}


/// Adding a service stores exactly the values given: once added, its uuid finds
/// a service whose every field is the argument of that name, numbered with the
/// uuid's old number or the next free one.
pub proof fn law_add_stores_arguments(
    m: MarketView,
    uuid: String,
    name: String,
    desc: String,
    logo: String,
    create_time: u64,
    provider_name: String,
    provider_owner: AccountId,
    usage: String,
    schema: String,
    price_plan: String,
    declaimer: String,
)
    requires
        m.wf(),
        !m.by_uuid.contains_key(uuid@) ==> m.services.len() < u32::MAX,
    ensures
        ({
            let t = m.after_add(
                make_service(
                    m.index_for(uuid@),
                    uuid,
                    name,
                    desc,
                    logo,
                    create_time,
                    provider_name,
                    provider_owner,
                    usage,
                    schema,
                    price_plan,
                    declaimer,
                ),
            );
            let s = t.service_by_uuid(uuid@);
            &&& t.by_uuid.contains_key(uuid@)
            &&& s.index == (if m.by_uuid.contains_key(uuid@) {
                m.by_uuid[uuid@]
            } else {
                m.services.len() as u64
            })
            &&& s.uuid == uuid
            &&& s.name == name
            &&& s.desc == desc
            &&& s.logo == logo
            &&& s.create_time == create_time
            &&& s.provider_name == provider_name
            &&& s.provider_owner == provider_owner
            &&& s.usage == usage
            &&& s.schema == schema
            &&& s.price_plan == price_plan
            &&& s.declaimer == declaimer
            &&& t.services[s.index as int] == s
        }),
{
    let sv = make_service(
        m.index_for(uuid@),
        uuid,
        name,
        desc,
        logo,
        create_time,
        provider_name,
        provider_owner,
        usage,
        schema,
        price_plan,
        declaimer,
    );
    law_query_after_add(m, sv);
}

} // verus!
