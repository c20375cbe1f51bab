use apron_services::account::{same_account, AccountId};
use apron_services::market::{ServiceEvent, ServicesMarket};
use apron_services::page::PageParams;

fn account(id: ink_env::AccountId) -> AccountId {
    let bytes = parity_scale_codec::Encode::encode(&id);
    let mut out = [0u8; 32];
    out.copy_from_slice(&bytes);
    AccountId(out)
}

/// The account the test market is deployed at.
fn market_address() -> AccountId {
    AccountId([9u8; 32])
}

fn alice() -> AccountId {
    let accounts = ink_env::test::default_accounts::<ink_env::DefaultEnvironment>().expect("Cannot get accounts");
    account(accounts.alice)
}

fn bob() -> AccountId {
    let accounts = ink_env::test::default_accounts::<ink_env::DefaultEnvironment>().expect("Cannot get accounts");
    account(accounts.bob)
}

fn add_first_service(market: &mut ServicesMarket, provider_addr: AccountId) -> bool {
    let uuid = "asdfsdfsdfsdfsdfsdfsdfasdf".to_string();
    let name = "first service".to_string();
    let desc = "desc of service".to_string();
    let logo = "logo logo".to_string();
    let create_time = 1615442616;
    let provider_name = "provider".to_string();
    let usage = "usage of first service".to_string();
    let schema = "http".to_string();
    let price_plan = "the price plan of first service".to_string();
    let declaimer = "the declaimer".to_string();
    let (ret, _event) = market.add_service(
        &alice(),
        uuid,
        name,
        desc,
        logo,
        create_time,
        provider_name,
        provider_addr,
        usage,
        schema,
        price_plan,
        declaimer,
    );
    ret
}

fn add_named(market: &mut ServicesMarket, uuid: &str, name: &str, provider: AccountId) -> ServiceEvent {
    let (ret, event) = market.add_service(
        &alice(),
        uuid.to_string(),
        name.to_string(),
        "d".to_string(),
        "l".to_string(),
        7,
        "p".to_string(),
        provider,
        "u".to_string(),
        "s".to_string(),
        "pp".to_string(),
        "dc".to_string(),
    );
    assert!(ret);
    event
}

#[test]
fn default_works() {
    let mut market = ServicesMarket::new(alice(), market_address());
    let ret = add_first_service(&mut market, alice());
    assert!(ret);

    let services = market.list_services();
    let length = services.len() as u32;
    assert!(length == 1);
    for s in services {
        assert_eq!("asdfsdfsdfsdfsdfsdfsdfasdf", s.uuid);
        assert_eq!("first service", s.name);
        assert_eq!("desc of service", s.desc);
        assert_eq!("logo logo", s.logo);
        assert_eq!(1615442616, s.create_time);
        assert_eq!("provider", s.provider_name);
        assert_eq!(alice(), s.provider_owner);
        assert_eq!("usage of first service", s.usage);
        assert_eq!("http", s.schema);
        assert_eq!("the price plan of first service", s.price_plan);
        assert_eq!("the declaimer", s.declaimer);
    }
}

#[test]
fn add_service_invalid_owner() {
    let mut market = ServicesMarket::new(alice(), market_address());
    let ret = add_first_service(&mut market, bob());
    assert_eq!(ret, true);
}

#[test]
fn query_index_works() {
    let mut market = ServicesMarket::new(alice(), market_address());
    let ret = add_first_service(&mut market, alice());
    assert_eq!(ret, true);

    let s = market.query_service_by_index(0);
    assert_eq!("asdfsdfsdfsdfsdfsdfsdfasdf", s.uuid);
    assert_eq!("first service", s.name);
    assert_eq!("desc of service", s.desc);
    assert_eq!("logo logo", s.logo);
    assert_eq!(1615442616, s.create_time);
    assert_eq!("provider", s.provider_name);
    assert_eq!(alice(), s.provider_owner);
    assert_eq!("usage of first service", s.usage);
    assert_eq!("http", s.schema);
    assert_eq!("the price plan of first service", s.price_plan);
    assert_eq!("the declaimer", s.declaimer);
}

#[test]
fn query_uuid_works() {
    let mut market = ServicesMarket::new(alice(), market_address());
    let ret = add_first_service(&mut market, alice());
    assert_eq!(ret, true);

    let s = market.query_service_by_uuid("asdfsdfsdfsdfsdfsdfsdfasdf".to_string());
    assert_eq!("asdfsdfsdfsdfsdfsdfsdfasdf", s.uuid);
    assert_eq!("first service", s.name);
    assert_eq!("desc of service", s.desc);
    assert_eq!("logo logo", s.logo);
    assert_eq!(1615442616, s.create_time);
    assert_eq!("provider", s.provider_name);
    assert_eq!(alice(), s.provider_owner);
    assert_eq!("usage of first service", s.usage);
    assert_eq!("http", s.schema);
    assert_eq!("the price plan of first service", s.price_plan);
    assert_eq!("the declaimer", s.declaimer);
}

#[test]
fn list_by_provider_works() {
    let mut market = ServicesMarket::new(alice(), market_address());
    let ret = add_first_service(&mut market, alice());
    assert!(ret);

    let services = market.list_services_provider(alice());
    let length = services.len() as u32;
    assert!(length == 1);
    for s in services {
        assert_eq!("asdfsdfsdfsdfsdfsdfsdfasdf", s.uuid);
        assert_eq!("first service", s.name);
        assert_eq!("desc of service", s.desc);
        assert_eq!("logo logo", s.logo);
        assert_eq!(1615442616, s.create_time);
        assert_eq!("provider", s.provider_name);
        assert_eq!(alice(), s.provider_owner);
        assert_eq!("usage of first service", s.usage);
        assert_eq!("http", s.schema);
        assert_eq!("the price plan of first service", s.price_plan);
        assert_eq!("the declaimer", s.declaimer);
    }
}

#[test]
fn new_market_is_empty() {
    let market = ServicesMarket::new(bob(), market_address());
    assert_eq!(market.len(), 0);
    assert_eq!(market.owner(), bob());
    assert!(market.list_services().is_empty());
}

#[test]
fn only_the_owner_is_owner() {
    let market = ServicesMarket::new(alice(), market_address());
    assert!(market.is_owner(&alice()));
    assert!(!market.is_owner(&bob()));
    let mut almost = [1u8; 32];
    almost[31] = 0;
    assert!(!market.is_owner(&AccountId(almost)));
}

#[test]
fn same_account_compares_every_byte() {
    assert!(same_account(&alice(), &alice()));
    assert!(!same_account(&alice(), &bob()));
    let mut a = [9u8; 32];
    let b = a;
    a[0] = 8;
    assert!(!same_account(&AccountId(a), &AccountId(b)));
    assert!(same_account(&AccountId(b), &AccountId(b)));
}

#[test]
fn new_uuids_get_consecutive_numbers() {
    let mut market = ServicesMarket::new(alice(), market_address());
    for (i, u) in ["a", "b", "c"].iter().enumerate() {
        match add_named(&mut market, u, "n", bob()) {
            ServiceEvent::Added(e) => {
                assert_eq!(e.service_id, i as u64);
                assert_eq!(e.service_uuid, *u);
                assert_eq!(e.provider_owner, bob());
                assert_eq!(e.create_time, 7);
            }
            ServiceEvent::Updated(_) => panic!("a new uuid is added"),
        }
    }
    assert_eq!(market.len(), 3);
    let all = market.list_services();
    for (i, s) in all.iter().enumerate() {
        assert_eq!(s.index, i as u64);
    }
    assert_eq!(all[1].uuid, "b");
    assert_eq!(market.query_service_by_uuid("c".to_string()).index, 2);
}

#[test]
fn known_uuid_is_rewritten_in_place() {
    let mut market = ServicesMarket::new(alice(), market_address());
    add_named(&mut market, "a", "first", bob());
    add_named(&mut market, "b", "second", bob());
    match add_named(&mut market, "a", "renamed", alice()) {
        ServiceEvent::Updated(e) => {
            assert_eq!(e.service_id, 0);
            assert_eq!(e.service_uuid, "a");
            assert_eq!(e.provider_owner, alice());
        }
        ServiceEvent::Added(_) => panic!("a known uuid is rewritten"),
    }
    assert_eq!(market.len(), 2);
    let s = market.query_service_by_uuid("a".to_string());
    assert_eq!(s.index, 0);
    assert_eq!(s.name, "renamed");
    assert_eq!(s.provider_owner, alice());
    assert_eq!(market.query_service_by_index(1).name, "second");
    // The provider index is left as it was: the service stays filed under bob.
    let bobs = market.list_services_provider(bob());
    assert_eq!(bobs.len(), 2);
    assert_eq!(bobs[0].name, "renamed");
}

#[test]
fn provider_lists_keep_order_of_adding() {
    let mut market = ServicesMarket::new(alice(), market_address());
    add_named(&mut market, "a", "n0", bob());
    add_named(&mut market, "b", "n1", alice());
    add_named(&mut market, "c", "n2", bob());
    let bobs = market.list_services_provider(bob());
    let names: Vec<&str> = bobs.iter().map(|s| s.name.as_str()).collect();
    assert_eq!(names, vec!["n0", "n2"]);
    let alices = market.list_services_provider(alice());
    assert_eq!(alices.len(), 1);
    assert_eq!(alices[0].index, 1);
}

#[test]
fn cal_pages_values() {
    let market = ServicesMarket::new(alice(), market_address());
    let p = PageParams { page_index: 1, page_size: 2 };
    assert_eq!(market.calPages(&p, 5), (2, 4, 3));
    let p = PageParams { page_index: 2, page_size: 2 };
    assert_eq!(market.calPages(&p, 5), (4, 5, 3));
    let p = PageParams { page_index: 3, page_size: 2 };
    assert_eq!(market.calPages(&p, 5), (6, 5, 3));
    let p = PageParams { page_index: 0, page_size: 5 };
    assert_eq!(market.calPages(&p, 10), (0, 5, 2));
    let p = PageParams { page_index: 0, page_size: 3 };
    assert_eq!(market.calPages(&p, 0), (0, 0, 0));
}

#[test]
fn pages_of_services() {
    let mut market = ServicesMarket::new(alice(), market_address());
    for u in ["a", "b", "c", "d", "e"] {
        add_named(&mut market, u, u, bob());
    }
    let mut rebuilt: Vec<String> = Vec::new();
    let first = market.list_services_by_page(PageParams { page_index: 0, page_size: 2 });
    assert!(first.success);
    assert_eq!(first.err, "success");
    assert_eq!(first.total, 5);
    assert_eq!(first.pages, 3);
    for k in 0..first.pages {
        let page = market.list_services_by_page(PageParams { page_index: k, page_size: 2 });
        assert_eq!(page.page_index, k);
        assert_eq!(page.page_size, 2);
        for s in page.data {
            rebuilt.push(s.uuid);
        }
    }
    assert_eq!(rebuilt, vec!["a", "b", "c", "d", "e"]);
    let last = market.list_services_by_page(PageParams { page_index: 2, page_size: 2 });
    assert_eq!(last.data.len(), 1);
    assert_eq!(last.data[0].index, 4);
    let past = market.list_services_by_page(PageParams { page_index: 7, page_size: 2 });
    assert!(past.data.is_empty());
    assert_eq!(past.pages, 3);
}

#[test]
fn pages_of_a_provider() {
    let mut market = ServicesMarket::new(alice(), market_address());
    add_named(&mut market, "a", "n0", bob());
    add_named(&mut market, "b", "n1", alice());
    add_named(&mut market, "c", "n2", bob());
    add_named(&mut market, "d", "n3", bob());
    let page = market.list_services_provider_by_page(bob(), PageParams { page_index: 1, page_size: 2 });
    assert!(page.success);
    assert_eq!(page.total, 3);
    assert_eq!(page.pages, 2);
    assert_eq!(page.data.len(), 1);
    assert_eq!(page.data[0].name, "n3");
    let page = market.list_services_provider_by_page(bob(), PageParams { page_index: 0, page_size: 2 });
    let names: Vec<&str> = page.data.iter().map(|s| s.name.as_str()).collect();
    assert_eq!(names, vec!["n0", "n2"]);
}

#[test]
fn read_after_write_by_uuid() {
    let mut market = ServicesMarket::new(alice(), market_address());
    add_named(&mut market, "x", "one", bob());
    add_named(&mut market, "y", "two", bob());
    let s = market.query_service_by_uuid("y".to_string());
    assert_eq!(s.index, 1);
    assert_eq!(s.name, "two");
    assert_eq!(s.desc, "d");
    assert_eq!(s.logo, "l");
    assert_eq!(s.create_time, 7);
    assert_eq!(s.provider_name, "p");
    assert_eq!(s.usage, "u");
    assert_eq!(s.schema, "s");
    assert_eq!(s.price_plan, "pp");
    assert_eq!(s.declaimer, "dc");
    assert_eq!(market.query_service_by_uuid("x".to_string()).name, "one");
}

#[test]
fn cloned_service_is_equal() {
    let mut market = ServicesMarket::new(alice(), market_address());
    add_named(&mut market, "x", "one", bob());
    let s = market.query_service_by_index(0);
    let c = s.clone();
    assert_eq!(c.uuid, s.uuid);
    assert_eq!(c.name, s.name);
    assert_eq!(c.provider_owner, s.provider_owner);
    assert_eq!(c.index, s.index);
}

#[test]
fn default_accounts_are_distinct_byte_patterns() {
    assert_eq!(alice(), AccountId([1u8; 32]));
    assert_eq!(bob(), AccountId([2u8; 32]));
}

#[test]
fn has_uuid_and_provider() {
    let mut market = ServicesMarket::new(alice(), market_address());
    assert!(!market.has_uuid(&"a".to_string()));
    assert!(!market.has_provider(&bob()));
    add_named(&mut market, "a", "n", bob());
    assert!(market.has_uuid(&"a".to_string()));
    assert!(!market.has_uuid(&"b".to_string()));
    assert!(market.has_provider(&bob()));
    assert!(!market.has_provider(&alice()));
}

#[test]
fn market_knows_its_address() {
    let market = ServicesMarket::new(alice(), bob());
    assert_eq!(market.address(), bob());
    assert_eq!(market.owner(), alice());
}
