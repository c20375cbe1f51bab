use apron_services::account::AccountId;
use apron_services::storage::{AccountLists, StringLists, UuidIndex};
use apron_services::market::ServicesMarket;
use apron_services::statistics::ServicesStatistics;

fn account(id: ink_env::AccountId) -> AccountId {
    let bytes = parity_scale_codec::Encode::encode(&id);
    let mut out = [0u8; 32];
    out.copy_from_slice(&bytes);
    AccountId(out)
}

/// The account the test market is deployed at.
fn market_address() -> AccountId {
    AccountId([9u8; 32])
}

fn alice() -> AccountId {
    let accounts = ink_env::test::default_accounts::<ink_env::DefaultEnvironment>().expect("Cannot get accounts");
    account(accounts.alice)
}

fn bob() -> AccountId {
    let accounts = ink_env::test::default_accounts::<ink_env::DefaultEnvironment>().expect("Cannot get accounts");
    account(accounts.bob)
}

fn charlie() -> AccountId {
    let accounts = ink_env::test::default_accounts::<ink_env::DefaultEnvironment>().expect("Cannot get accounts");
    account(accounts.charlie)
}

fn market_with(services: &[(&str, AccountId)]) -> ServicesMarket {
    let mut market = ServicesMarket::new(alice(), market_address());
    for (uuid, provider) in services {
        let (ok, _) = market.add_service(
            &alice(),
            uuid.to_string(),
            "n".to_string(),
            "d".to_string(),
            "l".to_string(),
            1,
            "p".to_string(),
            *provider,
            "u".to_string(),
            "s".to_string(),
            "pp".to_string(),
            "dc".to_string(),
        );
        assert!(ok);
    }
    market
}

/// Submits as the service's provider, as the market records it.
#[allow(clippy::too_many_arguments)]
fn submit(
    stats: &mut ServicesStatistics,
    market: &ServicesMarket,
    uuid: String,
    user_key: String,
    start_time: u64,
    end_time: u64,
    usage: u64,
    price_plan: String,
    cost: u64,
) -> (bool, apron_services::statistics::SubmitUsageRecordEvent) {
    assert_eq!(market.address(), stats.services_addr());
    let provider = market.query_service_by_uuid(uuid.clone()).provider_owner;
    assert!(market.is_provider(&provider, &uuid));
    stats.submit_usage(&provider, market, uuid, user_key, start_time, end_time, usage, price_plan, cost)
}

#[test]
fn lib_default_works() {
    let _accounts = ink_env::test::default_accounts::<ink_env::DefaultEnvironment>().expect("Cannot get accounts");
    let stats = ServicesStatistics::new(alice(), bob());
    assert_eq!(stats.len(), 0);
    assert!(stats.list_all_statistics().is_empty());
}

#[test]
fn submitted_record_is_found_by_number() {
    let market = market_with(&[("svc", bob())]);
    let mut stats = ServicesStatistics::new(alice(), market_address());
    let (ok, event) = submit(&mut stats, &market, "svc".to_string(), "key1".to_string(), 10, 20, 30, "plan".to_string(), 40);
    assert!(ok);
    assert_eq!(event.id, 0);
    assert_eq!(event.service_uuid, "svc");
    assert_eq!(event.user_key, "key1");
    assert_eq!(event.start_time, 10);
    assert_eq!(event.end_time, 20);
    let r = stats.query_by_index(0);
    assert_eq!(r.id, 0);
    assert_eq!(r.service_uuid, "svc");
    assert_eq!(r.user_key, "key1");
    assert_eq!(r.start_time, 10);
    assert_eq!(r.end_time, 20);
    assert_eq!(r.usage, 30);
    assert_eq!(r.price_plan, "plan");
    assert_eq!(r.cost, 40);
    assert_eq!(stats.len(), 1);
}

#[test]
fn records_found_by_uuid_user_and_provider() {
    let market = market_with(&[("s1", bob()), ("s2", charlie()), ("s3", bob())]);
    let mut stats = ServicesStatistics::new(alice(), market_address());
    submit(&mut stats, &market, "s1".to_string(), "k1".to_string(), 0, 1, 1, "p".to_string(), 1);
    submit(&mut stats, &market, "s2".to_string(), "k1".to_string(), 0, 1, 2, "p".to_string(), 2);
    submit(&mut stats, &market, "s3".to_string(), "k2".to_string(), 0, 1, 3, "p".to_string(), 3);
    submit(&mut stats, &market, "s1".to_string(), "k2".to_string(), 0, 1, 4, "p".to_string(), 4);

    let ids = |v: Vec<apron_services::statistics::UsageRecord>| v.iter().map(|r| r.id).collect::<Vec<u64>>();
    assert_eq!(ids(stats.query_by_service_uuid("s1".to_string())), vec![0, 3]);
    assert_eq!(ids(stats.query_by_service_uuid("s2".to_string())), vec![1]);
    assert_eq!(ids(stats.query_by_user_key("k1".to_string())), vec![0, 1]);
    assert_eq!(ids(stats.query_by_user_key("k2".to_string())), vec![2, 3]);
    assert_eq!(ids(stats.query_by_provider(bob())), vec![0, 2, 3]);
    assert_eq!(ids(stats.query_by_provider(charlie())), vec![1]);
    assert_eq!(ids(stats.list_all_statistics()), vec![0, 1, 2, 3]);
    let by_uuid = stats.query_by_service_uuid("s1".to_string());
    assert!(by_uuid.iter().all(|r| r.service_uuid == "s1"));
    assert_eq!(by_uuid[1].usage, 4);
}

#[test]
fn provider_comes_from_the_market() {
    let mut market = market_with(&[("s1", bob())]);
    let mut stats = ServicesStatistics::new(alice(), market_address());
    submit(&mut stats, &market, "s1".to_string(), "k".to_string(), 0, 1, 1, "p".to_string(), 1);
    // The service changes hands in the market; later usage is filed under the new provider.
    let (ok, _) = market.add_service(
        &alice(),
        "s1".to_string(),
        "n".to_string(),
        "d".to_string(),
        "l".to_string(),
        1,
        "p".to_string(),
        charlie(),
        "u".to_string(),
        "s".to_string(),
        "pp".to_string(),
        "dc".to_string(),
    );
    assert!(ok);
    submit(&mut stats, &market, "s1".to_string(), "k".to_string(), 0, 1, 1, "p".to_string(), 1);
    assert_eq!(stats.query_by_provider(bob()).len(), 1);
    assert_eq!(stats.query_by_provider(charlie())[0].id, 1);
}

#[test]
fn cloned_record_is_equal() {
    let market = market_with(&[("s1", bob())]);
    let mut stats = ServicesStatistics::new(alice(), market_address());
    submit(&mut stats, &market, "s1".to_string(), "k".to_string(), 5, 6, 7, "p".to_string(), 8);
    let r = stats.query_by_index(0);
    let c = r.clone();
    assert_eq!(c.service_uuid, r.service_uuid);
    assert_eq!(c.cost, r.cost);
    assert_eq!(c.start_time, r.start_time);
}

#[test]
fn id_lists_append_in_order() {
    let mut s = StringLists::new();
    assert!(s.get(&"a".to_string()).is_none());
    s.push_id("a".to_string(), 3);
    s.push_id("b".to_string(), 4);
    s.push_id("a".to_string(), 5);
    assert_eq!(s.get(&"a".to_string()).unwrap(), &vec![3, 5]);
    assert_eq!(s.get(&"b".to_string()).unwrap(), &vec![4]);

    let mut a = AccountLists::new();
    assert!(a.get(&bob()).is_none());
    a.push_id(&bob(), 1);
    a.push_id(&alice(), 2);
    a.push_id(&bob(), 3);
    assert_eq!(a.get(&bob()).unwrap(), &vec![1, 3]);
    assert_eq!(a.get(&alice()).unwrap(), &vec![2]);
    assert!(a.get(&charlie()).is_none());
}

#[test]
fn uuid_index_stores_and_replaces() {
    let mut u = UuidIndex::new();
    assert_eq!(u.get(&"x".to_string()), None);
    u.insert("x".to_string(), 4);
    u.insert("y".to_string(), 5);
    assert_eq!(u.get(&"x".to_string()), Some(4));
    u.insert("x".to_string(), 9);
    assert_eq!(u.get(&"x".to_string()), Some(9));
    assert_eq!(u.get(&"y".to_string()), Some(5));
}

#[test]
fn keys_are_known_once_submitted() {
    let market = market_with(&[("s1", bob()), ("s2", charlie())]);
    let mut stats = ServicesStatistics::new(alice(), market_address());
    assert!(!stats.has_service_uuid(&"s1".to_string()));
    submit(&mut stats, &market, "s1".to_string(), "k".to_string(), 0, 1, 1, "p".to_string(), 1);
    assert!(stats.has_service_uuid(&"s1".to_string()));
    assert!(!stats.has_service_uuid(&"s2".to_string()));
    assert!(stats.has_user_key(&"k".to_string()));
    assert!(!stats.has_user_key(&"j".to_string()));
    assert!(stats.has_provider(&bob()));
    assert!(!stats.has_provider(&charlie()));
}

#[test]
fn only_the_provider_may_submit() {
    let market = market_with(&[("s1", bob()), ("s2", charlie())]);
    assert!(market.is_provider(&bob(), &"s1".to_string()));
    assert!(!market.is_provider(&charlie(), &"s1".to_string()));
    assert!(!market.is_provider(&alice(), &"s1".to_string()));
    assert!(market.is_provider(&charlie(), &"s2".to_string()));
}

#[test]
fn statistics_remember_the_market_address() {
    let stats = ServicesStatistics::new(alice(), charlie());
    assert_eq!(stats.services_addr(), charlie());
}
