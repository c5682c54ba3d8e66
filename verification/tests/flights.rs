use ipinfo_round_robin_api::flights::Flights;

#[test]
fn one_leads_and_the_others_follow() {
    let mut flights = Flights::new();
    assert_eq!(flights.follow("GET:/a"), None);
    flights.lead("GET:/a");
    assert_eq!(flights.follow("GET:/a"), Some(0));
    assert_eq!(flights.follow("GET:/b"), None);
    flights.lead("GET:/b");
    assert_eq!(flights.follow("GET:/b"), Some(1));
    assert_eq!(flights.follow("GET:/a"), Some(2));
    assert_eq!(flights.land("GET:/a"), vec![0, 2]);
    assert_eq!(flights.follow("GET:/a"), None);
    assert_eq!(flights.land("GET:/a"), Vec::<u64>::new());
    assert_eq!(flights.land("GET:/b"), vec![1]);
}
