use marketeer::country::Country;

#[test]
fn every_country_is_found_by_its_name() {
    for c in Country::all() {
        assert_eq!(Country::from_name(c.name()), c);
    }
    assert_eq!(Country::from_name("Atlantis"), Country::Australia);
    assert_eq!(Country::from_name(""), Country::Australia);
    assert_eq!(Country::from_name("United Kingdom"), Country::Uk);
}
