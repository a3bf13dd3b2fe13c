use platypus::geo::{ValidLatitude, ValidLongitude};
use platypus::numeric::{ValidPercentage, ValidUnitInterval};

#[test]
fn geo_description_returns_expected() {
    assert_eq!(ValidLatitude::description(), "latitude (-90 to 90 degrees)");
    assert_eq!(
        ValidLongitude::description(),
        "longitude (-180 to 180 degrees)"
    );
}

#[test]
fn numeric_description_returns_expected() {
    assert_eq!(ValidPercentage::description(), "percentage (0 to 100)");
    assert_eq!(ValidUnitInterval::description(), "unit interval (0 to 1)");
}
